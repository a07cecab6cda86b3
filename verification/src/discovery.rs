//! Catalog discovery: queries without a keyword that ask for what is popular,
//! trending or top rated, answered from TMDB's catalog lists.
//!
//! The answers are seeds, not files: a title and a TMDB id from which the
//! consumer starts a search of its own. Every seed echoes the filters of the
//! query, because a record without a filtered field is dropped on the way.

use vstd::prelude::*;

use crate::keymap::Fields;
use crate::number;
use crate::number::write_u64;
use crate::record;
use crate::record::{DiscoveryRecord, GatewayQuery, RecordView};
use crate::text;
use crate::text::{
    blank, chars_are, chars_of, eq_ignoring_case, lowered, owned, push_str, trimmed,
};
use crate::tmdb;
use crate::tmdb::{kind_segment, HitView, TmdbCall, TmdbHit, TmdbKind};

verus! {

/// TMDB's keyword for anime.
pub const TMDB_ANIME_KEYWORD: &'static str = "210024";

/// Results on one page of a catalog list.
pub const TMDB_PAGE_SIZE: usize = 20;

/// The lists that a discovery query can ask for.
#[derive(Clone, Copy, Debug, PartialEq, Eq, Structural)]
pub enum DiscoveryMode {
    Popular,
    Trending,
    TopRated,
}

impl DiscoveryMode {
    /// The filter that asks for the list.
    pub open spec fn filter_key(self) -> Seq<char> {
        match self {
            DiscoveryMode::Popular => "popular"@,
            DiscoveryMode::Trending => "trending"@,
            DiscoveryMode::TopRated => "top_rated"@,
        }
    }

    /// The order in which a filtered list is asked for.
    pub open spec fn sort_key(self) -> Seq<char> {
        match self {
            DiscoveryMode::TopRated => "vote_average.desc"@,
            DiscoveryMode::Popular => "popularity.desc"@,
            DiscoveryMode::Trending => "popularity.desc"@,
        }
    }

    /// The filter that asks for the list.
    pub fn marker(self) -> (r: &'static str)
        ensures
            r@ == self.filter_key(),
    {
        match self {
            DiscoveryMode::Popular => "popular",
            DiscoveryMode::Trending => "trending",
            DiscoveryMode::TopRated => "top_rated",
        }
    }

    /// The order in which a filtered list is asked for.
    pub fn discover_sort(self) -> (r: &'static str)
        ensures
            r@ == self.sort_key(),
    {
        match self {
            DiscoveryMode::TopRated => "vote_average.desc",
            DiscoveryMode::Popular => "popularity.desc",
            DiscoveryMode::Trending => "popularity.desc",
        }
    }
}

/// One of the values of a filter is `true`.
pub open spec fn is_on(query: GatewayQuery, key: Seq<char>) -> bool {
    let values = query.filter(key);
    exists|i: int| 0 <= i < values.len() && text::same_ignoring_case(#[trigger] values[i], "true"@)
}

/// The list that a query asks for; trending goes before popular, popular before
/// top rated.
pub open spec fn mode_of(query: GatewayQuery) -> Option<DiscoveryMode> {
    if is_on(query, "trending"@) {
        Some(DiscoveryMode::Trending)
    } else if is_on(query, "popular"@) {
        Some(DiscoveryMode::Popular)
    } else if is_on(query, "top_rated"@) {
        Some(DiscoveryMode::TopRated)
    } else {
        None
    }
}

/// The kind that a value of the `contentKind` filter names.
pub open spec fn named_kind(value: Seq<char>) -> Option<TmdbKind> {
    let v = text::lower(text::trim(value));
    if v == "movie"@ {
        Some(TmdbKind::Movie)
    } else if v == "episode"@ || v == "tvshow"@ || v == "tv"@ {
        Some(TmdbKind::Tv)
    } else {
        None
    }
}

/// The first kind that a list of values names.
pub open spec fn first_kind(values: Seq<Seq<char>>) -> Option<TmdbKind>
    decreases values.len(),
{
    if values.len() == 0 {
        None
    } else {
        match named_kind(values[0]) {
            Some(k) => Some(k),
            None => first_kind(values.skip(1)),
        }
    }
}

/// Tests whether one of the values of a filter is `true`.
pub fn filter_is_true(query: &GatewayQuery, key: &str) -> (r: bool)
    ensures
        r == is_on(*query, key@),
{
    match query.filters.get(key) {
        Some(values) => {
            let ghost views = text::string_views(values@);
            let n: usize = values.len();
            let mut i: usize = 0;
            while i < n
                invariant
                    n == values@.len(),
                    views == text::string_views(values@),
                    views == query.filter(key@),
                    i <= n,
                    forall|j: int|
                        0 <= j < i ==> !text::same_ignoring_case(#[trigger] views[j], "true"@),
                decreases n - i,
            {
                if eq_ignoring_case(values[i].as_str(), "true") {
                    assert(text::same_ignoring_case(views[i as int], "true"@));
                    return true;
                }
                i += 1;
            }
            false
        },
        None => false,
    }
}

/// The list that a query asks for.
pub fn discovery_mode(query: &GatewayQuery) -> (r: Option<DiscoveryMode>)
    ensures
        r == mode_of(*query),
{
    if filter_is_true(query, "trending") {
        Some(DiscoveryMode::Trending)
    } else if filter_is_true(query, "popular") {
        Some(DiscoveryMode::Popular)
    } else if filter_is_true(query, "top_rated") {
        Some(DiscoveryMode::TopRated)
    } else {
        None
    }
}

/// The query is answered from the catalog: it has no free text and asks for a
/// list.
pub open spec fn asks_for_list(query: GatewayQuery) -> bool {
    text::is_blank(query.free_text@) && mode_of(query) is Some
}

/// Tests whether a query is answered from the catalog.
pub fn is_discovery_query(query: &GatewayQuery) -> (r: bool)
    ensures
        r == asks_for_list(*query),
{
    blank(query.free_text.as_str()) && discovery_mode(query).is_some()
}

/// The kind that a query asks for.
pub fn discovery_kind(query: &GatewayQuery) -> (r: Option<TmdbKind>)
    ensures
        r == first_kind(query.filter("contentKind"@)),
{
    match query.filters.get("contentKind") {
        Some(values) => {
            let ghost views = text::string_views(values@);
            let n: usize = values.len();
            let mut i: usize = 0;
            assert(views.skip(0) == views);
            while i < n
                invariant
                    n == values@.len(),
                    views == text::string_views(values@),
                    views == query.filter("contentKind"@),
                    i <= n,
                    first_kind(views) == first_kind(views.skip(i as int)),
                decreases n - i,
            {
                proof {
                    assert(views.skip(i as int)[0] == values@[i as int]@);
                    assert(views.skip(i as int).skip(1) == views.skip(i + 1));
                }
                let cs = chars_of(values[i].as_str());
                let v = lowered(trimmed(&cs));
                if chars_are(&v, "movie") {
                    return Some(TmdbKind::Movie);
                }
                if chars_are(&v, "episode") || chars_are(&v, "tvshow") || chars_are(&v, "tv") {
                    return Some(TmdbKind::Tv);
                }
                i += 1;
            }
            assert(views.skip(n as int).len() == 0);
            None
        },
        None => None,
    }
}

/// The path and query of page `page` of a list. Anime is asked for by keyword,
/// which only the filtered lists take; there top rated needs a minimum of votes.
pub open spec fn list_path(mode: DiscoveryMode, kind: TmdbKind, anime: bool, page: nat) -> Seq<
    char,
> {
    let seg = tmdb::segment(kind);
    let at = number::decimal(page);
    if anime {
        "discover/"@ + seg + "?with_keywords="@ + TMDB_ANIME_KEYWORD@ + "&sort_by="@
            + mode.sort_key() + "&include_adult=false"@ + (if mode == DiscoveryMode::TopRated {
            "&vote_count.gte=200"@
        } else {
            Seq::empty()
        }) + "&page="@ + at
    } else {
        match mode {
            DiscoveryMode::Popular => seg + "/popular?page="@ + at,
            DiscoveryMode::TopRated => seg + "/top_rated?page="@ + at,
            DiscoveryMode::Trending => "trending/"@ + seg + "/week?page="@ + at,
        }
    }
}

/// The path and query of a page of a list.
pub fn build_path_and_query(mode: DiscoveryMode, kind: TmdbKind, anime: bool, page: u32) -> (r:
    String)
    ensures
        r@ == list_path(mode, kind, anime, page as nat),
{
    let seg = kind_segment(kind);
    let at = write_u64(page as u64);
    if anime {
        let mut out = owned("discover/");
        push_str(&mut out, seg);
        push_str(&mut out, "?with_keywords=");
        push_str(&mut out, TMDB_ANIME_KEYWORD);
        push_str(&mut out, "&sort_by=");
        push_str(&mut out, mode.discover_sort());
        push_str(&mut out, "&include_adult=false");
        if mode == DiscoveryMode::TopRated {
            push_str(&mut out, "&vote_count.gte=200");
        } else {
            assert(out@ + Seq::<char>::empty() == out@);
        }
        push_str(&mut out, "&page=");
        push_str(&mut out, at.as_str());
        return out;
    }
    match mode {
        DiscoveryMode::Popular => {
            let mut out = owned(seg);
            push_str(&mut out, "/popular?page=");
            push_str(&mut out, at.as_str());
            out
        },
        DiscoveryMode::TopRated => {
            let mut out = owned(seg);
            push_str(&mut out, "/top_rated?page=");
            push_str(&mut out, at.as_str());
            out
        },
        DiscoveryMode::Trending => {
            let mut out = owned("trending/");
            push_str(&mut out, seg);
            push_str(&mut out, "/week?page=");
            push_str(&mut out, at.as_str());
            out
        },
    }
}

/// The content kind of records of a TMDB kind.
pub open spec fn content_kind(kind: TmdbKind) -> Seq<char> {
    match kind {
        TmdbKind::Movie => "movie"@,
        TmdbKind::Tv => "episode"@,
    }
}

/// The seed made of a catalog entry.
pub open spec fn seed(
    hit: HitView,
    kind: TmdbKind,
    mode: DiscoveryMode,
    anime: bool,
) -> RecordView {
    let marked = Map::empty().insert(mode.filter_key(), "true"@).insert(
        "contentKind"@,
        content_kind(kind),
    ).insert("fileType"@, "video"@);
    let labelled = record::with_some(
        marked,
        "anime"@,
        if anime {
            Some("true"@)
        } else {
            None
        },
    );
    let named = labelled.insert("title"@, hit.title).insert(
        "tmdbid"@,
        number::decimal(hit.tmdbid as nat),
    );
    RecordView {
        upstream_id: "prowlarr"@,
        record_id: "tmdb:"@ + tmdb::segment(kind) + ":"@ + number::decimal(hit.tmdbid as nat),
        fields: record::with_some(
            named,
            "movieYear"@,
            match hit.year {
                Some(y) => Some(number::decimal(y as nat)),
                None => None,
            },
        ),
    }
}

/// Makes a seed of a catalog entry.
pub fn build_seed_record(
    hit: &TmdbHit,
    kind: TmdbKind,
    mode: DiscoveryMode,
    anime: bool,
) -> (r: DiscoveryRecord)
    ensures
        r@ == seed(hit@, kind, mode, anime),
{
    let mut fields = Fields::new();
    fields.insert(mode.marker(), owned("true"));
    match kind {
        TmdbKind::Movie => fields.insert("contentKind", owned("movie")),
        TmdbKind::Tv => fields.insert("contentKind", owned("episode")),
    }
    fields.insert("fileType", owned("video"));
    if anime {
        fields.insert("anime", owned("true"));
    }
    fields.insert("title", owned(hit.title.as_str()));
    fields.insert("tmdbid", write_u64(hit.tmdbid));
    if let Some(y) = hit.year {
        fields.insert("movieYear", write_u64(y as u64));
    }
    let mut record_id = owned("tmdb:");
    push_str(&mut record_id, kind_segment(kind));
    push_str(&mut record_id, ":");
    push_str(&mut record_id, write_u64(hit.tmdbid).as_str());
    DiscoveryRecord { upstream_id: owned("prowlarr"), record_id, fields }
}

/// A seed echoes every filter that makes a query a discovery query: the list,
/// the kind, and anime where it was asked for. It also names its entry.
pub proof fn seed_echoes_the_query(
    hit: HitView,
    kind: TmdbKind,
    mode: DiscoveryMode,
    anime: bool,
)
    ensures
        ({
            let fields = seed(hit, kind, mode, anime).fields;
            &&& record::field(fields, mode.filter_key()) == Some("true"@)
            &&& record::field(fields, "contentKind"@) == Some(content_kind(kind))
            &&& named_kind(content_kind(kind)) == Some(kind)
            &&& record::field(fields, "fileType"@) == Some("video"@)
            &&& anime ==> record::field(fields, "anime"@) == Some("true"@)
            &&& record::field(fields, "title"@) == Some(hit.title)
            &&& record::field(fields, "tmdbid"@) == Some(number::decimal(hit.tmdbid as nat))
        }),
{
    reveal_strlit("popular");
    reveal_strlit("trending");
    reveal_strlit("top_rated");
    reveal_strlit("contentKind");
    reveal_strlit("fileType");
    reveal_strlit("anime");
    reveal_strlit("title");
    reveal_strlit("tmdbid");
    reveal_strlit("movieYear");
    reveal_strlit("movie");
    reveal_strlit("episode");
    assert("contentKind"@[0] == 'c');
    assert("fileType"@[0] == 'f');
    assert("anime"@[0] == 'a');
    assert("movieYear"@[0] == 'm');
    assert("popular"@[0] == 'p');
    assert("title"@[0] == 't' && "title"@[1] == 'i');
    assert("tmdbid"@[0] == 't' && "tmdbid"@[1] == 'm');
    assert("trending"@[1] == 'r');
    assert("top_rated"@[1] == 'o');
    let k = content_kind(kind);
    assert(k.len() > 0 && k[0] != ' ' && !text::is_space(k[0]) && !text::is_space(k.last()));
    assert(text::trim_start(k, text::CharClass::Space) == k);
    assert(text::trim(k) == k);
    assert(text::lower(k) == k);
    assert("movie"@ != "episode"@);
}

/// The walk through the pages of a list.
#[derive(Debug)]
pub struct Discovery {
    pub mode: DiscoveryMode,
    pub kind: TmdbKind,
    pub anime: bool,
    pub max_results: usize,
    /// Pages that may be asked for.
    pub pages: u32,
    /// Pages that were read.
    pub read: u32,
    /// Nothing more is to be asked for.
    pub ended: bool,
    pub seeds: Vec<DiscoveryRecord>,
}

/// Pages that hold `max_results` results: at least one, and no more than can be
/// numbered in 32 bits.
pub open spec fn pages_for(max_results: nat) -> nat {
    let n = (max_results + 19) / 20;
    if n == 0 {
        1
    } else if n > u32::MAX {
        u32::MAX as nat
    } else {
        n
    }
}

/// Begins to answer a query; none where it asks for no list or no kind.
pub fn begin_discovery(query: &GatewayQuery, max_results: usize) -> (r: Option<Discovery>)
    ensures
        r is Some <==> mode_of(*query) is Some && first_kind(query.filter("contentKind"@)) is Some,
        r matches Some(d) ==> {
            &&& mode_of(*query) == Some(d.mode)
            &&& first_kind(query.filter("contentKind"@)) == Some(d.kind)
            &&& d.anime == is_on(*query, "anime"@)
            &&& d.max_results == max_results
            &&& d.pages == pages_for(max_results as nat)
            &&& d.read == 0
            &&& !d.ended
            &&& d.seeds@.len() == 0
        },
{
    match (discovery_mode(query), discovery_kind(query)) {
        (Some(mode), Some(kind)) => {
            let whole: usize = max_results / TMDB_PAGE_SIZE;
            let rest: usize = max_results % TMDB_PAGE_SIZE;
            let n: u64 = if rest > 0 {
                whole as u64 + 1
            } else {
                whole as u64
            };
            assert(n == (max_results + 19) / 20);
            let pages: u32 = if n == 0 {
                1
            } else if n > u32::MAX as u64 {
                u32::MAX
            } else {
                n as u32
            };
            Some(
                Discovery {
                    mode,
                    kind,
                    anime: filter_is_true(query, "anime"),
                    max_results,
                    pages,
                    read: 0,
                    ended: false,
                    seeds: Vec::new(),
                },
            )
        },
        _ => None,
    }
}

/// The seeds made of a page.
pub open spec fn page_seeds(
    hits: Seq<HitView>,
    kind: TmdbKind,
    mode: DiscoveryMode,
    anime: bool,
) -> Seq<RecordView> {
    Seq::new(hits.len(), |i: int| seed(hits[i], kind, mode, anime))
}

/// How far a walk got: the pages that were read, whether it ended, and its seeds.
#[verifier::ext_equal]
pub struct WalkView {
    pub read: nat,
    pub ended: bool,
    pub seeds: Seq<RecordView>,
}

/// The entries of a reply that is a page.
pub open spec fn page_of(reply: TmdbCall<Vec<TmdbHit>>) -> Option<Seq<HitView>> {
    match reply {
        TmdbCall::Hit(hits) => Some(tmdb::hit_views(hits@)),
        TmdbCall::Miss => None,
        TmdbCall::RateLimited(_) => None,
    }
}

/// A walk after a page was read, or a reply that was none.
pub open spec fn walked(
    w: WalkView,
    page: Option<Seq<HitView>>,
    kind: TmdbKind,
    mode: DiscoveryMode,
    anime: bool,
) -> WalkView {
    match page {
        Some(hits) => WalkView {
            read: w.read + 1,
            ended: w.ended || hits.len() == 0,
            seeds: w.seeds + page_seeds(hits, kind, mode, anime),
        },
        None => WalkView { read: w.read + 1, ended: true, seeds: w.seeds },
    }
}

impl Discovery {
    /// Another page is to be asked for.
    pub open spec fn wants_page(&self) -> bool {
        !self.ended && self.read < self.pages && self.seeds@.len() < self.max_results
    }

    /// How far the walk got.
    pub open spec fn progress(&self) -> WalkView {
        WalkView {
            read: self.read as nat,
            ended: self.ended,
            seeds: record::record_views(self.seeds@),
        }
    }

    /// The walk is the same but for how far it got.
    pub open spec fn same_walk(&self, other: &Discovery) -> bool {
        &&& self.mode == other.mode
        &&& self.kind == other.kind
        &&& self.anime == other.anime
        &&& self.max_results == other.max_results
        &&& self.pages == other.pages
    }

    /// The path and query of the page that is to be asked for next.
    pub fn next_page(&self) -> (r: Option<String>)
        ensures
            r is Some <==> self.wants_page(),
            r matches Some(p) ==> p@ == list_path(
                self.mode,
                self.kind,
                self.anime,
                (self.read + 1) as nat,
            ),
    {
        if self.ended || self.read >= self.pages || self.seeds.len() >= self.max_results {
            None
        } else {
            Some(build_path_and_query(self.mode, self.kind, self.anime, self.read + 1))
        }
    }

    /// Ends the walk: no permit for a request could be had.
    pub fn give_up(&mut self)
        ensures
            final(self).same_walk(old(self)),
            final(self).read == old(self).read,
            final(self).seeds@ == old(self).seeds@,
            final(self).ended,
    {
        self.ended = true;
    }

    /// Takes in the reply to the last request. Gives the pause, in seconds, that
    /// it asks for. Anything but a page with results ends the walk.
    pub fn take_reply(&mut self, reply: &TmdbCall<Vec<TmdbHit>>) -> (r: Option<u64>)
        requires
            old(self).read < u32::MAX,
        ensures
            final(self).same_walk(old(self)),
            final(self).read == old(self).read + 1,
            final(self).progress() == walked(
                old(self).progress(),
                page_of(*reply),
                old(self).kind,
                old(self).mode,
                old(self).anime,
            ),
            match reply {
                TmdbCall::Hit(hits) => {
                    &&& r is None
                    &&& final(self).ended == (old(self).ended || hits@.len() == 0)
                    &&& record::record_views(final(self).seeds@) == record::record_views(
                        old(self).seeds@,
                    ) + page_seeds(
                        tmdb::hit_views(hits@),
                        old(self).kind,
                        old(self).mode,
                        old(self).anime,
                    )
                },
                TmdbCall::Miss => {
                    &&& r is None
                    &&& final(self).ended
                    &&& final(self).seeds@ == old(self).seeds@
                },
                TmdbCall::RateLimited(secs) => {
                    &&& r == Some(*secs)
                    &&& final(self).ended
                    &&& final(self).seeds@ == old(self).seeds@
                },
            },
    {
        self.read = self.read + 1;
        match reply {
            TmdbCall::Miss => {
                self.ended = true;
                None
            },
            TmdbCall::RateLimited(secs) => {
                self.ended = true;
                Some(*secs)
            },
            TmdbCall::Hit(hits) => {
                let n: usize = hits.len();
                if n == 0 {
                    self.ended = true;
                }
                let ghost start = record::record_views(self.seeds@);
                let ghost views = tmdb::hit_views(hits@);
                let ghost whole = page_seeds(views, self.kind, self.mode, self.anime);
                let mut i: usize = 0;
                assert(record::record_views(self.seeds@) == start + whole.take(0));
                while i < n
                    invariant
                        n == hits@.len(),
                        views == tmdb::hit_views(hits@),
                        whole == page_seeds(views, self.kind, self.mode, self.anime),
                        self.same_walk(old(self)),
                        self.read == old(self).read + 1,
                        self.ended == (old(self).ended || n == 0),
                        i <= n,
                        record::record_views(self.seeds@) == start + whole.take(i as int),
                    decreases n - i,
                {
                    let rec = build_seed_record(&hits[i], self.kind, self.mode, self.anime);
                    let ghost before = record::record_views(self.seeds@);
                    let ghost added = rec@;
                    self.seeds.push(rec);
                    proof {
                        assert(record::record_views(self.seeds@) == before.push(added));
                        assert(added == whole[i as int]);
                        assert(whole.take(i + 1) == whole.take(i as int).push(added));
                    }
                    i += 1;
                    assert(record::record_views(self.seeds@) == start + whole.take(i as int));
                }
                assert(whole.take(n as int) == whole);
                None
            },
        }
    }

    /// The answer: the seeds that were found, as many as were asked for.
    pub fn finish(self) -> (r: Vec<DiscoveryRecord>)
        ensures
            record::record_views(r@) == (if self.seeds@.len() <= self.max_results {
                record::record_views(self.seeds@)
            } else {
                record::record_views(self.seeds@).take(self.max_results as int)
            }),
            r@.len() <= self.max_results,
    {
        let ghost all = record::record_views(self.seeds@);
        let mut out = self.seeds;
        if out.len() > self.max_results {
            out.truncate(self.max_results);
            assert(record::record_views(out@) == all.take(self.max_results as int));
        }
        out
    }
}

/// The pages that a walk may ask for hold at least as many results as were
/// asked for, unless they are all the pages that can be numbered. There is at
/// least one, and none that is not needed.
pub proof fn pages_suffice(max_results: nat)
    ensures
        20 * pages_for(max_results) >= max_results || pages_for(max_results) == u32::MAX,
        pages_for(max_results) >= 1,
        max_results > 20 ==> 20 * (pages_for(max_results) - 1) < max_results,
{
}

/// A filter is on if one of its values is `true` in any case.
pub proof fn filter_is_on_if_true(query: GatewayQuery, key: Seq<char>, i: int)
    ensures
        0 <= i < query.filter(key).len() && text::lower(query.filter(key)[i]) == "true"@ ==> is_on(
            query,
            key,
        ),
        is_on(query, key) ==> exists|j: int|
            0 <= j < query.filter(key).len() && text::lower(#[trigger] query.filter(key)[j])
                == "true"@,
{
    reveal_strlit("true");
    assert(text::lower("true"@) =~= "true"@);
    if is_on(query, key) {
        let values = query.filter(key);
        let j = choose|j: int|
            0 <= j < values.len() && text::same_ignoring_case(#[trigger] values[j], "true"@);
        assert(text::lower(query.filter(key)[j]) == "true"@);
    }
    if 0 <= i < query.filter(key).len() && text::lower(query.filter(key)[i]) == "true"@ {
        assert(text::same_ignoring_case(query.filter(key)[i], "true"@));
    }
}

/// A query asks for the list whose filter is on: what is trending before what is
/// popular, and that before what is top rated. It is answered from the catalog only
/// if it has no free text.
pub proof fn list_is_the_one_asked_for(query: GatewayQuery)
    ensures
        mode_of(query) == Some(DiscoveryMode::Trending) <==> is_on(query, "trending"@),
        mode_of(query) == Some(DiscoveryMode::Popular) <==> is_on(query, "popular"@) && !is_on(
            query,
            "trending"@,
        ),
        mode_of(query) == Some(DiscoveryMode::TopRated) <==> is_on(query, "top_rated"@) && !is_on(
            query,
            "trending"@,
        ) && !is_on(query, "popular"@),
        mode_of(query) matches Some(m) ==> is_on(query, m.filter_key()),
        asks_for_list(query) <==> text::is_blank(query.free_text@) && (is_on(query, "trending"@)
            || is_on(query, "popular"@) || is_on(query, "top_rated"@)),
{
}

/// The kind that is asked for is the first that a value names; values that name
/// none are passed over.
pub proof fn kind_is_the_first_named(values: Seq<Seq<char>>, value: Seq<char>)
    ensures
        first_kind(Seq::empty()) is None,
        named_kind(value) is Some ==> first_kind(seq![value] + values) == named_kind(value),
        named_kind(value) is None ==> first_kind(seq![value] + values) == first_kind(values),
        text::lower(text::trim(value)) == "movie"@ ==> named_kind(value) == Some(TmdbKind::Movie),
        text::lower(text::trim(value)) == "episode"@ ==> named_kind(value) == Some(TmdbKind::Tv),
        text::lower(text::trim(value)) == "tvshow"@ ==> named_kind(value) == Some(TmdbKind::Tv),
        text::lower(text::trim(value)) == "tv"@ ==> named_kind(value) == Some(TmdbKind::Tv),
        named_kind(value) is Some ==> ({
            let v = text::lower(text::trim(value));
            v == "movie"@ || v == "episode"@ || v == "tvshow"@ || v == "tv"@
        }),
{
    reveal_strlit("movie");
    reveal_strlit("episode");
    reveal_strlit("tvshow");
    reveal_strlit("tv");
    assert("movie"@.len() == 5 && "episode"@.len() == 7 && "tvshow"@.len() == 6 && "tv"@.len()
        == 2);
    assert((seq![value] + values)[0] == value);
    assert((seq![value] + values).skip(1) == values);
}

/// The addresses of the pages of each list.
pub proof fn list_paths(page: nat)
    ensures
        ({
            let at = number::decimal(page);
            let movie = TmdbKind::Movie;
            let show = TmdbKind::Tv;
            &&& list_path(DiscoveryMode::Popular, movie, false, page) == "movie/popular?page="@ + at
            &&& list_path(DiscoveryMode::Popular, show, false, page) == "tv/popular?page="@ + at
            &&& list_path(DiscoveryMode::TopRated, movie, false, page) == "movie/top_rated?page="@
                + at
            &&& list_path(DiscoveryMode::TopRated, show, false, page) == "tv/top_rated?page="@ + at
            &&& list_path(DiscoveryMode::Trending, movie, false, page)
                == "trending/movie/week?page="@ + at
            &&& list_path(DiscoveryMode::Trending, show, false, page) == "trending/tv/week?page="@
                + at
            &&& list_path(DiscoveryMode::Popular, show, true, page)
                == "discover/tv?with_keywords=210024&sort_by=popularity.desc&include_adult=false&page="@
                + at
            &&& list_path(DiscoveryMode::Trending, show, true, page)
                == "discover/tv?with_keywords=210024&sort_by=popularity.desc&include_adult=false&page="@
                + at
            &&& list_path(DiscoveryMode::TopRated, show, true, page)
                == "discover/tv?with_keywords=210024&sort_by=vote_average.desc&include_adult=false&vote_count.gte=200&page="@
                + at
            &&& list_path(DiscoveryMode::Popular, movie, true, page)
                == "discover/movie?with_keywords=210024&sort_by=popularity.desc&include_adult=false&page="@
                + at
            &&& list_path(DiscoveryMode::Trending, movie, true, page)
                == "discover/movie?with_keywords=210024&sort_by=popularity.desc&include_adult=false&page="@
                + at
            &&& list_path(DiscoveryMode::TopRated, movie, true, page)
                == "discover/movie?with_keywords=210024&sort_by=vote_average.desc&include_adult=false&vote_count.gte=200&page="@
                + at
        }),
{
    let at = number::decimal(page);
    let movie = TmdbKind::Movie;
    let show = TmdbKind::Tv;
    assert(list_path(DiscoveryMode::Popular, movie, false, page) == "movie/popular?page="@ + at) by {
        reveal_strlit("movie");
        reveal_strlit("/popular?page=");
        reveal_strlit("movie/popular?page=");
        assert("movie"@ + "/popular?page="@ =~= "movie/popular?page="@);
    }
    assert(list_path(DiscoveryMode::TopRated, movie, false, page) == "movie/top_rated?page="@ + at) by {
        reveal_strlit("movie");
        reveal_strlit("/top_rated?page=");
        reveal_strlit("movie/top_rated?page=");
        assert("movie"@ + "/top_rated?page="@ =~= "movie/top_rated?page="@);
    }
    assert(list_path(DiscoveryMode::Trending, movie, false, page) == "trending/movie/week?page="@ + at) by {
        reveal_strlit("movie");
        reveal_strlit("trending/");
        reveal_strlit("/week?page=");
        reveal_strlit("trending/movie/week?page=");
        assert("trending/"@ + "movie"@ + "/week?page="@ =~= "trending/movie/week?page="@);
    }
    assert(list_path(DiscoveryMode::Popular, movie, true, page)
        == "discover/movie?with_keywords=210024&sort_by=popularity.desc&include_adult=false&page="@
        + at) by {
        reveal_strlit("discover/");
        reveal_strlit("movie");
        reveal_strlit("?with_keywords=");
        reveal_strlit("210024");
        reveal_strlit("&sort_by=");
        reveal_strlit("popularity.desc");
        reveal_strlit("&include_adult=false");
        reveal_strlit("&page=");
        reveal_strlit(
            "discover/movie?with_keywords=210024&sort_by=popularity.desc&include_adult=false&page=",
        );
        assert("discover/"@ + "movie"@ + "?with_keywords="@ + "210024"@ + "&sort_by="@ + "popularity.desc"@ + "&include_adult=false"@ + Seq::<char>::empty() + "&page="@
            =~= "discover/movie?with_keywords=210024&sort_by=popularity.desc&include_adult=false&page="@);
    }
    assert(list_path(DiscoveryMode::TopRated, movie, true, page)
        == "discover/movie?with_keywords=210024&sort_by=vote_average.desc&include_adult=false&vote_count.gte=200&page="@
        + at) by {
        reveal_strlit("discover/");
        reveal_strlit("movie");
        reveal_strlit("?with_keywords=");
        reveal_strlit("210024");
        reveal_strlit("&sort_by=");
        reveal_strlit("vote_average.desc");
        reveal_strlit("&include_adult=false");
        reveal_strlit("&vote_count.gte=200");
        reveal_strlit("&page=");
        reveal_strlit(
            "discover/movie?with_keywords=210024&sort_by=vote_average.desc&include_adult=false&vote_count.gte=200&page=",
        );
        assert("discover/"@ + "movie"@ + "?with_keywords="@ + "210024"@ + "&sort_by="@ + "vote_average.desc"@ + "&include_adult=false"@ + "&vote_count.gte=200"@ + "&page="@
            =~= "discover/movie?with_keywords=210024&sort_by=vote_average.desc&include_adult=false&vote_count.gte=200&page="@);
    }
    assert(list_path(DiscoveryMode::Popular, show, false, page) == "tv/popular?page="@ + at) by {
        reveal_strlit("tv");
        reveal_strlit("/popular?page=");
        reveal_strlit("tv/popular?page=");
        assert("tv"@ + "/popular?page="@ =~= "tv/popular?page="@);
    }
    assert(list_path(DiscoveryMode::TopRated, show, false, page) == "tv/top_rated?page="@ + at) by {
        reveal_strlit("tv");
        reveal_strlit("/top_rated?page=");
        reveal_strlit("tv/top_rated?page=");
        assert("tv"@ + "/top_rated?page="@ =~= "tv/top_rated?page="@);
    }
    assert(list_path(DiscoveryMode::Trending, show, false, page) == "trending/tv/week?page="@ + at) by {
        reveal_strlit("tv");
        reveal_strlit("trending/");
        reveal_strlit("/week?page=");
        reveal_strlit("trending/tv/week?page=");
        assert("trending/"@ + "tv"@ + "/week?page="@ =~= "trending/tv/week?page="@);
    }
    assert(list_path(DiscoveryMode::Popular, show, true, page)
        == "discover/tv?with_keywords=210024&sort_by=popularity.desc&include_adult=false&page="@
        + at) by {
        reveal_strlit("discover/");
        reveal_strlit("tv");
        reveal_strlit("?with_keywords=");
        reveal_strlit("210024");
        reveal_strlit("&sort_by=");
        reveal_strlit("popularity.desc");
        reveal_strlit("&include_adult=false");
        reveal_strlit("&page=");
        reveal_strlit(
            "discover/tv?with_keywords=210024&sort_by=popularity.desc&include_adult=false&page=",
        );
        assert("discover/"@ + "tv"@ + "?with_keywords="@ + "210024"@ + "&sort_by="@ + "popularity.desc"@ + "&include_adult=false"@ + Seq::<char>::empty() + "&page="@
            =~= "discover/tv?with_keywords=210024&sort_by=popularity.desc&include_adult=false&page="@);
    }
    assert(list_path(DiscoveryMode::TopRated, show, true, page)
        == "discover/tv?with_keywords=210024&sort_by=vote_average.desc&include_adult=false&vote_count.gte=200&page="@
        + at) by {
        reveal_strlit("discover/");
        reveal_strlit("tv");
        reveal_strlit("?with_keywords=");
        reveal_strlit("210024");
        reveal_strlit("&sort_by=");
        reveal_strlit("vote_average.desc");
        reveal_strlit("&include_adult=false");
        reveal_strlit("&vote_count.gte=200");
        reveal_strlit("&page=");
        reveal_strlit(
            "discover/tv?with_keywords=210024&sort_by=vote_average.desc&include_adult=false&vote_count.gte=200&page=",
        );
        assert("discover/"@ + "tv"@ + "?with_keywords="@ + "210024"@ + "&sort_by="@ + "vote_average.desc"@ + "&include_adult=false"@ + "&vote_count.gte=200"@ + "&page="@
            =~= "discover/tv?with_keywords=210024&sort_by=vote_average.desc&include_adult=false&vote_count.gte=200&page="@);
    }
}

/// A seed names its entry by kind and id, tells its title and year, and holds
/// nothing but that and the filters that it echoes.
pub proof fn seed_names_its_entry(
    hit: HitView,
    kind: TmdbKind,
    mode: DiscoveryMode,
    anime: bool,
    key: Seq<char>,
)
    ensures
        ({
            let r = seed(hit, kind, mode, anime);
            &&& r.upstream_id == "prowlarr"@
            &&& kind == TmdbKind::Movie ==> r.record_id == "tmdb:movie:"@ + number::decimal(
                hit.tmdbid as nat,
            )
            &&& kind == TmdbKind::Tv ==> r.record_id == "tmdb:tv:"@ + number::decimal(
                hit.tmdbid as nat,
            )
            &&& kind == TmdbKind::Movie ==> record::field(r.fields, "contentKind"@) == Some(
                "movie"@,
            )
            &&& kind == TmdbKind::Tv ==> record::field(r.fields, "contentKind"@) == Some(
                "episode"@,
            )
            &&& mode == DiscoveryMode::Trending ==> record::field(r.fields, "trending"@) == Some(
                "true"@,
            )
            &&& mode == DiscoveryMode::Popular ==> record::field(r.fields, "popular"@) == Some(
                "true"@,
            )
            &&& mode == DiscoveryMode::TopRated ==> record::field(r.fields, "top_rated"@) == Some(
                "true"@,
            )
            &&& record::field(r.fields, "movieYear"@) == (match hit.year {
                Some(y) => Some(number::decimal(y as nat)),
                None => None,
            })
            &&& !anime ==> record::field(r.fields, "anime"@) is None
            &&& r.fields.contains_key(key) ==> key == mode.filter_key() || key == "contentKind"@
                || key == "fileType"@ || key == "anime"@ || key == "title"@ || key == "tmdbid"@
                || key == "movieYear"@
        }),
{
    record::lemma_field_names();
    seed_echoes_the_query(hit, kind, mode, anime);
    reveal_strlit("popular");
    reveal_strlit("trending");
    reveal_strlit("top_rated");
    assert("popular"@[0] == 'p');
    assert("trending"@[0] == 't' && "trending"@[1] == 'r');
    assert("top_rated"@[0] == 't' && "top_rated"@[1] == 'o');
    reveal_strlit("tmdb:");
    reveal_strlit("tmdb:movie:");
    reveal_strlit("tmdb:tv:");
    reveal_strlit(":");
    reveal_strlit("movie");
    reveal_strlit("tv");
    let r = seed(hit, kind, mode, anime);
    let id = number::decimal(hit.tmdbid as nat);
    if kind == TmdbKind::Movie {
        assert(r.record_id =~= "tmdb:movie:"@ + id);
    } else {
        assert(r.record_id =~= "tmdb:tv:"@ + id);
    }
}

/// The seeds of a page are those of its entries, in order.
pub proof fn page_is_taken_in_order(
    hits: Seq<HitView>,
    hit: HitView,
    kind: TmdbKind,
    mode: DiscoveryMode,
    anime: bool,
)
    ensures
        page_seeds(hits.push(hit), kind, mode, anime) == page_seeds(hits, kind, mode, anime).push(
            seed(hit, kind, mode, anime),
        ),
        page_seeds(Seq::empty(), kind, mode, anime).len() == 0,
{
    assert(page_seeds(hits.push(hit), kind, mode, anime) =~= page_seeds(
        hits,
        kind,
        mode,
        anime,
    ).push(seed(hit, kind, mode, anime)));
}

/// A walk asks for the first page first and for each next page after it, until it
/// has as many seeds as were asked for, has read its pages or has ended. It starts
/// with nothing, and gives the seeds that it found, cut at what was asked for.
pub proof fn walk_goes_page_by_page(
    query: GatewayQuery,
    max_results: usize,
    started: Option<Discovery>,
    walk: Discovery,
    next: Option<String>,
    found: Vec<DiscoveryRecord>,
    i: int,
)
    requires
        call_ensures(begin_discovery, (&query, max_results), started),
        call_ensures(Discovery::next_page, (&walk,), next),
        call_ensures(Discovery::finish, (walk,), found),
        0 <= i < walk.max_results,
        i < walk.seeds@.len(),
    ensures
        started matches Some(d) ==> {
            &&& is_on(query, d.mode.filter_key())
            &&& d.read == 0 && d.seeds@.len() == 0 && !d.ended
            &&& d.max_results == max_results
            &&& d.anime <==> is_on(query, "anime"@)
            &&& 20 * d.pages >= max_results || d.pages == u32::MAX
            &&& d.pages >= 1
        },
        mode_of(query) is None ==> started is None,
        first_kind(query.filter("contentKind"@)) is None ==> started is None,
        mode_of(query) is Some && first_kind(query.filter("contentKind"@)) is Some ==> started
            is Some,
        next is Some <==> !walk.ended && walk.read < walk.pages && walk.seeds@.len()
            < walk.max_results,
        next matches Some(p) ==> p@ == list_path(
            walk.mode,
            walk.kind,
            walk.anime,
            (walk.read + 1) as nat,
        ),
        found@.len() == (if walk.seeds@.len() <= walk.max_results {
            walk.seeds@.len()
        } else {
            walk.max_results as nat
        }),
        found@[i]@ == walk.seeds@[i]@,
{
    pages_suffice(max_results as nat);
    list_is_the_one_asked_for(query);
    let all = record::record_views(walk.seeds@);
    assert(record::record_views(found@)[i] == all[i]);
    assert(record::record_views(found@).len() == found@.len());
}

/// A walk goes on after a page with entries, whose seeds follow those that it had,
/// and ends after an empty page and after a reply that is no page, which add none.
pub proof fn walk_ends_at_an_empty_page(
    w: WalkView,
    hits: Seq<HitView>,
    kind: TmdbKind,
    mode: DiscoveryMode,
    anime: bool,
    i: int,
)
    requires
        0 <= i < hits.len(),
    ensures
        ({
            let next = walked(w, Some(hits), kind, mode, anime);
            &&& next.ended == w.ended
            &&& next.read == w.read + 1
            &&& next.seeds.len() == w.seeds.len() + hits.len()
            &&& w.seeds.is_prefix_of(next.seeds)
            &&& next.seeds[w.seeds.len() + i] == seed(hits[i], kind, mode, anime)
        }),
        walked(w, Some(Seq::empty()), kind, mode, anime).ended,
        walked(w, Some(Seq::empty()), kind, mode, anime).seeds == w.seeds,
        walked(w, None, kind, mode, anime).ended,
        walked(w, None, kind, mode, anime).seeds == w.seeds,
        walked(w, None, kind, mode, anime).read == w.read + 1,
{
    assert(page_seeds(Seq::empty(), kind, mode, anime) =~= Seq::<RecordView>::empty());
    assert(w.seeds + Seq::<RecordView>::empty() =~= w.seeds);
}

/// A reply is taken into the walk that asked for it, and the pause that it asks for
/// is passed on; giving up ends the walk and loses nothing.
pub proof fn replies_are_taken_into_the_walk(
    walk: &mut Discovery,
    reply: TmdbCall<Vec<TmdbHit>>,
    r: Option<u64>,
    other: &mut Discovery,
)
    requires
        old(walk).read < u32::MAX,
        call_ensures(Discovery::take_reply, (walk, &reply), r),
        call_ensures(Discovery::give_up, (other,), ()),
    ensures
        final(walk).progress() == walked(
            old(walk).progress(),
            match reply {
                TmdbCall::Hit(hits) => Some(tmdb::hit_views(hits@)),
                _ => None,
            },
            old(walk).kind,
            old(walk).mode,
            old(walk).anime,
        ),
        final(walk).mode == old(walk).mode && final(walk).kind == old(walk).kind,
        final(walk).anime == old(walk).anime && final(walk).pages == old(walk).pages,
        final(walk).max_results == old(walk).max_results,
        reply matches TmdbCall::RateLimited(secs) ==> r == Some(secs),
        !(reply is RateLimited) ==> r is None,
        final(other).ended,
        final(other).seeds@ == old(other).seeds@,
        final(other).read == old(other).read,
{
}

} // verus!
