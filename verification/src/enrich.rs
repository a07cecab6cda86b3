//! Enriching records with what TMDB knows: choosing the entry, turning it into
//! a change of fields, and telling the consumer.

use vstd::prelude::*;

use crate::consts::CACHED_PRINCIPAL_DEPTH;
use crate::item;
use crate::keymap;
use crate::keymap::Fields;
use crate::number;
use crate::number::{read_i64, read_u64, write_u64};
use crate::record;
use crate::record::{field_is, DiscoveryRecord, EventView, GatewaySearchEvent, RecordView};
use crate::text;
use crate::text::{
    blank, chars_are, chars_of, eq_ignoring_case, lowered, owned, push_str, str_eq, string_of,
    trimmed, trimmed_string, without_prefix, CharClass,
};
use crate::tmdb;
use crate::tmdb::{
    principal_top_n, season_episode_bounds, HitView, SeasonEpisodeBounds, TmdbCall, TmdbClient,
    TmdbHit, TmdbKind, TmdbMultiItem, TmdbTvDetails,
};

verus! {

/// What enrichment does to a record.
#[derive(Debug)]
pub enum EnrichOutcome {
    /// Take out the fields in `remove`, then store those in `set`.
    Patch { set: Fields, remove: Vec<String> },
    /// Withdraw the record.
    Drop,
    /// Leave the record as it is.
    Noop,
}

/// What an [`EnrichOutcome`] holds.
#[verifier::ext_equal]
pub enum OutcomeView {
    Patch { set: Map<Seq<char>, Seq<char>>, remove: Seq<Seq<char>> },
    Drop,
    Noop,
}

impl View for EnrichOutcome {
    type V = OutcomeView;

    open spec fn view(&self) -> OutcomeView {
        match self {
            EnrichOutcome::Patch { set, remove } => OutcomeView::Patch {
                set: set@,
                remove: text::string_views(remove@),
            },
            EnrichOutcome::Drop => OutcomeView::Drop,
            EnrichOutcome::Noop => OutcomeView::Noop,
        }
    }
}

/// A field is there and not blank.
pub open spec fn is_filled(fields: Map<Seq<char>, Seq<char>>, key: Seq<char>) -> bool {
    fields.contains_key(key) && !text::is_blank(fields[key])
}

/// A consumer takes the record for a video.
pub open spec fn is_video(fields: Map<Seq<char>, Seq<char>>) -> bool {
    ||| fields.contains_key("fileType"@) && text::same_ignoring_case(
        fields["fileType"@],
        "video"@,
    )
    ||| fields.contains_key("videoType"@) && {
        let t = text::lower(fields["videoType"@]);
        t == "movie"@ || t == "tvshow"@ || t == "episode"@
    }
}

/// A consumer finds a description.
pub open spec fn has_description(fields: Map<Seq<char>, Seq<char>>) -> bool {
    is_filled(fields, "description"@) || is_filled(fields, "plot/eng"@)
}

/// A consumer shows the record: a video with a poster and a description.
pub open spec fn passes_gate(fields: Map<Seq<char>, Seq<char>>) -> bool {
    is_video(fields) && is_filled(fields, "poster"@) && has_description(fields)
}

/// The text that stands for a description where there is none.
pub const STUB_DESCRIPTION: &'static str =
    "[STUB] Simulated unmatched/polluted record (no TMDB match) — for adult-filter testing.";

/// The fields that are made up for a record so that a consumer shows it. A
/// record that is no video is made one, and keeps the content kind that it has.
pub open spec fn stub_fields(fields: Map<Seq<char>, Seq<char>>) -> Map<Seq<char>, Seq<char>> {
    let kinded = if is_video(fields) {
        Map::empty()
    } else {
        record::with_some(
            Map::empty().insert("fileType"@, "video"@).insert("videoType"@, "movie"@),
            "contentKind"@,
            if fields.contains_key("contentKind"@) {
                None
            } else {
                Some("movie"@)
            },
        )
    };
    let posted = record::with_some(
        kinded,
        "poster"@,
        if is_filled(fields, "poster"@) {
            None
        } else {
            Some("stub-no-tmdb-poster"@)
        },
    );
    record::with_some(
        posted,
        "description"@,
        if has_description(fields) {
            None
        } else {
            Some(STUB_DESCRIPTION@)
        },
    )
}

fn filled(fields: &Fields, key: &str) -> (r: bool)
    ensures
        r == is_filled(fields@, key@),
{
    match fields.get(key) {
        Some(v) => !blank(v.as_str()),
        None => false,
    }
}

fn looks_video(fields: &Fields) -> (r: bool)
    ensures
        r == is_video(fields@),
{
    if let Some(t) = fields.get("fileType") {
        if eq_ignoring_case(t.as_str(), "video") {
            return true;
        }
    }
    match fields.get("videoType") {
        Some(t) => {
            let l = lowered(&chars_of(t.as_str()));
            chars_are(&l, "movie") || chars_are(&l, "tvshow") || chars_are(&l, "episode")
        },
        None => false,
    }
}

/// Makes up the fields that a record with a title lacks for a consumer to show
/// it. Gives nothing for a record without a title or without a lack.
pub fn build_stub_patch(fields: &Fields) -> (r: Option<EnrichOutcome>)
    ensures
        r is Some <==> is_filled(fields@, "title"@) && !passes_gate(fields@),
        r matches Some(o) ==> o@ == (OutcomeView::Patch {
            set: stub_fields(fields@),
            remove: Seq::empty(),
        }),
{
    if !filled(fields, "title") {
        return None;
    }
    let video = looks_video(fields);
    let poster = filled(fields, "poster");
    let described = filled(fields, "description") || filled(fields, "plot/eng");
    if video && poster && described {
        return None;
    }
    let mut set = Fields::new();
    if !video {
        set.insert("fileType", owned("video"));
        set.insert("videoType", owned("movie"));
        if !fields.contains_key("contentKind") {
            set.insert("contentKind", owned("movie"));
        }
    }
    if !poster {
        set.insert("poster", owned("stub-no-tmdb-poster"));
    }
    if !described {
        set.insert("description", owned(STUB_DESCRIPTION));
    }
    let remove: Vec<String> = Vec::new();
    assert(text::string_views(remove@) == Seq::<Seq<char>>::empty());
    Some(EnrichOutcome::Patch { set, remove })
}

/// Tests whether the value of a switch turns it on.
pub fn switch_is_on(value: &str) -> (r: bool)
    ensures
        r == ({
            let v = text::lower(text::trim(value@));
            v == "1"@ || v == "true"@ || v == "yes"@ || v == "on"@
        }),
{
    let cs = chars_of(value);
    let v = lowered(trimmed(&cs));
    chars_are(&v, "1") || chars_are(&v, "true") || chars_are(&v, "yes") || chars_are(&v, "on")
}

/// Where a TMDB entry for a record is looked for.
#[derive(Debug)]
pub enum Lookup {
    /// The record names the entry.
    ById { kind: TmdbKind, tmdbid: u64 },
    /// By the title that is found in this release title.
    ByTitle { kind: TmdbKind, raw_title: String },
    /// Nowhere.
    Nowhere,
}

/// The kind of entry that a record has, by its content kind.
pub open spec fn kind_of_fields(fields: Map<Seq<char>, Seq<char>>) -> Option<TmdbKind> {
    match record::field(fields, "contentKind"@) {
        Some(k) => if k == "movie"@ {
            Some(TmdbKind::Movie)
        } else if k == "episode"@ {
            Some(TmdbKind::Tv)
        } else {
            None
        },
        None => None,
    }
}

/// The release title of a record, without surrounding white space.
pub open spec fn raw_title(fields: Map<Seq<char>, Seq<char>>) -> Option<Seq<char>> {
    if is_filled(fields, "title"@) {
        Some(text::trim(fields["title"@]))
    } else {
        None
    }
}

/// The TMDB id that a record names.
pub open spec fn anchored_id(fields: Map<Seq<char>, Seq<char>>) -> Option<nat> {
    match record::field(fields, "tmdbid"@) {
        Some(s) => number::parse_unsigned(text::trim(s), u64::MAX as nat),
        None => None,
    }
}

/// The release title of a record.
pub fn raw_title_of(fields: &Fields) -> (r: Option<String>)
    ensures
        item::text_of(r) == raw_title(fields@),
{
    match fields.get("title") {
        Some(t) => if blank(t.as_str()) {
            None
        } else {
            Some(trimmed_string(t.as_str()))
        },
        None => None,
    }
}

/// Decides where a TMDB entry for a record is looked for: by the id that it
/// names, so that no guess can displace it, else by its title.
pub fn plan_lookup(record: &DiscoveryRecord) -> (r: Lookup)
    ensures
        match kind_of_fields(record.fields@) {
            None => r is Nowhere,
            Some(k) => match anchored_id(record.fields@) {
                Some(id) => r == (Lookup::ById { kind: k, tmdbid: id as u64 }),
                None => match raw_title(record.fields@) {
                    Some(t) => r matches Lookup::ByTitle { kind, raw_title } && kind == k
                        && raw_title@ == t,
                    None => r is Nowhere,
                },
            },
        },
{
    proof {
        reveal_strlit("movie");
        reveal_strlit("episode");
    }
    let fields = &record.fields;
    let kind = if field_is(fields, "contentKind", "movie") {
        TmdbKind::Movie
    } else if field_is(fields, "contentKind", "episode") {
        TmdbKind::Tv
    } else {
        return Lookup::Nowhere;
    };
    if let Some(s) = fields.get("tmdbid") {
        if let Some(id) = read_u64(trimmed_string(s.as_str()).as_str()) {
            return Lookup::ById { kind, tmdbid: id };
        }
    }
    match raw_title_of(fields) {
        Some(t) => Lookup::ByTitle { kind, raw_title: t },
        None => Lookup::Nowhere,
    }
}

/// The other kind. Release categories confuse the two, so a title that is not
/// found under one kind is looked for under the other.
pub fn other_kind(kind: TmdbKind) -> (r: TmdbKind)
    ensures
        r != kind,
{
    match kind {
        TmdbKind::Movie => TmdbKind::Tv,
        TmdbKind::Tv => TmdbKind::Movie,
    }
}

/// The key of a title search in the cache.
pub open spec fn search_key(kind: TmdbKind, title: Seq<char>, year: Option<u16>) -> Seq<char> {
    (match kind {
        TmdbKind::Movie => seq!['m', '\u{1}'],
        TmdbKind::Tv => seq!['t', '\u{1}'],
    }) + title + seq!['\u{1}'] + (match year {
        Some(y) => number::decimal(y as nat),
        None => Seq::empty(),
    })
}

/// The key of a title search in the cache and among the searches under way.
pub fn tmdb_search_key(kind: TmdbKind, title: &str, year: Option<u16>) -> (r: String)
    ensures
        r@ == search_key(kind, title@, year),
{
    let mut out = String::new();
    match kind {
        TmdbKind::Movie => out.push('m'),
        TmdbKind::Tv => out.push('t'),
    }
    out.push('\u{1}');
    assert(out@ == (match kind {
        TmdbKind::Movie => seq!['m', '\u{1}'],
        TmdbKind::Tv => seq!['t', '\u{1}'],
    }));
    push_str(&mut out, title);
    let ghost before = out@;
    out.push('\u{1}');
    assert(out@ == before + seq!['\u{1}']);
    if let Some(y) = year {
        push_str(&mut out, write_u64(y as u64).as_str());
    }
    assert(out@ == search_key(kind, title@, year));
    out
}

/// The text that is cached for a search that found nothing.
pub const CACHED_MISS: &'static str = "null";

/// The entry that a cached text holds; `parsed` is the entry that was read from
/// it.
pub open spec fn cached_answer(cached: Seq<char>, parsed: Option<TmdbHit>) -> Option<TmdbHit> {
    if cached == CACHED_MISS@ {
        None
    } else {
        parsed
    }
}

/// The entry that a cached search holds: [`CACHED_MISS`] stands for a search
/// that found nothing. `parsed` is the entry that was read from any other text.
pub fn decode_cached_hit(cached: &str, parsed: Option<TmdbHit>) -> (r: Option<TmdbHit>)
    ensures
        r == cached_answer(cached@, parsed),
{
    if str_eq(cached, CACHED_MISS) {
        None
    } else {
        parsed
    }
}

/// Where the answer to a title search comes from.
#[derive(Debug)]
pub enum SearchSource {
    /// From the cache.
    Answer(Option<TmdbHit>),
    /// From the same search, which is under way already.
    Join,
    /// From TMDB: a permit is needed.
    Lead,
}

/// Decides where the answer to a title search comes from. `cached` is the text
/// in the cache with the entry that was read from it; `under_way` tells whether
/// the same search is being made.
pub fn search_source(cached: Option<(&str, Option<TmdbHit>)>, under_way: bool) -> (r: SearchSource)
    ensures
        match cached {
            Some((text, parsed)) => r == SearchSource::Answer(cached_answer(text@, parsed)),
            None => if under_way {
                r is Join
            } else {
                r is Lead
            },
        },
{
    match cached {
        Some((text, parsed)) => SearchSource::Answer(decode_cached_hit(text, parsed)),
        None => if under_way {
            SearchSource::Join
        } else {
            SearchSource::Lead
        },
    }
}

/// What is written to the cache after a title search.
#[derive(Clone, Copy, Debug, PartialEq, Eq, Structural)]
pub enum CacheWrite {
    /// The entry that was found.
    Found,
    /// That nothing was found.
    NotFound,
    /// Nothing: the search is to be made again.
    Nothing,
}

/// What is written to the cache after a title search: what was found, or that
/// nothing was. Without a reply to rely on (no permit was had, or TMDB asked for
/// a pause) nothing is written, so that the search is made again.
pub open spec fn cache_write(call: Option<TmdbCall<TmdbHit>>) -> CacheWrite {
    match call {
        Some(TmdbCall::Hit(_)) => CacheWrite::Found,
        Some(TmdbCall::Miss) => CacheWrite::NotFound,
        Some(TmdbCall::RateLimited(_)) => CacheWrite::Nothing,
        None => CacheWrite::Nothing,
    }
}

/// What a request found.
pub open spec fn found_by<T>(call: Option<TmdbCall<T>>) -> Option<T> {
    match call {
        Some(TmdbCall::Hit(x)) => Some(x),
        _ => None,
    }
}

/// The pause, in seconds, that the reply to a request asks for.
pub open spec fn pause_after<T>(call: Option<TmdbCall<T>>) -> Option<u64> {
    match call {
        Some(TmdbCall::RateLimited(secs)) => Some(secs),
        _ => None,
    }
}

/// The end of a title search: the entry that was found, what is written to the
/// cache, and the pause, in seconds, that TMDB asks for. `call` is absent where
/// no permit for the request was had in time.
pub fn settle_search(call: Option<TmdbCall<TmdbHit>>) -> (r: (
    Option<TmdbHit>,
    CacheWrite,
    Option<u64>,
))
    ensures
        r == (found_by(call), cache_write(call), pause_after(call)),
{
    match call {
        Some(TmdbCall::Hit(h)) => (Some(h), CacheWrite::Found, None),
        Some(TmdbCall::Miss) => (None, CacheWrite::NotFound, None),
        Some(TmdbCall::RateLimited(secs)) => (None, CacheWrite::Nothing, Some(secs)),
        None => (None, CacheWrite::Nothing, None),
    }
}

/// The end of a request for one entry: what was found, and the pause, in
/// seconds, that TMDB asks for. `call` is absent where no permit for the request
/// was had in time.
pub fn settle_request<T>(call: Option<TmdbCall<T>>) -> (r: (Option<T>, Option<u64>))
    ensures
        r == (found_by(call), pause_after(call)),
{
    match call {
        Some(TmdbCall::Hit(x)) => (Some(x), None),
        Some(TmdbCall::Miss) => (None, None),
        Some(TmdbCall::RateLimited(secs)) => (None, Some(secs)),
        None => (None, None),
    }
}

/// The details of a show from the cache, where they tell how it is displayed;
/// details without that are asked for anew.
pub fn usable_details(cached: Option<TmdbTvDetails>) -> (r: Option<TmdbTvDetails>)
    ensures
        r == (match cached {
            Some(d) => if text::is_blank(d.name@) {
                None
            } else {
                cached
            },
            None => None,
        }),
{
    match cached {
        Some(d) => if d.has_display() {
            Some(d)
        } else {
            None
        },
        None => None,
    }
}

/// A search that found nothing is not made again, whatever the cached text reads
/// as; a search without a reply leaves no trace in the cache.
pub proof fn only_replies_are_remembered(call: Option<TmdbCall<TmdbHit>>, parsed: Option<TmdbHit>)
    ensures
        cached_answer(CACHED_MISS@, parsed) is None,
        cache_write(call) == CacheWrite::NotFound <==> (call matches Some(c) && c is Miss),
        cache_write(call) == CacheWrite::Found <==> found_by(call) is Some,
        call is None || pause_after(call) is Some ==> cache_write(call) == CacheWrite::Nothing,
{
}

/// Searches of different kinds, titles or years have different keys, whatever
/// characters the titles hold.
pub proof fn search_keys_tell_searches_apart(
    k1: TmdbKind,
    t1: Seq<char>,
    y1: Option<u16>,
    k2: TmdbKind,
    t2: Seq<char>,
    y2: Option<u16>,
)
    requires
        search_key(k1, t1, y1) == search_key(k2, t2, y2),
    ensures
        k1 == k2,
        t1 == t2,
        y1 == y2,
{
    let a = search_key(k1, t1, y1);
    let b = search_key(k2, t2, y2);
    assert(a[0] == b[0]);
    let d1 = year_digits(y1);
    let d2 = year_digits(y2);
    lemma_year_digits(y1);
    lemma_year_digits(y2);
    assert(a.len() == 3 + t1.len() + d1.len());
    assert(b.len() == 3 + t2.len() + d2.len());
    assert(a[a.len() - 1 - d1.len()] == '\u{1}');
    assert(b[b.len() - 1 - d2.len()] == '\u{1}');
    if d1.len() < d2.len() {
        assert(b[b.len() - 1 - d1.len()] == d2[d2.len() - 1 - d1.len()]);
        assert(text::is_digit(d2[d2.len() - 1 - d1.len()]));
    }
    if d2.len() < d1.len() {
        assert(a[a.len() - 1 - d2.len()] == d1[d1.len() - 1 - d2.len()]);
        assert(text::is_digit(d1[d1.len() - 1 - d2.len()]));
    }
    assert(d1 == a.skip(a.len() - d1.len()));
    assert(d2 == b.skip(b.len() - d2.len()));
    assert(t1 == a.subrange(2, 2 + t1.len() as int));
    assert(t2 == b.subrange(2, 2 + t2.len() as int));
}

spec fn year_digits(y: Option<u16>) -> Seq<char> {
    match y {
        Some(n) => number::decimal(n as nat),
        None => Seq::empty(),
    }
}

proof fn lemma_year_digits(y: Option<u16>)
    ensures
        number::all_digits(year_digits(y)),
        y is Some <==> year_digits(y).len() > 0,
        y matches Some(n) ==> number::digits_value(year_digits(y)) == n,
{
    if let Some(n) = y {
        number::lemma_decimal_digits(n as nat);
    }
}

/// The season and the episode that a record claims.
pub open spec fn claimed(fields: Map<Seq<char>, Seq<char>>, key: Seq<char>) -> Option<int> {
    match record::field(fields, key) {
        Some(s) => number::parse_signed(text::trim(s)),
        None => None,
    }
}

/// The number in an optional 64-bit integer.
pub open spec fn int_of(n: Option<i64>) -> Option<int> {
    match n {
        Some(v) => Some(v as int),
        None => None,
    }
}

/// The 64-bit integer of an optional number.
pub open spec fn i64_of(n: Option<int>) -> Option<i64> {
    match n {
        Some(v) => Some(v as i64),
        None => None,
    }
}

fn claimed_number(fields: &Fields, key: &str) -> (r: Option<i64>)
    ensures
        int_of(r) == claimed(fields@, key@),
        r == i64_of(claimed(fields@, key@)),
{
    match fields.get(key) {
        Some(s) => read_i64(trimmed_string(s.as_str()).as_str()),
        None => None,
    }
}

/// The seasons of the show are needed to judge a record: it was found as a show
/// and claims a season.
pub open spec fn needs_seasons(fields: Map<Seq<char>, Seq<char>>, kind: TmdbKind) -> bool {
    kind == TmdbKind::Tv && claimed(fields, "season"@) is Some
}

/// Tests whether the seasons of the show are needed to judge a record.
pub fn needs_tv_details(record: &DiscoveryRecord, kind: TmdbKind) -> (r: bool)
    ensures
        r == needs_seasons(record.fields@, kind),
{
    match kind {
        TmdbKind::Tv => claimed_number(&record.fields, "season").is_some(),
        TmdbKind::Movie => false,
    }
}

/// How the claimed season and episode agree with the seasons of the show, where
/// they are needed and known.
pub open spec fn season_verdict(
    fields: Map<Seq<char>, Seq<char>>,
    kind: TmdbKind,
    details: Option<TmdbTvDetails>,
) -> SeasonEpisodeBounds {
    match details {
        Some(d) => if needs_seasons(fields, kind) {
            tmdb::bounds(
                d.number_of_seasons,
                d.seasons@,
                i64_of(claimed(fields, "season"@)),
                i64_of(claimed(fields, "episode"@)),
            )
        } else {
            SeasonEpisodeBounds::InBounds
        },
        None => SeasonEpisodeBounds::InBounds,
    }
}

/// The text unless it is blank.
pub open spec fn unless_blank(v: Option<Seq<char>>) -> Option<Seq<char>> {
    match v {
        Some(s) => if text::is_blank(s) {
            None
        } else {
            v
        },
        None => None,
    }
}

/// The fields that an entry gives to a record: its title, description, year and
/// id, the title in its own language, and the release title as the original.
pub open spec fn entry_fields(hit: HitView, raw: Option<Seq<char>>) -> Map<Seq<char>, Seq<char>> {
    let titled = record::with_some(
        Map::empty().insert("title"@, hit.title),
        "originalTitle"@,
        raw,
    );
    let localized = match (unless_blank(hit.original_title), hit.lang3()) {
        (Some(t), Some(l)) => titled.insert("titles/"@ + l, t),
        _ => titled,
    };
    let described = record::with_some(localized, "description/eng"@, unless_blank(hit.overview));
    let dated = record::with_some(
        described,
        "movieYear"@,
        match hit.year {
            Some(y) => Some(number::decimal(y as nat)),
            None => None,
        },
    );
    dated.insert("tmdbid"@, number::decimal(hit.tmdbid as nat))
}

/// The fields that follow from the kind of the entry.
pub open spec fn with_kind(m: Map<Seq<char>, Seq<char>>, kind: TmdbKind) -> Map<
    Seq<char>,
    Seq<char>,
> {
    match kind {
        TmdbKind::Movie => m.insert("contentKind"@, "movie"@).insert("videoType"@, "movie"@).insert(
            "fileType"@,
            "video"@,
        ),
        TmdbKind::Tv => m.insert("contentKind"@, "episode"@).insert("videoType"@, "tvshow"@),
    }
}

/// The fields that an entry takes from a record: a movie has no season and no
/// episode, and a show does not have a season that it lacks.
pub open spec fn taken_fields(kind: TmdbKind, verdict: SeasonEpisodeBounds) -> Seq<Seq<char>> {
    match kind {
        TmdbKind::Movie => seq!["season"@, "episode"@],
        TmdbKind::Tv => if verdict == SeasonEpisodeBounds::SeasonOverflow {
            seq!["season"@]
        } else {
            Seq::empty()
        },
    }
}

/// What an entry does to a record. A record whose season and episode contradict
/// the entry is withdrawn.
pub open spec fn enrichment(
    fields: Map<Seq<char>, Seq<char>>,
    hit: HitView,
    kind: TmdbKind,
    raw: Option<Seq<char>>,
    details: Option<TmdbTvDetails>,
) -> OutcomeView {
    let verdict = season_verdict(fields, kind, details);
    if verdict == SeasonEpisodeBounds::Contradiction {
        OutcomeView::Drop
    } else {
        OutcomeView::Patch {
            set: record::with_some(
                with_kind(entry_fields(hit, raw), kind),
                "posterPath"@,
                match hit.poster_path {
                    Some(p) => Some(text::trim_start(p, CharClass::Slash)),
                    None => None,
                },
            ),
            remove: taken_fields(kind, verdict),
        }
    }
}

fn fill_entry_fields(set: &mut Fields, hit: &TmdbHit, raw: &Option<String>)
    requires
        old(set)@ == Map::<Seq<char>, Seq<char>>::empty(),
    ensures
        final(set)@ == entry_fields(hit@, item::text_of(*raw)),
{
    set.insert("title", owned(hit.title.as_str()));
    if let Some(t) = raw {
        set.insert("originalTitle", owned(t.as_str()));
    }
    if let Some(orig) = &hit.original_title {
        if !blank(orig.as_str()) {
            if let Some(lang3) = hit.original_lang3() {
                let mut key = owned("titles/");
                push_str(&mut key, lang3);
                set.insert(key.as_str(), owned(orig.as_str()));
            }
        }
    }
    if let Some(o) = &hit.overview {
        if !blank(o.as_str()) {
            set.insert("description/eng", owned(o.as_str()));
        }
    }
    if let Some(y) = hit.year {
        set.insert("movieYear", write_u64(y as u64));
    }
    set.insert("tmdbid", write_u64(hit.tmdbid));
}

/// Turns an entry that was found for a record into a change of the record.
/// `details` is asked for where [`needs_tv_details`] holds; without it the
/// claimed season passes.
pub fn build_enrichment_patch(
    record: &DiscoveryRecord,
    hit: &TmdbHit,
    matched_kind: TmdbKind,
    raw_title: &Option<String>,
    details: &Option<TmdbTvDetails>,
) -> (r: EnrichOutcome)
    ensures
        r@ == enrichment(
            record.fields@,
            hit@,
            matched_kind,
            item::text_of(*raw_title),
            *details,
        ),
{
    let mut set = Fields::new();
    fill_entry_fields(&mut set, hit, raw_title);
    let mut remove: Vec<String> = Vec::new();
    let ghost verdict = season_verdict(record.fields@, matched_kind, *details);
    match matched_kind {
        TmdbKind::Movie => {
            set.insert("contentKind", owned("movie"));
            set.insert("videoType", owned("movie"));
            set.insert("fileType", owned("video"));
            remove.push(owned("season"));
            remove.push(owned("episode"));
            assert(text::string_views(remove@) == seq!["season"@, "episode"@]);
        },
        TmdbKind::Tv => {
            set.insert("contentKind", owned("episode"));
            set.insert("videoType", owned("tvshow"));
            let season = claimed_number(&record.fields, "season");
            if season.is_some() {
                let episode = claimed_number(&record.fields, "episode");
                if let Some(d) = details {
                    match season_episode_bounds(d, season, episode) {
                        SeasonEpisodeBounds::InBounds => {},
                        SeasonEpisodeBounds::SeasonOverflow => {
                            remove.push(owned("season"));
                            assert(text::string_views(remove@) == seq!["season"@]);
                        },
                        SeasonEpisodeBounds::Contradiction => {
                            return EnrichOutcome::Drop;
                        },
                    }
                }
            }
            assert(text::string_views(remove@) == taken_fields(matched_kind, verdict));
        },
    }
    if let Some(p) = &hit.poster_path {
        let cs = chars_of(p.as_str());
        set.insert("posterPath", string_of(without_prefix(&cs, CharClass::Slash)));
    }
    EnrichOutcome::Patch { set, remove }
}

/// What comes after a title search.
#[derive(Debug)]
pub enum SearchStep {
    /// The title is looked for under this kind.
    Ask(TmdbKind),
    /// The entry was found under this kind.
    Found(TmdbHit, TmdbKind),
    /// There is no entry.
    GiveUp,
}

/// Begins a search for a title; an empty title is not searched for.
pub fn begin_search(title: &str, kind: TmdbKind) -> (r: SearchStep)
    ensures
        r == (if title@.len() == 0 {
            SearchStep::GiveUp
        } else {
            SearchStep::Ask(kind)
        }),
{
    if chars_of(title).len() == 0 {
        SearchStep::GiveUp
    } else {
        SearchStep::Ask(kind)
    }
}

/// Goes on after the title was looked for under `asked`. A title that was not
/// found under the kind of the record, `first`, is looked for under the other.
pub fn after_search(first: TmdbKind, asked: TmdbKind, found: Option<TmdbHit>) -> (r: SearchStep)
    ensures
        match found {
            Some(h) => r == SearchStep::Found(h, asked),
            None => if asked == first {
                r matches SearchStep::Ask(k) && k != first
            } else {
                r is GiveUp
            },
        },
{
    match found {
        Some(h) => SearchStep::Found(h, asked),
        None => if asked == first {
            SearchStep::Ask(other_kind(first))
        } else {
            SearchStep::GiveUp
        },
    }
}

/// The outcome where records without an entry may be given made-up fields.
pub fn or_stub(outcome: EnrichOutcome, record: &DiscoveryRecord, enabled: bool) -> (r:
    EnrichOutcome)
    ensures
        r@ == (if enabled && outcome@ is Noop && is_filled(record.fields@, "title"@)
            && !passes_gate(record.fields@) {
            OutcomeView::Patch { set: stub_fields(record.fields@), remove: Seq::empty() }
        } else {
            outcome@
        }),
{
    match outcome {
        EnrichOutcome::Noop => {
            if enabled {
                if let Some(o) = build_stub_patch(&record.fields) {
                    return o;
                }
            }
            EnrichOutcome::Noop
        },
        other => other,
    }
}

/// The keys that a list names.
pub open spec fn keys_in(keys: Seq<Seq<char>>) -> Set<Seq<char>> {
    Set::new(|key: Seq<char>| keys.contains(key))
}

/// The fields after a change: those in `remove` are taken out, then those in
/// `set` are stored.
pub open spec fn patched(
    fields: Map<Seq<char>, Seq<char>>,
    set: Map<Seq<char>, Seq<char>>,
    remove: Seq<Seq<char>>,
) -> Map<Seq<char>, Seq<char>> {
    fields.remove_keys(keys_in(remove)).union_prefer_right(set)
}

fn patch_fields(fields: &mut Fields, set: &Fields, remove: &Vec<String>)
    ensures
        final(fields)@ == patched(old(fields)@, set@, text::string_views(remove@)),
{
    let ghost before = fields@;
    fields.remove_all(remove);
    proof {
        let named = text::string_views(remove@);
        assert forall|key: Seq<char>|
            keymap::key_set(remove@).contains(key) == keys_in(named).contains(key) by {
            if keymap::key_set(remove@).contains(key) {
                let i = choose|i: int| 0 <= i < remove@.len() && (#[trigger] remove@[i])@ == key;
                assert(named[i] == key);
            }
            if keys_in(named).contains(key) {
                let i = choose|i: int| 0 <= i < named.len() && named[i] == key;
                assert(remove@[i]@ == key);
            }
        }
        assert(keymap::key_set(remove@) =~= keys_in(named));
    }
    fields.extend(set);
}

/// Applies an outcome to a record. Tells whether the record stays.
pub fn apply_outcome(record: &mut DiscoveryRecord, outcome: &EnrichOutcome) -> (r: bool)
    ensures
        r == !(outcome@ is Drop),
        final(record)@ == (match outcome@ {
            OutcomeView::Patch { set, remove } => RecordView {
                fields: patched(old(record).fields@, set, remove),
                ..old(record)@
            },
            _ => old(record)@,
        }),
{
    match outcome {
        EnrichOutcome::Drop => false,
        EnrichOutcome::Noop => true,
        EnrichOutcome::Patch { set, remove } => {
            patch_fields(&mut record.fields, set, remove);
            true
        },
    }
}

/// The fields with the poster's path turned into its URL.
pub open spec fn with_poster_url(
    fields: Map<Seq<char>, Seq<char>>,
    image_base: Seq<char>,
) -> Map<Seq<char>, Seq<char>> {
    if fields.contains_key("posterPath"@) {
        fields.remove("posterPath"@).insert(
            "poster_url"@,
            tmdb::poster_url(image_base, fields["posterPath"@]),
        )
    } else {
        fields
    }
}

/// Turns the path of a record's poster into its URL.
pub fn set_poster_url(record: &mut DiscoveryRecord, client: &TmdbClient)
    ensures
        final(record)@ == (RecordView {
            fields: with_poster_url(old(record).fields@, client.image_base@),
            ..old(record)@
        }),
{
    if let Some(path) = record.fields.remove("posterPath") {
        record.fields.insert("poster_url", client.poster_cdn_url(path.as_str()));
    } else {
        assert(record.fields@ =~= old(record).fields@);
    }
}

/// What a streamed record gets in the end.
#[derive(Debug)]
pub struct Streamed {
    /// What the consumer is told, after the record itself.
    pub events: Vec<GatewaySearchEvent>,
    /// The record to keep; a withdrawn one is not kept.
    pub kept: Option<DiscoveryRecord>,
}

/// The events for a record with the fields `before`, its id `record_id`, which
/// an outcome changed. The path of a poster is never told, only its URL.
pub open spec fn stream_events(
    before: RecordView,
    outcome: OutcomeView,
    image_base: Seq<char>,
) -> Seq<EventView> {
    match outcome {
        OutcomeView::Drop => seq![EventView::Drop { record_id: before.record_id }],
        OutcomeView::Noop => poster_events(before.record_id, before.fields, image_base),
        OutcomeView::Patch { set, remove } => {
            let told = set.remove("posterPath"@);
            let changed = poster_events(
                before.record_id,
                patched(before.fields, set, remove),
                image_base,
            );
            if told == Map::<Seq<char>, Seq<char>>::empty() && remove.len() == 0 {
                changed
            } else {
                seq![
                    EventView::EnrichPatch { record_id: before.record_id, set: told, remove },
                ] + changed
            }
        },
    }
}

/// The event that tells the URL of a poster.
pub open spec fn poster_events(
    record_id: Seq<char>,
    fields: Map<Seq<char>, Seq<char>>,
    image_base: Seq<char>,
) -> Seq<EventView> {
    if fields.contains_key("posterPath"@) {
        seq![
            EventView::EnrichPatch {
                record_id,
                set: Map::empty().insert(
                    "poster_url"@,
                    tmdb::poster_url(image_base, fields["posterPath"@]),
                ),
                remove: seq!["posterPath"@],
            },
        ]
    } else {
        Seq::empty()
    }
}

/// The fields to keep after an outcome changed a record with the fields `before`.
pub open spec fn kept_fields(
    before: Map<Seq<char>, Seq<char>>,
    outcome: OutcomeView,
    image_base: Seq<char>,
) -> Map<Seq<char>, Seq<char>> {
    with_poster_url(
        match outcome {
            OutcomeView::Patch { set, remove } => patched(before, set, remove),
            _ => before,
        },
        image_base,
    )
}

/// Tells the consumer of a streamed record what became of it. `enriched` holds
/// what enrichment does to the record and the TMDB client; without a client the
/// record stays as it is.
pub fn stream_outcome(
    record: DiscoveryRecord,
    enriched: Option<(EnrichOutcome, &TmdbClient)>,
) -> (r: Streamed)
    ensures
        match enriched {
            None => {
                &&& record::event_views(r.events@) == Seq::<EventView>::empty()
                &&& r.kept matches Some(k) && k@ == record@
            },
            Some((o, client)) => {
                &&& record::event_views(r.events@) == stream_events(
                    record@,
                    o@,
                    client.image_base@,
                )
                &&& match r.kept {
                    Some(k) => !(o@ is Drop) && k@ == (RecordView {
                        fields: kept_fields(record.fields@, o@, client.image_base@),
                        ..record@
                    }),
                    None => o@ is Drop,
                }
            },
        },
{
    let mut events: Vec<GatewaySearchEvent> = Vec::new();
    assert(record::event_views(events@) == Seq::<EventView>::empty());
    let (outcome, client) = match enriched {
        Some(pair) => pair,
        None => {
            return Streamed { events, kept: Some(record) };
        },
    };
    let record_id = owned(record.record_id.as_str());
    let ghost start = record@;
    let ghost view = outcome@;
    let mut working = record;
    match outcome {
        EnrichOutcome::Drop => {
            events.push(GatewaySearchEvent::Drop { record_id });
            assert(record::event_views(events@) == stream_events(start, view, client.image_base@));
            return Streamed { events, kept: None };
        },
        EnrichOutcome::Noop => {},
        EnrichOutcome::Patch { set, remove } => {
            patch_fields(&mut working.fields, &set, &remove);
            let mut told = set;
            told.remove("posterPath");
            let fields_told: usize = told.len();
            proof {
                if fields_told == 0 {
                    assert(told@.dom() =~= Set::<Seq<char>>::empty());
                    assert(told@ =~= Map::<Seq<char>, Seq<char>>::empty());
                }
            }
            if fields_told > 0 || remove.len() > 0 {
                events.push(
                    GatewaySearchEvent::EnrichPatch {
                        record_id: owned(record_id.as_str()),
                        set: told,
                        remove,
                    },
                );
                assert(record::event_views(events@) == seq![events@[0]@]);
            }
        },
    }
    let ghost first = record::event_views(events@);
    let ghost changed = working.fields@;
    if working.fields.contains_key("posterPath") {
        set_poster_url(&mut working, client);
        if let Some(u) = working.fields.get("poster_url") {
            let mut set = Fields::new();
            set.insert("poster_url", owned(u.as_str()));
            let mut remove: Vec<String> = Vec::new();
            remove.push(owned("posterPath"));
            assert(text::string_views(remove@) == seq!["posterPath"@]);
            let event = GatewaySearchEvent::EnrichPatch { record_id, set, remove };
            let ghost added = event@;
            events.push(event);
            proof {
                assert(record::event_views(events@) == first.push(added));
                assert(seq![added] == poster_events(
                    start.record_id,
                    changed,
                    client.image_base@,
                ));
                assert(first.push(added) == first + seq![added]);
            }
        }
    } else {
        assert(first + Seq::<EventView>::empty() == first);
        assert(Seq::<EventView>::empty() + poster_events(
            start.record_id,
            changed,
            client.image_base@,
        ) == poster_events(start.record_id, changed, client.image_base@));
    }
    assert(record::event_views(events@) == first + poster_events(
        start.record_id,
        changed,
        client.image_base@,
    ));
    assert(Seq::<EventView>::empty() + poster_events(
        start.record_id,
        changed,
        client.image_base@,
    ) == poster_events(start.record_id, changed, client.image_base@));
    Streamed { events, kept: Some(working) }
}

/// One anchor as it is kept in the cache.
#[derive(Debug)]
pub struct PrincipalEntry {
    pub tmdbid: u64,
    pub kind: String,
}

/// The name of a kind in the cache.
pub fn kind_str(kind: TmdbKind) -> (r: &'static str)
    ensures
        r@ == tmdb::segment(kind),
{
    tmdb::kind_segment(kind)
}

/// The kind with the given name.
pub open spec fn kind_named(s: Seq<char>) -> Option<TmdbKind> {
    if s == "movie"@ {
        Some(TmdbKind::Movie)
    } else if s == "tv"@ {
        Some(TmdbKind::Tv)
    } else {
        None
    }
}

/// The kind with the given name in the cache.
pub fn kind_from_str(s: &str) -> (r: Option<TmdbKind>)
    ensures
        r == kind_named(s@),
{
    if str_eq(s, "movie") {
        Some(TmdbKind::Movie)
    } else if str_eq(s, "tv") {
        Some(TmdbKind::Tv)
    } else {
        None
    }
}

/// What a list of cached anchors holds.
pub open spec fn entry_views(v: Seq<PrincipalEntry>) -> Seq<(u64, Seq<char>)> {
    Seq::new(v.len(), |i: int| (v[i].tmdbid, v[i].kind@))
}

/// The cached form of a list of anchors.
pub open spec fn encoded_list(list: Seq<(u64, TmdbKind)>) -> Seq<(u64, Seq<char>)> {
    Seq::new(list.len(), |i: int| (list[i].0, tmdb::segment(list[i].1)))
}

/// The anchors that a cached list holds; entries of an unknown kind are left
/// out.
pub open spec fn decoded_list(entries: Seq<(u64, Seq<char>)>) -> Seq<(u64, TmdbKind)>
    decreases entries.len(),
{
    if entries.len() == 0 {
        Seq::empty()
    } else {
        let before = decoded_list(entries.drop_last());
        match kind_named(entries.last().1) {
            Some(k) => before.push((entries.last().0, k)),
            None => before,
        }
    }
}

/// Brings a list of anchors into its cached form.
pub fn encode_principal_list(list: &Vec<(u64, TmdbKind)>) -> (r: Vec<PrincipalEntry>)
    ensures
        entry_views(r@) == encoded_list(list@),
{
    let mut out: Vec<PrincipalEntry> = Vec::new();
    let n: usize = list.len();
    let mut i: usize = 0;
    while i < n
        invariant
            n == list@.len(),
            i <= n,
            entry_views(out@) == encoded_list(list@).take(i as int),
        decreases n - i,
    {
        let ghost before = entry_views(out@);
        let (tmdbid, kind) = list[i];
        out.push(PrincipalEntry { tmdbid, kind: owned(kind_str(kind)) });
        assert(entry_views(out@) == before.push((tmdbid, tmdb::segment(kind))));
        i += 1;
    }
    assert(encoded_list(list@).take(n as int) == encoded_list(list@));
    out
}

/// The anchors that a cached list holds; one that could not be read holds none.
pub open spec fn anchors_in(entries: Option<Vec<PrincipalEntry>>) -> Seq<(u64, TmdbKind)> {
    match entries {
        Some(v) => decoded_list(entry_views(v@)),
        None => Seq::empty(),
    }
}

/// Reads a list of anchors from its cached form. A form that could not be read
/// holds none.
pub fn decode_principal_list(entries: &Option<Vec<PrincipalEntry>>) -> (r: Vec<(u64, TmdbKind)>)
    ensures
        r@ == anchors_in(*entries),
{
    let mut out: Vec<(u64, TmdbKind)> = Vec::new();
    let list = match entries {
        Some(v) => v,
        None => {
            return out;
        },
    };
    let ghost all = entry_views(list@);
    let n: usize = list.len();
    let mut i: usize = 0;
    while i < n
        invariant
            n == list@.len(),
            all == entry_views(list@),
            i <= n,
            out@ == decoded_list(all.take(i as int)),
        decreases n - i,
    {
        proof {
            assert(all.take(i + 1).drop_last() == all.take(i as int));
            assert(all.take(i + 1).last() == (list@[i as int].tmdbid, list@[i as int].kind@));
        }
        if let Some(k) = kind_from_str(list[i].kind.as_str()) {
            out.push((list[i].tmdbid, k));
        }
        i += 1;
    }
    assert(all.take(n as int) == all);
    out
}

/// Reading back a cached list of anchors gives the list.
pub proof fn principal_list_reads_back(list: Seq<(u64, TmdbKind)>)
    ensures
        decoded_list(encoded_list(list)) == list,
    decreases list.len(),
{
    if list.len() == 0 {
        assert(encoded_list(list).len() == 0);
    } else {
        principal_list_reads_back(list.drop_last());
        assert(encoded_list(list).drop_last() == encoded_list(list.drop_last()));
        reveal_strlit("movie");
        reveal_strlit("tv");
        assert("movie"@.len() != "tv"@.len());
        assert(kind_named(tmdb::segment(list.last().1)) == Some(list.last().1));
        assert(list == list.drop_last().push(list.last()));
    }
}

/// The key of a keyword in the cache of anchors; no key where nothing is to be
/// looked for, as with a blank keyword.
pub open spec fn key_of(query: Seq<char>, n: nat) -> Option<Seq<char>> {
    let key = text::unicode_lowercase(text::trim(query));
    if n == 0 || text::trim(query).len() == 0 || key.len() == 0 {
        None
    } else {
        Some(key)
    }
}

/// The key of a keyword in the cache of anchors.
pub fn principal_key(query: &str, n: usize) -> (r: Option<String>)
    ensures
        item::text_of(r) == key_of(query@, n as nat),
        n == 0 || text::trim(query@).len() == 0 ==> r is None,
{
    let keyword = trimmed_string(query);
    if n == 0 || chars_of(keyword.as_str()).len() == 0 {
        return None;
    }
    let key = keyword.as_str().to_lowercase();
    if chars_of(key.as_str()).len() == 0 {
        None
    } else {
        Some(key)
    }
}

/// `r` holds the anchors for a keyword: id and kind of the entries that were
/// picked.
pub open spec fn are_anchors(
    hits: Seq<TmdbMultiItem>,
    picked: Seq<int>,
    r: Seq<(u64, TmdbKind)>,
) -> bool {
    r.len() == picked.len() && forall|i: int|
        0 <= i < r.len() ==> 0 <= picked[i] < hits.len() && (#[trigger] r[i]).0
            == hits[picked[i]].id && hits[picked[i]].spec_kind() == Some(r[i].1)
}

/// `r` holds the anchors for a keyword among the results of its search, most
/// popular first, as many as the cache keeps.
pub open spec fn are_ranked_anchors(
    hits: Seq<TmdbMultiItem>,
    query: Seq<char>,
    r: Seq<(u64, TmdbKind)>,
) -> bool {
    if tmdb::tokens(query).len() == 0 {
        r.len() == 0
    } else {
        exists|picked: Seq<int>| #[trigger]
            tmdb::is_top_n(hits, tmdb::tokens(query), CACHED_PRINCIPAL_DEPTH as nat, picked)
                && are_anchors(hits, picked, r)
    }
}

/// The anchors for a keyword, most popular first, as many as the cache keeps.
pub fn ranked_anchors(hits: &Vec<TmdbMultiItem>, query: &str) -> (r: Vec<(u64, TmdbKind)>)
    ensures
        are_ranked_anchors(hits@, query@, r@),
{
    let places = principal_top_n(hits, query, CACHED_PRINCIPAL_DEPTH);
    let ghost picked = crate::rank::positions(places@);
    proof {
        if tmdb::tokens(query@).len() > 0 {
            tmdb::lemma_top_n_places(
                hits@,
                tmdb::tokens(query@),
                CACHED_PRINCIPAL_DEPTH as nat,
                picked,
            );
        }
    }
    let n: usize = places.len();
    let mut out: Vec<(u64, TmdbKind)> = Vec::new();
    let mut i: usize = 0;
    while i < n
        invariant
            n == places@.len(),
            picked == crate::rank::positions(places@),
            forall|k: int|
                0 <= k < picked.len() ==> 0 <= #[trigger] picked[k] < hits@.len()
                    && hits@[picked[k]].spec_kind() is Some,
            i <= n,
            out@.len() == i,
            forall|k: int|
                0 <= k < i ==> (#[trigger] out@[k]).0 == hits@[picked[k]].id
                    && hits@[picked[k]].spec_kind() == Some(out@[k].1),
        decreases n - i,
    {
        assert(0 <= picked[i as int] < hits@.len());
        let hit = &hits[places[i]];
        if let Some(k) = hit.kind() {
            out.push((hit.id, k));
        }
        i += 1;
    }
    assert(tmdb::tokens(query@).len() > 0 ==> are_anchors(hits@, picked, out@));
    out
}

/// The first `n` anchors of a list.
pub open spec fn first_of(list: Seq<(u64, TmdbKind)>, n: nat) -> Seq<(u64, TmdbKind)> {
    if list.len() <= n {
        list
    } else {
        list.take(n as int)
    }
}

/// The first `n` anchors of a list.
pub fn first_anchors(list: Vec<(u64, TmdbKind)>, n: usize) -> (r: Vec<(u64, TmdbKind)>)
    ensures
        r@ == first_of(list@, n as nat),
{
    let mut out = list;
    if out.len() > n {
        out.truncate(n);
        assert(out@ == list@.take(n as int));
    }
    out
}

/// What to do about the anchors of a keyword.
#[derive(Debug)]
pub enum PrincipalStep {
    /// These are the anchors; TMDB is not asked.
    Answer(Vec<(u64, TmdbKind)>),
    /// Ask TMDB and keep the reply under this key.
    Ask(String),
}

/// Decides about the first `n` anchors of a keyword. `key` is the key of the
/// keyword, and `cached` the list that the cache holds under it, where it holds
/// one. Without a key there is no anchor; a cached list is used as it is.
pub fn principal_step(
    key: Option<String>,
    cached: &Option<Option<Vec<PrincipalEntry>>>,
    n: usize,
) -> (r: PrincipalStep)
    ensures
        match r {
            PrincipalStep::Answer(list) => (key is None && list@ == Seq::<(u64, TmdbKind)>::empty())
                || (key is Some && (cached matches Some(entries) && list@ == first_of(
                anchors_in(*entries),
                n as nat,
            ))),
            PrincipalStep::Ask(k) => cached is None && item::text_of(key) == Some(k@),
        },
{
    match (key, cached) {
        (None, _) => PrincipalStep::Answer(Vec::new()),
        (Some(_), Some(entries)) => {
            PrincipalStep::Answer(first_anchors(decode_principal_list(entries), n))
        },
        (Some(k), None) => PrincipalStep::Ask(k),
    }
}

/// What comes of asking TMDB for the anchors of a keyword.
#[derive(Debug)]
pub struct PrincipalReply {
    pub anchors: Vec<(u64, TmdbKind)>,
    /// The list to keep under the key, where one is to be kept.
    pub write: Option<Vec<PrincipalEntry>>,
    /// Seconds for which TMDB is not to be asked.
    pub pause: Option<u64>,
}

/// `anchors` and `write` follow from the results of a search: the whole ranking
/// is kept, and as much of it as was asked for is given.
pub open spec fn follows_from(
    hits: Seq<TmdbMultiItem>,
    query: Seq<char>,
    n: nat,
    anchors: Seq<(u64, TmdbKind)>,
    write: Option<Seq<(u64, Seq<char>)>>,
) -> bool {
    exists|ranked: Seq<(u64, TmdbKind)>| #[trigger]
        are_ranked_anchors(hits, query, ranked) && anchors == first_of(ranked, n) && write == Some(
            encoded_list(ranked),
        )
}

/// What a list to keep holds, where there is one.
pub open spec fn written(write: Option<Vec<PrincipalEntry>>) -> Option<Seq<(u64, Seq<char>)>> {
    match write {
        Some(v) => Some(entry_views(v@)),
        None => None,
    }
}

/// Settles a search for the first `n` anchors of a keyword; `call` is `None`
/// where there was no permit for it. The ranking is kept whenever TMDB gave
/// results, also where no result is an anchor. Nothing is kept, and there is no
/// anchor, where it gave none.
pub fn settle_principal(
    call: Option<TmdbCall<Vec<TmdbMultiItem>>>,
    query: &str,
    n: usize,
) -> (r: PrincipalReply)
    ensures
        r.pause == pause_after(call),
        match found_by(call) {
            Some(hits) => follows_from(hits@, query@, n as nat, r.anchors@, written(r.write)),
            None => r.anchors@ == Seq::<(u64, TmdbKind)>::empty() && r.write is None,
        },
{
    let (found, pause) = settle_request(call);
    match found {
        Some(hits) => {
            let ranked = ranked_anchors(&hits, query);
            let entries = encode_principal_list(&ranked);
            assert(are_ranked_anchors(hits@, query@, ranked@));
            PrincipalReply { anchors: first_anchors(ranked, n), write: Some(entries), pause }
        },
        None => PrincipalReply { anchors: Vec::new(), write: None, pause },
    }
}

/// A blank keyword has no anchor and neither does asking for none. Asking for
/// fewer anchors gives the first of those that asking for more gives. What was
/// kept of a search answers every later question about it as the search itself
/// did.
pub proof fn anchors_are_first_of_one_list(
    query: Seq<char>,
    ranked: Seq<(u64, TmdbKind)>,
    n: nat,
    m: nat,
)
    ensures
        text::trim(query).len() == 0 ==> key_of(query, n) is None,
        key_of(query, 0) is None,
        first_of(ranked, 0) == Seq::<(u64, TmdbKind)>::empty(),
        first_of(ranked, n).len() <= n,
        n <= m ==> first_of(first_of(ranked, m), n) == first_of(ranked, n),
        n <= m ==> first_of(ranked, n).is_prefix_of(first_of(ranked, m)),
        first_of(decoded_list(encoded_list(ranked)), n) == first_of(ranked, n),
{
    principal_list_reads_back(ranked);
}

/// The consumer's record after a list of events was applied to it.
pub open spec fn consumed(
    fields: Map<Seq<char>, Seq<char>>,
    events: Seq<EventView>,
) -> Map<Seq<char>, Seq<char>>
    decreases events.len(),
{
    if events.len() == 0 {
        fields
    } else {
        let before = consumed(fields, events.drop_last());
        match events.last() {
            EventView::EnrichPatch { record_id, set, remove } => patched(before, set, remove),
            _ => before,
        }
    }
}

/// What the consumer ends up with is what is kept: applying the events to the
/// record that was sent gives the kept fields.
pub proof fn consumer_sees_what_is_kept(
    before: RecordView,
    outcome: OutcomeView,
    image_base: Seq<char>,
)
    requires
        !(outcome is Drop),
    ensures
        consumed(before.fields, stream_events(before, outcome, image_base)) == kept_fields(
            before.fields,
            outcome,
            image_base,
        ),
{
    let events = stream_events(before, outcome, image_base);
    let kept = kept_fields(before.fields, outcome, image_base);
    reveal_strlit("posterPath");
    reveal_strlit("poster_url");
    assert("posterPath"@[6] == 'P');
    assert("poster_url"@[6] == '_');
    assert(seq!["posterPath"@].contains("posterPath"@)) by {
        assert(seq!["posterPath"@][0] == "posterPath"@);
    }
    match outcome {
        OutcomeView::Noop => {
            lemma_poster_event(before.fields, before.record_id, before.fields, image_base);
        },
        OutcomeView::Patch { set, remove } => {
            let told = set.remove("posterPath"@);
            let changed = patched(before.fields, set, remove);
            let tail = poster_events(before.record_id, changed, image_base);
            let seen = patched(before.fields, told, remove);
            assert forall|key: Seq<char>| key != "posterPath"@ implies seen.contains_key(key)
                == changed.contains_key(key) && (seen.contains_key(key) ==> seen[key]
                == changed[key]) by {}
            if told == Map::<Seq<char>, Seq<char>>::empty() && remove.len() == 0 {
                assert(seen =~= before.fields);
                lemma_poster_event(before.fields, before.record_id, changed, image_base);
            } else {
                let head = EventView::EnrichPatch {
                    record_id: before.record_id,
                    set: told,
                    remove,
                };
                assert(events == seq![head] + tail);
                lemma_poster_event(seen, before.record_id, changed, image_base);
                lemma_consumed_after(before.fields, head, tail);
                assert(seq![head].drop_last() == Seq::<EventView>::empty());
                assert(consumed(before.fields, seq![head].drop_last()) == before.fields);
                assert(consumed(before.fields, seq![head]) == seen);
            }
        },
        OutcomeView::Drop => {},
    }
}

proof fn lemma_consumed_after(
    fields: Map<Seq<char>, Seq<char>>,
    head: EventView,
    tail: Seq<EventView>,
)
    ensures
        consumed(fields, seq![head] + tail) == consumed(consumed(fields, seq![head]), tail),
    decreases tail.len(),
{
    let all = seq![head] + tail;
    if tail.len() == 0 {
        assert(all == seq![head]);
    } else {
        assert(all.drop_last() == seq![head] + tail.drop_last());
        lemma_consumed_after(fields, head, tail.drop_last());
    }
}

proof fn lemma_poster_event(
    seen: Map<Seq<char>, Seq<char>>,
    record_id: Seq<char>,
    changed: Map<Seq<char>, Seq<char>>,
    image_base: Seq<char>,
)
    requires
        forall|key: Seq<char>|
            key != "posterPath"@ ==> #[trigger] seen.contains_key(key) == changed.contains_key(key)
                && (seen.contains_key(key) ==> seen[key] == changed[key]),
        !changed.contains_key("posterPath"@) ==> !seen.contains_key("posterPath"@),
    ensures
        consumed(seen, poster_events(record_id, changed, image_base)) == with_poster_url(
            changed,
            image_base,
        ),
{
    let events = poster_events(record_id, changed, image_base);
    reveal_strlit("posterPath");
    reveal_strlit("poster_url");
    assert("posterPath"@[6] == 'P');
    assert("poster_url"@[6] == '_');
    if changed.contains_key("posterPath"@) {
        assert(events.drop_last() == Seq::<EventView>::empty());
        assert(consumed(seen, events.drop_last()) == seen);
        assert(seq!["posterPath"@].contains("posterPath"@)) by {
            assert(seq!["posterPath"@][0] == "posterPath"@);
        }
        assert(consumed(seen, events) =~= with_poster_url(changed, image_base));
    } else {
        assert(consumed(seen, events) =~= with_poster_url(changed, image_base));
    }
}

/// No event tells the path of a poster.
pub proof fn poster_path_is_never_told(
    before: RecordView,
    outcome: OutcomeView,
    image_base: Seq<char>,
    i: int,
)
    requires
        0 <= i < stream_events(before, outcome, image_base).len(),
    ensures
        stream_events(before, outcome, image_base)[i] matches EventView::EnrichPatch {
            record_id,
            set,
            remove,
        } ==> !set.contains_key("posterPath"@),
{
    reveal_strlit("posterPath");
    reveal_strlit("poster_url");
    assert("posterPath"@[6] == 'P');
    assert("poster_url"@[6] == '_');
}

/// A withdrawn record is told once and nothing else, and every event is about
/// the record.
pub proof fn events_are_about_the_record(
    before: RecordView,
    outcome: OutcomeView,
    image_base: Seq<char>,
)
    ensures
        outcome is Drop ==> stream_events(before, outcome, image_base) == seq![
            EventView::Drop { record_id: before.record_id },
        ],
        forall|i: int|
            0 <= i < stream_events(before, outcome, image_base).len() ==> (
            match #[trigger] stream_events(before, outcome, image_base)[i] {
                EventView::EnrichPatch { record_id, set, remove } => record_id == before.record_id,
                EventView::Drop { record_id } => record_id == before.record_id && outcome is Drop,
                _ => false,
            }),
{
}

/// Made-up fields do what they are for: a record with them is shown, and only
/// what it lacked is made up. A video stays the video that it is, and a content
/// kind, a poster and a description stay where there are any.
pub proof fn stub_passes_the_gate(fields: Map<Seq<char>, Seq<char>>)
    ensures
        passes_gate(patched(fields, stub_fields(fields), Seq::empty())),
        is_video(fields) ==> !stub_fields(fields).contains_key("fileType"@)
            && !stub_fields(fields).contains_key("videoType"@) && !stub_fields(
            fields,
        ).contains_key("contentKind"@),
        fields.contains_key("contentKind"@) ==> !stub_fields(fields).contains_key("contentKind"@),
        is_filled(fields, "poster"@) ==> !stub_fields(fields).contains_key("poster"@),
        has_description(fields) ==> !stub_fields(fields).contains_key("description"@),
        passes_gate(fields) ==> stub_fields(fields) == Map::<Seq<char>, Seq<char>>::empty(),
{
    reveal_strlit("fileType");
    reveal_strlit("videoType");
    reveal_strlit("contentKind");
    reveal_strlit("poster");
    reveal_strlit("description");
    reveal_strlit("plot/eng");
    reveal_strlit("stub-no-tmdb-poster");
    reveal_strlit(
        "[STUB] Simulated unmatched/polluted record (no TMDB match) — for adult-filter testing.",
    );
    assert("fileType"@[0] == 'f');
    assert("videoType"@[0] == 'v');
    assert("contentKind"@[0] == 'c');
    assert("poster"@[0] == 'p' && "poster"@[1] == 'o');
    assert("plot/eng"@[1] == 'l');
    assert("description"@[0] == 'd');
    assert(!text::is_blank("stub-no-tmdb-poster"@)) by {
        assert(!text::is_space("stub-no-tmdb-poster"@[0]));
    }
    assert(!text::is_blank(STUB_DESCRIPTION@)) by {
        assert(!text::is_space(STUB_DESCRIPTION@[0]));
    }
    let after = patched(fields, stub_fields(fields), Seq::empty());
    assert(keys_in(Seq::empty()) =~= Set::<Seq<char>>::empty());
    if is_video(fields) {
        assert(after.contains_key("fileType"@) == fields.contains_key("fileType"@));
        assert(after.contains_key("videoType"@) == fields.contains_key("videoType"@));
        assert(is_video(after));
    } else {
        assert(after["fileType"@] == "video"@);
        assert(is_video(after));
    }
    assert(is_filled(after, "poster"@));
    assert(has_description(after));
    if passes_gate(fields) {
        assert(stub_fields(fields) =~= Map::<Seq<char>, Seq<char>>::empty());
    }
}

/// A movie has no season and no episode after enrichment and is a video; a show
/// is an episode. The title of the release is kept as the original.
pub proof fn enrichment_settles_the_kind(
    fields: Map<Seq<char>, Seq<char>>,
    hit: HitView,
    kind: TmdbKind,
    raw: Option<Seq<char>>,
    details: Option<TmdbTvDetails>,
)
    ensures
        enrichment(fields, hit, kind, raw, details) matches OutcomeView::Patch { set, remove } ==> {
            let after = patched(fields, set, remove);
            &&& record::field(after, "title"@) == Some(hit.title)
            &&& raw is Some ==> record::field(after, "originalTitle"@) == raw
            &&& record::field(after, "tmdbid"@) == Some(number::decimal(hit.tmdbid as nat))
            &&& kind == TmdbKind::Movie ==> !after.contains_key("season"@)
                && !after.contains_key("episode"@) && record::field(after, "contentKind"@) == Some(
                "movie"@,
            ) && is_video(after)
            &&& kind == TmdbKind::Tv ==> record::field(after, "contentKind"@) == Some("episode"@)
                && is_video(after)
        },
{
    if let OutcomeView::Patch { set, remove } = enrichment(fields, hit, kind, raw, details) {
        let after = patched(fields, set, remove);
        reveal_strlit("title");
        reveal_strlit("titles/");
        reveal_strlit("originalTitle");
        reveal_strlit("description/eng");
        reveal_strlit("movieYear");
        reveal_strlit("tmdbid");
        reveal_strlit("contentKind");
        reveal_strlit("videoType");
        reveal_strlit("fileType");
        reveal_strlit("posterPath");
        reveal_strlit("season");
        reveal_strlit("episode");
        reveal_strlit("video");
        reveal_strlit("movie");
        reveal_strlit("tvshow");
        assert("title"@[0] == 't' && "title"@[1] == 'i');
        assert("originalTitle"@[0] == 'o');
        assert("description/eng"@[0] == 'd');
        assert("movieYear"@[0] == 'm');
        assert("tmdbid"@[0] == 't' && "tmdbid"@[1] == 'm');
        assert("contentKind"@[0] == 'c');
        assert("videoType"@[0] == 'v');
        assert("fileType"@[0] == 'f');
        assert("posterPath"@[0] == 'p');
        assert("season"@[0] == 's');
        assert("episode"@[0] == 'e');
        if let Some(l) = hit.lang3() {
            let key = "titles/"@ + l;
            assert(key[0] == 't' && key[1] == 'i' && key.len() >= 7);
        }
        if kind == TmdbKind::Movie {
            assert(keys_in(remove).contains("season"@)) by {
                assert(remove[0] == "season"@);
            }
            assert(keys_in(remove).contains("episode"@)) by {
                assert(remove[1] == "episode"@);
            }
            assert(after["fileType"@] == "video"@);
        } else {
            assert(after["videoType"@] == "tvshow"@);
            assert(text::lower("tvshow"@) == "tvshow"@);
        }
    }
}

/// Enrichment never invents a season: a season that a record has afterwards it
/// had before.
pub proof fn enrichment_asserts_no_season(
    fields: Map<Seq<char>, Seq<char>>,
    hit: HitView,
    kind: TmdbKind,
    raw: Option<Seq<char>>,
    details: Option<TmdbTvDetails>,
)
    ensures
        enrichment(fields, hit, kind, raw, details) matches OutcomeView::Patch { set, remove } ==> {
            let after = patched(fields, set, remove);
            &&& after.contains_key("season"@) ==> record::field(fields, "season"@)
                == record::field(after, "season"@)
            &&& after.contains_key("episode"@) ==> record::field(fields, "episode"@)
                == record::field(after, "episode"@)
        },
{
    if let OutcomeView::Patch { set, remove } = enrichment(fields, hit, kind, raw, details) {
        reveal_strlit("title");
        reveal_strlit("titles/");
        reveal_strlit("originalTitle");
        reveal_strlit("description/eng");
        reveal_strlit("movieYear");
        reveal_strlit("tmdbid");
        reveal_strlit("contentKind");
        reveal_strlit("videoType");
        reveal_strlit("fileType");
        reveal_strlit("posterPath");
        reveal_strlit("season");
        reveal_strlit("episode");
        assert("season"@[0] == 's');
        assert("episode"@[0] == 'e');
        if let Some(l) = hit.lang3() {
            let key = "titles/"@ + l;
            assert(key[0] == 't');
        }
        assert(!set.contains_key("season"@));
        assert(!set.contains_key("episode"@));
    }
}

/// An enriched record is anchored to its entry: it names the id of the entry
/// that it was matched with, so that it is found by that id from then on.
pub proof fn enriched_record_is_anchored(
    fields: Map<Seq<char>, Seq<char>>,
    hit: HitView,
    kind: TmdbKind,
    raw: Option<Seq<char>>,
    details: Option<TmdbTvDetails>,
)
    ensures
        enrichment(fields, hit, kind, raw, details) matches OutcomeView::Patch { set, remove }
            ==> anchored_id(patched(fields, set, remove)) == Some(hit.tmdbid as nat),
        enrichment(fields, hit, kind, raw, details) matches OutcomeView::Patch { set, remove }
            ==> kind_of_fields(patched(fields, set, remove)) == Some(kind),
{
    enrichment_settles_the_kind(fields, hit, kind, raw, details);
    let s = number::decimal(hit.tmdbid as nat);
    number::lemma_decimal_digits(hit.tmdbid as nat);
    number::decimal_reads_back(hit.tmdbid as nat, u64::MAX as nat);
    assert(text::is_digit(s[0]));
    assert(text::is_digit(s[s.len() - 1]));
    assert(text::trim_start(s, CharClass::Space) == s);
    assert(text::trim(s) == s);
    reveal_strlit("movie");
    reveal_strlit("episode");
    assert("movie"@.len() != "episode"@.len());
}

/// A change stores what it sets, takes out what it removes and does not set, and
/// leaves everything else.
pub proof fn change_does_what_it_says(
    fields: Map<Seq<char>, Seq<char>>,
    set: Map<Seq<char>, Seq<char>>,
    remove: Seq<Seq<char>>,
    key: Seq<char>,
)
    ensures
        set.contains_key(key) ==> record::field(patched(fields, set, remove), key) == Some(
            set[key],
        ),
        !set.contains_key(key) && remove.contains(key) ==> record::field(
            patched(fields, set, remove),
            key,
        ) is None,
        !set.contains_key(key) && !remove.contains(key) ==> record::field(
            patched(fields, set, remove),
            key,
        ) == record::field(fields, key),
{
}

/// What an entry tells reaches the record, for movies and shows alike: the title,
/// the year, the id, the overview as the description, the original title under its
/// language, and the poster, whose path is kept as a URL. A blank overview, and
/// what the entry does not tell, leave the record as it was.
pub proof fn entry_reaches_the_record(
    before: Map<Seq<char>, Seq<char>>,
    hit: HitView,
    kind: TmdbKind,
    raw: Option<Seq<char>>,
    details: Option<TmdbTvDetails>,
    image_base: Seq<char>,
)
    ensures
        enrichment(before, hit, kind, raw, details) matches OutcomeView::Patch { set, remove } ==> {
            let kept = kept_fields(
                before,
                enrichment(before, hit, kind, raw, details),
                image_base,
            );
            &&& hit.poster_path matches Some(p) ==> {
                &&& record::field(set, "posterPath"@) == Some(
                    text::trim_start(p, CharClass::Slash),
                )
                &&& record::field(kept, "poster_url"@) == Some(tmdb::poster_url(image_base, p))
            }
            &&& hit.poster_path is None ==> record::field(set, "posterPath"@) is None
            &&& record::field(kept, "posterPath"@) is None
            &&& record::field(kept, "title"@) == Some(hit.title)
            &&& record::field(kept, "originalTitle"@) == (if raw is Some {
                raw
            } else {
                record::field(before, "originalTitle"@)
            })
            &&& record::field(kept, "description/eng"@) == (if hit.overview is Some
                && !text::is_blank(hit.overview->0) {
                hit.overview
            } else {
                record::field(before, "description/eng"@)
            })
            &&& record::field(kept, "movieYear"@) == (match hit.year {
                Some(y) => Some(number::decimal(y as nat)),
                None => record::field(before, "movieYear"@),
            })
            &&& hit.year matches Some(y) ==> number::parse_unsigned(
                kept["movieYear"@],
                u16::MAX as nat,
            ) == Some(y as nat)
            &&& record::field(kept, "tmdbid"@) is Some && number::parse_unsigned(
                kept["tmdbid"@],
                u64::MAX as nat,
            ) == Some(hit.tmdbid as nat)
            &&& hit.original_title is Some && !text::is_blank(hit.original_title->0)
                && hit.original_language is Some ==> (tmdb::language3(
                text::trim(hit.original_language->0),
            ) matches Some(l) ==> record::field(kept, "titles/"@ + l) == hit.original_title)
        },
{
    if let OutcomeView::Patch { set, remove } = enrichment(before, hit, kind, raw, details) {
        record::lemma_field_names();
        reveal_strlit("titles/");
        if let Some(l) = hit.lang3() {
            let key = "titles/"@ + l;
            assert(key[0] == 't' && key[1] == 'i' && key.len() >= 7);
        }
        if let Some(y) = hit.year {
            number::decimal_reads_back(y as nat, u16::MAX as nat);
        }
        number::decimal_reads_back(hit.tmdbid as nat, u64::MAX as nat);
        if let Some(p) = hit.poster_path {
            tmdb::poster_url_form(image_base, p);
        }
    }
}

/// What the kind of an entry makes of a record. A movie is a video with the kind
/// of a movie, without season and episode. A show makes an episode, which keeps
/// its episode and, unless the show is known to lack it, its season, and whatever
/// file type it had. No other field is touched.
pub proof fn kind_shapes_the_record(
    before: Map<Seq<char>, Seq<char>>,
    hit: HitView,
    kind: TmdbKind,
    raw: Option<Seq<char>>,
    details: Option<TmdbTvDetails>,
    key: Seq<char>,
)
    ensures
        enrichment(before, hit, kind, raw, details) matches OutcomeView::Patch { set, remove } ==> {
            let after = patched(before, set, remove);
            &&& kind == TmdbKind::Movie ==> {
                &&& record::field(after, "contentKind"@) == Some("movie"@)
                &&& record::field(after, "videoType"@) == Some("movie"@)
                &&& record::field(after, "fileType"@) == Some("video"@)
                &&& record::field(after, "season"@) is None
                &&& record::field(after, "episode"@) is None
            }
            &&& kind == TmdbKind::Tv ==> {
                &&& record::field(after, "contentKind"@) == Some("episode"@)
                &&& record::field(after, "videoType"@) == Some("tvshow"@)
                &&& record::field(after, "fileType"@) == record::field(before, "fileType"@)
                &&& record::field(after, "episode"@) == record::field(before, "episode"@)
                &&& record::field(after, "season"@) == (if season_verdict(before, kind, details)
                    == SeasonEpisodeBounds::SeasonOverflow {
                    None
                } else {
                    record::field(before, "season"@)
                })
            }
            &&& {
                &&& key != "title"@ && key != "originalTitle"@ && key != "description/eng"@
                &&& key != "movieYear"@ && key != "tmdbid"@ && key != "posterPath"@
                &&& key != "contentKind"@ && key != "videoType"@ && key != "fileType"@
                &&& key != "season"@ && key != "episode"@
                &&& !text::starts_with(key, "titles/"@)
            } ==> record::field(after, key) == record::field(before, key)
        },
{
    if let OutcomeView::Patch { set, remove } = enrichment(before, hit, kind, raw, details) {
        record::lemma_field_names();
        reveal_strlit("titles/");
        if let Some(l) = hit.lang3() {
            let titled = "titles/"@ + l;
            assert(titled[0] == 't' && titled[1] == 'i' && titled.len() >= 7);
            assert(titled.subrange(0, 7) == "titles/"@);
        }
        if kind == TmdbKind::Movie {
            assert(remove[0] == "season"@ && remove[1] == "episode"@);
            assert(remove.contains("season"@) && remove.contains("episode"@));
        } else if season_verdict(before, kind, details) == SeasonEpisodeBounds::SeasonOverflow {
            assert(remove[0] == "season"@);
            assert(remove.contains("season"@));
        }
        change_does_what_it_says(before, set, remove, key);
    }
}

/// A record is withdrawn if and only if it was matched with a show of which the
/// seasons are known and claims a season below zero, or an episode beyond those
/// that its season has. Its season is disowned where the show has none of that
/// number.
pub proof fn withdrawn_if_the_show_contradicts(
    fields: Map<Seq<char>, Seq<char>>,
    hit: HitView,
    kind: TmdbKind,
    raw: Option<Seq<char>>,
    details: Option<TmdbTvDetails>,
)
    ensures
        ({
            let season = claimed(fields, "season"@);
            let episode = claimed(fields, "episode"@);
            let judged = kind == TmdbKind::Tv && season is Some && details is Some && (
            details->0.number_of_seasons > 0 || details->0.seasons@.len() > 0);
            let entry = tmdb::season_entry(details->0.seasons@, season->0);
            &&& enrichment(fields, hit, kind, raw, details) is Drop <==> judged && (season->0 < 0
                || (entry is Some && episode is Some && entry->0.episode_count > 0 && episode->0
                > entry->0.episode_count))
            &&& !(enrichment(fields, hit, kind, raw, details) is Noop)
            &&& season_verdict(fields, kind, details) == SeasonEpisodeBounds::SeasonOverflow
                <==> judged && season->0 >= 0 && entry is None && season->0
                > details->0.number_of_seasons
        }),
{
    if let Some(d) = details {
        if let Some(s) = claimed(fields, "season"@) {
            assert(s as i64 == s);
            tmdb::claims_are_held_to_the_show(
                d.number_of_seasons,
                d.seasons@,
                s as i64,
                i64_of(claimed(fields, "episode"@)),
            );
        }
        if let Some(e) = claimed(fields, "episode"@) {
            assert(e as i64 == e);
        }
    }
}

/// A season or an episode that is written as a number, with white space round it
/// or without, is claimed as that number; one that is not there claims nothing.
pub proof fn claims_are_numbers(
    fields: Map<Seq<char>, Seq<char>>,
    key: Seq<char>,
    n: int,
)
    requires
        i64::MIN <= n <= i64::MAX,
    ensures
        record::field(fields, key) matches Some(s) ==> (text::trim(s) == number::decimal_int(n)
            ==> claimed(fields, key) == Some(n)),
        record::field(fields, key) is None ==> claimed(fields, key) is None,
        needs_seasons(fields, TmdbKind::Tv) <==> claimed(fields, "season"@) is Some,
        !needs_seasons(fields, TmdbKind::Movie),
{
    number::decimal_int_reads_back(n);
}

/// A record is looked up only if it is a movie or an episode: by the id that it
/// names, whatever its title, else by its title without surrounding white space,
/// else not at all.
pub proof fn lookup_goes_by_id_first(record: DiscoveryRecord, id: nat, r: Lookup)
    requires
        call_ensures(plan_lookup, (&record,), r),
        id <= u64::MAX,
    ensures
        ({
            let fields = record.fields@;
            let kind = record::field(fields, "contentKind"@);
            let named = record::field(fields, "tmdbid"@);
            let title = record::field(fields, "title"@);
            let as_kind = if kind == Some("movie"@) {
                TmdbKind::Movie
            } else {
                TmdbKind::Tv
            };
            &&& kind != Some("movie"@) && kind != Some("episode"@) ==> r is Nowhere
            &&& kind == Some("movie"@) || kind == Some("episode"@) ==> {
                &&& named == Some(number::decimal(id)) ==> r == (Lookup::ById {
                    kind: as_kind,
                    tmdbid: id as u64,
                })
                &&& named is None && title is Some && !text::is_blank(title->0) ==> (
                r matches Lookup::ByTitle { kind: k, raw_title } && k == as_kind && raw_title@
                    == text::trim(title->0))
                &&& named is None && (title is None || text::is_blank(title->0)) ==> r is Nowhere
            }
        }),
{
    reveal_strlit("movie");
    reveal_strlit("episode");
    assert("movie"@.len() != "episode"@.len());
    let s = number::decimal(id);
    number::lemma_decimal_digits(id);
    number::decimal_reads_back(id, u64::MAX as nat);
    assert(text::is_digit(s[0]));
    assert(text::is_digit(s[s.len() - 1]));
    text::trimming_takes_white_space_only(s, 0);
}

/// A title is searched under the kind of its record, then under the other kind,
/// then no more. An entry is taken under the kind under which it was found, and an
/// empty title is not searched at all.
pub proof fn search_tries_both_kinds(
    title: &str,
    kind: TmdbKind,
    asked: TmdbKind,
    found: Option<TmdbHit>,
    start: SearchStep,
    r: SearchStep,
)
    requires
        call_ensures(begin_search, (title, kind), start),
        call_ensures(after_search, (kind, asked, found), r),
    ensures
        title@.len() == 0 ==> start is GiveUp,
        title@.len() > 0 ==> start == SearchStep::Ask(kind),
        found matches Some(h) ==> r == SearchStep::Found(h, asked),
        found is None && asked == kind && kind == TmdbKind::Movie ==> r == SearchStep::Ask(
            TmdbKind::Tv,
        ),
        found is None && asked == kind && kind == TmdbKind::Tv ==> r == SearchStep::Ask(
            TmdbKind::Movie,
        ),
        found is None && asked != kind ==> r is GiveUp,
{
}

/// A cached search is answered from the cache, one that is under way is joined,
/// and only then is TMDB asked. The text `null` stands for nothing found.
pub proof fn searches_are_answered_from_the_cache(
    text: &str,
    parsed: Option<TmdbHit>,
    under_way: bool,
    r: SearchSource,
    uncached: SearchSource,
)
    requires
        call_ensures(search_source, (Some((text, parsed)), under_way), r),
        call_ensures(search_source, (None, under_way), uncached),
    ensures
        text@ == "null"@ ==> r == SearchSource::Answer(None),
        text@ != "null"@ ==> r == SearchSource::Answer(parsed),
        under_way ==> uncached is Join,
        !under_way ==> uncached is Lead,
{
}

/// A reply gives what it found, and asks for a pause only where TMDB did. An entry
/// is written to the cache as found, a miss as nothing found, and a search without
/// a reply not at all.
pub proof fn replies_are_settled(hit: TmdbHit, secs: u64)
    ensures
        found_by(Some(TmdbCall::Hit(hit))) == Some(hit),
        found_by(Some(TmdbCall::<TmdbHit>::Miss)) is None,
        found_by(Some(TmdbCall::<TmdbHit>::RateLimited(secs))) is None,
        found_by::<TmdbHit>(None) is None,
        pause_after(Some(TmdbCall::Hit(hit))) is None,
        pause_after(Some(TmdbCall::<TmdbHit>::Miss)) is None,
        pause_after(Some(TmdbCall::<TmdbHit>::RateLimited(secs))) == Some(secs),
        pause_after::<TmdbHit>(None) is None,
        cache_write(Some(TmdbCall::Hit(hit))) == CacheWrite::Found,
        cache_write(Some(TmdbCall::Miss)) == CacheWrite::NotFound,
        cache_write(Some(TmdbCall::RateLimited(secs))) == CacheWrite::Nothing,
        cache_write(None) == CacheWrite::Nothing,
{
}

/// Cached details of a show serve again if they tell its name, and else do not.
pub proof fn cached_details_serve_if_named(
    details: TmdbTvDetails,
    r: Option<TmdbTvDetails>,
    none: Option<TmdbTvDetails>,
)
    requires
        call_ensures(usable_details, (Some(details),), r),
        call_ensures(usable_details, (None,), none),
    ensures
        text::is_blank(details.name@) ==> r is None,
        !text::is_blank(details.name@) ==> r == Some(details),
        none is None,
{
}

/// Made-up fields are given only where that is asked for, where enrichment left
/// the record as it was, and where the record has a title and would not be shown.
pub proof fn stubs_are_the_last_resort(
    outcome: EnrichOutcome,
    record: DiscoveryRecord,
    enabled: bool,
    r: EnrichOutcome,
)
    requires
        call_ensures(or_stub, (outcome, &record, enabled), r),
    ensures
        !enabled || !(outcome@ is Noop) ==> r@ == outcome@,
        !is_filled(record.fields@, "title"@) || passes_gate(record.fields@) ==> r@ == outcome@,
        enabled && outcome@ is Noop && is_filled(record.fields@, "title"@) && !passes_gate(
            record.fields@,
        ) ==> passes_gate(patched(record.fields@, r@->set, r@->remove)) && r@ is Patch,
{
    stub_passes_the_gate(record.fields@);
}

/// The made-up fields: a record that is no video becomes a movie, unless it tells
/// another content kind, and what it lacks of poster and description is filled.
/// Nothing else is made up.
pub proof fn stub_fills_what_is_missing(fields: Map<Seq<char>, Seq<char>>, key: Seq<char>)
    ensures
        ({
            let stub = stub_fields(fields);
            &&& !is_video(fields) ==> record::field(stub, "fileType"@) == Some("video"@)
                && record::field(stub, "videoType"@) == Some("movie"@)
            &&& !is_video(fields) && record::field(fields, "contentKind"@) is None
                ==> record::field(stub, "contentKind"@) == Some("movie"@)
            &&& !is_filled(fields, "poster"@) ==> record::field(stub, "poster"@) == Some(
                "stub-no-tmdb-poster"@,
            )
            &&& !has_description(fields) ==> record::field(stub, "description"@) is Some
            &&& stub.contains_key(key) ==> key == "fileType"@ || key == "videoType"@ || key
                == "contentKind"@ || key == "poster"@ || key == "description"@
        }),
{
    record::lemma_field_names();
}

/// A consumer shows a record if it is a video, by its file type or by its video
/// type in any case, and has a poster and a description in either place, none of
/// them blank.
pub proof fn gate_asks_for_poster_and_description(fields: Map<Seq<char>, Seq<char>>)
    ensures
        passes_gate(fields) <==> {
            let file = record::field(fields, "fileType"@);
            let video = record::field(fields, "videoType"@);
            let poster = record::field(fields, "poster"@);
            let description = record::field(fields, "description"@);
            let plot = record::field(fields, "plot/eng"@);
            &&& {
                ||| file is Some && text::lower(file->0) == "video"@
                ||| video is Some && text::lower(video->0) == "movie"@
                ||| video is Some && text::lower(video->0) == "tvshow"@
                ||| video is Some && text::lower(video->0) == "episode"@
            }
            &&& poster is Some && !text::is_blank(poster->0)
            &&& {
                ||| description is Some && !text::is_blank(description->0)
                ||| plot is Some && !text::is_blank(plot->0)
            }
        },
{
    reveal_strlit("video");
    assert(text::lower("video"@) =~= "video"@);
}

/// A switch is on at `1`, `true`, `yes` and `on`, in any case and with white space
/// round it, and off at everything else.
pub proof fn switch_values(value: &str, r: bool)
    requires
        call_ensures(switch_is_on, (value,), r),
    ensures
        r <==> {
            let v = text::lower(text::trim(value@));
            v == "1"@ || v == "true"@ || v == "yes"@ || v == "on"@
        },
{
}

/// What a consumer is told of a withdrawn record, of one that stays as it is, and
/// of one that changed; a record stays unless it is withdrawn, and one that was
/// not looked up stays as it was.
pub proof fn consumer_is_told(
    before: RecordView,
    set: Map<Seq<char>, Seq<char>>,
    remove: Seq<Seq<char>>,
    image_base: Seq<char>,
)
    ensures
        stream_events(before, OutcomeView::Drop, image_base) == seq![
            EventView::Drop { record_id: before.record_id },
        ],
        !before.fields.contains_key("posterPath"@) ==> stream_events(
            before,
            OutcomeView::Noop,
            image_base,
        ) == Seq::<EventView>::empty() && kept_fields(before.fields, OutcomeView::Noop, image_base)
            == before.fields,
        !set.contains_key("posterPath"@) && !before.fields.contains_key("posterPath"@)
            && set.dom().len() > 0 && set.dom().finite() ==> stream_events(
            before,
            OutcomeView::Patch { set, remove },
            image_base,
        ) == seq![EventView::EnrichPatch { record_id: before.record_id, set, remove }],
        set.contains_key("posterPath"@) ==> stream_events(
            before,
            OutcomeView::Patch { set, remove },
            image_base,
        ).last() == (EventView::EnrichPatch {
            record_id: before.record_id,
            set: Map::empty().insert(
                "poster_url"@,
                tmdb::poster_url(image_base, set["posterPath"@]),
            ),
            remove: seq!["posterPath"@],
        }),
{
    let outcome = OutcomeView::Patch { set, remove };
    if !set.contains_key("posterPath"@) && !before.fields.contains_key("posterPath"@)
        && set.dom().len() > 0 && set.dom().finite() {
        assert(set.remove("posterPath"@) =~= set);
        assert(set != Map::<Seq<char>, Seq<char>>::empty());
        assert(stream_events(before, outcome, image_base) =~= seq![
            EventView::EnrichPatch { record_id: before.record_id, set, remove },
        ]);
    }
    if set.contains_key("posterPath"@) {
        assert(patched(before.fields, set, remove)["posterPath"@] == set["posterPath"@]);
    }
}

/// The anchors of a keyword are entries of its search that have at least half of
/// its words, the more popular first, and no more than thirty.
pub proof fn anchors_are_popular_entries(
    hits: Seq<TmdbMultiItem>,
    query: Seq<char>,
    r: Seq<(u64, TmdbKind)>,
    i: int,
    j: int,
)
    requires
        are_ranked_anchors(hits, query, r),
        0 <= i < j < r.len(),
    ensures
        r.len() <= 30,
        tmdb::tokens(query).len() > 0,
        exists|p: int, q: int|
            {
                &&& 0 <= p < hits.len() && 0 <= q < hits.len() && p != q
                &&& (#[trigger] hits[p]).id == r[i].0 && hits[p].spec_kind() == Some(r[i].1)
                &&& (#[trigger] hits[q]).id == r[j].0 && hits[q].spec_kind() == Some(r[j].1)
                &&& tmdb::is_candidate(hits[p], tmdb::tokens(query))
                &&& tmdb::is_candidate(hits[q], tmdb::tokens(query))
                &&& hits[p].popularity >= hits[q].popularity
                &&& hits[p].popularity == hits[q].popularity ==> p < q
            },
{
    let words = tmdb::tokens(query);
    let picked = choose|picked: Seq<int>| #[trigger]
        tmdb::is_top_n(hits, words, CACHED_PRINCIPAL_DEPTH as nat, picked) && are_anchors(
            hits,
            picked,
            r,
        );
    let p = picked[i];
    let q = picked[j];
    assert(r[i].0 == hits[p].id && r[j].0 == hits[q].id);
    tmdb::anchors_are_the_most_popular(
        hits,
        words,
        CACHED_PRINCIPAL_DEPTH as nat,
        picked,
        p,
        i,
        j,
    );
    tmdb::lemma_top_n_places(hits, words, CACHED_PRINCIPAL_DEPTH as nat, picked);
    assert(hits[p].id == r[i].0 && hits[q].id == r[j].0);
}

/// A keyword whose anchors are cached is answered from the cache, a keyword with
/// no key has none, and any other is asked for under its key.
pub proof fn anchors_come_from_the_cache_first(
    key: Option<String>,
    cached: Option<Option<Vec<PrincipalEntry>>>,
    n: usize,
    r: PrincipalStep,
)
    requires
        call_ensures(principal_step, (key, &cached, n), r),
    ensures
        key is None ==> (r matches PrincipalStep::Answer(list) && list@.len() == 0),
        key is Some && cached is Some ==> (r matches PrincipalStep::Answer(list) && list@
            == first_of(anchors_in(cached->0), n as nat)),
        key is Some && cached is None ==> (r matches PrincipalStep::Ask(k) && k@ == key->0@),
{
}

/// The key of a keyword ignores white space round it and case.
pub proof fn anchors_are_keyed_by_keyword(a: Seq<char>, b: Seq<char>, n: nat, m: nat)
    requires
        n > 0,
        m > 0,
        text::unicode_lowercase(text::trim(a)) == text::unicode_lowercase(text::trim(b)),
        text::trim(a).len() > 0,
        text::trim(b).len() > 0,
    ensures
        key_of(a, n) == key_of(b, m),
        key_of(a, n) matches Some(k) ==> k == text::unicode_lowercase(text::trim(a)) && k.len() > 0,
{
}

/// What becomes of a streamed record: without enrichment it is kept as it is and
/// nothing is told; a withdrawn one is not kept; any other is kept under its own
/// id with what enrichment changed.
pub proof fn streamed_record_is_kept(
    record: DiscoveryRecord,
    outcome: EnrichOutcome,
    client: TmdbClient,
    plain: Streamed,
    r: Streamed,
)
    requires
        call_ensures(stream_outcome, (record, None), plain),
        call_ensures(stream_outcome, (record, Some((outcome, &client))), r),
    ensures
        plain.events@.len() == 0,
        plain.kept matches Some(k) && k@ == record@,
        r.kept is None <==> outcome@ is Drop,
        r.kept matches Some(k) ==> {
            &&& k.upstream_id@ == record.upstream_id@
            &&& k.record_id@ == record.record_id@
            &&& k.fields@ == kept_fields(record.fields@, outcome@, client.image_base@)
        },
        record::event_views(r.events@) == stream_events(record@, outcome@, client.image_base@),
{
    assert(record::event_views(plain.events@).len() == plain.events@.len());
    if let Some(k) = r.kept {
        assert(k@.fields == k.fields@);
    }
}

/// An entry is applied to a record by what the record holds and by the entry, its
/// kind, the release title and the details of the show, as they are.
pub proof fn entries_are_applied(
    record: DiscoveryRecord,
    hit: TmdbHit,
    kind: TmdbKind,
    raw_title: Option<String>,
    details: Option<TmdbTvDetails>,
    r: EnrichOutcome,
    needed: bool,
    title: Option<String>,
)
    requires
        call_ensures(
            build_enrichment_patch,
            (&record, &hit, kind, &raw_title, &details),
            r,
        ),
        call_ensures(needs_tv_details, (&record, kind), needed),
        call_ensures(raw_title_of, (&record.fields,), title),
    ensures
        r@ == enrichment(record.fields@, hit@, kind, item::text_of(raw_title), details),
        needed <==> kind == TmdbKind::Tv && claimed(record.fields@, "season"@) is Some,
        title is Some <==> record.fields@.contains_key("title"@) && !text::is_blank(
            record.fields@["title"@],
        ),
        title matches Some(t) ==> t@ == text::trim(record.fields@["title"@]),
        hit@.tmdbid == hit.tmdbid,
        hit@.title == hit.title@,
        hit@.overview == item::text_of(hit.overview),
        hit@.year == hit.year,
        hit@.poster_path == item::text_of(hit.poster_path),
        hit@.original_title == item::text_of(hit.original_title),
        hit@.original_language == item::text_of(hit.original_language),
{
}

/// Asking TMDB for anchors gives as many as were asked for of those that it found,
/// keeps all that it found, and gives and keeps nothing where it found nothing.
pub proof fn anchors_are_kept_in_full(
    hits: Vec<TmdbMultiItem>,
    secs: u64,
    query: &str,
    n: usize,
    found: PrincipalReply,
    missed: PrincipalReply,
    limited: PrincipalReply,
)
    requires
        call_ensures(settle_principal, (Some(TmdbCall::Hit(hits)), query, n), found),
        call_ensures(settle_principal, (Some(TmdbCall::Miss), query, n), missed),
        call_ensures(settle_principal, (Some(TmdbCall::RateLimited(secs)), query, n), limited),
    ensures
        found.pause is None,
        found.write is Some,
        found.anchors@.len() <= n,
        found.write matches Some(w) ==> found.anchors@ == first_of(
            decoded_list(entry_views(w@)),
            n as nat,
        ) && are_ranked_anchors(hits@, query@, decoded_list(entry_views(w@))),
        missed.anchors@.len() == 0 && missed.write is None && missed.pause is None,
        limited.anchors@.len() == 0 && limited.write is None,
        limited.pause == Some(secs),
{
    let call = Some(TmdbCall::Hit(hits));
    assert(found_by(call) == Some(hits));
    let ranked = choose|ranked: Seq<(u64, TmdbKind)>| #[trigger]
        are_ranked_anchors(hits@, query@, ranked) && found.anchors@ == first_of(ranked, n as nat)
            && written(found.write) == Some(encoded_list(ranked));
    principal_list_reads_back(ranked);
    assert(found_by(Some(TmdbCall::<Vec<TmdbMultiItem>>::Miss)) is None);
    assert(found_by(Some(TmdbCall::<Vec<TmdbMultiItem>>::RateLimited(secs))) is None);
}

/// Made-up fields are offered to a record with a title that would not be shown,
/// and to no other; nothing is removed for them.
pub proof fn stub_is_offered_where_it_helps(fields: Fields, r: Option<EnrichOutcome>)
    requires
        call_ensures(build_stub_patch, (&fields,), r),
    ensures
        r is Some <==> is_filled(fields@, "title"@) && !passes_gate(fields@),
        r matches Some(o) ==> (o@ matches OutcomeView::Patch { set, remove } && set == stub_fields(
            fields@,
        ) && remove.len() == 0),
{
}

/// The cached form of a kind and its name stand for each other; other names stand
/// for none.
pub proof fn kinds_have_names(name: Seq<char>)
    ensures
        kind_named("movie"@) == Some(TmdbKind::Movie),
        kind_named("tv"@) == Some(TmdbKind::Tv),
        kind_named(name) is Some ==> name == "movie"@ || name == "tv"@,
        tmdb::segment(TmdbKind::Movie) == "movie"@,
        tmdb::segment(TmdbKind::Tv) == "tv"@,
{
    reveal_strlit("movie");
    reveal_strlit("tv");
    assert("movie"@.len() != "tv"@.len());
}

/// A kept list is read entry by entry, in order; an entry of no known kind is passed
/// over, and a list that could not be read is empty.
pub proof fn kept_anchors_are_read_in_order(
    entries: Seq<(u64, Seq<char>)>,
    id: u64,
    name: Seq<char>,
    list: Vec<PrincipalEntry>,
)
    ensures
        decoded_list(Seq::empty()) == Seq::<(u64, TmdbKind)>::empty(),
        name == "movie"@ ==> decoded_list(entries.push((id, name))) == decoded_list(entries).push(
            (id, TmdbKind::Movie),
        ),
        name == "tv"@ ==> decoded_list(entries.push((id, name))) == decoded_list(entries).push(
            (id, TmdbKind::Tv),
        ),
        name != "movie"@ && name != "tv"@ ==> decoded_list(entries.push((id, name)))
            == decoded_list(entries),
        anchors_in(Some(list)) == decoded_list(entry_views(list@)),
        anchors_in(None).len() == 0,
{
    reveal_strlit("movie");
    reveal_strlit("tv");
    assert("movie"@.len() != "tv"@.len());
    assert(entries.push((id, name)).drop_last() == entries);
}

/// An outcome is applied to the fields of a record: a change as it says, anything
/// else not at all; the record stays unless it is withdrawn.
pub proof fn outcomes_are_applied(record: &mut DiscoveryRecord, outcome: EnrichOutcome, r: bool)
    requires
        call_ensures(apply_outcome, (record, &outcome), r),
    ensures
        r <==> !(outcome@ is Drop),
        final(record)@.record_id == old(record)@.record_id,
        final(record)@.upstream_id == old(record)@.upstream_id,
        outcome@ matches OutcomeView::Patch { set, remove } ==> final(record)@.fields == patched(
            old(record)@.fields,
            set,
            remove,
        ),
        !(outcome@ is Patch) ==> final(record)@.fields == old(record)@.fields,
{
}

/// The path of a poster becomes its URL, at the client's address.
pub proof fn poster_paths_become_urls(record: &mut DiscoveryRecord, client: TmdbClient)
    requires
        call_ensures(set_poster_url, (record, &client), ()),
    ensures
        final(record)@.record_id == old(record)@.record_id,
        final(record)@.upstream_id == old(record)@.upstream_id,
        record::field(final(record)@.fields, "posterPath"@) is None,
        record::field(old(record)@.fields, "posterPath"@) matches Some(p) ==> record::field(
            final(record)@.fields,
            "poster_url"@,
        ) == Some(tmdb::poster_url(client.image_base@, p)),
        record::field(old(record)@.fields, "posterPath"@) is None ==> final(record)@.fields == old(
            record,
        )@.fields,
{
    record::lemma_field_names();
}

/// A search is kept under its kind, its title and its year.
pub proof fn search_key_form(title: Seq<char>, year: u16)
    ensures
        search_key(TmdbKind::Movie, title, None) == "m\u{1}"@ + title + "\u{1}"@,
        search_key(TmdbKind::Tv, title, None) == "t\u{1}"@ + title + "\u{1}"@,
        search_key(TmdbKind::Movie, title, Some(year)) == search_key(TmdbKind::Movie, title, None)
            + number::decimal(year as nat),
        search_key(TmdbKind::Tv, title, Some(year)) == search_key(TmdbKind::Tv, title, None)
            + number::decimal(year as nat),
{
    reveal_strlit("m\u{1}");
    reveal_strlit("t\u{1}");
    reveal_strlit("\u{1}");
    assert("m\u{1}"@ =~= seq!['m', '\u{1}']);
    assert("t\u{1}"@ =~= seq!['t', '\u{1}']);
    assert("\u{1}"@ =~= seq!['\u{1}']);
    assert(search_key(TmdbKind::Movie, title, None) =~= "m\u{1}"@ + title + "\u{1}"@);
    assert(search_key(TmdbKind::Tv, title, None) =~= "t\u{1}"@ + title + "\u{1}"@);
}

/// An id that is no number is passed over, and the title is looked up; a season or
/// an episode that is no number is not claimed. White space round them does not
/// matter.
pub proof fn unreadable_numbers_are_passed_over(
    record: DiscoveryRecord,
    r: Lookup,
    key: Seq<char>,
    id: nat,
)
    requires
        call_ensures(plan_lookup, (&record,), r),
        id <= u64::MAX,
    ensures
        ({
            let fields = record.fields@;
            let kind = record::field(fields, "contentKind"@);
            let looked_up = kind == Some("movie"@) || kind == Some("episode"@);
            let named = record::field(fields, "tmdbid"@);
            let title = record::field(fields, "title"@);
            &&& looked_up && named is Some && text::trim(named->0) == number::decimal(id)
                ==> r is ById && r->ById_tmdbid == id
            &&& looked_up && named is Some && number::parse_unsigned(
                text::trim(named->0),
                0xffff_ffff_ffff_ffff,
            ) is None && title is Some && !text::is_blank(title->0) ==> (
            r matches Lookup::ByTitle { kind: _, raw_title } && raw_title@ == text::trim(title->0))
            &&& record::field(fields, key) matches Some(s) ==> claimed(fields, key)
                == number::parse_signed(text::trim(s))
        }),
{
    reveal_strlit("movie");
    reveal_strlit("episode");
    assert("movie"@.len() != "episode"@.len());
    number::decimal_reads_back(id, u64::MAX as nat);
}

} // verus!
