//! The streaming search: which hits are sent, in which order, and when the
//! stream ends.

use vstd::prelude::*;

use crate::item;
use crate::item::{list_has, seeders_of, stream_key};
use crate::rank;
use crate::rank::rank_desc;
use crate::record;
use crate::record::{field_is, get_or, DiscoveryRecord, GatewayQuery, RecordView};
use crate::text;
use crate::text::{eq_ignoring_case, owned, push_str};

verus! {

/// Fewest local candidates that are asked for.
pub const LOCAL_CANDIDATE_FLOOR: usize = 100;

/// Quiet time after which the remote feed counts as exhausted, in nanoseconds.
pub const SSE_IDLE_EXHAUST_NANOS: u64 = 20_000_000_000;

/// Number of local candidates to ask for: five for each wanted result, and no
/// fewer than [`LOCAL_CANDIDATE_FLOOR`].
pub open spec fn window(max_results: nat) -> int {
    if 5 * max_results > usize::MAX {
        usize::MAX as int
    } else if 5 * max_results < LOCAL_CANDIDATE_FLOOR {
        LOCAL_CANDIDATE_FLOOR as int
    } else {
        (5 * max_results) as int
    }
}

/// Number of local candidates to ask for.
pub fn local_window(max_results: usize) -> (r: usize)
    ensures
        r == window(max_results as nat),
{
    let wide: usize = match max_results.checked_mul(5) {
        Some(n) => n,
        None => usize::MAX,
    };
    if wide < LOCAL_CANDIDATE_FLOOR {
        LOCAL_CANDIDATE_FLOOR
    } else {
        wide
    }
}

/// Time that is left to wait for the next result, after `idle` nanoseconds
/// without one; none where the feed is exhausted.
pub fn idle_left(idle: u128) -> (r: Option<u64>)
    ensures
        r is Some <==> idle < SSE_IDLE_EXHAUST_NANOS,
        r matches Some(left) ==> left + idle == SSE_IDLE_EXHAUST_NANOS,
{
    if idle >= SSE_IDLE_EXHAUST_NANOS as u128 {
        None
    } else {
        Some(SSE_IDLE_EXHAUST_NANOS - idle as u64)
    }
}

/// The seeder counts of a list of records.
pub open spec fn seeder_counts(records: Seq<RecordView>) -> Seq<int> {
    Seq::new(records.len(), |i: int| item::seeder_count(records[i].fields))
}

/// `out` holds the records of `records`, best-seeded first; records with the
/// same count keep their order.
pub open spec fn is_ranked(records: Seq<RecordView>, out: Seq<RecordView>) -> bool {
    exists|order: Seq<int>| #[trigger]
        rank::is_ranking(seeder_counts(records), order) && out == Seq::new(
            order.len(),
            |i: int| records[order[i]],
        )
}

/// Ranks local candidates by health: best-seeded first.
pub fn rank_by_seeders(records: &Vec<DiscoveryRecord>) -> (r: Vec<DiscoveryRecord>)
    ensures
        is_ranked(record::record_views(records@), record::record_views(r@)),
{
    let ghost all = record::record_views(records@);
    let n: usize = records.len();
    let mut counts: Vec<i64> = Vec::new();
    let mut i: usize = 0;
    while i < n
        invariant
            n == records@.len(),
            all == record::record_views(records@),
            i <= n,
            rank::ints(counts@) == seeder_counts(all).take(i as int),
        decreases n - i,
    {
        let ghost done = rank::ints(counts@);
        counts.push(seeders_of(&records[i]));
        assert(rank::ints(counts@) == done.push(item::seeder_count(all[i as int].fields)));
        i += 1;
    }
    assert(rank::ints(counts@) == seeder_counts(all));
    let order = rank_desc(&counts);
    let ghost places = rank::positions(order@);
    let mut out: Vec<DiscoveryRecord> = Vec::new();
    let mut k: usize = 0;
    let ghost wanted = Seq::new(places.len(), |i: int| all[places[i]]);
    while k < order.len()
        invariant
            n == records@.len(),
            all == record::record_views(records@),
            places == rank::positions(order@),
            rank::is_ranking(seeder_counts(all), places),
            wanted == Seq::new(places.len(), |i: int| all[places[i]]),
            k <= order@.len(),
            record::record_views(out@) == wanted.take(k as int),
        decreases order@.len() - k,
    {
        assert(0 <= places[k as int] < n);
        let rec = records[order[k]].clone();
        let ghost done = record::record_views(out@);
        let ghost added = rec@;
        out.push(rec);
        assert(record::record_views(out@) == done.push(added));
        k += 1;
    }
    assert(record::record_views(out@) == wanted);
    out
}

/// The query asks for video.
pub open spec fn asks_for_video(query: GatewayQuery) -> bool {
    let values = query.filter("fileType"@);
    exists|i: int| 0 <= i < values.len() && text::same_ignoring_case(#[trigger] values[i], "video"@)
}

/// Tests whether the query asks for video, so that hits are unpacked.
pub fn wants_video(query: &GatewayQuery) -> (r: bool)
    ensures
        r == asks_for_video(*query),
{
    match query.filters.get("fileType") {
        Some(values) => {
            let ghost views = text::string_views(values@);
            let n: usize = values.len();
            let mut i: usize = 0;
            while i < n
                invariant
                    n == values@.len(),
                    views == text::string_views(values@),
                    views == query.filter("fileType"@),
                    i <= n,
                    forall|j: int|
                        0 <= j < i ==> !text::same_ignoring_case(#[trigger] views[j], "video"@),
                decreases n - i,
            {
                if eq_ignoring_case(values[i].as_str(), "video") {
                    assert(text::same_ignoring_case(views[i as int], "video"@));
                    return true;
                }
                i += 1;
            }
            false
        },
        None => false,
    }
}

/// The name by which a record's season, episode and languages are read.
pub open spec fn parse_source(fields: Map<Seq<char>, Seq<char>>) -> Seq<char> {
    record::field_or(fields, "fileName"@, "title"@)
}

/// The name by which a record's season, episode and languages are read: that of
/// the file, else the title.
pub fn parse_source_of(rec: &DiscoveryRecord) -> (r: String)
    ensures
        r@ == parse_source(rec.fields@),
{
    get_or(&rec.fields, "fileName", "title")
}

/// The fields with one `languages/` member for each language, where there is
/// none yet.
pub open spec fn with_languages(
    fields: Map<Seq<char>, Seq<char>>,
    languages: Seq<Seq<char>>,
) -> Map<Seq<char>, Seq<char>>
    decreases languages.len(),
{
    if languages.len() == 0 {
        fields
    } else {
        let before = with_languages(fields, languages.drop_last());
        let key = "languages/"@ + languages.last();
        if before.contains_key(key) {
            before
        } else {
            before.insert(key, "true"@)
        }
    }
}

/// Marks a record with the languages that were found in its name.
pub fn stamp_languages(rec: &mut DiscoveryRecord, languages: &Vec<String>)
    ensures
        final(rec)@ == (RecordView {
            fields: with_languages(old(rec).fields@, text::string_views(languages@)),
            ..old(rec)@
        }),
{
    let ghost start = rec@;
    let ghost all = text::string_views(languages@);
    let n: usize = languages.len();
    let mut i: usize = 0;
    while i < n
        invariant
            n == languages@.len(),
            all == text::string_views(languages@),
            i <= n,
            rec.upstream_id@ == start.upstream_id,
            rec.record_id@ == start.record_id,
            rec.fields@ == with_languages(start.fields, all.take(i as int)),
        decreases n - i,
    {
        proof {
            assert(all.take(i + 1).drop_last() == all.take(i as int));
            assert(all.take(i + 1).last() == languages@[i as int]@);
        }
        let mut key = owned("languages/");
        push_str(&mut key, languages[i].as_str());
        rec.fields.insert_if_absent(key.as_str(), owned("true"));
        i += 1;
    }
    assert(all.take(n as int) == all);
}

/// The season and the episode that were found in a name.
#[derive(Debug)]
pub struct SeasonEpisode {
    pub season: Option<String>,
    pub episode: Option<String>,
}

/// The fields of a hit as it is sent. A hit without a content kind is an
/// episode where a season or an episode was found in its name, else a movie;
/// an episode gets the numbers that were found, where it has none.
pub open spec fn sent_fields(
    fields: Map<Seq<char>, Seq<char>>,
    season: Option<Seq<char>>,
    episode: Option<Seq<char>>,
) -> Map<Seq<char>, Seq<char>> {
    let kinded = if fields.contains_key("contentKind"@) {
        fields
    } else if season is Some || episode is Some {
        fields.insert("contentKind"@, "episode"@)
    } else {
        fields.insert("contentKind"@, "movie"@)
    };
    if kinded["contentKind"@] != "episode"@ {
        kinded
    } else {
        let numbered = record::with_some(
            kinded,
            "episode"@,
            if kinded.contains_key("episode"@) {
                None
            } else {
                episode
            },
        );
        record::with_some(
            numbered,
            "season"@,
            if numbered.contains_key("season"@) {
                None
            } else {
                season
            },
        )
    }
}

/// Prepares a hit for sending. `found` is what was found in its
/// [`parse_source_of`].
pub fn prepare_hit(rec: DiscoveryRecord, found: &SeasonEpisode) -> (r: DiscoveryRecord)
    ensures
        r@ == (RecordView {
            fields: sent_fields(
                rec.fields@,
                item::text_of(found.season),
                item::text_of(found.episode),
            ),
            ..rec@
        }),
{
    let mut out = rec;
    if !out.fields.contains_key("contentKind") {
        if found.season.is_some() || found.episode.is_some() {
            out.fields.insert("contentKind", owned("episode"));
        } else {
            out.fields.insert("contentKind", owned("movie"));
        }
    }
    if field_is(&out.fields, "contentKind", "episode") {
        if let Some(e) = &found.episode {
            out.fields.insert_if_absent("episode", owned(e.as_str()));
        }
        if let Some(s) = &found.season {
            out.fields.insert_if_absent("season", owned(s.as_str()));
        }
    }
    out
}

/// Preparing a hit overwrites nothing: every field that it had it keeps. After
/// it the hit has a content kind, and a movie gets no season and no episode.
pub proof fn preparing_keeps_fields(
    fields: Map<Seq<char>, Seq<char>>,
    season: Option<Seq<char>>,
    episode: Option<Seq<char>>,
)
    ensures
        forall|key: Seq<char>| #[trigger]
            fields.contains_key(key) ==> record::field(sent_fields(fields, season, episode), key)
                == Some(fields[key]),
        sent_fields(fields, season, episode).contains_key("contentKind"@),
        sent_fields(fields, season, episode)["contentKind"@] != "episode"@ ==> {
            &&& sent_fields(fields, season, episode).contains_key("season"@)
                == fields.contains_key("season"@)
            &&& sent_fields(fields, season, episode).contains_key("episode"@)
                == fields.contains_key("episode"@)
        },
{
    reveal_strlit("contentKind");
    reveal_strlit("episode");
    reveal_strlit("season");
    assert("contentKind"@[0] == 'c');
    assert("episode"@[0] == 'e');
    assert("season"@[0] == 's');
}

/// Marking languages overwrites nothing, and every language gets its member.
pub proof fn languages_are_all_marked(
    fields: Map<Seq<char>, Seq<char>>,
    languages: Seq<Seq<char>>,
)
    ensures
        forall|key: Seq<char>| #[trigger]
            fields.contains_key(key) ==> record::field(with_languages(fields, languages), key)
                == Some(fields[key]),
        forall|i: int|
            0 <= i < languages.len() ==> with_languages(fields, languages).contains_key(
                "languages/"@ + #[trigger] languages[i],
            ),
    decreases languages.len(),
{
    if languages.len() > 0 {
        let init = languages.drop_last();
        languages_are_all_marked(fields, init);
        let before = with_languages(fields, init);
        assert forall|key: Seq<char>| #[trigger] fields.contains_key(key) implies record::field(
            with_languages(fields, languages),
            key,
        ) == Some(fields[key]) by {
            assert(record::field(before, key) == Some(fields[key]));
        }
        assert forall|i: int| 0 <= i < languages.len() implies with_languages(
            fields,
            languages,
        ).contains_key("languages/"@ + #[trigger] languages[i]) by {
            if i < init.len() {
                assert(init[i] == languages[i]);
                assert(before.contains_key("languages/"@ + init[i]));
            }
        }
    }
}

/// The hits that a stream sent so far, by their keys, and how many it may send.
#[derive(Debug)]
pub struct HitStream {
    sent: Vec<String>,
    max_results: usize,
}

/// What a [`HitStream`] holds.
#[verifier::ext_equal]
pub struct StreamView {
    pub sent: Seq<Seq<char>>,
    pub max_results: nat,
}

/// What becomes of a hit that is offered to a stream.
#[derive(Clone, Copy, Debug, PartialEq, Eq, Structural)]
pub enum Verdict {
    /// The stream has all its results.
    Full,
    /// The hit does not match the query, or was sent before.
    Skip,
    /// The hit is to be sent.
    Send,
}

impl View for HitStream {
    type V = StreamView;

    closed spec fn view(&self) -> StreamView {
        StreamView {
            sent: text::string_views(self.sent@),
            max_results: self.max_results as nat,
        }
    }
}

/// A stream that sent nothing twice and no more than it may.
pub open spec fn is_sound(s: StreamView) -> bool {
    item::no_repeats(s.sent) && s.sent.len() <= s.max_results
}

/// What becomes of a hit with the given key.
pub open spec fn verdict(s: StreamView, key: Seq<char>, matches_query: bool) -> Verdict {
    if s.sent.len() >= s.max_results {
        Verdict::Full
    } else if !matches_query || s.sent.contains(key) {
        Verdict::Skip
    } else {
        Verdict::Send
    }
}

/// The stream after a hit was offered.
pub open spec fn offered(s: StreamView, key: Seq<char>, matches_query: bool) -> StreamView {
    if verdict(s, key, matches_query) == Verdict::Send {
        StreamView { sent: s.sent.push(key), ..s }
    } else {
        s
    }
}

impl HitStream {
    #[verifier::type_invariant]
    spec fn sound(self) -> bool {
        is_sound(self@)
    }

    /// A stream that may send `max_results` hits.
    pub fn new(max_results: usize) -> (r: Self)
        ensures
            r@ == (StreamView { sent: Seq::empty(), max_results: max_results as nat }),
    {
        let sent: Vec<String> = Vec::new();
        assert(text::string_views(sent@) == Seq::<Seq<char>>::empty());
        HitStream { sent, max_results }
    }

    /// How many hits the stream may send.
    pub fn limit(&self) -> (r: usize)
        ensures
            r == self@.max_results,
    {
        self.max_results
    }

    /// Tests whether the stream has all its results.
    pub fn is_full(&self) -> (r: bool)
        ensures
            r == (self@.sent.len() >= self@.max_results),
            is_sound(self@),
    {
        proof {
            use_type_invariant(self);
        }
        self.sent.len() >= self.max_results
    }

    /// Offers a hit. `matches_query` tells whether it meets the structured
    /// filters of the query.
    pub fn offer(&mut self, rec: &DiscoveryRecord, matches_query: bool) -> (r: Verdict)
        ensures
            r == verdict(old(self)@, item::dedup_key(rec@), matches_query),
            final(self)@ == offered(old(self)@, item::dedup_key(rec@), matches_query),
            is_sound(final(self)@),
    {
        proof {
            use_type_invariant(&*self);
        }
        if self.sent.len() >= self.max_results {
            return Verdict::Full;
        }
        if !matches_query {
            return Verdict::Skip;
        }
        let key = stream_key(rec);
        if list_has(&self.sent, key.as_str()) {
            return Verdict::Skip;
        }
        let ghost before = self@.sent;
        let mut sent: Vec<String> = Vec::new();
        std::mem::swap(&mut sent, &mut self.sent);
        sent.push(key);
        assert(text::string_views(sent@) == before.push(key@));
        self.sent = sent;
        Verdict::Send
    }
}

/// The stream after a list of hits was offered, each with its key and whether
/// it matched.
pub open spec fn offered_all(s: StreamView, hits: Seq<(Seq<char>, bool)>) -> StreamView
    decreases hits.len(),
{
    if hits.len() == 0 {
        s
    } else {
        let before = offered_all(s, hits.drop_last());
        offered(before, hits.last().0, hits.last().1)
    }
}

/// Whatever hits are offered to a stream, it sends none twice, no more than it
/// may, and only hits that match; what it sent it keeps.
pub proof fn stream_sends_each_hit_once(s: StreamView, hits: Seq<(Seq<char>, bool)>)
    requires
        is_sound(s),
    ensures
        is_sound(offered_all(s, hits)),
        offered_all(s, hits).max_results == s.max_results,
        s.sent.is_prefix_of(offered_all(s, hits).sent),
        forall|key: Seq<char>| #[trigger]
            offered_all(s, hits).sent.contains(key) ==> s.sent.contains(key) || hits.contains(
                (key, true),
            ),
    decreases hits.len(),
{
    if hits.len() > 0 {
        let init = hits.drop_last();
        stream_sends_each_hit_once(s, init);
        let before = offered_all(s, init);
        let after = offered_all(s, hits);
        assert forall|key: Seq<char>| #[trigger]
            after.sent.contains(key) implies s.sent.contains(key) || hits.contains((key, true)) by {
            let i = choose|i: int| 0 <= i < after.sent.len() && after.sent[i] == key;
            if i < before.sent.len() {
                assert(before.sent[i] == key);
                assert(before.sent.contains(key));
                if init.contains((key, true)) {
                    let j = choose|j: int| 0 <= j < init.len() && init[j] == (key, true);
                    assert(hits[j] == (key, true));
                }
            } else {
                assert(hits[hits.len() - 1] == (key, true));
            }
        }
    }
}

/// A stream that is not full sends every matching hit that it did not send yet.
pub proof fn stream_sends_new_matches(s: StreamView, key: Seq<char>)
    requires
        s.sent.len() < s.max_results,
        !s.sent.contains(key),
    ensures
        verdict(s, key, true) == Verdict::Send,
        offered(s, key, true).sent == s.sent.push(key),
{
}

/// A hit that tells no content kind is sent as an episode where a season or an
/// episode was found in its name, and as a movie where neither was. A hit that is
/// sent as an episode has the season and the episode that were found, where it
/// had none of its own; nothing else is added to a hit.
pub proof fn hit_is_sent_as_what_was_found(
    fields: Map<Seq<char>, Seq<char>>,
    season: Option<Seq<char>>,
    episode: Option<Seq<char>>,
    key: Seq<char>,
)
    ensures
        ({
            let sent = sent_fields(fields, season, episode);
            let kind = record::field(sent, "contentKind"@);
            &&& record::field(fields, "contentKind"@) is None ==> (kind == Some("episode"@) <==> (
            season is Some || episode is Some))
            &&& record::field(fields, "contentKind"@) is None ==> (kind == Some("movie"@) <==> (
            season is None && episode is None))
            &&& record::field(fields, "contentKind"@) is Some ==> kind == record::field(
                fields,
                "contentKind"@,
            )
            &&& kind == Some("episode"@) && record::field(fields, "season"@) is None
                ==> record::field(sent, "season"@) == season
            &&& kind == Some("episode"@) && record::field(fields, "episode"@) is None
                ==> record::field(sent, "episode"@) == episode
            &&& kind != Some("episode"@) ==> record::field(sent, "season"@) == record::field(
                fields,
                "season"@,
            ) && record::field(sent, "episode"@) == record::field(fields, "episode"@)
            &&& key != "contentKind"@ && key != "season"@ && key != "episode"@ ==> record::field(
                sent,
                key,
            ) == record::field(fields, key)
        }),
{
    record::lemma_field_names();
    reveal_strlit("movie");
    assert("movie"@[0] == 'm' && "episode"@[0] == 'e');
}

/// A language that was found is marked with `true` under its name; marking adds
/// no other field.
pub proof fn only_found_languages_are_marked(
    fields: Map<Seq<char>, Seq<char>>,
    languages: Seq<Seq<char>>,
    key: Seq<char>,
)
    ensures
        !fields.contains_key(key) && with_languages(fields, languages).contains_key(key) ==> {
            &&& with_languages(fields, languages)[key] == "true"@
            &&& exists|i: int|
                0 <= i < languages.len() && key == "languages/"@ + #[trigger] languages[i]
        },
    decreases languages.len(),
{
    if languages.len() > 0 {
        let init = languages.drop_last();
        only_found_languages_are_marked(fields, init, key);
        if !fields.contains_key(key) && with_languages(fields, languages).contains_key(key) {
            if with_languages(fields, init).contains_key(key) {
                let i = choose|i: int|
                    0 <= i < init.len() && key == "languages/"@ + #[trigger] init[i];
                assert(languages[i] == init[i]);
            } else {
                assert(key == "languages/"@ + languages[languages.len() - 1]);
            }
        }
    }
}

/// The languages of a hit are read from its file name where it has one, else from
/// its title; so are its season and episode.
pub proof fn file_name_is_read_before_title(fields: Map<Seq<char>, Seq<char>>)
    ensures
        record::field(fields, "fileName"@) matches Some(name) ==> parse_source(fields) == name,
        record::field(fields, "fileName"@) is None ==> (record::field(
            fields,
            "title"@,
        ) matches Some(t) ==> parse_source(fields) == t),
        record::field(fields, "fileName"@) is None && record::field(fields, "title"@) is None
            ==> parse_source(fields).len() == 0,
{
}

/// At least a hundred local candidates are asked for, and at least five for each
/// wanted result as far as a machine word can tell; and no more than that.
pub proof fn window_is_five_fold(max_results: nat)
    requires
        max_results <= usize::MAX,
    ensures
        100 <= window(max_results) <= usize::MAX,
        window(max_results) >= 5 * max_results || window(max_results) == usize::MAX,
        window(max_results) <= 100 || window(max_results) <= 5 * max_results,
{
}

/// The feed is waited for until twenty seconds without a result have passed.
pub proof fn feed_is_given_twenty_seconds(idle: u128, r: Option<u64>)
    requires
        call_ensures(idle_left, (idle,), r),
    ensures
        idle >= 20_000_000_000 ==> r is None,
        idle < 20_000_000_000 ==> r is Some && r->0 + idle == 20_000_000_000,
{
}

/// Hits are ranked by seeders: none comes before one with more, those with equally
/// many keep their order, and none is lost or doubled.
pub proof fn ranked_hits_are_by_seeders(
    records: Seq<RecordView>,
    out: Seq<RecordView>,
    i: int,
    j: int,
)
    requires
        is_ranked(records, out),
        0 <= i < j < out.len(),
    ensures
        out.len() == records.len(),
        item::seeder_count(out[i].fields) >= item::seeder_count(out[j].fields),
        exists|p: int, q: int|
            {
                &&& 0 <= p < records.len() && 0 <= q < records.len() && p != q
                &&& out[i] == #[trigger] records[p] && out[j] == #[trigger] records[q]
                &&& item::seeder_count(out[i].fields) == item::seeder_count(out[j].fields) ==> p < q
            },
{
    let counts = seeder_counts(records);
    let order = choose|order: Seq<int>| #[trigger]
        rank::is_ranking(counts, order) && out == Seq::new(
            order.len(),
            |i: int| records[order[i]],
        );
    let p = order[i];
    let q = order[j];
    assert(rank::before(counts, p, q));
    assert(out[i] == records[p] && out[j] == records[q]);
}

/// Every hit is ranked.
pub proof fn every_hit_is_ranked(records: Seq<RecordView>, out: Seq<RecordView>, p: int)
    requires
        is_ranked(records, out),
        0 <= p < records.len(),
    ensures
        out.contains(records[p]),
{
    let counts = seeder_counts(records);
    let order = choose|order: Seq<int>| #[trigger]
        rank::is_ranking(counts, order) && out == Seq::new(
            order.len(),
            |i: int| records[order[i]],
        );
    rank::ranking_covers(counts, order, p);
    let i = choose|i: int| 0 <= i < order.len() && order[i] == p;
    assert(out[i] == records[p]);
}

/// A hit is sent if and only if it matches the query, was not sent before, and
/// the stream is not full; what is not sent changes nothing.
pub proof fn what_is_sent(s: StreamView, key: Seq<char>, matches_query: bool)
    requires
        is_sound(s),
    ensures
        verdict(s, key, matches_query) == Verdict::Send <==> matches_query && s.sent.len()
            < s.max_results && !s.sent.contains(key),
        offered(s, key, matches_query).max_results == s.max_results,
        offered(s, key, matches_query).sent == (if matches_query && s.sent.len() < s.max_results
            && !s.sent.contains(key) {
            s.sent.push(key)
        } else {
            s.sent
        }),
        s.sent.len() <= s.max_results,
{
}

/// A query asks for video if its file type filter has the value `video`, in any
/// case, among others or alone.
pub proof fn video_is_asked_for_by_filter(query: GatewayQuery, i: int)
    ensures
        0 <= i < query.filter("fileType"@).len() && text::lower(query.filter("fileType"@)[i])
            == "video"@ ==> asks_for_video(query),
        asks_for_video(query) ==> exists|j: int|
            0 <= j < query.filter("fileType"@).len() && text::lower(
                #[trigger] query.filter("fileType"@)[j],
            ) == "video"@,
{
    reveal_strlit("video");
    assert(text::lower("video"@) =~= "video"@);
    let values = query.filter("fileType"@);
    if 0 <= i < values.len() && text::lower(values[i]) == "video"@ {
        assert(text::same_ignoring_case(values[i], "video"@));
    }
    if asks_for_video(query) {
        let j = choose|j: int|
            0 <= j < values.len() && text::same_ignoring_case(#[trigger] values[j], "video"@);
        assert(text::lower(query.filter("fileType"@)[j]) == "video"@);
    }
}

/// A prepared hit is the hit, with what was found in its name: its season as the
/// season and its episode as the episode.
pub proof fn prepared_hit_has_what_was_found(
    rec: DiscoveryRecord,
    found: SeasonEpisode,
    r: DiscoveryRecord,
)
    requires
        call_ensures(prepare_hit, (rec, &found), r),
    ensures
        r.upstream_id@ == rec.upstream_id@,
        r.record_id@ == rec.record_id@,
        record::field(r.fields@, "contentKind"@) == Some("episode"@) ==> {
            &&& record::field(rec.fields@, "season"@) is None ==> record::field(
                r.fields@,
                "season"@,
            ) == item::text_of(found.season)
            &&& record::field(rec.fields@, "episode"@) is None ==> record::field(
                r.fields@,
                "episode"@,
            ) == item::text_of(found.episode)
        },
        record::field(rec.fields@, "contentKind"@) is None ==> (record::field(
            r.fields@,
            "contentKind"@,
        ) == Some("episode"@) <==> found.season is Some || found.episode is Some),
{
    hit_is_sent_as_what_was_found(
        rec.fields@,
        item::text_of(found.season),
        item::text_of(found.episode),
        "title"@,
    );
}

/// A stream starts with nothing sent. It is full once it sent as many hits as it
/// may.
pub proof fn stream_is_full_at_its_limit(
    max_results: usize,
    fresh: HitStream,
    s: HitStream,
    limit: usize,
    full: bool,
)
    requires
        call_ensures(HitStream::new, (max_results,), fresh),
        call_ensures(HitStream::limit, (&s,), limit),
        call_ensures(HitStream::is_full, (&s,), full),
    ensures
        fresh@.sent.len() == 0,
        fresh@.max_results == max_results,
        limit == s@.max_results,
        full <==> s@.sent.len() == s@.max_results,
{
}

/// Marking languages changes the fields of a record and nothing else of it.
pub proof fn marking_keeps_the_record(rec: &mut DiscoveryRecord, languages: Vec<String>, i: int)
    requires
        call_ensures(stamp_languages, (rec, &languages), ()),
        0 <= i < languages@.len(),
    ensures
        final(rec).upstream_id@ == old(rec).upstream_id@,
        final(rec).record_id@ == old(rec).record_id@,
        final(rec).fields@ == with_languages(old(rec).fields@, text::string_views(languages@)),
        final(rec).fields@.contains_key("languages/"@ + languages@[i]@),
{
    let all = text::string_views(languages@);
    languages_are_all_marked(old(rec).fields@, all);
    assert(all[i] == languages@[i]@);
    assert(final(rec)@.fields == final(rec).fields@);
    assert(final(rec)@.record_id == final(rec).record_id@);
    assert(final(rec)@.upstream_id == final(rec).upstream_id@);
}

/// A record is offered by the content id of its file where it has one, else by its
/// own id, and is sent if that was not sent before.
pub proof fn records_are_offered_by_key(
    stream: &mut HitStream,
    rec: DiscoveryRecord,
    matches_query: bool,
    r: Verdict,
)
    requires
        call_ensures(HitStream::offer, (stream, &rec, matches_query), r),
        is_sound(old(stream)@),
    ensures
        ({
            let key = match record::field(rec.fields@, "cid_btih_v1_file"@) {
                Some(cid) => cid,
                None => rec.record_id@,
            };
            let room = old(stream)@.sent.len() < old(stream)@.max_results;
            let sends = matches_query && room && !old(stream)@.sent.contains(key);
            &&& r == Verdict::Send <==> sends
            &&& r == Verdict::Full <==> !room
            &&& sends ==> final(stream)@.sent == old(stream)@.sent.push(key)
            &&& !sends ==> final(stream)@.sent == old(stream)@.sent
            &&& final(stream)@.max_results == old(stream)@.max_results
        }),
{
}

} // verus!
