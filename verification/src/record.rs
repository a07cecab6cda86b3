//! Records, queries, search events and resolve outcomes as they travel between
//! the feeder and the gateway.

use vstd::prelude::*;

use crate::keymap::{Fields, Filters};
use crate::text;
use crate::text::{blank, owned, push_str};

verus! {

/// One discovered entry: where it comes from, its id there, and its fields.
#[derive(Debug)]
pub struct DiscoveryRecord {
    pub upstream_id: String,
    pub record_id: String,
    pub fields: Fields,
}

/// What a [`DiscoveryRecord`] holds.
#[verifier::ext_equal]
pub struct RecordView {
    pub upstream_id: Seq<char>,
    pub record_id: Seq<char>,
    pub fields: Map<Seq<char>, Seq<char>>,
}

impl View for DiscoveryRecord {
    type V = RecordView;

    open spec fn view(&self) -> RecordView {
        RecordView {
            upstream_id: self.upstream_id@,
            record_id: self.record_id@,
            fields: self.fields@,
        }
    }
}

impl Clone for DiscoveryRecord {
    fn clone(&self) -> (r: Self)
        ensures
            r@ == self@,
    {
        DiscoveryRecord {
            upstream_id: owned(self.upstream_id.as_str()),
            record_id: owned(self.record_id.as_str()),
            fields: self.fields.clone(),
        }
    }
}

/// The views of a list of records.
pub open spec fn record_views(v: Seq<DiscoveryRecord>) -> Seq<RecordView> {
    Seq::new(v.len(), |i: int| v[i]@)
}

/// A search request: free text and structured filters.
#[derive(Debug)]
pub struct GatewayQuery {
    pub free_text: String,
    pub filters: Filters,
}

impl GatewayQuery {
    /// The values of a filter.
    pub open spec fn filter(&self, key: Seq<char>) -> Seq<Seq<char>> {
        if self.filters@.contains_key(key) {
            text::string_views(self.filters@[key])
        } else {
            Seq::empty()
        }
    }

    /// The free text, or `*` where there is none.
    pub fn free_text_or_star(&self) -> (r: &str)
        ensures
            r@ == (if text::is_blank(self.free_text@) {
                "*"@
            } else {
                self.free_text@
            }),
    {
        if blank(self.free_text.as_str()) {
            "*"
        } else {
            self.free_text.as_str()
        }
    }
}

/// One event of a streaming search.
#[derive(Debug)]
pub enum GatewaySearchEvent {
    /// A new record.
    Base(DiscoveryRecord),
    /// A change to a record that was sent before.
    EnrichPatch { record_id: String, set: Fields, remove: Vec<String> },
    /// A record that was sent before is withdrawn.
    Drop { record_id: String },
    /// The end of the stream.
    Done,
}

/// What a [`GatewaySearchEvent`] holds.
#[verifier::ext_equal]
pub enum EventView {
    Base(RecordView),
    EnrichPatch {
        record_id: Seq<char>,
        set: Map<Seq<char>, Seq<char>>,
        remove: Seq<Seq<char>>,
    },
    Drop { record_id: Seq<char> },
    Done,
}

impl View for GatewaySearchEvent {
    type V = EventView;

    open spec fn view(&self) -> EventView {
        match self {
            GatewaySearchEvent::Base(r) => EventView::Base(r@),
            GatewaySearchEvent::EnrichPatch { record_id, set, remove } => EventView::EnrichPatch {
                record_id: record_id@,
                set: set@,
                remove: text::string_views(remove@),
            },
            GatewaySearchEvent::Drop { record_id } => EventView::Drop { record_id: record_id@ },
            GatewaySearchEvent::Done => EventView::Done,
        }
    }
}

/// The views of a list of events.
pub open spec fn event_views(v: Seq<GatewaySearchEvent>) -> Seq<EventView> {
    Seq::new(v.len(), |i: int| v[i]@)
}

/// The family of a content id.
#[derive(Clone, Copy, Debug, PartialEq, Eq, Structural)]
pub enum HashKind {
    /// A file inside a BitTorrent v1 torrent.
    BtV1File,
}

/// One resolved content id. `record` is there where the gateway is to store the
/// record itself; `bytes` and `file_extension` where content was fetched.
#[derive(Debug)]
pub struct HashOutcome {
    pub hash: String,
    pub hash_kind: HashKind,
    pub bytes: Option<Vec<u8>>,
    pub record: Option<DiscoveryRecord>,
    pub file_extension: Option<String>,
}

/// What a [`HashOutcome`] holds.
#[verifier::ext_equal]
pub struct OutcomeView {
    pub hash: Seq<char>,
    pub hash_kind: HashKind,
    pub bytes: Option<Seq<u8>>,
    pub record: Option<RecordView>,
    pub file_extension: Option<Seq<char>>,
}

impl View for HashOutcome {
    type V = OutcomeView;

    open spec fn view(&self) -> OutcomeView {
        OutcomeView {
            hash: self.hash@,
            hash_kind: self.hash_kind,
            bytes: match self.bytes {
                Some(b) => Some(b@),
                None => None,
            },
            record: match self.record {
                Some(r) => Some(r@),
                None => None,
            },
            file_extension: match self.file_extension {
                Some(e) => Some(e@),
                None => None,
            },
        }
    }
}

/// The views of a list of outcomes.
pub open spec fn outcome_views(v: Seq<HashOutcome>) -> Seq<OutcomeView> {
    Seq::new(v.len(), |i: int| v[i]@)
}

/// Why a request failed.
#[derive(Debug)]
pub enum GatewayError {
    /// Worth trying again.
    Transient(String),
    /// Will fail again.
    Permanent(String),
    /// A fault of the feeder itself.
    Internal(String),
}

/// The field that holds a record's id at its upstream: `<upstream>id`.
pub open spec fn id_field(upstream_id: Seq<char>) -> Seq<char> {
    upstream_id + "id"@
}

/// The name of the field that holds a record's id at its upstream.
pub fn upstream_id_field(upstream_id: &str) -> (r: String)
    ensures
        r@ == id_field(upstream_id@),
{
    let mut out = owned(upstream_id);
    push_str(&mut out, "id");
    out
}

/// `m` with `value` under `key`, where there is a value.
pub open spec fn with_some(
    m: Map<Seq<char>, Seq<char>>,
    key: Seq<char>,
    value: Option<Seq<char>>,
) -> Map<Seq<char>, Seq<char>> {
    match value {
        Some(v) => m.insert(key, v),
        None => m,
    }
}

/// The value under `key`, if there is one.
pub open spec fn field(m: Map<Seq<char>, Seq<char>>, key: Seq<char>) -> Option<Seq<char>> {
    if m.contains_key(key) {
        Some(m[key])
    } else {
        None
    }
}

/// The value under `first`, else under `second`, else the empty text.
pub open spec fn field_or(
    m: Map<Seq<char>, Seq<char>>,
    first: Seq<char>,
    second: Seq<char>,
) -> Seq<char> {
    if m.contains_key(first) {
        m[first]
    } else if m.contains_key(second) {
        m[second]
    } else {
        Seq::empty()
    }
}

/// A copy of the value under `first`, else under `second`, else the empty text.
pub fn get_or(fields: &Fields, first: &str, second: &str) -> (r: String)
    ensures
        r@ == field_or(fields@, first@, second@),
{
    match fields.get(first) {
        Some(v) => owned(v.as_str()),
        None => match fields.get(second) {
            Some(v) => owned(v.as_str()),
            None => String::new(),
        },
    }
}

/// Tests whether the field `key` holds the text `value`.
pub fn field_is(fields: &Fields, key: &str, value: &str) -> (r: bool)
    ensures
        r == (field(fields@, key@) == Some(value@)),
{
    match fields.get(key) {
        Some(v) => text::str_eq(v.as_str(), value),
        None => false,
    }
}

/// The names of the fields, by what tells them apart: their lengths and some of
/// their letters.
pub proof fn lemma_field_names()
    ensures
        id_field("tribler"@) == "triblerid"@,
        "title"@.len() == 5
            && "title"@[0] == 't'
            && "title"@[1] == 'i'
            && "title"@[2] == 't'
            && "title"@[4] == 'e',
        "triblerid"@.len() == 9
            && "triblerid"@[0] == 't'
            && "triblerid"@[1] == 'r'
            && "triblerid"@[2] == 'i'
            && "triblerid"@[4] == 'l'
            && "triblerid"@[6] == 'r',
        "sourceUrl"@.len() == 9
            && "sourceUrl"@[0] == 's'
            && "sourceUrl"@[1] == 'o'
            && "sourceUrl"@[2] == 'u'
            && "sourceUrl"@[4] == 'c'
            && "sourceUrl"@[6] == 'U',
        "sizeByte"@.len() == 8
            && "sizeByte"@[0] == 's'
            && "sizeByte"@[1] == 'i'
            && "sizeByte"@[2] == 'z'
            && "sizeByte"@[4] == 'B'
            && "sizeByte"@[6] == 't',
        "seeders"@.len() == 7
            && "seeders"@[0] == 's'
            && "seeders"@[1] == 'e'
            && "seeders"@[2] == 'e'
            && "seeders"@[4] == 'e'
            && "seeders"@[6] == 's',
        "leechers"@.len() == 8
            && "leechers"@[0] == 'l'
            && "leechers"@[1] == 'e'
            && "leechers"@[2] == 'e'
            && "leechers"@[4] == 'h'
            && "leechers"@[6] == 'r',
        "fileType"@.len() == 8
            && "fileType"@[0] == 'f'
            && "fileType"@[1] == 'i'
            && "fileType"@[2] == 'l'
            && "fileType"@[4] == 'T'
            && "fileType"@[6] == 'p',
        "fileName"@.len() == 8
            && "fileName"@[0] == 'f'
            && "fileName"@[1] == 'i'
            && "fileName"@[2] == 'l'
            && "fileName"@[4] == 'N'
            && "fileName"@[6] == 'm',
        "season"@.len() == 6
            && "season"@[0] == 's'
            && "season"@[1] == 'e'
            && "season"@[2] == 'a'
            && "season"@[4] == 'o',
        "episode"@.len() == 7
            && "episode"@[0] == 'e'
            && "episode"@[1] == 'p'
            && "episode"@[2] == 'i'
            && "episode"@[4] == 'o'
            && "episode"@[6] == 'e',
        "quality"@.len() == 7
            && "quality"@[0] == 'q'
            && "quality"@[1] == 'u'
            && "quality"@[2] == 'a'
            && "quality"@[4] == 'i'
            && "quality"@[6] == 'y',
        "codec"@.len() == 5
            && "codec"@[0] == 'c'
            && "codec"@[1] == 'o'
            && "codec"@[2] == 'd'
            && "codec"@[4] == 'c',
        "contentKind"@.len() == 11
            && "contentKind"@[0] == 'c'
            && "contentKind"@[1] == 'o'
            && "contentKind"@[2] == 'n'
            && "contentKind"@[4] == 'e'
            && "contentKind"@[6] == 't',
        "videoType"@.len() == 9
            && "videoType"@[0] == 'v'
            && "videoType"@[1] == 'i'
            && "videoType"@[2] == 'd'
            && "videoType"@[4] == 'o'
            && "videoType"@[6] == 'y',
        "movieYear"@.len() == 9
            && "movieYear"@[0] == 'm'
            && "movieYear"@[1] == 'o'
            && "movieYear"@[2] == 'v'
            && "movieYear"@[4] == 'e'
            && "movieYear"@[6] == 'e',
        "posterPath"@.len() == 10
            && "posterPath"@[0] == 'p'
            && "posterPath"@[1] == 'o'
            && "posterPath"@[2] == 's'
            && "posterPath"@[4] == 'e'
            && "posterPath"@[6] == 'P',
        "poster_url"@.len() == 10
            && "poster_url"@[0] == 'p'
            && "poster_url"@[1] == 'o'
            && "poster_url"@[2] == 's'
            && "poster_url"@[4] == 'e'
            && "poster_url"@[6] == '_',
        "poster"@.len() == 6
            && "poster"@[0] == 'p'
            && "poster"@[1] == 'o'
            && "poster"@[2] == 's'
            && "poster"@[4] == 'e',
        "description"@.len() == 11
            && "description"@[0] == 'd'
            && "description"@[1] == 'e'
            && "description"@[2] == 's'
            && "description"@[4] == 'r'
            && "description"@[6] == 'p',
        "description/eng"@.len() == 15
            && "description/eng"@[0] == 'd'
            && "description/eng"@[1] == 'e'
            && "description/eng"@[2] == 's'
            && "description/eng"@[4] == 'r'
            && "description/eng"@[6] == 'p',
        "plot/eng"@.len() == 8
            && "plot/eng"@[0] == 'p'
            && "plot/eng"@[1] == 'l'
            && "plot/eng"@[2] == 'o'
            && "plot/eng"@[4] == '/'
            && "plot/eng"@[6] == 'n',
        "originalTitle"@.len() == 13
            && "originalTitle"@[0] == 'o'
            && "originalTitle"@[1] == 'r'
            && "originalTitle"@[2] == 'i'
            && "originalTitle"@[4] == 'i'
            && "originalTitle"@[6] == 'a',
        "tmdbid"@.len() == 6
            && "tmdbid"@[0] == 't'
            && "tmdbid"@[1] == 'm'
            && "tmdbid"@[2] == 'd'
            && "tmdbid"@[4] == 'i',
        "cid_btih_v1_file"@.len() == 16
            && "cid_btih_v1_file"@[0] == 'c'
            && "cid_btih_v1_file"@[1] == 'i'
            && "cid_btih_v1_file"@[2] == 'd'
            && "cid_btih_v1_file"@[4] == 'b'
            && "cid_btih_v1_file"@[6] == 'i',
        "anime"@.len() == 5
            && "anime"@[0] == 'a'
            && "anime"@[1] == 'n'
            && "anime"@[2] == 'i'
            && "anime"@[4] == 'e',
{
    reveal_strlit("title");
    reveal_strlit("triblerid");
    reveal_strlit("sourceUrl");
    reveal_strlit("sizeByte");
    reveal_strlit("seeders");
    reveal_strlit("leechers");
    reveal_strlit("fileType");
    reveal_strlit("fileName");
    reveal_strlit("season");
    reveal_strlit("episode");
    reveal_strlit("quality");
    reveal_strlit("codec");
    reveal_strlit("contentKind");
    reveal_strlit("videoType");
    reveal_strlit("movieYear");
    reveal_strlit("posterPath");
    reveal_strlit("poster_url");
    reveal_strlit("poster");
    reveal_strlit("description");
    reveal_strlit("description/eng");
    reveal_strlit("plot/eng");
    reveal_strlit("originalTitle");
    reveal_strlit("tmdbid");
    reveal_strlit("cid_btih_v1_file");
    reveal_strlit("anime");
    reveal_strlit("tribler");
    reveal_strlit("id");
    assert(id_field("tribler"@) =~= "triblerid"@);
}

/// A query without free text is searched for with a star.
pub proof fn empty_query_is_a_star(query: GatewayQuery, r: &str)
    requires
        call_ensures(GatewayQuery::free_text_or_star, (&query,), r),
    ensures
        text::is_blank(query.free_text@) ==> r@ == "*"@,
        !text::is_blank(query.free_text@) ==> r@ == query.free_text@,
{
}

/// A field is what is stored under its name. The first of two fields goes before
/// the second, and the second before nothing.
pub proof fn fields_are_what_is_stored(
    m: Map<Seq<char>, Seq<char>>,
    a: Seq<char>,
    b: Seq<char>,
    v: Seq<char>,
)
    ensures
        field(m.insert(a, v), a) == Some(v),
        a != b ==> field(m.insert(a, v), b) == field(m, b),
        field(m.remove(a), a) is None,
        with_some(m, a, Some(v)) == m.insert(a, v),
        with_some(m, a, None) == m,
        field_or(m.insert(a, v), a, b) == v,
        a != b ==> field_or(m.remove(a).insert(b, v), a, b) == v,
        field_or(m.remove(a).remove(b), a, b).len() == 0,
{
}

} // verus!
