//! Search results of the Tribler core and the records made of them.

use vstd::prelude::*;

use crate::classify;
use crate::classify::classify_file_type;
use crate::infohash;
use crate::infohash::decode_infohash;
use crate::keymap::Fields;
use crate::metainfo::{FileView, TorrentFile};
use crate::number;
use crate::number::{read_i64, write_i64, write_u64};
use crate::record;
use crate::record::{upstream_id_field, DiscoveryRecord, RecordView};
use crate::text;
use crate::text::{
    blank, chars_of, lowered, owned, push_chars, push_str, str_eq, string_of, trimmed,
    trimmed_string, with_replaced,
};
use crate::url;
use crate::url::urlencode;

verus! {

/// One search result: what the core tells of a torrent.
#[derive(Debug, Clone)]
pub struct TriblerItem {
    pub infohash: Option<String>,
    pub name: Option<String>,
    pub size: Option<u64>,
    pub category: Option<String>,
    pub num_seeders: Option<i64>,
    pub num_leechers: Option<i64>,
    /// Announce URLs; often empty.
    pub trackers: Vec<String>,
}

/// What a [`TriblerItem`] holds.
#[verifier::ext_equal]
pub struct ItemView {
    pub infohash: Option<Seq<char>>,
    pub name: Option<Seq<char>>,
    pub size: Option<u64>,
    pub category: Option<Seq<char>>,
    pub num_seeders: Option<i64>,
    pub num_leechers: Option<i64>,
    pub trackers: Seq<Seq<char>>,
}

impl View for TriblerItem {
    type V = ItemView;

    open spec fn view(&self) -> ItemView {
        ItemView {
            infohash: text_of(self.infohash),
            name: text_of(self.name),
            size: self.size,
            category: text_of(self.category),
            num_seeders: self.num_seeders,
            num_leechers: self.num_leechers,
            trackers: text::string_views(self.trackers@),
        }
    }
}

/// The views of a list of items.
pub open spec fn item_views(v: Seq<TriblerItem>) -> Seq<ItemView> {
    Seq::new(v.len(), |i: int| v[i]@)
}

impl Default for TriblerItem {
    fn default() -> (r: Self)
        ensures
            r.infohash is None,
            r.name is None,
            r.size is None,
            r.category is None,
            r.num_seeders is None,
            r.num_leechers is None,
            r.trackers@ == Seq::<String>::empty(),
    {
        TriblerItem {
            infohash: None,
            name: None,
            size: None,
            category: None,
            num_seeders: None,
            num_leechers: None,
            trackers: Vec::new(),
        }
    }
}

/// The text in an optional string.
pub open spec fn text_of(s: Option<String>) -> Option<Seq<char>> {
    match s {
        Some(t) => Some(t@),
        None => None,
    }
}

/// The text where there is one, or the empty text.
pub open spec fn text_or_empty(s: Option<Seq<char>>) -> Seq<char> {
    match s {
        Some(t) => t,
        None => Seq::empty(),
    }
}

/// The announce URLs of well-known public trackers, which every magnet carries.
pub open spec fn public_trackers() -> Seq<Seq<char>> {
    seq![
        "http://nyaa.tracker.wf:7777/announce"@,
        "udp://tracker.opentrackr.org:1337/announce"@,
        "udp://open.stealth.si:80/announce"@,
        "udp://open.demonii.com:1337/announce"@,
        "udp://exodus.desync.com:6969/announce"@,
        "udp://tracker.torrent.eu.org:451/announce"@,
        "udp://tracker.openbittorrent.com:6969/announce"@,
    ]
}

/// The given announce URLs without surrounding white space and without blank
/// ones.
pub open spec fn usable_trackers(trackers: Seq<Seq<char>>) -> Seq<Seq<char>>
    decreases trackers.len(),
{
    if trackers.len() == 0 {
        Seq::empty()
    } else {
        let before = usable_trackers(trackers.drop_last());
        if text::is_blank(trackers.last()) {
            before
        } else {
            before.push(text::trim(trackers.last()))
        }
    }
}

/// `list` with `item` at its end, unless it holds it already.
pub open spec fn push_new(list: Seq<Seq<char>>, item: Seq<char>) -> Seq<Seq<char>> {
    if list.contains(item) {
        list
    } else {
        list.push(item)
    }
}

/// The texts of a list, each where it occurs first.
pub open spec fn distinct(list: Seq<Seq<char>>) -> Seq<Seq<char>>
    decreases list.len(),
{
    if list.len() == 0 {
        Seq::empty()
    } else {
        push_new(distinct(list.drop_last()), list.last())
    }
}

/// The trackers of a magnet: the torrent's own, then the public ones, each once.
pub open spec fn magnet_trackers(own: Seq<Seq<char>>) -> Seq<Seq<char>> {
    distinct(usable_trackers(own) + public_trackers())
}

/// The `tr` parameters for a list of trackers.
pub open spec fn tracker_params(trackers: Seq<Seq<char>>) -> Seq<char>
    decreases trackers.len(),
{
    if trackers.len() == 0 {
        Seq::empty()
    } else {
        tracker_params(trackers.drop_last()) + "&tr="@ + url::encoded(trackers.last())
    }
}

/// The magnet link of an info hash alone.
pub open spec fn bare_magnet(infohash: Seq<char>) -> Seq<char> {
    "magnet:?xt=urn:btih:"@ + infohash
}

/// The magnet link of a torrent: info hash, display name and trackers.
pub open spec fn magnet(
    infohash: Seq<char>,
    name: Seq<char>,
    own_trackers: Seq<Seq<char>>,
) -> Seq<char> {
    let named = if name.len() == 0 {
        bare_magnet(infohash)
    } else {
        bare_magnet(infohash) + "&dn="@ + url::encoded(name)
    };
    named + tracker_params(magnet_trackers(own_trackers))
}

/// The field under which a category label is filed: `/` would read as a path
/// separator, so it becomes `-`.
pub open spec fn category_field(category: Seq<char>) -> Seq<char> {
    "categories/"@ + text::replaced(text::trim(category), '/', '-')
}

/// The info hash of an item in its normal form.
pub open spec fn normal_infohash(infohash: Seq<char>) -> Seq<char> {
    text::lower(text::trim(infohash))
}

/// The fields of the record made of an item with the info hash `infohash`.
pub open spec fn item_fields(item: ItemView, infohash: Seq<char>) -> Map<Seq<char>, Seq<char>> {
    let name = text_or_empty(item.name);
    let titled = record::with_some(
        Map::empty(),
        "title"@,
        if name.len() == 0 {
            None
        } else {
            Some(name)
        },
    );
    let linked = titled.insert(record::id_field("tribler"@), infohash).insert(
        "sourceUrl"@,
        magnet(infohash, name, item.trackers),
    );
    let sized = record::with_some(
        linked,
        "sizeByte"@,
        match item.size {
            Some(n) => Some(number::decimal(n as nat)),
            None => None,
        },
    );
    let seeded = record::with_some(
        sized,
        "seeders"@,
        match item.num_seeders {
            Some(n) => Some(number::decimal_int(n as int)),
            None => None,
        },
    );
    let counted = record::with_some(
        seeded,
        "leechers"@,
        match item.num_leechers {
            Some(n) => Some(number::decimal_int(n as int)),
            None => None,
        },
    );
    let filed = match item.category {
        Some(c) => if text::is_blank(c) {
            counted
        } else {
            counted.insert(category_field(c), "true"@)
        },
        None => counted,
    };
    filed.insert("fileType"@, classify::file_type(name, item.category))
}

/// The record made of an item; an item without a usable info hash makes none.
pub open spec fn item_record(item: ItemView) -> Option<RecordView> {
    match item.infohash {
        Some(h) => {
            let infohash = normal_infohash(h);
            if infohash::decoded(infohash) is Some {
                Some(
                    RecordView {
                        upstream_id: "tribler"@,
                        record_id: infohash,
                        fields: item_fields(item, infohash),
                    },
                )
            } else {
                None
            }
        },
        None => None,
    }
}

/// Tests whether a list holds the text `item`.
pub fn list_has(list: &Vec<String>, item: &str) -> (r: bool)
    ensures
        r == text::string_views(list@).contains(item@),
{
    let n: usize = list.len();
    let mut i: usize = 0;
    while i < n
        invariant
            n == list@.len(),
            i <= n,
            forall|j: int| 0 <= j < i ==> (#[trigger] text::string_views(list@)[j]) != item@,
        decreases n - i,
    {
        if str_eq(list[i].as_str(), item) {
            assert(text::string_views(list@)[i as int] == item@);
            return true;
        }
        i += 1;
    }
    false
}

fn add_new(list: &mut Vec<String>, item: String)
    ensures
        text::string_views(final(list)@) == push_new(text::string_views(old(list)@), item@),
{
    if !list_has(list, item.as_str()) {
        let ghost before = text::string_views(list@);
        let ghost added = item@;
        list.push(item);
        assert(text::string_views(list@) == before.push(added));
    }
}

proof fn lemma_distinct_next(u: Seq<Seq<char>>, p: Seq<Seq<char>>, k: int)
    requires
        0 <= k < p.len(),
    ensures
        distinct(u + p.take(k + 1)) == push_new(distinct(u + p.take(k)), p[k]),
{
    assert((u + p.take(k + 1)).drop_last() == u + p.take(k));
    assert((u + p.take(k + 1)).last() == p[k]);
}

fn all_trackers(own: &Vec<String>) -> (r: Vec<String>)
    ensures
        text::string_views(r@) == magnet_trackers(text::string_views(own@)),
{
    let mut out: Vec<String> = Vec::new();
    let ghost given = text::string_views(own@);
    let n: usize = own.len();
    let mut i: usize = 0;
    assert(text::string_views(out@) == distinct(usable_trackers(given.take(0))));
    while i < n
        invariant
            n == own@.len(),
            given == text::string_views(own@),
            i <= n,
            text::string_views(out@) == distinct(usable_trackers(given.take(i as int))),
        decreases n - i,
    {
        proof {
            assert(given.take(i + 1).drop_last() == given.take(i as int));
            assert(given.take(i + 1).last() == own@[i as int]@);
        }
        if !blank(own[i].as_str()) {
            proof {
                let u = usable_trackers(given.take(i as int));
                assert(u.push(text::trim(own@[i as int]@)).drop_last() == u);
            }
            add_new(&mut out, trimmed_string(own[i].as_str()));
        }
        i += 1;
    }
    assert(given.take(n as int) == given);
    let ghost u = usable_trackers(given);
    add_new(&mut out, owned("http://nyaa.tracker.wf:7777/announce"));
    add_new(&mut out, owned("udp://tracker.opentrackr.org:1337/announce"));
    add_new(&mut out, owned("udp://open.stealth.si:80/announce"));
    add_new(&mut out, owned("udp://open.demonii.com:1337/announce"));
    add_new(&mut out, owned("udp://exodus.desync.com:6969/announce"));
    add_new(&mut out, owned("udp://tracker.torrent.eu.org:451/announce"));
    add_new(&mut out, owned("udp://tracker.openbittorrent.com:6969/announce"));
    proof {
        let p = public_trackers();
        assert(u + p.take(0) == u);
        assert(p.take(7) == p);
        lemma_distinct_next(u, p, 0);
        lemma_distinct_next(u, p, 1);
        lemma_distinct_next(u, p, 2);
        lemma_distinct_next(u, p, 3);
        lemma_distinct_next(u, p, 4);
        lemma_distinct_next(u, p, 5);
        lemma_distinct_next(u, p, 6);
    }
    out
}

/// The magnet link of an info hash alone.
pub fn bare_magnet_link(infohash: &str) -> (r: String)
    ensures
        r@ == bare_magnet(infohash@),
{
    let mut out = owned("magnet:?xt=urn:btih:");
    push_str(&mut out, infohash);
    out
}

/// The magnet link of a torrent.
pub fn magnet_link(infohash: &str, name: &str, own_trackers: &Vec<String>) -> (r: String)
    ensures
        r@ == magnet(infohash@, name@, text::string_views(own_trackers@)),
{
    let mut out = bare_magnet_link(infohash);
    if chars_of(name).len() > 0 {
        push_str(&mut out, "&dn=");
        push_str(&mut out, urlencode(name).as_str());
    }
    let trackers = all_trackers(own_trackers);
    let ghost all = text::string_views(trackers@);
    let ghost before = out@;
    let n: usize = trackers.len();
    let mut i: usize = 0;
    while i < n
        invariant
            n == trackers@.len(),
            all == text::string_views(trackers@),
            i <= n,
            out@ == before + tracker_params(all.take(i as int)),
        decreases n - i,
    {
        proof {
            assert(all.take(i + 1).drop_last() == all.take(i as int));
            assert(all.take(i + 1).last() == trackers@[i as int]@);
        }
        push_str(&mut out, "&tr=");
        push_str(&mut out, urlencode(trackers[i].as_str()).as_str());
        i += 1;
        assert(out@ == before + tracker_params(all.take(i as int)));
    }
    assert(all.take(n as int) == all);
    out
}

fn category_key(category: &str) -> (r: String)
    ensures
        r@ == category_field(category@),
{
    let cs = chars_of(category);
    let mut key = owned("categories/");
    push_chars(&mut key, &with_replaced(trimmed(&cs), '/', '-'));
    key
}

/// Makes a record of a search result.
pub fn into_discovery_record(item: TriblerItem) -> (r: Option<DiscoveryRecord>)
    ensures
        r is Some <==> item_record(item@) is Some,
        r matches Some(rec) ==> item_record(item@) == Some(rec@),
{
    let infohash = match &item.infohash {
        Some(h) => {
            let cs = chars_of(h.as_str());
            string_of(&lowered(trimmed(&cs)))
        },
        None => {
            return None;
        },
    };
    if decode_infohash(infohash.as_str()).is_none() {
        return None;
    }
    let name = match &item.name {
        Some(n) => owned(n.as_str()),
        None => String::new(),
    };
    let mut fields = Fields::new();
    if chars_of(name.as_str()).len() > 0 {
        fields.insert("title", owned(name.as_str()));
    }
    fields.insert(upstream_id_field("tribler").as_str(), owned(infohash.as_str()));
    fields.insert(
        "sourceUrl",
        magnet_link(infohash.as_str(), name.as_str(), &item.trackers),
    );
    if let Some(size) = item.size {
        fields.insert("sizeByte", write_u64(size));
    }
    if let Some(seeders) = item.num_seeders {
        fields.insert("seeders", write_i64(seeders));
    }
    if let Some(leechers) = item.num_leechers {
        fields.insert("leechers", write_i64(leechers));
    }
    let category: Option<&str> = match &item.category {
        Some(c) => Some(c.as_str()),
        None => None,
    };
    if let Some(c) = category {
        if !blank(c) {
            fields.insert(category_key(c).as_str(), owned("true"));
        }
    }
    fields.insert("fileType", owned(classify_file_type(name.as_str(), category)));
    Some(DiscoveryRecord { upstream_id: owned("tribler"), record_id: infohash, fields })
}

/// The seeder count of a record: zero where it tells none or no number.
pub open spec fn seeder_count(fields: Map<Seq<char>, Seq<char>>) -> int {
    match record::field(fields, "seeders"@) {
        Some(s) => match number::parse_signed(s) {
            Some(n) => n,
            None => 0,
        },
        None => 0,
    }
}

/// The seeder count of a record, for ranking by health.
pub fn seeders_of(rec: &DiscoveryRecord) -> (r: i64)
    ensures
        r == seeder_count(rec.fields@),
{
    match rec.fields.get("seeders") {
        Some(s) => match read_i64(s.as_str()) {
            Some(n) => n,
            None => 0,
        },
        None => 0,
    }
}

/// The text that tells the records of one stream apart: the content id of the
/// file where there is one, else the record id.
pub open spec fn dedup_key(rec: RecordView) -> Seq<char> {
    match record::field(rec.fields, "cid_btih_v1_file"@) {
        Some(cid) => cid,
        None => rec.record_id,
    }
}

/// The text that tells the records of one stream apart.
pub fn stream_key(rec: &DiscoveryRecord) -> (r: String)
    ensures
        r@ == dedup_key(rec@),
{
    match rec.fields.get("cid_btih_v1_file") {
        Some(cid) => owned(cid.as_str()),
        None => owned(rec.record_id.as_str()),
    }
}

/// The fields that a title parser owns; a file must not inherit them from its
/// torrent.
pub open spec fn parsed_fields() -> Set<Seq<char>> {
    set!["season"@, "episode"@, "quality"@, "codec"@, "contentKind"@, "videoType"@]
}

/// The record of one file of a torrent with the fields `torrent`.
pub open spec fn file_record(
    torrent: Map<Seq<char>, Seq<char>>,
    record_id: Seq<char>,
    f: FileView,
) -> RecordView {
    RecordView {
        upstream_id: "tribler"@,
        record_id,
        fields: torrent.insert("fileName"@, f.name).insert(
            "sizeByte"@,
            number::decimal(f.size),
        ).insert("fileType"@, "video"@).remove_keys(parsed_fields()),
    }
}

/// Makes the record of one file of a torrent.
pub fn build_file_record(torrent: &Fields, record_id: &str, f: &TorrentFile) -> (r: DiscoveryRecord)
    ensures
        r@ == file_record(torrent@, record_id@, f@),
{
    let mut fields = torrent.clone();
    fields.insert("fileName", owned(f.name.as_str()));
    fields.insert("sizeByte", write_u64(f.size));
    fields.insert("fileType", owned("video"));
    let ghost filled = fields@;
    fields.remove("season");
    fields.remove("episode");
    fields.remove("quality");
    fields.remove("codec");
    fields.remove("contentKind");
    fields.remove("videoType");
    assert(fields@ =~= filled.remove_keys(parsed_fields()));
    DiscoveryRecord { upstream_id: owned("tribler"), record_id: owned(record_id), fields }
}

/// The record of a torrent as a whole: its fields without those of an episode.
pub open spec fn pack_record(
    torrent: Map<Seq<char>, Seq<char>>,
    record_id: Seq<char>,
) -> RecordView {
    RecordView {
        upstream_id: "tribler"@,
        record_id,
        fields: torrent.remove("season"@).remove("episode"@),
    }
}

/// Makes the record of a torrent as a whole.
pub fn build_pack_record(torrent: &Fields, record_id: &str) -> (r: DiscoveryRecord)
    ensures
        r@ == pack_record(torrent@, record_id@),
{
    let mut fields = torrent.clone();
    fields.remove("season");
    fields.remove("episode");
    DiscoveryRecord { upstream_id: owned("tribler"), record_id: owned(record_id), fields }
}

/// The fields of a torrent of which nothing but the info hash is known. They
/// name no `fileType`: nothing tells it.
pub open spec fn bare_fields(infohash: Seq<char>) -> Map<Seq<char>, Seq<char>> {
    Map::empty().insert(record::id_field("tribler"@), infohash).insert(
        "sourceUrl"@,
        bare_magnet(infohash),
    )
}

/// The fields of a torrent of which nothing but the info hash is known.
pub fn minimal_fields(infohash: &str) -> (r: Fields)
    ensures
        r@ == bare_fields(infohash@),
{
    let mut fields = Fields::new();
    fields.insert(upstream_id_field("tribler").as_str(), owned(infohash));
    fields.insert("sourceUrl", bare_magnet_link(infohash));
    fields
}

/// A field that the record of a search result may have.
pub open spec fn is_item_field(key: Seq<char>) -> bool {
    ||| key == "title"@
    ||| key == record::id_field("tribler"@)
    ||| key == "sourceUrl"@
    ||| key == "sizeByte"@
    ||| key == "seeders"@
    ||| key == "leechers"@
    ||| text::starts_with(key, "categories/"@)
    ||| key == "fileType"@
}

proof fn lemma_category_field(category: Seq<char>)
    ensures
        text::starts_with(category_field(category), "categories/"@),
{
    let key = category_field(category);
    let p = "categories/"@;
    assert(key.subrange(0, p.len() as int) == p);
}

proof fn lemma_item_fields(item: ItemView, infohash: Seq<char>)
    ensures
        forall|key: Seq<char>| #[trigger]
            item_fields(item, infohash).contains_key(key) ==> is_item_field(key),
{
    if let Some(c) = item.category {
        lemma_category_field(c);
    }
}

/// The record of a search result has no field that a title parser owns and no
/// language field: it tells what the network told, nothing derived.
pub proof fn live_hit_has_no_parsed_field(item: ItemView)
    requires
        item_record(item) is Some,
    ensures
        forall|key: Seq<char>| #[trigger]
            parsed_fields().contains(key) ==> !item_record(item)->0.fields.contains_key(key),
        forall|key: Seq<char>| #[trigger]
            item_record(item)->0.fields.contains_key(key) ==> !text::starts_with(
                key,
                "languages/"@,
            ),
{
    lemma_item_fields(item, normal_infohash(item.infohash->0));
    reveal_strlit("title");
    reveal_strlit("tribler");
    reveal_strlit("id");
    reveal_strlit("sourceUrl");
    reveal_strlit("sizeByte");
    reveal_strlit("seeders");
    reveal_strlit("leechers");
    reveal_strlit("categories/");
    reveal_strlit("fileType");
    reveal_strlit("season");
    reveal_strlit("episode");
    reveal_strlit("quality");
    reveal_strlit("codec");
    reveal_strlit("contentKind");
    reveal_strlit("videoType");
    reveal_strlit("languages/");
    assert forall|key: Seq<char>| #[trigger]
        parsed_fields().contains(key) implies !item_record(item)->0.fields.contains_key(key) by {
        if is_item_field(key) {
            if text::starts_with(key, "categories/"@) {
                assert(key.subrange(0, 11) == "categories/"@);
                assert(key.subrange(0, 11)[1] == 'a');
                assert(key[1] == 'a');
                assert(key[0] == 'c');
            }
            assert(key[0] == 't' || key[0] == 's' || key[0] == 'l' || key[0] == 'f' || key[0]
                == 'c');
            assert("season"@[1] == 'e' && "season"@[2] == 'a');
            assert("seeders"@[2] == 'e');
            assert("sourceUrl"@[1] == 'o');
            assert("sizeByte"@[1] == 'i');
            assert("codec"@[1] == 'o');
            assert("contentKind"@[1] == 'o');
            assert(false);
        }
    }
    assert forall|key: Seq<char>| #[trigger]
        item_record(item)->0.fields.contains_key(key) implies !text::starts_with(
        key,
        "languages/"@,
    ) by {
        if text::starts_with(key, "languages/"@) {
            assert(key.subrange(0, 10)[0] == 'l');
            assert(key.subrange(0, 10)[1] == 'a');
            assert(key[0] == 'l' && key[1] == 'a');
            assert("leechers"@[1] == 'e');
            if text::starts_with(key, "categories/"@) {
                assert(key.subrange(0, 11)[0] == 'c');
            }
            assert(false);
        }
    }
}

/// The record of a search result is filed under its normalised info hash, which
/// is also its id at the upstream and can be decoded again.
pub proof fn live_hit_is_keyed_by_infohash(item: ItemView)
    requires
        item_record(item) is Some,
    ensures
        item_record(item)->0.record_id == normal_infohash(item.infohash->0),
        infohash::decoded(item_record(item)->0.record_id) is Some,
        record::field(item_record(item)->0.fields, record::id_field("tribler"@)) == Some(
            item_record(item)->0.record_id,
        ),
{
    reveal_strlit("tribler");
    reveal_strlit("id");
    reveal_strlit("sourceUrl");
    reveal_strlit("sizeByte");
    reveal_strlit("seeders");
    reveal_strlit("leechers");
    reveal_strlit("categories/");
    reveal_strlit("fileType");
    let key = record::id_field("tribler"@);
    assert(key[0] == 't');
    if let Some(c) = item.category {
        assert(category_field(c)[0] == 'c');
    }
}

/// The seeder count of a search result is what the network told, or zero.
pub proof fn live_hit_keeps_seeders(item: ItemView)
    requires
        item_record(item) is Some,
    ensures
        seeder_count(item_record(item)->0.fields) == (match item.num_seeders {
            Some(n) => n as int,
            None => 0,
        }),
{
    reveal_strlit("title");
    reveal_strlit("tribler");
    reveal_strlit("id");
    reveal_strlit("sourceUrl");
    reveal_strlit("sizeByte");
    reveal_strlit("seeders");
    reveal_strlit("leechers");
    reveal_strlit("categories/");
    reveal_strlit("fileType");
    assert("seeders"@[0] == 's' && "seeders"@[1] == 'e');
    assert(record::id_field("tribler"@)[0] == 't');
    assert("sourceUrl"@[1] == 'o');
    assert("sizeByte"@[1] == 'i');
    if let Some(c) = item.category {
        assert(category_field(c)[0] == 'c');
    }
    if let Some(n) = item.num_seeders {
        number::decimal_int_reads_back(n as int);
    }
}

/// No text occurs twice.
pub open spec fn no_repeats(list: Seq<Seq<char>>) -> bool {
    forall|i: int, j: int| 0 <= i < j < list.len() ==> list[i] != list[j]
}

proof fn lemma_distinct(list: Seq<Seq<char>>)
    ensures
        no_repeats(distinct(list)),
        forall|t: Seq<char>| #[trigger] distinct(list).contains(t) == list.contains(t),
    decreases list.len(),
{
    if list.len() > 0 {
        let init = list.drop_last();
        let d = distinct(init);
        let last = list.last();
        lemma_distinct(init);
        assert(list == init.push(last));
        assert forall|t: Seq<char>| #[trigger] distinct(list).contains(t) == list.contains(t) by {
            assert(d.contains(t) == init.contains(t));
            if list.contains(t) && t != last {
                let i = choose|i: int| 0 <= i < list.len() && list[i] == t;
                assert(init[i] == t);
                assert(init.contains(t));
                let j = choose|j: int| 0 <= j < d.len() && d[j] == t;
                assert(distinct(list)[j] == t);
            }
            if list.contains(t) && t == last && !d.contains(last) {
                assert(distinct(list)[d.len() as int] == last);
            }
            if distinct(list).contains(t) {
                let j = choose|j: int| 0 <= j < distinct(list).len() && distinct(list)[j] == t;
                if j < d.len() {
                    assert(d[j] == t);
                    assert(d.contains(t));
                    let i = choose|i: int| 0 <= i < init.len() && init[i] == t;
                    assert(list[i] == t);
                } else {
                    assert(list[list.len() - 1] == t);
                }
            }
        }
    }
}

/// A magnet names no tracker twice, and names every public tracker.
pub proof fn magnet_trackers_are_distinct(own: Seq<Seq<char>>)
    ensures
        no_repeats(magnet_trackers(own)),
        forall|i: int|
            0 <= i < public_trackers().len() ==> magnet_trackers(own).contains(
                #[trigger] public_trackers()[i],
            ),
{
    let all = usable_trackers(own) + public_trackers();
    lemma_distinct(all);
    assert forall|i: int| 0 <= i < public_trackers().len() implies magnet_trackers(own).contains(
        #[trigger] public_trackers()[i],
    ) by {
        assert(all[usable_trackers(own).len() + i] == public_trackers()[i]);
        assert(distinct(all).contains(public_trackers()[i]));
    }
}

/// What the network told of a search result is in its record as it was told: the
/// name as the title, the size and the counts of seeders and leechers as numbers.
/// What was not told has no field.
pub proof fn live_hit_tells_what_was_told(item: ItemView)
    requires
        item_record(item) is Some,
    ensures
        ({
            let fields = item_record(item)->0.fields;
            &&& item_record(item)->0.upstream_id == "tribler"@
            &&& item.name matches Some(name) ==> name.len() > 0 ==> record::field(fields, "title"@)
                == Some(name)
            &&& (item.name is None || item.name->0.len() == 0) ==> record::field(fields, "title"@)
                is None
            &&& item.size matches Some(n) ==> record::field(fields, "sizeByte"@) is Some
                && number::parse_unsigned(
                record::field(fields, "sizeByte"@)->0,
                0xffff_ffff_ffff_ffff,
            ) == Some(n as nat)
            &&& item.size is None ==> record::field(fields, "sizeByte"@) is None
            &&& item.num_seeders matches Some(n) ==> record::field(fields, "seeders"@) is Some
                && number::parse_signed(record::field(fields, "seeders"@)->0) == Some(n as int)
            &&& item.num_seeders is None ==> record::field(fields, "seeders"@) is None
            &&& item.num_leechers matches Some(n) ==> record::field(fields, "leechers"@) is Some
                && number::parse_signed(record::field(fields, "leechers"@)->0) == Some(n as int)
            &&& item.num_leechers is None ==> record::field(fields, "leechers"@) is None
            &&& record::field(fields, "triblerid"@) == Some(item_record(item)->0.record_id)
        }),
{
    record::lemma_field_names();
    reveal_strlit("categories/");
    if let Some(c) = item.category {
        assert(category_field(c)[0] == 'c' && category_field(c)[1] == 'a');
    }
    if let Some(n) = item.size {
        number::decimal_reads_back(n as nat, 0xffff_ffff_ffff_ffff);
    }
    if let Some(n) = item.num_seeders {
        number::decimal_int_reads_back(n as int);
    }
    if let Some(n) = item.num_leechers {
        number::decimal_int_reads_back(n as int);
    }
}

/// A search result is filed under its category, spelled with `-` for `/`, and
/// under no other; a blank category files it nowhere. Its file type is that of
/// its name and category.
pub proof fn live_hit_is_filed_under_its_category(item: ItemView)
    requires
        item_record(item) is Some,
    ensures
        ({
            let fields = item_record(item)->0.fields;
            let filed = item.category is Some && !text::is_blank(item.category->0);
            &&& filed ==> record::field(fields, category_field(item.category->0)) == Some("true"@)
            &&& forall|key: Seq<char>| #[trigger]
                fields.contains_key(key) && text::starts_with(key, "categories/"@) ==> filed && key
                    == category_field(item.category->0)
            &&& filed ==> {
                let label = text::trim(item.category->0);
                let key = category_field(item.category->0);
                &&& key.len() == 11 + label.len()
                &&& forall|i: int|
                    0 <= i < label.len() ==> #[trigger] key[11 + i] == (if label[i] == '/' {
                        '-'
                    } else {
                        label[i]
                    })
            }
            &&& record::field(fields, "fileType"@) == Some(
                classify::file_type(text_or_empty(item.name), item.category),
            )
        }),
{
    record::lemma_field_names();
    reveal_strlit("categories/");
    let fields = item_record(item)->0.fields;
    if let Some(c) = item.category {
        assert(category_field(c)[0] == 'c' && category_field(c)[1] == 'a');
    }
    assert forall|key: Seq<char>| #[trigger]
        fields.contains_key(key) && text::starts_with(key, "categories/"@) implies item.category
        is Some && !text::is_blank(item.category->0) && key == category_field(
        item.category->0,
    ) by {
        assert(key.subrange(0, 11)[0] == 'c' && key.subrange(0, 11)[1] == 'a');
        assert(key[0] == 'c' && key[1] == 'a');
    }
}

proof fn lemma_usable_trackers(trackers: Seq<Seq<char>>, t: Seq<char>)
    ensures
        usable_trackers(trackers).contains(t) <==> exists|i: int|
            0 <= i < trackers.len() && !text::is_blank(trackers[i]) && t == text::trim(
                #[trigger] trackers[i],
            ),
    decreases trackers.len(),
{
    if trackers.len() > 0 {
        let init = trackers.drop_last();
        let before = usable_trackers(init);
        lemma_usable_trackers(init, t);
        if before.contains(t) {
            let i = choose|i: int|
                0 <= i < init.len() && !text::is_blank(init[i]) && t == text::trim(
                    #[trigger] init[i],
                );
            assert(trackers[i] == init[i]);
            let j = choose|j: int| 0 <= j < before.len() && before[j] == t;
            assert(usable_trackers(trackers)[j] == t);
        }
        if !text::is_blank(trackers.last()) {
            assert(usable_trackers(trackers).last() == text::trim(trackers.last()));
            if t == text::trim(trackers.last()) {
                assert(usable_trackers(trackers)[before.len() as int] == t);
                assert(trackers[trackers.len() - 1] == trackers.last());
            }
        }
        if usable_trackers(trackers).contains(t) && !before.contains(t) {
            let j = choose|j: int|
                0 <= j < usable_trackers(trackers).len() && usable_trackers(trackers)[j] == t;
            if j < before.len() {
                assert(before[j] == t);
            }
            assert(trackers[trackers.len() - 1] == trackers.last());
        }
        if exists|i: int|
            0 <= i < trackers.len() && !text::is_blank(trackers[i]) && t == text::trim(
                #[trigger] trackers[i],
            ) {
            let i = choose|i: int|
                0 <= i < trackers.len() && !text::is_blank(trackers[i]) && t == text::trim(
                    #[trigger] trackers[i],
                );
            if i < init.len() {
                assert(init[i] == trackers[i]);
            }
        }
    }
}

/// A magnet names the torrent's own trackers, but for blank ones, and the public
/// ones, and no other.
pub proof fn magnet_names_own_and_public_trackers(own: Seq<Seq<char>>, t: Seq<char>)
    ensures
        magnet_trackers(own).contains(t) <==> {
            ||| exists|i: int|
                0 <= i < own.len() && !text::is_blank(own[i]) && t == text::trim(
                    #[trigger] own[i],
                )
            ||| t == "http://nyaa.tracker.wf:7777/announce"@
            ||| t == "udp://tracker.opentrackr.org:1337/announce"@
            ||| t == "udp://open.stealth.si:80/announce"@
            ||| t == "udp://open.demonii.com:1337/announce"@
            ||| t == "udp://exodus.desync.com:6969/announce"@
            ||| t == "udp://tracker.torrent.eu.org:451/announce"@
            ||| t == "udp://tracker.openbittorrent.com:6969/announce"@
        },
{
    let u = usable_trackers(own);
    let p = public_trackers();
    let all = u + p;
    lemma_distinct(all);
    lemma_usable_trackers(own, t);
    assert(magnet_trackers(own).contains(t) == all.contains(t));
    if u.contains(t) {
        let i = choose|i: int| 0 <= i < u.len() && u[i] == t;
        assert(all[i] == t);
    }
    assert(all[u.len() as int + 0] == p[0]);
    assert(all[u.len() as int + 1] == p[1]);
    assert(all[u.len() as int + 2] == p[2]);
    assert(all[u.len() as int + 3] == p[3]);
    assert(all[u.len() as int + 4] == p[4]);
    assert(all[u.len() as int + 5] == p[5]);
    assert(all[u.len() as int + 6] == p[6]);
    if all.contains(t) && !u.contains(t) {
        let i = choose|i: int| 0 <= i < all.len() && all[i] == t;
        if i < u.len() {
            assert(u[i] == t);
        }
        assert(p[i - u.len()] == t);
    }
}

/// A magnet link begins with the info hash; a name follows it, where there is
/// one, and each tracker has a parameter of its own, in order and percent-encoded.
pub proof fn magnet_link_form(
    infohash: Seq<char>,
    name: Seq<char>,
    own: Seq<Seq<char>>,
    trackers: Seq<Seq<char>>,
    t: Seq<char>,
)
    ensures
        text::starts_with(magnet(infohash, name, own), "magnet:?xt=urn:btih:"@ + infohash),
        name.len() > 0 ==> magnet(infohash, name, own) == "magnet:?xt=urn:btih:"@ + infohash
            + "&dn="@ + url::encoded(name) + tracker_params(magnet_trackers(own)),
        name.len() == 0 ==> magnet(infohash, name, own) == "magnet:?xt=urn:btih:"@ + infohash
            + tracker_params(magnet_trackers(own)),
        tracker_params(trackers.push(t)) == tracker_params(trackers) + "&tr="@ + url::encoded(t),
        tracker_params(Seq::empty()) == Seq::<char>::empty(),
{
    let m = magnet(infohash, name, own);
    let p = "magnet:?xt=urn:btih:"@ + infohash;
    assert(m.subrange(0, p.len() as int) == p);
    assert(trackers.push(t).drop_last() == trackers);
}

/// The record of a file of a torrent tells the file's name and size and that it
/// is a video, says nothing of season, episode, quality, codec or kind, and has
/// all else from the torrent.
pub proof fn file_record_tells_of_the_file(
    torrent: Map<Seq<char>, Seq<char>>,
    record_id: Seq<char>,
    f: FileView,
    key: Seq<char>,
)
    ensures
        ({
            let rec = file_record(torrent, record_id, f);
            &&& rec.upstream_id == "tribler"@
            &&& rec.record_id == record_id
            &&& record::field(rec.fields, "fileName"@) == Some(f.name)
            &&& record::field(rec.fields, "sizeByte"@) == Some(number::decimal(f.size))
            &&& record::field(rec.fields, "fileType"@) == Some("video"@)
            &&& record::field(rec.fields, "season"@) is None
            &&& record::field(rec.fields, "episode"@) is None
            &&& record::field(rec.fields, "quality"@) is None
            &&& record::field(rec.fields, "codec"@) is None
            &&& record::field(rec.fields, "contentKind"@) is None
            &&& record::field(rec.fields, "videoType"@) is None
            &&& {
                &&& key != "season"@ && key != "episode"@ && key != "quality"@ && key != "codec"@
                &&& key != "contentKind"@ && key != "videoType"@
                &&& key != "fileName"@ && key != "sizeByte"@ && key != "fileType"@
            } ==> record::field(rec.fields, key) == record::field(torrent, key)
        }),
{
    record::lemma_field_names();
}

/// The record of a torrent as a whole has all of the torrent's fields but season
/// and episode.
pub proof fn pack_record_tells_of_the_torrent(
    torrent: Map<Seq<char>, Seq<char>>,
    record_id: Seq<char>,
    key: Seq<char>,
)
    ensures
        pack_record(torrent, record_id).upstream_id == "tribler"@,
        pack_record(torrent, record_id).record_id == record_id,
        record::field(pack_record(torrent, record_id).fields, "season"@) is None,
        record::field(pack_record(torrent, record_id).fields, "episode"@) is None,
        key != "season"@ && key != "episode"@ ==> record::field(
            pack_record(torrent, record_id).fields,
            key,
        ) == record::field(torrent, key),
{
}

/// Of a torrent of which only the info hash is known, the record tells that and a
/// link to it, and nothing else.
pub proof fn bare_record_tells_the_infohash(infohash: Seq<char>, key: Seq<char>)
    ensures
        record::field(bare_fields(infohash), "triblerid"@) == Some(infohash),
        record::field(bare_fields(infohash), "sourceUrl"@) == Some(
            "magnet:?xt=urn:btih:"@ + infohash,
        ),
        key != "triblerid"@ && key != "sourceUrl"@ ==> record::field(bare_fields(infohash), key)
            is None,
{
    record::lemma_field_names();
}

/// A search result makes a record if and only if its info hash, without white space
/// round it and in any case, can be decoded.
pub proof fn results_with_an_infohash_make_records(item: TriblerItem, r: Option<DiscoveryRecord>)
    requires
        call_ensures(into_discovery_record, (item,), r),
    ensures
        r is Some <==> item.infohash is Some && infohash::decoded(
            text::trim(item.infohash->0@),
        ) is Some,
        r matches Some(rec) ==> rec.record_id@ == text::lower(text::trim(item.infohash->0@)),
        r matches Some(rec) ==> item_record(item@) == Some(rec@),
        item@.name == text_of(item.name),
        item@.size == item.size,
        item@.category == text_of(item.category),
        item@.num_seeders == item.num_seeders,
        item@.num_leechers == item.num_leechers,
        item@.trackers == text::string_views(item.trackers@),
{
    if let Some(h) = item.infohash {
        infohash::infohash_ignores_case(text::trim(h@));
    }
}

/// The records of one stream are told apart by the content id of their file where
/// they have one, else by their own id. A record without a number of seeders counts
/// as one without seeders.
pub proof fn records_are_told_apart(rec: RecordView)
    ensures
        record::field(rec.fields, "cid_btih_v1_file"@) matches Some(cid) ==> dedup_key(rec) == cid,
        record::field(rec.fields, "cid_btih_v1_file"@) is None ==> dedup_key(rec) == rec.record_id,
        record::field(rec.fields, "seeders"@) matches Some(s) ==> (number::parse_signed(
            s,
        ) matches Some(n) ==> seeder_count(rec.fields) == n),
        record::field(rec.fields, "seeders"@) matches Some(s) ==> number::parse_signed(s) is None
            ==> seeder_count(rec.fields) == 0,
        record::field(rec.fields, "seeders"@) is None ==> seeder_count(rec.fields) == 0,
{
}

/// The record of a search result links to it by a magnet with the info hash, the
/// name and the trackers that were told.
pub proof fn live_hit_links_to_its_magnet(item: ItemView)
    requires
        item_record(item) is Some,
    ensures
        record::field(item_record(item)->0.fields, "sourceUrl"@) == Some(
            magnet(
                item_record(item)->0.record_id,
                if item.name is Some {
                    item.name->0
                } else {
                    Seq::empty()
                },
                item.trackers,
            ),
        ),
{
    record::lemma_field_names();
    reveal_strlit("categories/");
    if let Some(c) = item.category {
        assert(category_field(c)[0] == 'c' && category_field(c)[1] == 'a');
    }
}

/// The trackers of a magnet keep their order, the torrent's own before the public
/// ones, and each stands where it was named first.
pub proof fn trackers_keep_their_order(own: Seq<Seq<char>>, t: Seq<char>)
    ensures
        distinct(usable_trackers(own)).is_prefix_of(magnet_trackers(own)),
        usable_trackers(Seq::empty()) == Seq::<Seq<char>>::empty(),
        text::is_blank(t) ==> usable_trackers(own.push(t)) == usable_trackers(own),
        !text::is_blank(t) ==> usable_trackers(own.push(t)) == usable_trackers(own).push(
            text::trim(t),
        ),
        distinct(Seq::empty()) == Seq::<Seq<char>>::empty(),
        own.contains(t) ==> distinct(own.push(t)) == distinct(own),
        !own.contains(t) ==> distinct(own.push(t)) == distinct(own).push(t),
{
    lemma_distinct(own);
    assert(distinct(own).contains(t) == own.contains(t));
    assert(own.push(t).drop_last() == own);
    lemma_distinct_grows(usable_trackers(own), public_trackers());
}

proof fn lemma_distinct_grows(a: Seq<Seq<char>>, b: Seq<Seq<char>>)
    ensures
        distinct(a).is_prefix_of(distinct(a + b)),
    decreases b.len(),
{
    if b.len() == 0 {
        assert(a + b == a);
    } else {
        lemma_distinct_grows(a, b.drop_last());
        assert((a + b).drop_last() == a + b.drop_last());
        assert(distinct(a + b.drop_last()).is_prefix_of(distinct(a + b)));
    }
}

} // verus!
