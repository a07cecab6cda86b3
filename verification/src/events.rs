//! The event feed of the Tribler core: server-sent event frames and the search
//! results they carry.

use vstd::prelude::*;

use crate::item;
use crate::item::{into_discovery_record, ItemView, TriblerItem};
use crate::json;
use crate::json::{parse_json, Json, JsonView};
use crate::record;
use crate::record::{DiscoveryRecord, RecordView};
use crate::text;
use crate::text::{
    blank, chars_of, find, has_prefix, joined, owned, push_str, str_eq, string_of, without_prefix,
    CharClass,
};

verus! {

/// The lines of a text, without their line ends (`\n` or `\r\n`).
pub open spec fn lines(s: Seq<char>) -> Seq<Seq<char>>
    decreases s.len(),
{
    if s.len() == 0 {
        Seq::empty()
    } else {
        let n = line_len(s);
        if n >= s.len() {
            seq![s]
        } else {
            let line = s.take(n as int);
            let bare = if n > 0 && line.last() == '\r' {
                line.drop_last()
            } else {
                line
            };
            seq![bare] + lines(s.skip((n + 1) as int))
        }
    }
}

/// Number of characters before the first line feed.
pub open spec fn line_len(s: Seq<char>) -> nat
    decreases s.len(),
{
    if s.len() == 0 || s[0] == '\n' {
        0
    } else {
        1 + line_len(s.skip(1))
    }
}

/// The payload that a `data:` line carries.
pub open spec fn data_of(line: Seq<char>) -> Option<Seq<char>> {
    if text::starts_with(line, "data:"@) {
        Some(text::trim_start(line.skip("data:"@.len() as int), CharClass::Space))
    } else {
        None
    }
}

/// The payloads of the `data:` lines among `ls`, in order.
pub open spec fn data_lines(ls: Seq<Seq<char>>) -> Seq<Seq<char>>
    decreases ls.len(),
{
    if ls.len() == 0 {
        Seq::empty()
    } else {
        match data_of(ls[0]) {
            Some(d) => seq![d] + data_lines(ls.skip(1)),
            None => data_lines(ls.skip(1)),
        }
    }
}

/// The payload of an event frame: its `data:` lines, one per line.
pub open spec fn payload(frame: Seq<char>) -> Seq<char> {
    text::join(data_lines(lines(frame)), seq!['\n'])
}

fn first_line_len(cs: &[char], from: usize) -> (end: usize)
    requires
        from <= cs@.len(),
    ensures
        from <= end <= cs@.len(),
        end - from == line_len(cs@.skip(from as int)),
        end < cs@.len() ==> cs@[end as int] == '\n',
{
    let n: usize = cs.len();
    let mut end: usize = from;
    while end < n && cs[end] != '\n'
        invariant
            n == cs@.len(),
            from <= end <= n,
            line_len(cs@.skip(from as int)) == (end - from) + line_len(cs@.skip(end as int)),
        decreases n - end,
    {
        assert(cs@.skip(end as int).skip(1) == cs@.skip(end + 1));
        end += 1;
    }
    end
}

fn data_lines_of(cs: &[char]) -> (r: Vec<Vec<char>>)
    ensures
        text::views(r@) == data_lines(lines(cs@)),
{
    let mut out: Vec<Vec<char>> = Vec::new();
    let n: usize = cs.len();
    let mut i: usize = 0;
    assert(cs@.skip(0) == cs@);
    assert(text::views(out@) + data_lines(lines(cs@)) == data_lines(lines(cs@)));
    while i < n
        invariant
            n == cs@.len(),
            i <= n,
            text::views(out@) + data_lines(lines(cs@.skip(i as int))) == data_lines(lines(cs@)),
        decreases n - i,
    {
        let ghost rest = cs@.skip(i as int);
        let end: usize = first_line_len(cs, i);
        let stop: usize = if end < n && end > i && cs[end - 1] == '\r' {
            end - 1
        } else {
            end
        };
        let line = &cs[i..stop];
        let next: usize = if end < n {
            end + 1
        } else {
            n
        };
        proof {
            let len = line_len(rest);
            if end < n {
                assert(rest.take(len as int) == cs@.subrange(i as int, end as int));
                assert(rest.take(len as int).drop_last() == cs@.subrange(i as int, end - 1) || len
                    == 0);
                assert(rest.skip((len + 1) as int) == cs@.skip(next as int));
            } else {
                assert(rest == cs@.subrange(i as int, end as int));
                assert(cs@.skip(next as int).len() == 0);
                assert(lines(cs@.skip(next as int)) == Seq::<Seq<char>>::empty());
                assert(seq![line@] + lines(cs@.skip(next as int)) == seq![line@]);
            }
            assert(lines(rest) == seq![line@] + lines(cs@.skip(next as int)));
            assert(lines(rest)[0] == line@);
            assert(lines(rest).skip(1) == lines(cs@.skip(next as int)));
        }
        let ghost before = text::views(out@);
        if has_prefix(line, "data:") {
            proof {
                reveal_strlit("data:");
            }
            let value = without_prefix(&line[5..line.len()], CharClass::Space);
            assert(line@.subrange(5, line@.len() as int) == line@.skip("data:"@.len() as int));
            let mut one: Vec<char> = Vec::new();
            one.extend_from_slice(value);
            assert(one@ == value@);
            out.push(one);
            assert(text::views(out@) == before.push(value@));
            assert(before + (seq![value@] + data_lines(lines(cs@.skip(next as int))))
                == text::views(out@) + data_lines(lines(cs@.skip(next as int))));
        }
        i = next;
    }
    assert(cs@.skip(n as int).len() == 0);
    assert(lines(cs@.skip(n as int)) == Seq::<Seq<char>>::empty());
    assert(text::views(out@) + Seq::<Seq<char>>::empty() == text::views(out@));
    out
}

/// The payload of an event frame.
pub fn frame_payload(frame: &str) -> (r: String)
    ensures
        r@ == payload(frame@),
{
    let cs = chars_of(frame);
    let data = data_lines_of(&cs);
    joined(&data, '\n')
}

/// A 64-bit number where a value is absent, `null` or such a number.
pub open spec fn opt_unsigned(v: Option<JsonView>) -> Option<Option<u64>> {
    match v {
        None => Some(None),
        Some(JsonView::Null) => Some(None),
        Some(JsonView::Number { unsigned: Some(n), signed }) => Some(Some(n)),
        Some(_) => None,
    }
}

/// A signed 64-bit number where a value is absent, `null` or such a number.
pub open spec fn opt_signed(v: Option<JsonView>) -> Option<Option<i64>> {
    match v {
        None => Some(None),
        Some(JsonView::Null) => Some(None),
        Some(JsonView::Number { unsigned, signed: Some(n) }) => Some(Some(n)),
        Some(_) => None,
    }
}

/// A text where a value is absent, `null` or a text.
pub open spec fn opt_text(v: Option<JsonView>) -> Option<Option<Seq<char>>> {
    match v {
        None => Some(None),
        Some(JsonView::Null) => Some(None),
        Some(JsonView::Text(s)) => Some(Some(s)),
        Some(_) => None,
    }
}

/// All items are texts.
pub open spec fn all_texts(items: Seq<JsonView>) -> bool {
    forall|i: int| 0 <= i < items.len() ==> (#[trigger] items[i]) is Text
}

/// A list of texts where a value is absent or such a list.
pub open spec fn opt_texts(v: Option<JsonView>) -> Option<Seq<Seq<char>>> {
    match v {
        None => Some(Seq::empty()),
        Some(JsonView::List(items)) => if all_texts(items) {
            Some(Seq::new(items.len(), |i: int| items[i]->Text_0))
        } else {
            None
        },
        Some(_) => None,
    }
}

/// The item with the given values for its seven fields. A value of the wrong
/// kind makes the whole item unreadable.
pub open spec fn item_with(
    infohash: Option<JsonView>,
    name: Option<JsonView>,
    size: Option<JsonView>,
    category: Option<JsonView>,
    num_seeders: Option<JsonView>,
    num_leechers: Option<JsonView>,
    trackers: Option<JsonView>,
) -> Option<ItemView> {
    if opt_text(infohash) is Some && opt_text(name) is Some && opt_unsigned(size) is Some
        && opt_text(category) is Some && opt_signed(num_seeders) is Some && opt_signed(
        num_leechers,
    ) is Some && opt_texts(trackers) is Some {
        Some(
            ItemView {
                infohash: opt_text(infohash)->0,
                name: opt_text(name)->0,
                size: opt_unsigned(size)->0,
                category: opt_text(category)->0,
                num_seeders: opt_signed(num_seeders)->0,
                num_leechers: opt_signed(num_leechers)->0,
                trackers: opt_texts(trackers)->0,
            },
        )
    } else {
        None
    }
}

/// Item `i` of a list, where there is one.
pub open spec fn nth(items: Seq<JsonView>, i: int) -> Option<JsonView> {
    if 0 <= i < items.len() {
        Some(items[i])
    } else {
        None
    }
}

/// The search result that a JSON value describes: an object with the fields by
/// name, other members being ignored, or a list of at most seven with the
/// fields by position.
pub open spec fn item_of(v: JsonView) -> Option<ItemView> {
    match v {
        JsonView::Object(_) => item_with(
            v.member("infohash"@),
            v.member("name"@),
            v.member("size"@),
            v.member("category"@),
            v.member("num_seeders"@),
            v.member("num_leechers"@),
            v.member("trackers"@),
        ),
        JsonView::List(items) => if items.len() <= 7 {
            item_with(
                nth(items, 0),
                nth(items, 1),
                nth(items, 2),
                nth(items, 3),
                nth(items, 4),
                nth(items, 5),
                nth(items, 6),
            )
        } else {
            None
        },
        _ => None,
    }
}

/// The value that an optional reference points to.
pub open spec fn seen(v: Option<&Json>) -> Option<JsonView> {
    match v {
        Some(j) => Some(j@),
        None => None,
    }
}

fn read_unsigned(v: Option<&Json>) -> (r: Option<Option<u64>>)
    ensures
        r == opt_unsigned(seen(v)),
{
    match v {
        None => Some(None),
        Some(Json::Null) => Some(None),
        Some(Json::Number { unsigned: Some(n), signed: _ }) => Some(Some(*n)),
        Some(_) => None,
    }
}

fn read_signed(v: Option<&Json>) -> (r: Option<Option<i64>>)
    ensures
        r == opt_signed(seen(v)),
{
    match v {
        None => Some(None),
        Some(Json::Null) => Some(None),
        Some(Json::Number { unsigned: _, signed: Some(n) }) => Some(Some(*n)),
        Some(_) => None,
    }
}

fn read_text(v: Option<&Json>) -> (r: Option<Option<String>>)
    ensures
        r is Some <==> opt_text(seen(v)) is Some,
        r matches Some(t) ==> opt_text(seen(v)) == Some(item::text_of(t)),
{
    match v {
        None => Some(None),
        Some(Json::Null) => Some(None),
        Some(Json::Text(s)) => Some(Some(owned(s.as_str()))),
        Some(_) => None,
    }
}

fn read_texts(v: Option<&Json>) -> (r: Option<Vec<String>>)
    ensures
        r is Some <==> opt_texts(seen(v)) is Some,
        r matches Some(t) ==> opt_texts(seen(v)) == Some(text::string_views(t@)),
{
    let mut out: Vec<String> = Vec::new();
    assert(text::string_views(out@) == Seq::<Seq<char>>::empty());
    match v {
        None => Some(out),
        Some(Json::List(items)) => {
            let ghost views = json::list_view(items@);
            proof {
                json::lemma_list_view(items@);
            }
            let n: usize = items.len();
            let mut i: usize = 0;
            while i < n
                invariant
                    n == items@.len(),
                    n == views.len(),
                    seen(v) == Some(JsonView::List(views)),
                    forall|j: int| 0 <= j < n ==> #[trigger] views[j] == items@[j]@,
                    i <= n,
                    out@.len() == i,
                    forall|j: int|
                        0 <= j < i ==> (#[trigger] views[j]) is Text && views[j]->Text_0
                            == out@[j]@,
                decreases n - i,
            {
                assert(views[i as int] == items@[i as int]@);
                match &items[i] {
                    Json::Text(s) => {
                        out.push(owned(s.as_str()));
                    },
                    _ => {
                        assert(!(views[i as int] is Text));
                        return None;
                    },
                }
                i += 1;
            }
            assert(text::string_views(out@) =~= opt_texts(seen(v))->0);
            Some(out)
        },
        Some(_) => None,
    }
}

fn read_item_with(
    infohash: Option<&Json>,
    name: Option<&Json>,
    size: Option<&Json>,
    category: Option<&Json>,
    num_seeders: Option<&Json>,
    num_leechers: Option<&Json>,
    trackers: Option<&Json>,
) -> (r: Option<TriblerItem>)
    ensures
        ({
            let wanted = item_with(
                seen(infohash),
                seen(name),
                seen(size),
                seen(category),
                seen(num_seeders),
                seen(num_leechers),
                seen(trackers),
            );
            &&& r is Some <==> wanted is Some
            &&& r matches Some(t) ==> wanted == Some(t@)
        }),
{
    let infohash = match read_text(infohash) {
        Some(t) => t,
        None => {
            return None;
        },
    };
    let name = match read_text(name) {
        Some(t) => t,
        None => {
            return None;
        },
    };
    let size = match read_unsigned(size) {
        Some(n) => n,
        None => {
            return None;
        },
    };
    let category = match read_text(category) {
        Some(t) => t,
        None => {
            return None;
        },
    };
    let num_seeders = match read_signed(num_seeders) {
        Some(n) => n,
        None => {
            return None;
        },
    };
    let num_leechers = match read_signed(num_leechers) {
        Some(n) => n,
        None => {
            return None;
        },
    };
    let trackers = match read_texts(trackers) {
        Some(t) => t,
        None => {
            return None;
        },
    };
    Some(TriblerItem { infohash, name, size, category, num_seeders, num_leechers, trackers })
}

fn get_nth(items: &Vec<Json>, i: usize) -> (r: Option<&Json>)
    ensures
        seen(r) == nth(json::list_view(items@), i as int),
{
    proof {
        json::lemma_list_view(items@);
    }
    if i < items.len() {
        Some(&items[i])
    } else {
        None
    }
}

/// Reads a search result from its JSON form.
pub fn read_item(v: &Json) -> (r: Option<TriblerItem>)
    ensures
        r is Some <==> item_of(v@) is Some,
        r matches Some(t) ==> item_of(v@) == Some(t@),
{
    match v {
        Json::Object(_) => read_item_with(
            v.get("infohash"),
            v.get("name"),
            v.get("size"),
            v.get("category"),
            v.get("num_seeders"),
            v.get("num_leechers"),
            v.get("trackers"),
        ),
        Json::List(items) => {
            proof {
                json::lemma_list_view(items@);
            }
            if items.len() <= 7 {
                read_item_with(
                    get_nth(items, 0),
                    get_nth(items, 1),
                    get_nth(items, 2),
                    get_nth(items, 3),
                    get_nth(items, 4),
                    get_nth(items, 5),
                    get_nth(items, 6),
                )
            } else {
                None
            }
        },
        _ => None,
    }
}

/// `a`, or `b` where there is no `a`.
pub open spec fn or(a: Option<JsonView>, b: Option<JsonView>) -> Option<JsonView> {
    match a {
        Some(_) => a,
        None => b,
    }
}

/// The text of an optional value.
pub open spec fn text_in(v: Option<JsonView>) -> Option<Seq<char>> {
    match v {
        Some(j) => j.as_text(),
        None => None,
    }
}

/// The topic of an event, under any of its three names.
pub open spec fn topic(v: JsonView) -> Option<Seq<char>> {
    text_in(or(v.member("topic"@), or(v.member("type"@), v.member("name"@))))
}

/// The body of an event: nested under `event`, or the event itself.
pub open spec fn body(v: JsonView) -> JsonView {
    match v.member("event"@) {
        Some(e) => e,
        None => v,
    }
}

/// The `results` of an event.
pub open spec fn results(v: JsonView) -> Option<JsonView> {
    or(body(v).member("results"@), v.member("results"@))
}

/// The id of the search that an event belongs to.
pub open spec fn search_id(v: JsonView) -> Option<Seq<char>> {
    text_in(or(body(v).member("uuid"@), v.member("uuid"@)))
}

/// The event carries search results: its topic says so, or it has no topic but
/// has results.
pub open spec fn is_results_event(v: JsonView) -> bool {
    ||| topic(v) == Some("remote_query_results"@)
    ||| (topic(v) is None && results(v) is Some)
    ||| (topic(v) == Some("results"@) && results(v) is Some)
}

/// The event belongs to the wanted search, as far as either side names one.
pub open spec fn is_wanted(v: JsonView, want_uuid: Seq<char>) -> bool {
    want_uuid.len() == 0 || search_id(v) is None || search_id(v) == Some(want_uuid)
}

/// The search results that can be read among `items`, in order.
pub open spec fn items_of(items: Seq<JsonView>) -> Seq<ItemView>
    decreases items.len(),
{
    if items.len() == 0 {
        Seq::empty()
    } else {
        let before = items_of(items.drop_last());
        match item_of(items.last()) {
            Some(i) => before.push(i),
            None => before,
        }
    }
}

/// The search results that an event carries for the wanted search.
pub open spec fn event_items(v: JsonView, want_uuid: Seq<char>) -> Seq<ItemView> {
    if is_results_event(v) && is_wanted(v, want_uuid) {
        match results(v) {
            Some(JsonView::List(items)) => items_of(items),
            _ => Seq::empty(),
        }
    } else {
        Seq::empty()
    }
}

/// The search results that an event frame carries for the wanted search. A
/// frame without a payload, or with one that is no JSON document, carries none.
pub open spec fn frame_items(frame: Seq<char>, want_uuid: Seq<char>) -> Seq<ItemView> {
    if text::is_blank(payload(frame)) {
        Seq::empty()
    } else {
        match json::document(payload(frame)) {
            Some(v) => event_items(v, want_uuid),
            None => Seq::empty(),
        }
    }
}

fn either<'a>(a: Option<&'a Json>, b: Option<&'a Json>) -> (r: Option<&'a Json>)
    ensures
        seen(r) == or(seen(a), seen(b)),
{
    match a {
        Some(j) => Some(j),
        None => b,
    }
}

fn text_at<'a>(v: Option<&'a Json>) -> (r: Option<&'a str>)
    ensures
        r is Some <==> text_in(seen(v)) is Some,
        r matches Some(s) ==> text_in(seen(v)) == Some(s@),
{
    match v {
        Some(j) => j.as_str(),
        None => None,
    }
}

/// The search results that an event carries for the wanted search.
pub fn results_of_event(v: &Json, want_uuid: &str) -> (r: Vec<TriblerItem>)
    ensures
        item::item_views(r@) == event_items(v@, want_uuid@),
{
    let mut out: Vec<TriblerItem> = Vec::new();
    assert(item::item_views(out@) == Seq::<ItemView>::empty());
    let topic_text = text_at(either(v.get("topic"), either(v.get("type"), v.get("name"))));
    let inner = match v.get("event") {
        Some(e) => e,
        None => v,
    };
    let list = either(inner.get("results"), v.get("results"));
    let uuid = text_at(either(inner.get("uuid"), v.get("uuid")));
    let carries_results = match topic_text {
        Some(t) => str_eq(t, "remote_query_results") || (str_eq(t, "results") && list.is_some()),
        None => list.is_some(),
    };
    if !carries_results {
        return out;
    }
    if chars_of(want_uuid).len() > 0 {
        if let Some(u) = uuid {
            if !str_eq(u, want_uuid) {
                return out;
            }
        }
    }
    match list {
        Some(Json::List(items)) => {
            let ghost views = json::list_view(items@);
            proof {
                json::lemma_list_view(items@);
            }
            let n: usize = items.len();
            let mut i: usize = 0;
            while i < n
                invariant
                    n == items@.len(),
                    n == views.len(),
                    forall|j: int| 0 <= j < n ==> #[trigger] views[j] == items@[j]@,
                    i <= n,
                    item::item_views(out@) == items_of(views.take(i as int)),
                decreases n - i,
            {
                proof {
                    assert(views.take(i + 1).drop_last() == views.take(i as int));
                    assert(views.take(i + 1).last() == items@[i as int]@);
                }
                if let Some(t) = read_item(&items[i]) {
                    let ghost before = item::item_views(out@);
                    let ghost added = t@;
                    out.push(t);
                    assert(item::item_views(out@) == before.push(added));
                }
                i += 1;
            }
            assert(views.take(n as int) == views);
            out
        },
        _ => out,
    }
}

/// Reads the search results that an event frame carries for the wanted search.
/// An empty `want_uuid` takes the results of any search.
pub fn parse_remote_results(frame: &str, want_uuid: &str) -> (r: Vec<TriblerItem>)
    ensures
        item::item_views(r@) == frame_items(frame@, want_uuid@),
{
    let data = frame_payload(frame);
    let none: Vec<TriblerItem> = Vec::new();
    assert(item::item_views(none@) == Seq::<ItemView>::empty());
    if blank(data.as_str()) {
        return none;
    }
    match parse_json(data.as_str()) {
        Some(v) => results_of_event(&v, want_uuid),
        None => none,
    }
}

/// The records made of a list of items; items that make none are left out.
pub open spec fn records_of(items: Seq<ItemView>) -> Seq<RecordView>
    decreases items.len(),
{
    if items.len() == 0 {
        Seq::empty()
    } else {
        let before = records_of(items.drop_last());
        match item::item_record(items.last()) {
            Some(r) => before.push(r),
            None => before,
        }
    }
}

/// Makes records of a list of search results.
pub fn into_records(items: Vec<TriblerItem>) -> (r: Vec<DiscoveryRecord>)
    ensures
        record::record_views(r@) == records_of(item::item_views(items@)),
{
    let ghost all = item::item_views(items@);
    let n: usize = items.len();
    let mut rest = items;
    let mut out: Vec<DiscoveryRecord> = Vec::new();
    let ghost mut k: int = 0;
    assert(record::record_views(out@) == records_of(all.take(0)));
    while rest.len() > 0
        invariant
            n == all.len(),
            0 <= k <= n,
            rest@.len() == n - k,
            forall|i: int| 0 <= i < rest@.len() ==> (#[trigger] rest@[i])@ == all[k + i],
            record::record_views(out@) == records_of(all.take(k)),
        decreases rest@.len(),
    {
        let first = rest.remove(0);
        proof {
            assert(first@ == all[k]);
            assert(all.take(k + 1).drop_last() == all.take(k));
            assert(all.take(k + 1).last() == all[k]);
        }
        if let Some(rec) = into_discovery_record(first) {
            let ghost before = record::record_views(out@);
            let ghost added = rec@;
            out.push(rec);
            assert(record::record_views(out@) == before.push(added));
        }
        proof {
            k = k + 1;
        }
    }
    assert(all.take(n as int) == all);
    out
}

/// The results of another search are not taken, and neither is an event on
/// another topic; without a wanted search, the id of the search does not matter.
pub proof fn unrelated_events_are_ignored(v: JsonView, want_uuid: Seq<char>)
    ensures
        want_uuid.len() > 0 && search_id(v) is Some && search_id(v) != Some(want_uuid)
            ==> event_items(v, want_uuid) == Seq::<ItemView>::empty(),
        topic(v) is Some && topic(v) != Some("remote_query_results"@) && topic(v) != Some(
            "results"@,
        ) ==> event_items(v, want_uuid) == Seq::<ItemView>::empty(),
        want_uuid.len() > 0 && event_items(v, want_uuid).len() > 0 ==> event_items(
            v,
            Seq::empty(),
        ) == event_items(v, want_uuid),
{
}

/// Text for a byte string, as `String::from_utf8_lossy` gives it.
pub uninterp spec fn lossy_text(bytes: Seq<u8>) -> Seq<char>;

/// `String::from_utf8_lossy`: the text of a byte string, with invalid UTF-8
/// replaced. It depends on the bytes alone.
#[verifier::external_body]
fn decode_lossy(bytes: &[u8]) -> (r: String)
    ensures
        r@ == lossy_text(bytes@),
{
    String::from_utf8_lossy(bytes).into_owned()
}

/// The complete frames at the start of a text, each with the blank line that
/// ends it.
pub open spec fn complete_frames(s: Seq<char>) -> Seq<Seq<char>>
    decreases s.len(),
{
    match text::first_occurrence(s, "\n\n"@) {
        Some(i) => if 0 <= i <= s.len() - 2 {
            seq![s.take(i + 2)] + complete_frames(s.skip(i + 2))
        } else {
            Seq::empty()
        },
        None => Seq::empty(),
    }
}

/// What follows the complete frames of a text.
pub open spec fn incomplete_rest(s: Seq<char>) -> Seq<char>
    decreases s.len(),
{
    match text::first_occurrence(s, "\n\n"@) {
        Some(i) => if 0 <= i <= s.len() - 2 {
            incomplete_rest(s.skip(i + 2))
        } else {
            s
        },
        None => s,
    }
}

/// The part of an event feed that was received but not yet handled.
#[derive(Debug)]
pub struct FrameBuffer {
    text: String,
}

impl View for FrameBuffer {
    type V = Seq<char>;

    closed spec fn view(&self) -> Seq<char> {
        self.text@
    }
}

impl FrameBuffer {
    /// A buffer that holds nothing.
    pub fn new() -> (r: Self)
        ensures
            r@ == Seq::<char>::empty(),
    {
        FrameBuffer { text: String::new() }
    }

    /// Adds a chunk of the feed.
    pub fn receive(&mut self, chunk: &[u8])
        ensures
            final(self)@ == old(self)@ + lossy_text(chunk@),
    {
        let more = decode_lossy(chunk);
        push_str(&mut self.text, more.as_str());
    }

    /// Takes out all complete frames.
    pub fn take_frames(&mut self) -> (r: Vec<String>)
        ensures
            text::string_views(r@) == complete_frames(old(self)@),
            final(self)@ == incomplete_rest(old(self)@),
    {
        let cs = chars_of(self.text.as_str());
        let n: usize = cs.len();
        let mut out: Vec<String> = Vec::new();
        let mut from: usize = 0;
        let ghost whole = self@;
        proof {
            reveal_strlit("\n\n");
            assert(cs@.skip(0) == whole);
            assert(text::string_views(out@) + complete_frames(whole) == complete_frames(whole));
        }
        loop
            invariant
                n == cs@.len(),
                from <= n,
                "\n\n"@.len() == 2,
                text::string_views(out@) + complete_frames(cs@.skip(from as int))
                    == complete_frames(whole),
                incomplete_rest(cs@.skip(from as int)) == incomplete_rest(whole),
            ensures
                from <= n,
                text::first_occurrence(cs@.skip(from as int), "\n\n"@) is None,
                text::string_views(out@) + complete_frames(cs@.skip(from as int))
                    == complete_frames(whole),
                incomplete_rest(cs@.skip(from as int)) == incomplete_rest(whole),
            decreases n - from,
        {
            let rest = &cs[from..n];
            assert(rest@ == cs@.skip(from as int));
            match find(rest, "\n\n") {
                Some(i) => {
                    let frame = string_of(&rest[0..i + 2]);
                    let ghost before = text::string_views(out@);
                    let ghost added = frame@;
                    out.push(frame);
                    proof {
                        assert(added == rest@.take(i + 2));
                        assert(rest@.skip(i + 2) == cs@.skip(from + i + 2));
                        assert(text::string_views(out@) == before.push(added));
                        assert(before + (seq![added] + complete_frames(rest@.skip(i + 2)))
                            == text::string_views(out@) + complete_frames(rest@.skip(i + 2)));
                    }
                    from = from + i + 2;
                },
                None => {
                    break;
                },
            }
        }
        self.text = string_of(&cs[from..n]);
        proof {
            assert(cs@.subrange(from as int, n as int) == cs@.skip(from as int));
            assert(text::string_views(out@) + Seq::<Seq<char>>::empty() == text::string_views(
                out@,
            ));
        }
        out
    }
}

/// The frames one after the other.
pub open spec fn concat(frames: Seq<Seq<char>>) -> Seq<char>
    decreases frames.len(),
{
    if frames.len() == 0 {
        Seq::empty()
    } else {
        frames[0] + concat(frames.skip(1))
    }
}

/// Cutting a feed into frames loses nothing: the frames and what remains make
/// up the text, every frame ends with a blank line, and what remains holds no
/// complete frame.
pub proof fn frames_make_up_the_feed(s: Seq<char>)
    ensures
        concat(complete_frames(s)) + incomplete_rest(s) == s,
        forall|i: int|
            0 <= i < complete_frames(s).len() ==> text::ends_with(
                #[trigger] complete_frames(s)[i],
                "\n\n"@,
            ),
        !text::contains(incomplete_rest(s), "\n\n"@),
    decreases s.len(),
{
    let r = text::first_occurrence(s, "\n\n"@);
    reveal_strlit("\n\n");
    text::first_occurrence_exists(s, "\n\n"@);
    match r {
        Some(i) => {
            let head = s.take(i + 2);
            let tail = s.skip(i + 2);
            frames_make_up_the_feed(tail);
            let frames = complete_frames(s);
            assert(frames == seq![head] + complete_frames(tail));
            assert(frames.skip(1) == complete_frames(tail));
            assert(concat(frames) == head + concat(complete_frames(tail)));
            assert(head + (concat(complete_frames(tail)) + incomplete_rest(tail)) == s);
            assert(concat(frames) + incomplete_rest(s) == s);
            assert forall|k: int| 0 <= k < frames.len() implies text::ends_with(
                #[trigger] frames[k],
                "\n\n"@,
            ) by {
                if k == 0 {
                    assert(head.subrange(i, i + 2) == s.subrange(i, i + 2));
                } else {
                    assert(frames[k] == complete_frames(tail)[k - 1]);
                }
            }
        },
        None => {
            assert(concat(complete_frames(s)) + s == s);
        },
    }
}

/// Where a feed is cut into chunks does not matter: what was received before
/// leaves its complete frames and a rest, and the rest with what follows gives
/// the frames that the whole would have given.
pub proof fn chunks_do_not_matter(a: Seq<char>, b: Seq<char>)
    ensures
        complete_frames(a + b) == complete_frames(a) + complete_frames(incomplete_rest(a) + b),
        incomplete_rest(a + b) == incomplete_rest(incomplete_rest(a) + b),
    decreases a.len(),
{
    let end = "\n\n"@;
    reveal_strlit("\n\n");
    text::first_occurrence_exists(a, end);
    match text::first_occurrence(a, end) {
        Some(i) => {
            let whole = a + b;
            assert(whole.subrange(i, i + 2) == a.subrange(i, i + 2));
            assert forall|j: int| j < i implies !text::occurs_at(whole, end, j) by {
                if text::occurs_at(whole, end, j) {
                    assert(a.subrange(j, j + 2) == whole.subrange(j, j + 2));
                    assert(text::occurs_at(a, end, j));
                }
            }
            text::lemma_first_unique(whole, end, Some(i));
            let tail = a.skip(i + 2);
            assert(whole.take(i + 2) == a.take(i + 2));
            assert(whole.skip(i + 2) == tail + b);
            chunks_do_not_matter(tail, b);
            let head = seq![a.take(i + 2)];
            assert(head + (complete_frames(tail) + complete_frames(incomplete_rest(tail) + b)) == (
            head + complete_frames(tail)) + complete_frames(incomplete_rest(tail) + b));
        },
        None => {
            assert(Seq::<Seq<char>>::empty() + complete_frames(a + b) == complete_frames(a + b));
        },
    }
}

proof fn lemma_line_len(line: Seq<char>, rest: Seq<char>)
    requires
        forall|i: int| 0 <= i < line.len() ==> #[trigger] line[i] != '\n',
    ensures
        line_len(line + seq!['\n'] + rest) == line.len(),
        line_len(line) == line.len(),
    decreases line.len(),
{
    let s = line + seq!['\n'] + rest;
    if line.len() > 0 {
        let tail = line.skip(1);
        assert(s[0] == line[0]);
        assert(s.skip(1) == tail + seq!['\n'] + rest);
        assert forall|i: int| 0 <= i < tail.len() implies #[trigger] tail[i] != '\n' by {
            assert(tail[i] == line[i + 1]);
        }
        lemma_line_len(tail, rest);
    } else {
        assert(s[0] == '\n');
    }
}

/// A line ends at a line feed, or at a carriage return and a line feed, neither of
/// which belongs to it; text without a line feed is one line.
pub proof fn lines_end_at_line_feeds(line: Seq<char>, rest: Seq<char>)
    requires
        forall|i: int| 0 <= i < line.len() ==> #[trigger] line[i] != '\n',
    ensures
        line.len() == 0 || line.last() != '\r' ==> lines(line + seq!['\n'] + rest) == seq![line]
            + lines(rest),
        lines(line + seq!['\r', '\n'] + rest) == seq![line] + lines(rest),
        line.len() > 0 ==> lines(line) == seq![line],
        lines(Seq::empty()) == Seq::<Seq<char>>::empty(),
{
    let s = line + seq!['\n'] + rest;
    lemma_line_len(line, rest);
    assert(s.take(line.len() as int) == line);
    assert(s.skip(line.len() as int + 1) == rest);
    let long = line.push('\r');
    let t = line + seq!['\r', '\n'] + rest;
    assert(t == long + seq!['\n'] + rest);
    lemma_line_len(long, rest);
    assert(t.take(long.len() as int) == long);
    assert(t.skip(long.len() as int + 1) == rest);
    assert(long.drop_last() == line);
}

/// A line that begins with `data:` carries what follows, without leading white
/// space; another line carries nothing.
pub proof fn data_follows_its_label(value: Seq<char>, line: Seq<char>, ls: Seq<Seq<char>>)
    ensures
        data_of("data:"@ + value) == Some(text::trim_start(value, CharClass::Space)),
        !text::starts_with(line, "data:"@) ==> data_of(line) is None,
        data_lines(Seq::empty()) == Seq::<Seq<char>>::empty(),
        data_lines(seq!["data:"@ + value] + ls) == seq![text::trim_start(value, CharClass::Space)]
            + data_lines(ls),
        !text::starts_with(line, "data:"@) ==> data_lines(seq![line] + ls) == data_lines(ls),
{
    let labelled = "data:"@ + value;
    assert(labelled.subrange(0, "data:"@.len() as int) == "data:"@);
    assert(labelled.skip("data:"@.len() as int) == value);
    assert((seq![labelled] + ls)[0] == labelled);
    assert((seq![labelled] + ls).skip(1) == ls);
    assert((seq![line] + ls)[0] == line);
    assert((seq![line] + ls).skip(1) == ls);
}

proof fn lemma_join_front(first: Seq<char>, rest: Seq<Seq<char>>, sep: Seq<char>)
    requires
        rest.len() > 0,
    ensures
        text::join(seq![first] + rest, sep) == first + sep + text::join(rest, sep),
    decreases rest.len(),
{
    let all = seq![first] + rest;
    assert(all.last() == rest.last());
    if rest.len() == 1 {
        assert(all.drop_last() == seq![first]);
        assert(text::join(seq![first], sep) == first);
        assert(rest[0] == rest.last());
    } else {
        let init = rest.drop_last();
        assert(all.drop_last() == seq![first] + init);
        lemma_join_front(first, init, sep);
        assert(first + sep + text::join(init, sep) + sep + rest.last() =~= first + sep + (
        text::join(init, sep) + sep + rest.last()));
    }
}

/// The payload of a frame is made of its `data:` lines, with a line feed between
/// each two; other lines do not count.
pub proof fn payload_joins_data_lines(value: Seq<char>, line: Seq<char>, rest: Seq<char>)
    requires
        forall|i: int| 0 <= i < value.len() ==> #[trigger] value[i] != '\n',
        value.len() == 0 || value.last() != '\r',
        forall|i: int| 0 <= i < line.len() ==> #[trigger] line[i] != '\n',
        line.len() == 0 || line.last() != '\r',
        !text::starts_with(line, "data:"@),
    ensures
        payload(Seq::empty()) == Seq::<char>::empty(),
        payload(line + seq!['\n'] + rest) == payload(rest),
        data_lines(lines(rest)).len() == 0 ==> payload("data:"@ + value + seq!['\n'] + rest)
            == text::trim_start(value, CharClass::Space),
        data_lines(lines(rest)).len() > 0 ==> payload("data:"@ + value + seq!['\n'] + rest)
            == text::trim_start(value, CharClass::Space) + seq!['\n'] + payload(rest),
{
    reveal_strlit("data:");
    let labelled = "data:"@ + value;
    assert(labelled[0] == 'd' && labelled[1] == 'a' && labelled[2] == 't' && labelled[3] == 'a'
        && labelled[4] == ':');
    assert forall|i: int| 0 <= i < labelled.len() implies #[trigger] labelled[i] != '\n' by {
        if i >= 5 {
            assert(labelled[i] == value[i - 5]);
        }
    }
    if value.len() == 0 {
        assert(labelled.last() == ':');
    } else {
        assert(labelled.last() == value.last());
    }
    lines_end_at_line_feeds(labelled, rest);
    lines_end_at_line_feeds(line, rest);
    data_follows_its_label(value, line, lines(rest));
    let ds = data_lines(lines(rest));
    let d = text::trim_start(value, CharClass::Space);
    if ds.len() == 0 {
        assert(seq![d] + ds == seq![d]);
        assert(text::join(seq![d], seq!['\n']) == d);
    } else {
        lemma_join_front(d, ds, seq!['\n']);
    }
}

/// A search result that is an object is read by the names of its members. A member
/// that is absent or `null` is left out, one of the wrong kind makes the result
/// unreadable, and every other member is ignored.
pub proof fn results_are_read_by_name(v: JsonView)
    requires
        v is Object,
    ensures
        item_of(v) matches Some(i) ==> {
            &&& opt_text(v.member("infohash"@)) == Some(i.infohash)
            &&& opt_text(v.member("name"@)) == Some(i.name)
            &&& opt_unsigned(v.member("size"@)) == Some(i.size)
            &&& opt_text(v.member("category"@)) == Some(i.category)
            &&& opt_signed(v.member("num_seeders"@)) == Some(i.num_seeders)
            &&& opt_signed(v.member("num_leechers"@)) == Some(i.num_leechers)
            &&& opt_texts(v.member("trackers"@)) == Some(i.trackers)
        },
        item_of(v) is None <==> {
            ||| opt_text(v.member("infohash"@)) is None
            ||| opt_text(v.member("name"@)) is None
            ||| opt_unsigned(v.member("size"@)) is None
            ||| opt_text(v.member("category"@)) is None
            ||| opt_signed(v.member("num_seeders"@)) is None
            ||| opt_signed(v.member("num_leechers"@)) is None
            ||| opt_texts(v.member("trackers"@)) is None
        },
{
}

/// What a member may be: a text, a number of its kind, or a list of texts. Absent
/// and `null` both leave the field out, but `null` is no list.
pub proof fn members_have_their_kinds(
    s: Seq<char>,
    n: u64,
    m: i64,
    u: Option<u64>,
    i: Option<i64>,
    texts: Seq<Seq<char>>,
    v: JsonView,
)
    ensures
        opt_text(None) == Some(None::<Seq<char>>),
        opt_text(Some(JsonView::Null)) == Some(None::<Seq<char>>),
        opt_text(Some(JsonView::Text(s))) == Some(Some(s)),
        opt_text(Some(v)) is None <==> !(v is Null) && !(v is Text),
        opt_unsigned(None) == Some(None::<u64>),
        opt_unsigned(Some(JsonView::Null)) == Some(None::<u64>),
        opt_unsigned(Some(JsonView::Number { unsigned: Some(n), signed: i })) == Some(Some(n)),
        opt_unsigned(Some(JsonView::Number { unsigned: None, signed: i })) is None,
        !(v is Null) && !(v is Number) ==> opt_unsigned(Some(v)) is None,
        opt_signed(None) == Some(None::<i64>),
        opt_signed(Some(JsonView::Null)) == Some(None::<i64>),
        opt_signed(Some(JsonView::Number { unsigned: u, signed: Some(m) })) == Some(Some(m)),
        opt_signed(Some(JsonView::Number { unsigned: u, signed: None })) is None,
        !(v is Null) && !(v is Number) ==> opt_signed(Some(v)) is None,
        opt_texts(None) == Some(Seq::<Seq<char>>::empty()),
        opt_texts(
            Some(JsonView::List(Seq::new(texts.len(), |k: int| JsonView::Text(texts[k])))),
        ) == Some(texts),
        !(v is List) ==> opt_texts(Some(v)) is None,
        v matches JsonView::List(items) ==> ((exists|k: int|
            0 <= k < items.len() && !((#[trigger] items[k]) is Text)) ==> opt_texts(Some(v))
            is None),
{
    let list = Seq::new(texts.len(), |k: int| JsonView::Text(texts[k]));
    assert(all_texts(list));
    assert(Seq::new(list.len(), |k: int| list[k]->Text_0) =~= texts);
}

/// A search result that is a list is read by position: info hash, name, size,
/// category, seeders, leechers, trackers. Positions that are missing are left out,
/// and a list with more than these seven is unreadable.
pub proof fn results_are_read_by_position(items: Seq<JsonView>)
    ensures
        items.len() > 7 ==> item_of(JsonView::List(items)) is None,
        item_of(JsonView::List(items)) matches Some(i) ==> {
            let at = |k: int|
                if k < items.len() {
                    Some(items[k])
                } else {
                    None
                };
            &&& opt_text(at(0)) == Some(i.infohash)
            &&& opt_text(at(1)) == Some(i.name)
            &&& opt_unsigned(at(2)) == Some(i.size)
            &&& opt_text(at(3)) == Some(i.category)
            &&& opt_signed(at(4)) == Some(i.num_seeders)
            &&& opt_signed(at(5)) == Some(i.num_leechers)
            &&& opt_texts(at(6)) == Some(i.trackers)
        },
{
}

/// The results of an event are taken one by one, in order, and those that cannot
/// be read are passed over; so are the results that make no record.
pub proof fn results_are_taken_in_order(
    items: Seq<JsonView>,
    next: JsonView,
    found: Seq<ItemView>,
    item: ItemView,
)
    ensures
        items_of(Seq::empty()) == Seq::<ItemView>::empty(),
        item_of(next) matches Some(i) ==> items_of(items.push(next)) == items_of(items).push(i),
        item_of(next) is None ==> items_of(items.push(next)) == items_of(items),
        records_of(Seq::empty()) == Seq::<RecordView>::empty(),
        item::item_record(item) matches Some(r) ==> records_of(found.push(item)) == records_of(
            found,
        ).push(r),
        item::item_record(item) is None ==> records_of(found.push(item)) == records_of(found),
{
    assert(items.push(next).drop_last() == items);
    assert(found.push(item).drop_last() == found);
}

/// An event carries all its results, for the search that it names or for any
/// search where it names none. Its topic is `remote_query_results`, or `results`,
/// or it has none; and its results and its search stand under `event` or beside it.
pub proof fn results_events_are_read(v: JsonView, items: Seq<JsonView>, want_uuid: Seq<char>)
    ensures
        ({
            let inner = match v.member("event"@) {
                Some(e) => e,
                None => v,
            };
            let named = match v.member("topic"@) {
                Some(t) => Some(t),
                None => match v.member("type"@) {
                    Some(t) => Some(t),
                    None => v.member("name"@),
                },
            };
            let on_topic = {
                ||| named == Some(JsonView::Text("remote_query_results"@))
                ||| named == Some(JsonView::Text("results"@))
                ||| named is None
                ||| !(named->0 is Text)
            };
            let search = match inner.member("uuid"@) {
                Some(u) => Some(u),
                None => v.member("uuid"@),
            };
            let same_search = {
                ||| want_uuid.len() == 0
                ||| search is None
                ||| !(search->0 is Text)
                ||| search == Some(JsonView::Text(want_uuid))
            };
            let here = inner.member("results"@) == Some(JsonView::List(items)) || (inner.member(
                "results"@,
            ) is None && v.member("results"@) == Some(JsonView::List(items)));
            &&& here && on_topic && same_search ==> event_items(v, want_uuid) == items_of(items)
            &&& !on_topic || !same_search ==> event_items(v, want_uuid).len() == 0
            &&& inner.member("results"@) is None && v.member("results"@) is None ==> event_items(
                v,
                want_uuid,
            ).len() == 0
        }),
{
    reveal_strlit("results");
    reveal_strlit("remote_query_results");
    assert("results"@.len() != "remote_query_results"@.len());
}

/// A frame carries the results of the event that its payload is; a blank payload,
/// or one that is no JSON document, carries none.
pub proof fn frames_carry_events(frame: Seq<char>, want_uuid: Seq<char>)
    ensures
        text::is_blank(payload(frame)) ==> frame_items(frame, want_uuid).len() == 0,
        json::document(payload(frame)) is None ==> frame_items(frame, want_uuid).len() == 0,
        !text::is_blank(payload(frame)) ==> (json::document(payload(frame)) matches Some(v)
            ==> frame_items(frame, want_uuid) == event_items(v, want_uuid)),
{
}

/// A frame ends at the first blank line: within it there is no other.
pub proof fn frames_end_at_the_first_blank_line(s: Seq<char>, i: int)
    requires
        0 <= i < complete_frames(s).len(),
    ensures
        text::ends_with(complete_frames(s)[i], "\n\n"@),
        !text::contains(complete_frames(s)[i].drop_last(), "\n\n"@),
    decreases s.len(),
{
    reveal_strlit("\n\n");
    let end = "\n\n"@;
    text::first_occurrence_exists(s, end);
    frames_make_up_the_feed(s);
    if let Some(at) = text::first_occurrence(s, end) {
        let head = s.take(at + 2);
        let tail = s.skip(at + 2);
        if i > 0 {
            assert(complete_frames(s)[i] == complete_frames(tail)[i - 1]);
            frames_end_at_the_first_blank_line(tail, i - 1);
        } else {
            assert(complete_frames(s)[0] == head);
            if text::contains(head.drop_last(), end) {
                let j = choose|j: int| text::occurs_at(head.drop_last(), end, j);
                assert(head.drop_last().subrange(j, j + 2) == s.subrange(j, j + 2));
                assert(text::occurs_at(s, end, j));
            }
        }
    }
}

/// A chunk is added to what is waiting, and frames are taken from the front of it;
/// a buffer starts with nothing.
pub proof fn chunks_wait_for_their_frames(
    buffer: &mut FrameBuffer,
    chunk: &[u8],
    other: &mut FrameBuffer,
    frames: Vec<String>,
    fresh: FrameBuffer,
)
    requires
        call_ensures(FrameBuffer::receive, (buffer, chunk), ()),
        call_ensures(FrameBuffer::take_frames, (other,), frames),
        call_ensures(FrameBuffer::new, (), fresh),
    ensures
        final(buffer)@ == old(buffer)@ + lossy_text(chunk@),
        concat(text::string_views(frames@)) + final(other)@ == old(other)@,
        !text::contains(final(other)@, "\n\n"@),
        fresh@.len() == 0,
{
    frames_make_up_the_feed(old(other)@);
}

} // verus!
