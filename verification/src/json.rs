//! JSON documents as plain values.

use vstd::prelude::*;

use crate::text;
use crate::text::str_eq;

verus! {

/// A JSON value. Of a number it keeps what it is as an unsigned and as a signed
/// 64-bit integer; a number that is neither keeps nothing.
#[derive(Debug)]
pub enum Json {
    Null,
    Bool(bool),
    Number { unsigned: Option<u64>, signed: Option<i64> },
    Text(String),
    List(Vec<Json>),
    Object(Vec<(String, Json)>),
}

/// What a [`Json`] holds. The entries of an object have distinct keys.
pub enum JsonView {
    Null,
    Bool(bool),
    Number { unsigned: Option<u64>, signed: Option<i64> },
    Text(Seq<char>),
    List(Seq<JsonView>),
    Object(Seq<(Seq<char>, JsonView)>),
}

/// What a JSON value holds.
pub open spec fn json_view(j: Json) -> JsonView
    decreases j,
{
    match j {
        Json::Null => JsonView::Null,
        Json::Bool(b) => JsonView::Bool(b),
        Json::Number { unsigned, signed } => JsonView::Number { unsigned, signed },
        Json::Text(s) => JsonView::Text(s@),
        Json::List(v) => JsonView::List(list_view(v@)),
        Json::Object(v) => JsonView::Object(object_view(v@)),
    }
}

/// What the items of a list hold.
pub open spec fn list_view(v: Seq<Json>) -> Seq<JsonView>
    decreases v,
{
    if v.len() == 0 {
        Seq::empty()
    } else {
        list_view(v.drop_last()).push(json_view(v.last()))
    }
}

/// What the entries of an object hold.
pub open spec fn object_view(v: Seq<(String, Json)>) -> Seq<(Seq<char>, JsonView)>
    decreases v,
{
    if v.len() == 0 {
        Seq::empty()
    } else {
        object_view(v.drop_last()).push((v.last().0@, json_view(v.last().1)))
    }
}

impl View for Json {
    type V = JsonView;

    open spec fn view(&self) -> JsonView {
        json_view(*self)
    }
}

/// The JSON value type of the `serde_json` crate.
#[verifier::external_type_specification]
#[verifier::external_body]
pub struct ExValue(serde_json::Value);

/// What a JSON value of the `serde_json` crate holds: the entries of an object
/// in the order of its map.
pub uninterp spec fn held(v: serde_json::Value) -> JsonView;

/// The JSON value that a text denotes, as `serde_json::from_str` reads it.
pub uninterp spec fn document(s: Seq<char>) -> Option<JsonView>;

/// `serde_json::from_str`: the value that the text denotes, or nothing where it
/// is no JSON document. Which value that is depends on the text alone.
#[verifier::external_body]
fn read_value(s: &str) -> (r: Option<serde_json::Value>)
    ensures
        match r {
            Some(v) => document(s@) == Some(held(v)),
            None => document(s@) is None,
        },
{
    serde_json::from_str(s).ok()
}

/// The outermost layer of a JSON value.
enum Layer {
    Null,
    Bool(bool),
    Number { unsigned: Option<u64>, signed: Option<i64> },
    Text(String),
    List(Vec<serde_json::Value>),
    Object(Vec<(String, serde_json::Value)>),
}

/// The variants of `serde_json::Value`, with `Number::as_u64` and
/// `Number::as_i64` for a number: what each variant carries is what the value
/// holds.
#[verifier::external_body]
fn outer_layer(v: serde_json::Value) -> (r: Layer)
    ensures
        match r {
            Layer::Null => held(v) == JsonView::Null,
            Layer::Bool(b) => held(v) == JsonView::Bool(b),
            Layer::Number { unsigned, signed } => held(v) == (JsonView::Number {
                unsigned,
                signed,
            }),
            Layer::Text(s) => held(v) == JsonView::Text(s@),
            Layer::List(items) => held(v) == JsonView::List(
                Seq::new(items@.len(), |i: int| held(items@[i])),
            ),
            Layer::Object(entries) => held(v) == JsonView::Object(
                Seq::new(entries@.len(), |i: int| (entries@[i].0@, held(entries@[i].1))),
            ),
        },
{
    match v {
        serde_json::Value::Null => Layer::Null,
        serde_json::Value::Bool(b) => Layer::Bool(b),
        serde_json::Value::Number(n) => Layer::Number { unsigned: n.as_u64(), signed: n.as_i64() },
        serde_json::Value::String(s) => Layer::Text(s),
        serde_json::Value::Array(items) => Layer::List(items),
        serde_json::Value::Object(entries) => Layer::Object(entries.into_iter().collect()),
    }
}

/// Turns a value of the `serde_json` crate into a plain one.
fn plain(v: serde_json::Value) -> (r: Json)
    ensures
        r@ == held(v),
    decreases held(v),
{
    let ghost whole = held(v);
    match outer_layer(v) {
        Layer::Null => Json::Null,
        Layer::Bool(b) => Json::Bool(b),
        Layer::Number { unsigned, signed } => Json::Number { unsigned, signed },
        Layer::Text(s) => Json::Text(s),
        Layer::List(items) => {
            let ghost inner = whole->List_0;
            let ghost n = items@.len();
            let mut rest = items;
            let mut out: Vec<Json> = Vec::new();
            while rest.len() > 0
                invariant
                    whole == held(v),
                    whole == JsonView::List(inner),
                    inner.len() == n,
                    rest@.len() + out@.len() == n,
                    forall|i: int|
                        0 <= i < rest@.len() ==> held(#[trigger] rest@[i]) == inner[out@.len() + i],
                    forall|i: int| 0 <= i < out@.len() ==> (#[trigger] out@[i])@ == inner[i],
                decreases rest@.len(),
            {
                let first = rest.remove(0);
                assert(held(first) == inner[out@.len() as int]);
                assert(decreases_to!(whole => whole->List_0));
                assert(decreases_to!(inner => inner[out@.len() as int]));
                out.push(plain(first));
            }
            proof {
                lemma_list_view(out@);
                assert(list_view(out@) =~= inner);
            }
            Json::List(out)
        },
        Layer::Object(entries) => {
            let ghost inner = whole->Object_0;
            let ghost n = entries@.len();
            let mut rest = entries;
            let mut out: Vec<(String, Json)> = Vec::new();
            while rest.len() > 0
                invariant
                    whole == held(v),
                    whole == JsonView::Object(inner),
                    inner.len() == n,
                    rest@.len() + out@.len() == n,
                    forall|i: int|
                        0 <= i < rest@.len() ==> ((#[trigger] rest@[i]).0@, held(rest@[i].1))
                            == inner[out@.len() + i],
                    forall|i: int|
                        0 <= i < out@.len() ==> ((#[trigger] out@[i]).0@, out@[i].1@) == inner[i],
                decreases rest@.len(),
            {
                let (key, value) = rest.remove(0);
                let ghost k = out@.len() as int;
                assert((key@, held(value)) == inner[k]);
                assert(decreases_to!(whole => whole->Object_0));
                assert(decreases_to!(inner => inner[k]));
                assert(decreases_to!(inner[k] => inner[k].1));
                out.push((key, plain(value)));
            }
            proof {
                lemma_object_view(out@);
                assert(object_view(out@) =~= inner);
            }
            Json::Object(out)
        },
    }
}

/// Reads a JSON document.
pub fn parse_json(s: &str) -> (r: Option<Json>)
    ensures
        r is Some <==> document(s@) is Some,
        r matches Some(v) ==> document(s@) == Some(v@),
{
    match read_value(s) {
        Some(v) => Some(plain(v)),
        None => None,
    }
}

/// Position of the entry for `key`.
pub open spec fn entry_at(entries: Seq<(Seq<char>, JsonView)>, key: Seq<char>) -> Option<int>
    decreases entries.len(),
{
    if entries.len() == 0 {
        None
    } else {
        match entry_at(entries.drop_last(), key) {
            Some(i) => Some(i),
            None => if entries.last().0 == key {
                Some(entries.len() - 1)
            } else {
                None
            },
        }
    }
}

impl JsonView {
    /// The member `key` of an object.
    pub open spec fn member(self, key: Seq<char>) -> Option<JsonView> {
        match self {
            JsonView::Object(entries) => match entry_at(entries, key) {
                Some(i) => Some(entries[i].1),
                None => None,
            },
            _ => None,
        }
    }

    /// The text of a text value.
    pub open spec fn as_text(self) -> Option<Seq<char>> {
        match self {
            JsonView::Text(s) => Some(s),
            _ => None,
        }
    }
}

impl Json {
    /// The member `key` of an object.
    pub fn get(&self, key: &str) -> (r: Option<&Json>)
        ensures
            r is Some <==> self@.member(key@) is Some,
            r matches Some(v) ==> self@.member(key@) == Some(v@),
    {
        match self {
            Json::Object(entries) => {
                let ghost views = object_view(entries@);
                proof {
                    lemma_object_view(entries@);
                }
                let n: usize = entries.len();
                let mut i: usize = 0;
                while i < n
                    invariant
                        n == entries@.len(),
                        n == views.len(),
                        self@ == JsonView::Object(views),
                        forall|j: int|
                            0 <= j < n ==> #[trigger] views[j] == (
                                entries@[j].0@,
                                entries@[j].1@,
                            ),
                        i <= n,
                        entry_at(views.take(i as int), key@) is None,
                    decreases n - i,
                {
                    assert(views.take(i + 1).drop_last() == views.take(i as int));
                    if str_eq(entries[i].0.as_str(), key) {
                        proof {
                            assert(entry_at(views.take(i + 1), key@) == Some(i as int));
                            lemma_entry_prefix(views, i + 1, key@);
                            assert(views[i as int] == (entries@[i as int].0@, entries@[i as int].1@));
                        }
                        return Some(&entries[i].1);
                    }
                    assert(views[i as int] == (entries@[i as int].0@, entries@[i as int].1@));
                    i += 1;
                }
                assert(views.take(n as int) == views);
                None
            },
            _ => None,
        }
    }

    /// The text of a text value.
    pub fn as_str(&self) -> (r: Option<&str>)
        ensures
            r is Some <==> self@.as_text() is Some,
            r matches Some(s) ==> self@.as_text() == Some(s@),
    {
        match self {
            Json::Text(s) => Some(s.as_str()),
            _ => None,
        }
    }
}

/// The view of a list is the list of the views.
pub proof fn lemma_list_view(v: Seq<Json>)
    ensures
        list_view(v).len() == v.len(),
        forall|i: int| 0 <= i < v.len() ==> #[trigger] list_view(v)[i] == v[i]@,
    decreases v.len(),
{
    if v.len() > 0 {
        lemma_list_view(v.drop_last());
    }
}

proof fn lemma_object_view(v: Seq<(String, Json)>)
    ensures
        object_view(v).len() == v.len(),
        forall|i: int| 0 <= i < v.len() ==> #[trigger] object_view(v)[i] == (v[i].0@, v[i].1@),
    decreases v.len(),
{
    if v.len() > 0 {
        lemma_object_view(v.drop_last());
    }
}

proof fn lemma_entry_prefix(entries: Seq<(Seq<char>, JsonView)>, n: int, key: Seq<char>)
    requires
        0 <= n <= entries.len(),
        entry_at(entries.take(n), key) is Some,
    ensures
        entry_at(entries, key) == entry_at(entries.take(n), key),
    decreases entries.len() - n,
{
    if n < entries.len() {
        assert(entries.take(n + 1).drop_last() == entries.take(n));
        lemma_entry_prefix(entries, n + 1, key);
    } else {
        assert(entries.take(n) == entries);
    }
}

/// The member of an object is the value of the first entry with its name; there is
/// none only where no entry has that name, or where the value is no object.
pub proof fn member_is_the_first_entry(
    entries: Seq<(Seq<char>, JsonView)>,
    key: Seq<char>,
    i: int,
    v: JsonView,
)
    ensures
        0 <= i < entries.len() && entries[i].0 == key && (forall|j: int|
            0 <= j < i ==> (#[trigger] entries[j]).0 != key) ==> JsonView::Object(entries).member(
            key,
        ) == Some(entries[i].1),
        (forall|j: int| 0 <= j < entries.len() ==> (#[trigger] entries[j]).0 != key)
            ==> JsonView::Object(entries).member(key) is None,
        !(v is Object) ==> v.member(key) is None,
        v.as_text() is Some <==> v is Text,
        v matches JsonView::Text(s) ==> v.as_text() == Some(s),
{
    lemma_entry_at(entries, key);
    if 0 <= i < entries.len() && entries[i].0 == key && (forall|j: int|
        0 <= j < i ==> (#[trigger] entries[j]).0 != key) {
        let at = entry_at(entries, key)->0;
        assert(at == i) by {
            if at < i {
                assert(entries[at].0 != key);
            }
        }
    }
}

proof fn lemma_entry_at(entries: Seq<(Seq<char>, JsonView)>, key: Seq<char>)
    ensures
        entry_at(entries, key) matches Some(i) ==> 0 <= i < entries.len() && entries[i].0 == key
            && forall|j: int| 0 <= j < i ==> (#[trigger] entries[j]).0 != key,
        entry_at(entries, key) is None ==> forall|j: int|
            0 <= j < entries.len() ==> (#[trigger] entries[j]).0 != key,
    decreases entries.len(),
{
    if entries.len() > 0 {
        let init = entries.drop_last();
        lemma_entry_at(init, key);
        assert forall|j: int| 0 <= j < init.len() implies #[trigger] entries[j] == init[j] by {}
    }
}

} // verus!
