//! Maps from text keys, kept as a list of entries with distinct keys.

use vstd::prelude::*;

use crate::text::{owned, str_eq};

verus! {

/// A map from texts to values of type `V`.
#[derive(Debug)]
pub struct KeyMap<V> {
    entries: Vec<(String, V)>,
}

/// The text fields of a record.
pub type Fields = KeyMap<String>;

/// The structured filters of a query: each key with its accepted values.
pub type Filters = KeyMap<Vec<String>>;

/// No key occurs twice.
spec fn distinct_keys<V>(entries: Seq<(String, V)>) -> bool {
    forall|i: int, j: int|
        0 <= i < j < entries.len() ==> (#[trigger] entries[i]).0@ != (#[trigger] entries[j]).0@
}

/// The key has an entry.
spec fn has_key<V>(entries: Seq<(String, V)>, key: Seq<char>) -> bool {
    exists|i: int| 0 <= i < entries.len() && (#[trigger] entries[i]).0@ == key
}

/// The value of the entry for a key.
spec fn value_of<V>(entries: Seq<(String, V)>, key: Seq<char>) -> V {
    entries[choose|i: int| 0 <= i < entries.len() && (#[trigger] entries[i]).0@ == key].1
}

impl<V> KeyMap<V> {
    #[verifier::type_invariant]
    spec fn distinct(self) -> bool {
        distinct_keys(self.entries@)
    }
}

impl<V: View> View for KeyMap<V> {
    type V = Map<Seq<char>, V::V>;

    closed spec fn view(&self) -> Map<Seq<char>, V::V> {
        map_of(self.entries@)
    }
}

/// The map that a list of entries stands for.
spec fn map_of<V: View>(entries: Seq<(String, V)>) -> Map<Seq<char>, V::V> {
    Map::new(|key: Seq<char>| has_key(entries, key), |key: Seq<char>| value_of(entries, key)@)
}

proof fn lemma_value_at<V>(entries: Seq<(String, V)>, i: int)
    requires
        distinct_keys(entries),
        0 <= i < entries.len(),
    ensures
        has_key(entries, entries[i].0@),
        value_of(entries, entries[i].0@) == entries[i].1,
{
    let key = entries[i].0@;
    assert(entries[i].0@ == key);
    let j = choose|j: int| 0 <= j < entries.len() && (#[trigger] entries[j]).0@ == key;
    if i < j {
        assert(entries[i].0@ != entries[j].0@);
    } else if j < i {
        assert(entries[j].0@ != entries[i].0@);
    }
}

/// Index of the entry for `key`, or the number of entries where there is none.
fn position<V>(entries: &Vec<(String, V)>, key: &str) -> (r: usize)
    ensures
        r <= entries@.len(),
        r < entries@.len() ==> entries@[r as int].0@ == key@,
        r == entries@.len() ==> !has_key(entries@, key@),
{
    let n: usize = entries.len();
    let mut i: usize = 0;
    while i < n
        invariant
            n == entries@.len(),
            i <= n,
            forall|j: int| 0 <= j < i ==> (#[trigger] entries@[j]).0@ != key@,
        decreases n - i,
    {
        if str_eq(entries[i].0.as_str(), key) {
            return i;
        }
        i += 1;
    }
    n
}

impl<V: View> KeyMap<V> {
    /// The empty map.
    pub fn new() -> (r: Self)
        ensures
            r@ == Map::<Seq<char>, V::V>::empty(),
    {
        let r = KeyMap { entries: Vec::new() };
        assert(r@ == Map::<Seq<char>, V::V>::empty());
        r
    }

    /// The value stored for `key`.
    pub fn get(&self, key: &str) -> (r: Option<&V>)
        ensures
            r is Some <==> self@.contains_key(key@),
            r matches Some(v) ==> v@ == self@[key@],
    {
        proof {
            use_type_invariant(self);
        }
        let i: usize = position(&self.entries, key);
        if i < self.entries.len() {
            proof {
                lemma_value_at(self.entries@, i as int);
            }
            Some(&self.entries[i].1)
        } else {
            None
        }
    }

    /// Tests whether there is a value for `key`.
    pub fn contains_key(&self, key: &str) -> (r: bool)
        ensures
            r == self@.contains_key(key@),
    {
        self.get(key).is_some()
    }

    /// Stores `value` for `key`, in place of an earlier value.
    pub fn insert(&mut self, key: &str, value: V)
        ensures
            final(self)@ == old(self)@.insert(key@, value@),
    {
        proof {
            use_type_invariant(&*self);
        }
        let mut entries: Vec<(String, V)> = Vec::new();
        std::mem::swap(&mut entries, &mut self.entries);
        let ghost before = entries@;
        let i: usize = position(&entries, key);
        let ghost view_before = old(self)@;
        if i < entries.len() {
            entries.set(i, (owned(key), value));
        } else {
            entries.push((owned(key), value));
        }
        proof {
            lemma_stored(before, entries@, i as int, key@, value);
        }
        self.entries = entries;
        assert(self@ =~= view_before.insert(key@, value@));
    }

    /// Stores `value` for `key` unless there is a value already.
    pub fn insert_if_absent(&mut self, key: &str, value: V)
        ensures
            final(self)@ == (if old(self)@.contains_key(key@) {
                old(self)@
            } else {
                old(self)@.insert(key@, value@)
            }),
    {
        if !self.contains_key(key) {
            self.insert(key, value);
        }
    }

    /// Takes out the value for `key`.
    pub fn remove(&mut self, key: &str) -> (r: Option<V>)
        ensures
            final(self)@ == old(self)@.remove(key@),
            r is Some <==> old(self)@.contains_key(key@),
            r matches Some(v) ==> v@ == old(self)@[key@],
    {
        proof {
            use_type_invariant(&*self);
        }
        let mut entries: Vec<(String, V)> = Vec::new();
        std::mem::swap(&mut entries, &mut self.entries);
        let ghost before = entries@;
        let ghost view_before = old(self)@;
        let i: usize = position(&entries, key);
        if i < entries.len() {
            proof {
                lemma_value_at(before, i as int);
            }
            let entry = entries.remove(i);
            proof {
                lemma_removed(before, i as int);
            }
            self.entries = entries;
            assert(self@ =~= view_before.remove(key@));
            Some(entry.1)
        } else {
            self.entries = entries;
            assert(self@ =~= view_before.remove(key@));
            None
        }
    }

    /// The number of entries.
    pub fn len(&self) -> (r: usize)
        ensures
            r == self@.len(),
            self@.dom().finite(),
    {
        proof {
            use_type_invariant(self);
            lemma_len(self.entries@, self@);
        }
        self.entries.len()
    }

    /// The keys, each once.
    pub fn keys(&self) -> (r: Vec<String>)
        ensures
            forall|i: int, j: int| 0 <= i < j < r@.len() ==> (#[trigger] r@[i])@ != (#[trigger] r@[j])@,
            forall|i: int| 0 <= i < r@.len() ==> self@.contains_key((#[trigger] r@[i])@),
            forall|key: Seq<char>|
                self@.contains_key(key) ==> exists|i: int|
                    0 <= i < r@.len() && (#[trigger] r@[i])@ == key,
    {
        proof {
            use_type_invariant(self);
        }
        let n: usize = self.entries.len();
        let mut out: Vec<String> = Vec::new();
        let mut i: usize = 0;
        while i < n
            invariant
                n == self.entries@.len(),
                i <= n,
                out@.len() == i,
                forall|j: int| 0 <= j < i ==> (#[trigger] out@[j])@ == self.entries@[j].0@,
            decreases n - i,
        {
            out.push(owned(self.entries[i].0.as_str()));
            i += 1;
        }
        proof {
            let entries = self.entries@;
            assert forall|j: int| 0 <= j < out@.len() implies self@.contains_key(
                (#[trigger] out@[j])@,
            ) by {
                lemma_value_at(entries, j);
            }
            assert forall|j: int, k: int| 0 <= j < k < out@.len() implies (#[trigger] out@[j])@ != (
            #[trigger] out@[k])@ by {
                assert(entries[j].0@ != entries[k].0@);
            }
            assert forall|key: Seq<char>| self@.contains_key(key) implies exists|j: int|
                0 <= j < out@.len() && (#[trigger] out@[j])@ == key by {
                let j = choose|j: int| 0 <= j < entries.len() && (#[trigger] entries[j]).0@ == key;
                assert(out@[j]@ == key);
            }
        }
        out
    }
}

/// The keys that a list of texts names.
pub open spec fn key_set(keys: Seq<String>) -> Set<Seq<char>> {
    Set::new(|key: Seq<char>| exists|i: int| 0 <= i < keys.len() && (#[trigger] keys[i])@ == key)
}

impl KeyMap<String> {
    /// Stores every entry of `other`, in place of earlier values.
    pub fn extend(&mut self, other: &KeyMap<String>)
        ensures
            final(self)@ == old(self)@.union_prefer_right(other@),
    {
        proof {
            use_type_invariant(other);
        }
        let ghost before = self@;
        let ghost entries = other.entries@;
        let n: usize = other.entries.len();
        let mut i: usize = 0;
        assert(self@ =~= before.union_prefer_right(map_of(entries.take(0))));
        while i < n
            invariant
                n == entries.len(),
                entries == other.entries@,
                distinct_keys(entries),
                i <= n,
                self@ == before.union_prefer_right(map_of(entries.take(i as int))),
            decreases n - i,
        {
            proof {
                lemma_take_next(entries, i as int);
            }
            let key: &str = other.entries[i].0.as_str();
            self.insert(key, owned(other.entries[i].1.as_str()));
            i += 1;
            assert(self@ =~= before.union_prefer_right(map_of(entries.take(i as int))));
        }
        assert(entries.take(n as int) == entries);
    }

    /// Takes out the value of every key in `keys`.
    pub fn remove_all(&mut self, keys: &Vec<String>)
        ensures
            final(self)@ == old(self)@.remove_keys(key_set(keys@)),
    {
        let ghost before = self@;
        let n: usize = keys.len();
        let mut i: usize = 0;
        assert(self@ =~= before.remove_keys(key_set(keys@.take(0))));
        while i < n
            invariant
                n == keys@.len(),
                i <= n,
                self@ == before.remove_keys(key_set(keys@.take(i as int))),
            decreases n - i,
        {
            self.remove(keys[i].as_str());
            proof {
                let done = keys@.take(i as int);
                let more = keys@.take(i + 1);
                assert forall|key: Seq<char>|
                    key_set(more).contains(key) == (key_set(done).contains(key) || key
                        == keys@[i as int]@) by {
                    if key_set(done).contains(key) {
                        let j = choose|j: int| 0 <= j < done.len() && (#[trigger] done[j])@ == key;
                        assert(more[j]@ == key);
                    }
                    assert(more[i as int]@ == keys@[i as int]@);
                    if key_set(more).contains(key) && key != keys@[i as int]@ {
                        let j = choose|j: int| 0 <= j < more.len() && (#[trigger] more[j])@ == key;
                        assert(done[j]@ == key);
                    }
                }
                assert(self@ =~= before.remove_keys(key_set(more)));
            }
            i += 1;
        }
        assert(keys@.take(n as int) == keys@);
    }
}

impl Clone for KeyMap<String> {
    fn clone(&self) -> (r: Self)
        ensures
            r@ == self@,
    {
        let mut r = KeyMap::new();
        r.extend(self);
        assert(r@ =~= self@);
        r
    }
}

proof fn lemma_take_next<V: View>(entries: Seq<(String, V)>, i: int)
    requires
        distinct_keys(entries),
        0 <= i < entries.len(),
    ensures
        map_of(entries.take(i + 1)) == map_of(entries.take(i)).insert(entries[i].0@, entries[i].1@),
{
    let done = entries.take(i);
    let more = entries.take(i + 1);
    assert(distinct_keys(done));
    assert(distinct_keys(more));
    assert(!has_key(done, entries[i].0@)) by {
        if has_key(done, entries[i].0@) {
            let j = choose|j: int| 0 <= j < done.len() && (#[trigger] done[j]).0@ == entries[i].0@;
            assert(entries[j].0@ != entries[i].0@);
        }
    }
    lemma_stored(done, more, i, entries[i].0@, entries[i].1);
    assert(map_of(more) =~= map_of(done).insert(entries[i].0@, entries[i].1@));
}

proof fn lemma_stored<V>(
    before: Seq<(String, V)>,
    after: Seq<(String, V)>,
    i: int,
    key: Seq<char>,
    value: V,
)
    requires
        distinct_keys(before),
        0 <= i <= before.len(),
        i < before.len() ==> before[i].0@ == key && after.len() == before.len(),
        i == before.len() ==> !has_key(before, key) && after.len() == before.len() + 1,
        after[i].0@ == key,
        after[i].1 == value,
        forall|j: int| 0 <= j < before.len() && j != i ==> #[trigger] after[j] == before[j],
    ensures
        distinct_keys(after),
        has_key(after, key),
        value_of(after, key) == value,
        forall|k: Seq<char>| k != key ==> #[trigger] has_key(after, k) == has_key(before, k),
        forall|k: Seq<char>|
            k != key && has_key(before, k) ==> #[trigger] value_of(after, k) == value_of(before, k),
{
    assert forall|a: int, b: int| 0 <= a < b < after.len() implies (#[trigger] after[a]).0@ != (
    #[trigger] after[b]).0@ by {
        if a < before.len() {
            assert(before[a].0@ == after[a].0@);
        }
        if b < before.len() {
            assert(before[b].0@ == after[b].0@);
        }
    }
    lemma_value_at(after, i);
    assert forall|k: Seq<char>| k != key && has_key(before, k) implies has_key(after, k)
        && #[trigger] value_of(after, k) == value_of(before, k) by {
        let j = choose|j: int| 0 <= j < before.len() && (#[trigger] before[j]).0@ == k;
        assert(after[j] == before[j]);
        lemma_value_at(before, j);
        lemma_value_at(after, j);
    }
    assert forall|k: Seq<char>| k != key implies #[trigger] has_key(after, k) == has_key(
        before,
        k,
    ) by {
        if has_key(before, k) {
            let j = choose|j: int| 0 <= j < before.len() && (#[trigger] before[j]).0@ == k;
            assert(after[j].0@ == k);
        }
        if has_key(after, k) {
            let j = choose|j: int| 0 <= j < after.len() && (#[trigger] after[j]).0@ == k;
            assert(after[j] == before[j]);
            lemma_value_at(before, j);
        }
    }
}

proof fn lemma_removed<V>(before: Seq<(String, V)>, i: int)
    requires
        distinct_keys(before),
        0 <= i < before.len(),
    ensures
        distinct_keys(before.remove(i)),
        !has_key(before.remove(i), before[i].0@),
        forall|k: Seq<char>|
            k != before[i].0@ ==> {
                &&& #[trigger] has_key(before.remove(i), k) == has_key(before, k)
                &&& has_key(before, k) ==> value_of(before.remove(i), k) == value_of(before, k)
            },
{
    let after = before.remove(i);
    let from = |j: int|
        if j < i {
            j
        } else {
            j + 1
        };
    assert forall|a: int, b: int| 0 <= a < b < after.len() implies (#[trigger] after[a]).0@ != (
    #[trigger] after[b]).0@ by {
        assert(after[a] == before[from(a)]);
        assert(after[b] == before[from(b)]);
    }
    if has_key(after, before[i].0@) {
        let j = choose|j: int| 0 <= j < after.len() && (#[trigger] after[j]).0@ == before[i].0@;
        assert(after[j] == before[from(j)]);
        if from(j) < i {
            assert(before[from(j)].0@ != before[i].0@);
        } else {
            assert(before[i].0@ != before[from(j)].0@);
        }
    }
    assert forall|k: Seq<char>| k != before[i].0@ implies {
        &&& #[trigger] has_key(after, k) == has_key(before, k)
        &&& has_key(before, k) ==> value_of(after, k) == value_of(before, k)
    } by {
        if has_key(before, k) {
            let j = choose|j: int| 0 <= j < before.len() && (#[trigger] before[j]).0@ == k;
            let to = if j < i {
                j
            } else {
                j - 1
            };
            assert(after[to] == before[j]);
            lemma_value_at(before, j);
            lemma_value_at(after, to);
        }
        if has_key(after, k) {
            let j = choose|j: int| 0 <= j < after.len() && (#[trigger] after[j]).0@ == k;
            assert(after[j] == before[from(j)]);
            assert(before[from(j)].0@ == k);
        }
    }
}

proof fn lemma_len<V, W>(entries: Seq<(String, V)>, m: Map<Seq<char>, W>)
    requires
        distinct_keys(entries),
        forall|key: Seq<char>| #[trigger] m.contains_key(key) == has_key(entries, key),
    ensures
        m.dom().finite(),
        m.len() == entries.len(),
    decreases entries.len(),
{
    if entries.len() == 0 {
        assert(m.dom() =~= Set::<Seq<char>>::empty());
    } else {
        let key = entries.last().0@;
        let init = entries.drop_last();
        lemma_value_at(entries, entries.len() - 1);
        assert(m.contains_key(key));
        let rest = m.remove(key);
        assert forall|k: Seq<char>| #[trigger] rest.contains_key(k) == has_key(init, k) by {
            if has_key(init, k) {
                let j = choose|j: int| 0 <= j < init.len() && (#[trigger] init[j]).0@ == k;
                assert(entries[j].0@ == k);
                assert(entries[j].0@ != entries[entries.len() - 1].0@);
            }
            if rest.contains_key(k) {
                assert(m.contains_key(k));
                let j = choose|j: int| 0 <= j < entries.len() && (#[trigger] entries[j]).0@ == k;
                assert(init[j] == entries[j]);
            }
        }
        lemma_len(init, rest);
        assert(m.dom() =~= rest.dom().insert(key));
    }
}

} // verus!
