//! A map whose keys are texts.
//!
//! The entries stand in a list in which no key occurs twice, in the order in
//! which the keys first came. What the list holds is a `Map` from texts.

use vstd::prelude::*;
use vstd::string::*;
use crate::text::same_text;

verus! {

broadcast use vstd::string::group_string_axioms;

/// A map from texts.
#[derive(Debug, PartialEq, Eq)]
pub struct TextMap<V> {
    entries: Vec<(String, V)>,
}

/// The map that the first `n` entries make up.
pub open spec fn map_to<V>(entries: Seq<(String, V)>, n: nat) -> Map<Seq<char>, V>
    decreases n,
{
    if n == 0 || n > entries.len() {
        Map::empty()
    } else {
        map_to(entries, (n - 1) as nat).insert(entries[n - 1].0@, entries[n - 1].1)
    }
}

/// The position of the first entry at or after `from` that has a key.
pub open spec fn entry_place<V>(entries: Seq<(String, V)>, key: Seq<char>, from: int) -> Option<int>
    decreases entries.len() - from,
{
    if from < 0 || from >= entries.len() {
        None
    } else if entries[from].0@ == key {
        Some(from)
    } else {
        entry_place(entries, key, from + 1)
    }
}

/// Whether no key occurs twice.
pub open spec fn distinct_keys<V>(entries: Seq<(String, V)>) -> bool {
    forall|i: int, j: int|
        0 <= i < j < entries.len() ==> (#[trigger] entries[i]).0@ != (#[trigger] entries[j]).0@
}

proof fn lemma_map_to<V>(entries: Seq<(String, V)>, n: nat)
    requires
        n <= entries.len(),
        distinct_keys(entries),
    ensures
        forall|k: Seq<char>|
            #[trigger] map_to(entries, n).contains_key(k) <==> exists|i: int|
                0 <= i < n && (#[trigger] entries[i]).0@ == k,
        forall|i: int|
            0 <= i < n ==> map_to(entries, n).contains_key((#[trigger] entries[i]).0@) && map_to(entries, n)[entries[i].0@]
                == entries[i].1,
        map_to(entries, n).dom().len() == n,
        map_to(entries, n).dom().finite(),
    decreases n,
{
    if n > 0 {
        lemma_map_to(entries, (n - 1) as nat);
        let before = map_to(entries, (n - 1) as nat);
        assert(!before.contains_key(entries[n - 1].0@));
        assert forall|k: Seq<char>| #[trigger] map_to(entries, n).contains_key(k) implies exists|i: int|
            0 <= i < n && (#[trigger] entries[i]).0@ == k by {
            if k == entries[n - 1].0@ {
                assert(entries[n - 1].0@ == k);
            } else {
                assert(before.contains_key(k));
            }
        }
    }
}

/// Entries beyond the first `n` do not matter.
proof fn lemma_map_to_prefix<V>(a: Seq<(String, V)>, b: Seq<(String, V)>, n: nat)
    requires
        n <= a.len(),
        n <= b.len(),
        forall|i: int| 0 <= i < n ==> (#[trigger] a[i]).0@ == b[i].0@ && a[i].1 == b[i].1,
    ensures
        map_to(a, n) == map_to(b, n),
    decreases n,
{
    if n > 0 {
        lemma_map_to_prefix(a, b, (n - 1) as nat);
        assert(a[n - 1].0@ == b[n - 1].0@);
    }
}

impl<V> View for TextMap<V> {
    type V = Map<Seq<char>, V>;

    closed spec fn view(&self) -> Map<Seq<char>, V> {
        map_to(self.entries@, self.entries@.len())
    }
}

impl<V> TextMap<V> {
    #[verifier::type_invariant]
    closed spec fn well_formed(self) -> bool {
        distinct_keys(self.entries@)
    }

    /// The entries, in the order in which their keys first came.
    pub closed spec fn listed(self) -> Seq<(String, V)> {
        self.entries@
    }

    /// An empty map.
    pub fn new() -> (map: TextMap<V>)
        ensures
            map@ == Map::<Seq<char>, V>::empty(),
            map.listed() == Seq::<(String, V)>::empty(),
    {
        TextMap { entries: Vec::new() }
    }

    fn find(&self, key: &str) -> (at: usize)
        ensures
            at <= self.entries@.len(),
            at < self.entries@.len() ==> self.entries@[at as int].0@ == key@,
            at == self.entries@.len() ==> forall|i: int|
                0 <= i < self.entries@.len() ==> (#[trigger] self.entries@[i]).0@ != key@,
            entry_place(self.entries@, key@, 0) == if at < self.entries@.len() {
                Some(at as int)
            } else {
                None
            },
    {
        let mut i: usize = 0;
        while i < self.entries.len()
            invariant
                i <= self.entries@.len(),
                entry_place(self.entries@, key@, 0) == entry_place(self.entries@, key@, i as int),
                forall|k: int| 0 <= k < i ==> (#[trigger] self.entries@[k]).0@ != key@,
            decreases self.entries@.len() - i,
        {
            if same_text(self.entries[i].0.as_str(), key) {
                return i;
            }
            i += 1;
        }
        i
    }

    /// The value under a key.
    pub fn get(&self, key: &str) -> (value: Option<&V>)
        ensures
            match value {
                Some(v) => self@.contains_key(key@) && self@[key@] == *v,
                None => !self@.contains_key(key@),
            },
    {
        proof {
            use_type_invariant(self);
            lemma_map_to(self.entries@, self.entries@.len());
        }
        let i = self.find(key);
        if i < self.entries.len() {
            Some(&self.entries[i].1)
        } else {
            None
        }
    }

    /// Whether there is a value under a key.
    pub fn contains_key(&self, key: &str) -> (found: bool)
        ensures
            found == self@.contains_key(key@),
    {
        self.get(key).is_some()
    }

    /// Puts a value under a key, in place of the one that was there. A key that
    /// is new goes behind the others.
    pub fn insert(&mut self, key: String, value: V)
        ensures
            final(self)@ == old(self)@.insert(key@, value),
            match entry_place(old(self).listed(), key@, 0) {
                Some(i) => final(self).listed() == old(self).listed().update(i, (key, value)),
                None => final(self).listed() == old(self).listed().push((key, value)),
            },
    {
        proof {
            use_type_invariant(&*self);
            lemma_map_to(self.entries@, self.entries@.len());
        }
        let i = self.find(key.as_str());
        let mut taken: TextMap<V> = TextMap::new();
        std::mem::swap(self, &mut taken);
        let mut entries = taken.entries;
        let n = entries.len();
        let ghost before = entries@;
        let ghost name = key@;
        let ghost v = value;
        if i < n {
            entries.set(i, (key, value));
            proof {
                assert(distinct_keys(entries@));
                lemma_same_but_one(before, entries@, i as int);
            }
        } else {
            entries.push((key, value));
            proof {
                lemma_map_to_prefix(entries@, before, n as nat);
                assert(distinct_keys(entries@));
            }
        }
        *self = TextMap { entries };
    }

    /// Takes out what is under a key. The other entries keep their order; where
    /// there is no such key, nothing changes.
    pub fn remove(&mut self, key: &str) -> (value: Option<V>)
        ensures
            match entry_place(old(self).listed(), key@, 0) {
                Some(i) => {
                    &&& old(self)@.contains_key(key@)
                    &&& value == Some(old(self)@[key@])
                    &&& final(self).listed() == old(self).listed().remove(i)
                },
                None => !old(self)@.contains_key(key@) && value is None && *final(self) == *old(self),
            },
            final(self)@ == old(self)@.remove(key@),
    {
        proof {
            use_type_invariant(&*self);
            lemma_map_to(self.entries@, self.entries@.len());
        }
        let i = self.find(key);
        if i >= self.entries.len() {
            proof {
                assert(self@.remove(key@) =~= self@);
            }
            return None;
        }
        let mut taken: TextMap<V> = TextMap::new();
        std::mem::swap(self, &mut taken);
        let mut entries = taken.entries;
        let ghost before = entries@;
        let (_, value) = entries.remove(i);
        proof {
            lemma_without_one(before, i as int);
        }
        *self = TextMap { entries };
        Some(value)
    }

    /// How many keys there are. The entries list every key once, with its
    /// value.
    pub fn len(&self) -> (count: usize)
        ensures
            count == self@.dom().len(),
            self@.dom().finite(),
            count == self.listed().len(),
            distinct_keys(self.listed()),
            self@ == map_to(self.listed(), self.listed().len()),
            forall|k: Seq<char>|
                #[trigger] self@.contains_key(k) <==> exists|i: int|
                    0 <= i < self.listed().len() && (#[trigger] self.listed()[i]).0@ == k,
            forall|i: int|
                0 <= i < self.listed().len() ==> self@[(#[trigger] self.listed()[i]).0@] == self.listed()[i].1,
    {
        proof {
            use_type_invariant(self);
            lemma_map_to(self.entries@, self.entries@.len());
        }
        self.entries.len()
    }

    /// Whether there is no key.
    pub fn is_empty(&self) -> (empty: bool)
        ensures
            empty == (self@ == Map::<Seq<char>, V>::empty()),
    {
        let n = self.len();
        proof {
            use_type_invariant(self);
            lemma_map_to(self.entries@, self.entries@.len());
            if n == 0 {
                assert(self@ =~= Map::<Seq<char>, V>::empty());
            }
        }
        n == 0
    }

    /// The entry at a position.
    pub fn entry(&self, i: usize) -> (entry: (&str, &V))
        requires
            i < self.listed().len(),
        ensures
            entry.0@ == self.listed()[i as int].0@,
            *entry.1 == self.listed()[i as int].1,
            self@.contains_key(entry.0@),
            self@[entry.0@] == *entry.1,
    {
        proof {
            use_type_invariant(self);
            lemma_map_to(self.entries@, self.entries@.len());
        }
        (self.entries[i].0.as_str(), &self.entries[i].1)
    }
}

/// A list without one entry makes the map without its key.
proof fn lemma_without_one<V>(a: Seq<(String, V)>, at: int)
    requires
        0 <= at < a.len(),
        distinct_keys(a),
    ensures
        distinct_keys(a.remove(at)),
        map_to(a.remove(at), (a.len() - 1) as nat) =~= map_to(a, a.len()).remove(a[at].0@),
{
    let b = a.remove(at);
    assert forall|i: int| 0 <= i < b.len() implies (#[trigger] b[i]) == a[if i < at { i } else { i + 1 }] by {
    }
    assert(distinct_keys(b)) by {
        assert forall|i: int, j: int| 0 <= i < j < b.len() implies (#[trigger] b[i]).0@ != (#[trigger] b[j]).0@ by {
            assert(b[i] == a[if i < at { i } else { i + 1 }]);
            assert(b[j] == a[if j < at { j } else { j + 1 }]);
        }
    }
    lemma_map_to(a, a.len());
    lemma_map_to(b, b.len());
    let x = map_to(a, a.len());
    let y = map_to(b, b.len());
    assert forall|k: Seq<char>| #[trigger] y.contains_key(k) implies x.contains_key(k) && k != a[at].0@ && y[k] == x[k] by {
        let i = choose|i: int| 0 <= i < b.len() && (#[trigger] b[i]).0@ == k;
        let j = if i < at { i } else { i + 1 };
        assert(b[i] == a[j]);
        assert(a[j].0@ == k && a[at].0@ != k);
    }
    assert forall|k: Seq<char>| #[trigger] x.contains_key(k) && k != a[at].0@ implies y.contains_key(k) by {
        let j = choose|j: int| 0 <= j < a.len() && (#[trigger] a[j]).0@ == k;
        let i = if j < at { j } else { j - 1 };
        assert(b[i] == a[j]);
        assert(b[i].0@ == k);
    }
}

/// Two lists that differ in one value make maps that differ in one value.
proof fn lemma_same_but_one<V>(a: Seq<(String, V)>, b: Seq<(String, V)>, at: int)
    requires
        a.len() == b.len(),
        0 <= at < a.len(),
        distinct_keys(a),
        distinct_keys(b),
        forall|i: int| 0 <= i < a.len() ==> (#[trigger] a[i]).0@ == b[i].0@,
        forall|i: int| 0 <= i < a.len() && i != at ==> (#[trigger] a[i]).1 == b[i].1,
    ensures
        map_to(b, b.len()) =~= map_to(a, a.len()).insert(a[at].0@, b[at].1),
{
    lemma_map_to(a, a.len());
    lemma_map_to(b, b.len());
    let x = map_to(a, a.len());
    let y = map_to(b, b.len());
    assert forall|k: Seq<char>| #[trigger] y.contains_key(k) implies x.contains_key(k) by {
        let i = choose|i: int| 0 <= i < b.len() && (#[trigger] b[i]).0@ == k;
        assert(a[i].0@ == k);
    }
    assert forall|k: Seq<char>| #[trigger] x.contains_key(k) implies y.contains_key(k) by {
        let i = choose|i: int| 0 <= i < a.len() && (#[trigger] a[i]).0@ == k;
        assert(b[i].0@ == k);
    }
    assert forall|k: Seq<char>| #[trigger] y.contains_key(k) implies y[k] == x.insert(a[at].0@, b[at].1)[k] by {
        let i = choose|i: int| 0 <= i < b.len() && (#[trigger] b[i]).0@ == k;
        assert(a[i].0@ == k);
    }
    assert(a[at].0@ == b[at].0@);
}

} // verus!
