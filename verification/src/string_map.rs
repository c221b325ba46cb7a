//! A map with text keys that remembers the order in which its keys first came.

use vstd::prelude::*;

use crate::text::same_text;

verus! {

/// The entries, in the order in which their keys first came, at most one of each key.
#[derive(Debug)]
pub struct StringMap<V> {
    entries: Vec<(String, V)>,
}

/// No key occurs twice.
pub open spec fn distinct_keys<V>(s: Seq<(String, V)>) -> bool {
    forall|i: int, j: int|
        0 <= i < j < s.len() ==> (#[trigger] s[i]).0@ != (#[trigger] s[j]).0@
}

pub open spec fn has_key<V>(s: Seq<(String, V)>, key: Seq<char>) -> bool {
    exists|i: int| 0 <= i < s.len() && (#[trigger] s[i]).0@ == key
}

/// Where the entry of this key stands.
pub open spec fn index_of_key<V>(s: Seq<(String, V)>, key: Seq<char>) -> int {
    choose|i: int| 0 <= i < s.len() && (#[trigger] s[i]).0@ == key
}

/// The entries as a map.
pub open spec fn as_map<V>(s: Seq<(String, V)>) -> Map<Seq<char>, V> {
    Map::new(|key: Seq<char>| has_key(s, key), |key: Seq<char>| s[index_of_key(s, key)].1)
}

/// The values, in the order of the entries.
pub open spec fn values_of<V>(s: Seq<(String, V)>) -> Seq<V> {
    s.map_values(|entry: (String, V)| entry.1)
}

/// The entries after `value` was put at `key`: in place where the key is known, else at the end.
pub open spec fn stored<V>(s: Seq<(String, V)>, key: String, value: V) -> Seq<(String, V)> {
    if has_key(s, key@) {
        let i = index_of_key(s, key@);
        s.update(i, (s[i].0, value))
    } else {
        s.push((key, value))
    }
}

/// The entries without that of `key`.
pub open spec fn dropped<V>(s: Seq<(String, V)>, key: Seq<char>) -> Seq<(String, V)> {
    if has_key(s, key) {
        s.remove(index_of_key(s, key))
    } else {
        s
    }
}

/// An entry stands where its key is looked for.
pub proof fn lemma_index_of_entry<V>(s: Seq<(String, V)>, i: int)
    requires
        distinct_keys(s),
        0 <= i < s.len(),
    ensures
        has_key(s, s[i].0@),
        index_of_key(s, s[i].0@) == i,
        as_map(s).dom().contains(s[i].0@),
        as_map(s)[s[i].0@] == s[i].1,
{
    let k = index_of_key(s, s[i].0@);
    assert(0 <= k < s.len() && s[k].0@ == s[i].0@);
    if k < i {
        assert(s[k].0@ != s[i].0@);
    } else if i < k {
        assert(s[i].0@ != s[k].0@);
    }
}

/// Putting a value changes the map at its key and nowhere else.
pub proof fn lemma_stored<V>(s: Seq<(String, V)>, key: String, value: V)
    requires
        distinct_keys(s),
    ensures
        distinct_keys(stored(s, key, value)),
        as_map(stored(s, key, value)) == as_map(s).insert(key@, value),
{
    let t = stored(s, key, value);
    if has_key(s, key@) {
        let at = index_of_key(s, key@);
        assert(0 <= at < s.len() && s[at].0@ == key@);
        assert forall|i: int, j: int| 0 <= i < j < t.len() implies (#[trigger] t[i]).0@ != (
        #[trigger] t[j]).0@ by {
            assert(s[i].0@ != s[j].0@);
        }
        assert forall|k: Seq<char>| has_key(t, k) == has_key(s, k) by {
            if has_key(s, k) {
                let i = index_of_key(s, k);
                assert(t[i].0@ == k);
            }
            if has_key(t, k) {
                let i = index_of_key(t, k);
                assert(s[i].0@ == k);
            }
        }
        assert forall|k: Seq<char>| has_key(t, k) implies t[index_of_key(t, k)].1 == (if k == key@ {
            value
        } else {
            s[index_of_key(s, k)].1
        }) by {
            let i = index_of_key(t, k);
            assert(0 <= i < t.len() && t[i].0@ == k);
            assert(s[i].0@ == k);
            lemma_index_of_entry(s, i);
        }
    } else {
        let at = s.len() as int;
        assert(t[at].0@ == key@);
        assert forall|i: int, j: int| 0 <= i < j < t.len() implies (#[trigger] t[i]).0@ != (
        #[trigger] t[j]).0@ by {
            assert(t[i] == s[i]);
            if j < at {
                assert(t[j] == s[j]);
            }
        }
        assert forall|k: Seq<char>| has_key(t, k) == (has_key(s, k) || k == key@) by {
            if has_key(s, k) {
                let i = index_of_key(s, k);
                assert(t[i].0@ == k);
            }
            if has_key(t, k) {
                let i = index_of_key(t, k);
                if i < at {
                    assert(s[i].0@ == k);
                }
            }
        }
        assert forall|k: Seq<char>| has_key(t, k) implies t[index_of_key(t, k)].1 == (if k == key@ {
            value
        } else {
            s[index_of_key(s, k)].1
        }) by {
            let i = index_of_key(t, k);
            assert(0 <= i < t.len() && t[i].0@ == k);
            if i < at {
                assert(s[i].0@ == k);
                lemma_index_of_entry(s, i);
            }
        }
    }
    assert(as_map(t) =~= as_map(s).insert(key@, value));
}

/// Dropping a key takes it out of the map and changes nothing else.
pub proof fn lemma_dropped<V>(s: Seq<(String, V)>, key: Seq<char>)
    requires
        distinct_keys(s),
    ensures
        distinct_keys(dropped(s, key)),
        as_map(dropped(s, key)) == as_map(s).remove(key),
{
    let t = dropped(s, key);
    if has_key(s, key) {
        let at = index_of_key(s, key);
        assert(0 <= at < s.len() && s[at].0@ == key);
        assert forall|i: int, j: int| 0 <= i < j < t.len() implies (#[trigger] t[i]).0@ != (
        #[trigger] t[j]).0@ by {
            let i0 = if i < at { i } else { i + 1 };
            let j0 = if j < at { j } else { j + 1 };
            assert(t[i] == s[i0] && t[j] == s[j0]);
            assert(s[i0].0@ != s[j0].0@);
        }
        assert forall|k: Seq<char>| has_key(t, k) == (has_key(s, k) && k != key) by {
            if has_key(s, k) && k != key {
                let i = index_of_key(s, k);
                if i < at {
                    assert(t[i].0@ == k);
                } else {
                    assert(t[i - 1].0@ == k);
                }
            }
            if has_key(t, k) {
                let i = index_of_key(t, k);
                let i0 = if i < at { i } else { i + 1 };
                assert(t[i] == s[i0]);
                assert(s[i0].0@ == k);
                lemma_index_of_entry(s, i0);
                lemma_index_of_entry(s, at);
            }
        }
        assert forall|k: Seq<char>| has_key(t, k) implies t[index_of_key(t, k)].1
            == s[index_of_key(s, k)].1 by {
            let i = index_of_key(t, k);
            assert(0 <= i < t.len() && t[i].0@ == k);
            let i0 = if i < at { i } else { i + 1 };
            assert(t[i] == s[i0]);
            lemma_index_of_entry(s, i0);
        }
    }
    assert(as_map(t) =~= as_map(s).remove(key));
}

/// The values are those of the map: each key's value is among them, and each of them is some
/// key's.
pub proof fn law_values<V>(s: Seq<(String, V)>)
    requires
        distinct_keys(s),
    ensures
        values_of(s).len() == s.len(),
        forall|i: int|
            0 <= i < s.len() ==> as_map(s).dom().contains((#[trigger] s[i]).0@) && as_map(
                s,
            )[s[i].0@] == values_of(s)[i],
        forall|key: Seq<char>| #[trigger]
            as_map(s).dom().contains(key) ==> values_of(s).contains(as_map(s)[key]),
{
    assert forall|i: int| 0 <= i < s.len() implies as_map(s).dom().contains((#[trigger] s[i]).0@)
        && as_map(s)[s[i].0@] == values_of(s)[i] by {
        lemma_index_of_entry(s, i);
    }
    assert forall|key: Seq<char>| #[trigger] as_map(s).dom().contains(key) implies values_of(
        s,
    ).contains(as_map(s)[key]) by {
        let i = index_of_key(s, key);
        assert(values_of(s)[i] == as_map(s)[key]);
    }
}

impl<V> View for StringMap<V> {
    type V = Map<Seq<char>, V>;

    open spec fn view(&self) -> Map<Seq<char>, V> {
        as_map(self.listing())
    }
}

impl<V> StringMap<V> {
    /// The entries in order.
    pub closed spec fn listing(&self) -> Seq<(String, V)> {
        self.entries@
    }

    pub open spec fn wf(&self) -> bool {
        distinct_keys(self.listing())
    }

    pub fn new() -> (r: Self)
        ensures
            r.wf(),
            r.listing() == Seq::<(String, V)>::empty(),
            r@ == Map::<Seq<char>, V>::empty(),
    {
        let r = StringMap { entries: Vec::new() };
        assert(r@ =~= Map::<Seq<char>, V>::empty());
        r
    }

    pub fn len(&self) -> (r: usize)
        ensures
            r == self.listing().len(),
    {
        self.entries.len()
    }

    /// The `i`-th entry.
    pub fn entry(&self, i: usize) -> (r: &(String, V))
        requires
            i < self.listing().len(),
        ensures
            *r == self.listing()[i as int],
    {
        &self.entries[i]
    }

    fn locate(&self, key: &str) -> (r: Option<usize>)
        requires
            self.wf(),
        ensures
            match r {
                Some(i) => {
                    &&& has_key(self.listing(), key@)
                    &&& i == index_of_key(self.listing(), key@)
                    &&& i < self.listing().len()
                },
                None => !has_key(self.listing(), key@),
            },
    {
        let n: usize = self.entries.len();
        for i in 0..n
            invariant
                self.wf(),
                n == self.listing().len(),
                forall|j: int| 0 <= j < i ==> (#[trigger] self.listing()[j]).0@ != key@,
        {
            if same_text(self.entries[i].0.as_str(), key) {
                proof {
                    lemma_index_of_entry(self.listing(), i as int);
                }
                return Some(i);
            }
        }
        None
    }

    /// Puts `value` at `key` and gives back the value that was there.
    pub fn insert(&mut self, key: String, value: V) -> (r: Option<V>)
        requires
            old(self).wf(),
        ensures
            final(self).wf(),
            final(self).listing() == stored(old(self).listing(), key, value),
            final(self)@ == old(self)@.insert(key@, value),
            r == (if old(self)@.dom().contains(key@) {
                Some(old(self)@[key@])
            } else {
                None
            }),
    {
        proof {
            lemma_stored(self.listing(), key, value);
        }
        match self.locate(key.as_str()) {
            Some(i) => {
                let mut slot = value;
                std::mem::swap(&mut slot, &mut self.entries[i].1);
                assert(self.listing() =~= stored(old(self).listing(), key, value));
                Some(slot)
            },
            None => {
                self.entries.push((key, value));
                None
            },
        }
    }

    /// Takes the entry of `key` away and gives back its value.
    pub fn remove(&mut self, key: &str) -> (r: Option<V>)
        requires
            old(self).wf(),
        ensures
            final(self).wf(),
            final(self).listing() == dropped(old(self).listing(), key@),
            final(self)@ == old(self)@.remove(key@),
            r == (if old(self)@.dom().contains(key@) {
                Some(old(self)@[key@])
            } else {
                None
            }),
    {
        proof {
            lemma_dropped(self.listing(), key@);
        }
        match self.locate(key) {
            Some(i) => Some(self.entries.remove(i).1),
            None => None,
        }
    }

    pub fn get(&self, key: &str) -> (r: Option<&V>)
        requires
            self.wf(),
        ensures
            match r {
                Some(value) => self@.dom().contains(key@) && self@[key@] == *value,
                None => !self@.dom().contains(key@),
            },
    {
        match self.locate(key) {
            Some(i) => Some(&self.entries[i].1),
            None => None,
        }
    }

    pub fn contains_key(&self, key: &str) -> (r: bool)
        requires
            self.wf(),
        ensures
            r == self@.dom().contains(key@),
    {
        self.locate(key).is_some()
    }

    /// The values, in the order of the entries.
    pub fn values(&self) -> (r: Vec<&V>)
        ensures
            r@.len() == self.listing().len(),
            forall|i: int| 0 <= i < r@.len() ==> *(#[trigger] r@[i]) == self.listing()[i].1,
    {
        let n: usize = self.entries.len();
        let mut r: Vec<&V> = Vec::new();
        for i in 0..n
            invariant
                n == self.listing().len(),
                r@.len() == i,
                forall|j: int| 0 <= j < i ==> *(#[trigger] r@[j]) == self.listing()[j].1,
        {
            r.push(&self.entries[i].1);
        }
        r
    }
}

impl<V: Copy> Clone for StringMap<V> {
    fn clone(&self) -> (r: Self)
        ensures
            r.listing() == self.listing(),
    {
        let n: usize = self.entries.len();
        let mut entries: Vec<(String, V)> = Vec::new();
        for i in 0..n
            invariant
                n == self.entries@.len(),
                entries@ =~= self.entries@.take(i as int),
        {
            let entry = &self.entries[i];
            entries.push((entry.0.clone(), entry.1));
        }
        assert(self.entries@.take(n as int) == self.entries@);
        StringMap { entries }
    }
}

} // verus!