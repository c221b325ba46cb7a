//! A map from prices to values that keeps its entries in ascending order of price.

use vstd::prelude::*;

use crate::seqs;

verus! {

/// What a ladder is ordered by. Two keys of one rank name the same level, though they may differ
/// in how they are written (`1.0` and `1.00`, or the two zeros).
pub trait PriceKey: Sized {
    /// The key's place in the order.
    spec fn rank(&self) -> int;

    /// The values that can be compared.
    spec fn valid(&self) -> bool;

    fn below(&self, other: &Self) -> (r: bool)
        requires
            self.valid(),
            other.valid(),
        ensures
            r == (self.rank() < other.rank()),
    ;
}

/// The levels, from the lowest price up, at most one of each rank.
#[derive(Debug)]
pub struct Ladder<K, V> {
    levels: Vec<(K, V)>,
}

/// The keys can be compared, and their ranks strictly increase.
pub open spec fn ascending<K: PriceKey, V>(s: Seq<(K, V)>) -> bool {
    &&& forall|i: int| 0 <= i < s.len() ==> (#[trigger] s[i]).0.valid()
    &&& forall|i: int, j: int|
        0 <= i < j < s.len() ==> (#[trigger] s[i]).0.rank() < (#[trigger] s[j]).0.rank()
}

/// Whether there is a level of this rank.
pub open spec fn has_rank<K: PriceKey, V>(s: Seq<(K, V)>, rank: int) -> bool {
    exists|i: int| 0 <= i < s.len() && (#[trigger] s[i]).0.rank() == rank
}

/// Whether the levels before `i` are exactly those below `rank`.
pub open spec fn splits<K: PriceKey, V>(s: Seq<(K, V)>, rank: int, i: int) -> bool {
    &&& 0 <= i <= s.len()
    &&& forall|j: int| 0 <= j < i ==> (#[trigger] s[j]).0.rank() < rank
    &&& forall|j: int| i <= j < s.len() ==> (#[trigger] s[j]).0.rank() >= rank
}

/// Where a level of this rank stands, or would have to stand: the number of levels below it.
pub open spec fn slot<K: PriceKey, V>(s: Seq<(K, V)>, rank: int) -> int {
    choose|i: int| splits(s, rank, i)
}

/// The value at this rank.
pub open spec fn value_at<K: PriceKey, V>(s: Seq<(K, V)>, rank: int) -> Option<V> {
    if has_rank(s, rank) {
        Some(s[slot(s, rank)].1)
    } else {
        None
    }
}

/// The levels after `value` was put at `key`. A level that is there keeps its own key.
pub open spec fn placed<K: PriceKey, V>(s: Seq<(K, V)>, key: K, value: V) -> Seq<(K, V)> {
    let i = slot(s, key.rank());
    if has_rank(s, key.rank()) {
        s.update(i, (s[i].0, value))
    } else {
        s.insert(i, (key, value))
    }
}

/// The levels without the one of this rank.
pub open spec fn removed<K: PriceKey, V>(s: Seq<(K, V)>, rank: int) -> Seq<(K, V)> {
    if has_rank(s, rank) {
        s.remove(slot(s, rank))
    } else {
        s
    }
}

/// There is one place for a rank, and a level of that rank stands exactly there.
pub proof fn lemma_slot<K: PriceKey, V>(s: Seq<(K, V)>, rank: int, i: int)
    requires
        ascending(s),
        splits(s, rank, i),
    ensures
        slot(s, rank) == i,
        has_rank(s, rank) <==> (i < s.len() && s[i].0.rank() == rank),
{
    let j = slot(s, rank);
    assert(splits(s, rank, j));
    if j < i {
        assert(s[j].0.rank() < rank);
    } else if i < j {
        assert(s[i].0.rank() < rank);
    }
    if has_rank(s, rank) {
        let k = choose|k: int| 0 <= k < s.len() && (#[trigger] s[k]).0.rank() == rank;
        if i < k {
            assert(s[i].0.rank() < s[k].0.rank());
        }
    }
}

/// Ascending levels have a place for every rank.
pub proof fn lemma_slot_exists<K: PriceKey, V>(s: Seq<(K, V)>, rank: int)
    requires
        ascending(s),
    ensures
        splits(s, rank, slot(s, rank)),
        has_rank(s, rank) <==> (slot(s, rank) < s.len() && s[slot(s, rank)].0.rank() == rank),
    decreases s.len(),
{
    if s.len() == 0 {
        assert(splits(s, rank, 0));
        lemma_slot(s, rank, 0);
    } else {
        let init = s.drop_last();
        assert(ascending(init)) by {
            assert forall|i: int| 0 <= i < init.len() implies (#[trigger] init[i]).0.valid() by {
                assert(init[i] == s[i]);
            }
        }
        lemma_slot_exists(init, rank);
        let i = slot(init, rank);
        assert(forall|j: int| 0 <= j < init.len() ==> init[j] == s[j]);
        if s.last().0.rank() < rank {
            assert forall|j: int| 0 <= j < s.len() implies (#[trigger] s[j]).0.rank() < rank by {
                if j < s.len() - 1 {
                    assert(s[j].0.rank() < s[s.len() - 1].0.rank());
                }
            }
            assert(splits(s, rank, s.len() as int));
            lemma_slot(s, rank, s.len() as int);
        } else {
            assert forall|j: int| 0 <= j < i implies (#[trigger] s[j]).0.rank() < rank by {
                assert(init[j] == s[j]);
            }
            assert forall|j: int| i <= j < s.len() implies (#[trigger] s[j]).0.rank() >= rank by {
                if j < s.len() - 1 {
                    assert(init[j] == s[j]);
                }
            }
            assert(splits(s, rank, i));
            lemma_slot(s, rank, i);
        }
    }
}

/// A level that is there stands at the slot of its rank.
pub proof fn lemma_slot_of_level<K: PriceKey, V>(s: Seq<(K, V)>, i: int)
    requires
        ascending(s),
        0 <= i < s.len(),
    ensures
        slot(s, s[i].0.rank()) == i,
        has_rank(s, s[i].0.rank()),
        value_at(s, s[i].0.rank()) == Some(s[i].1),
{
    assert(splits(s, s[i].0.rank(), i));
    lemma_slot(s, s[i].0.rank(), i);
}

/// Putting a value keeps the levels in order.
pub proof fn lemma_placed_ascending<K: PriceKey, V>(s: Seq<(K, V)>, key: K, value: V)
    requires
        ascending(s),
        key.valid(),
    ensures
        ascending(placed(s, key, value)),
{
    lemma_slot_exists(s, key.rank());
    let i = slot(s, key.rank());
    let t = placed(s, key, value);
    if has_rank(s, key.rank()) {
        assert forall|a: int, b: int| 0 <= a < b < t.len() implies (#[trigger] t[a]).0.rank() < (
        #[trigger] t[b]).0.rank() by {
            assert(s[a].0.rank() < s[b].0.rank());
        }
        assert forall|a: int| 0 <= a < t.len() implies (#[trigger] t[a]).0.valid() by {
            assert(s[a].0.valid());
        }
    } else {
        assert forall|a: int| 0 <= a < t.len() implies (#[trigger] t[a]).0.valid() by {
            if a < i {
                assert(t[a] == s[a]);
            } else if a > i {
                assert(t[a] == s[a - 1]);
            }
        }
        assert forall|a: int, b: int| 0 <= a < b < t.len() implies (#[trigger] t[a]).0.rank() < (
        #[trigger] t[b]).0.rank() by {
            if b < i {
                assert(s[a].0.rank() < s[b].0.rank());
            } else if b == i {
                assert(s[a].0.rank() < key.rank());
            } else if a < i {
                assert(s[a].0.rank() < s[b - 1].0.rank());
            } else if a == i {
                assert(s[b - 1].0.rank() >= key.rank());
            } else {
                assert(s[a - 1].0.rank() < s[b - 1].0.rank());
            }
        }
    }
}

/// Removing a level keeps the others in order.
pub proof fn lemma_removed_ascending<K: PriceKey, V>(s: Seq<(K, V)>, rank: int)
    requires
        ascending(s),
    ensures
        ascending(removed(s, rank)),
{
    lemma_slot_exists(s, rank);
    let i = slot(s, rank);
    let t = removed(s, rank);
    if has_rank(s, rank) {
        assert forall|a: int| 0 <= a < t.len() implies (#[trigger] t[a]).0.valid() by {
            assert(t[a] == s[if a < i { a } else { a + 1 }]);
        }
        assert forall|a: int, b: int| 0 <= a < b < t.len() implies (#[trigger] t[a]).0.rank() < (
        #[trigger] t[b]).0.rank() by {
            let a0 = if a < i { a } else { a + 1 };
            let b0 = if b < i { b } else { b + 1 };
            assert(t[a] == s[a0] && t[b] == s[b0]);
            assert(s[a0].0.rank() < s[b0].0.rank());
        }
    }
}

/// A lookup after a value was put gives that value at its rank, and what was there at every
/// other rank.
pub proof fn law_placed_value_at<K: PriceKey, V>(s: Seq<(K, V)>, key: K, value: V, rank: int)
    requires
        ascending(s),
        key.valid(),
    ensures
        value_at(placed(s, key, value), rank) == (if rank == key.rank() {
            Some(value)
        } else {
            value_at(s, rank)
        }),
{
    lemma_placed_ascending(s, key, value);
    lemma_slot_exists(s, key.rank());
    lemma_slot_exists(s, rank);
    let t = placed(s, key, value);
    let i = slot(s, key.rank());
    if rank == key.rank() {
        lemma_slot_of_level(t, i);
    } else if has_rank(s, rank) {
        let k = slot(s, rank);
        if has_rank(s, key.rank()) {
            assert(t[k] == s[k]);
            lemma_slot_of_level(t, k);
        } else if k < i {
            assert(t[k] == s[k]);
            lemma_slot_of_level(t, k);
        } else {
            assert(t[k + 1] == s[k]);
            lemma_slot_of_level(t, k + 1);
        }
    } else if has_rank(t, rank) {
        let k = choose|k: int| 0 <= k < t.len() && (#[trigger] t[k]).0.rank() == rank;
        if has_rank(s, key.rank()) {
            assert(s[k].0.rank() == rank);
        } else if k < i {
            assert(s[k].0.rank() == rank);
        } else if k > i {
            assert(s[k - 1].0.rank() == rank);
        }
    }
}

/// A lookup after a removal finds nothing at that rank, and what was there at every other rank.
pub proof fn law_removed_value_at<K: PriceKey, V>(s: Seq<(K, V)>, gone: int, rank: int)
    requires
        ascending(s),
    ensures
        value_at(removed(s, gone), rank) == (if rank == gone {
            None
        } else {
            value_at(s, rank)
        }),
{
    lemma_removed_ascending(s, gone);
    lemma_slot_exists(s, gone);
    lemma_slot_exists(s, rank);
    let t = removed(s, gone);
    let i = slot(s, gone);
    if has_rank(s, gone) {
        if rank != gone && has_rank(s, rank) {
            let k = slot(s, rank);
            if k < i {
                assert(t[k] == s[k]);
                lemma_slot_of_level(t, k);
            } else {
                assert(t[k - 1] == s[k]);
                lemma_slot_of_level(t, k - 1);
            }
        } else if has_rank(t, rank) {
            let k = choose|k: int| 0 <= k < t.len() && (#[trigger] t[k]).0.rank() == rank;
            let k0 = if k < i { k } else { k + 1 };
            assert(t[k] == s[k0]);
            assert(s[k0].0.rank() == rank);
            lemma_slot_of_level(s, k0);
            lemma_slot_of_level(s, i);
        }
    }
}

/// Putting a value where there was none and removing it again gives the levels back.
pub proof fn law_placed_then_removed<K: PriceKey, V>(s: Seq<(K, V)>, key: K, value: V)
    requires
        ascending(s),
        key.valid(),
        !has_rank(s, key.rank()),
    ensures
        removed(placed(s, key, value), key.rank()) == s,
{
    lemma_slot_exists(s, key.rank());
    lemma_placed_ascending(s, key, value);
    let i = slot(s, key.rank());
    let t = placed(s, key, value);
    assert(t[i] == (key, value));
    lemma_slot_of_level(t, i);
    assert(t.remove(i) =~= s);
}

/// Putting the same value twice is putting it once.
pub proof fn law_placed_twice<K: PriceKey, V>(s: Seq<(K, V)>, key: K, value: V)
    requires
        ascending(s),
        key.valid(),
    ensures
        placed(placed(s, key, value), key, value) == placed(s, key, value),
{
    lemma_slot_exists(s, key.rank());
    lemma_placed_ascending(s, key, value);
    let i = slot(s, key.rank());
    let t = placed(s, key, value);
    assert(t[i].0.rank() == key.rank() && t[i].1 == value);
    lemma_slot_of_level(t, i);
    assert(placed(t, key, value) =~= t);
}

/// Removing a level twice is removing it once.
pub proof fn law_removed_twice<K: PriceKey, V>(s: Seq<(K, V)>, rank: int)
    requires
        ascending(s),
    ensures
        removed(removed(s, rank), rank) == removed(s, rank),
{
    law_removed_value_at(s, rank, rank);
}

/// The last level is the highest and the first one the lowest.
pub proof fn law_ends<K: PriceKey, V>(s: Seq<(K, V)>, i: int)
    requires
        ascending(s),
        0 <= i < s.len(),
    ensures
        s[0].0.rank() <= s[i].0.rank() <= s.last().0.rank(),
{
    if 0 < i {
        assert(s[0].0.rank() < s[i].0.rank());
    }
    if i < s.len() - 1 {
        assert(s[i].0.rank() < s[s.len() - 1].0.rank());
    }
}

/// The places of the ranks depend on the keys alone.
pub proof fn lemma_same_keys<K: PriceKey, V, W>(s: Seq<(K, V)>, t: Seq<(K, W)>)
    requires
        s.len() == t.len(),
        forall|i: int| 0 <= i < s.len() ==> (#[trigger] s[i]).0 == (#[trigger] t[i]).0,
    ensures
        ascending(s) == ascending(t),
        forall|rank: int| #[trigger] has_rank(s, rank) == has_rank(t, rank),
        forall|rank: int| ascending(s) ==> #[trigger] slot(s, rank) == slot(t, rank),
{
    assert(ascending(s) == ascending(t)) by {
        if ascending(s) {
            assert forall|i: int| 0 <= i < t.len() implies (#[trigger] t[i]).0.valid() by {
                assert(s[i].0 == t[i].0);
            }
            assert forall|i: int, j: int| 0 <= i < j < t.len() implies (
            #[trigger] t[i]).0.rank() < (#[trigger] t[j]).0.rank() by {
                assert(s[i].0 == t[i].0 && s[j].0 == t[j].0);
            }
        }
        if ascending(t) {
            assert forall|i: int| 0 <= i < s.len() implies (#[trigger] s[i]).0.valid() by {
                assert(s[i].0 == t[i].0);
            }
            assert forall|i: int, j: int| 0 <= i < j < s.len() implies (
            #[trigger] s[i]).0.rank() < (#[trigger] s[j]).0.rank() by {
                assert(s[i].0 == t[i].0 && s[j].0 == t[j].0);
            }
        }
    }
    assert forall|rank: int| #[trigger] has_rank(s, rank) == has_rank(t, rank) by {
        if has_rank(s, rank) {
            let i = choose|i: int| 0 <= i < s.len() && (#[trigger] s[i]).0.rank() == rank;
            assert(t[i].0.rank() == rank);
        }
        if has_rank(t, rank) {
            let i = choose|i: int| 0 <= i < t.len() && (#[trigger] t[i]).0.rank() == rank;
            assert(s[i].0.rank() == rank);
        }
    }
    assert forall|rank: int| ascending(s) implies #[trigger] slot(s, rank) == slot(t, rank) by {
        lemma_slot_exists(s, rank);
        let i = slot(s, rank);
        assert(splits(t, rank, i)) by {
            assert forall|j: int| 0 <= j < i implies (#[trigger] t[j]).0.rank() < rank by {
                assert(s[j].0.rank() < rank);
            }
            assert forall|j: int| i <= j < t.len() implies (#[trigger] t[j]).0.rank() >= rank by {
                assert(s[j].0.rank() >= rank);
            }
        }
        lemma_slot(t, rank, i);
    }
}

/// Keeping some of the levels keeps them in order.
pub proof fn lemma_filter_ascending<K: PriceKey, V>(
    s: Seq<(K, V)>,
    keep: spec_fn((K, V)) -> bool,
)
    requires
        ascending(s),
    ensures
        ascending(s.filter(keep)),
    decreases s.len(),
{
    reveal_with_fuel(Seq::filter, 2);
    if s.len() > 0 {
        let init = s.drop_last();
        assert(ascending(init)) by {
            assert forall|i: int| 0 <= i < init.len() implies (#[trigger] init[i]).0.valid() by {
                assert(init[i] == s[i]);
            }
            assert forall|i: int, j: int| 0 <= i < j < init.len() implies (
            #[trigger] init[i]).0.rank() < (#[trigger] init[j]).0.rank() by {
                assert(init[i] == s[i] && init[j] == s[j]);
            }
        }
        lemma_filter_ascending(init, keep);
        let f = init.filter(keep);
        if keep(s.last()) {
            let t = f.push(s.last());
            assert forall|i: int| 0 <= i < t.len() implies (#[trigger] t[i]).0.valid() by {
                if i < f.len() {
                    assert(t[i] == f[i]);
                } else {
                    assert(s[s.len() - 1].0.valid());
                }
            }
            assert forall|i: int, j: int| 0 <= i < j < t.len() implies (
            #[trigger] t[i]).0.rank() < (#[trigger] t[j]).0.rank() by {
                assert(t[i] == f[i]);
                if j < f.len() {
                    assert(t[j] == f[j]);
                } else {
                    seqs::lemma_filter_members(init, keep, f[i]);
                    assert(f.contains(f[i]));
                    let k = choose|k: int| 0 <= k < init.len() && init[k] == f[i];
                    assert(s[k].0.rank() < s[s.len() - 1].0.rank());
                }
            }
        }
    }
}

impl<K, V> View for Ladder<K, V> {
    type V = Seq<(K, V)>;

    closed spec fn view(&self) -> Seq<(K, V)> {
        self.levels@
    }
}

impl<K: PriceKey, V> Ladder<K, V> {
    pub open spec fn wf(&self) -> bool {
        ascending(self@)
    }

    pub fn new() -> (r: Self)
        ensures
            r.wf(),
            r@ == Seq::<(K, V)>::empty(),
    {
        Ladder { levels: Vec::new() }
    }

    pub fn len(&self) -> (r: usize)
        ensures
            r == self@.len(),
    {
        self.levels.len()
    }

    /// The slot of `key`, and whether its level is there.
    fn locate(&self, key: &K) -> (r: (usize, bool))
        requires
            self.wf(),
            key.valid(),
        ensures
            r.0 == slot(self@, key.rank()),
            r.0 <= self@.len(),
            r.1 == has_rank(self@, key.rank()),
            r.1 ==> r.0 < self@.len(),
    {
        let mut low: usize = 0;
        let mut high: usize = self.levels.len();
        while low < high
            invariant
                self.wf(),
                key.valid(),
                low <= high <= self.levels@.len(),
                forall|j: int| 0 <= j < low ==> (#[trigger] self.levels@[j]).0.rank() < key.rank(),
                forall|j: int|
                    high <= j < self.levels@.len() ==> (#[trigger] self.levels@[j]).0.rank()
                        >= key.rank(),
            decreases high - low,
        {
            let middle: usize = low + (high - low) / 2;
            assert(self@[middle as int].0.valid());
            if self.levels[middle].0.below(key) {
                assert forall|j: int| 0 <= j < middle + 1 implies (
                #[trigger] self.levels@[j]).0.rank() < key.rank() by {
                    assert(j < middle ==> self@[j].0.rank() < self@[middle as int].0.rank());
                }
                low = middle + 1;
            } else {
                assert forall|j: int| middle <= j < self.levels@.len() implies (
                #[trigger] self.levels@[j]).0.rank() >= key.rank() by {
                    assert(middle < j ==> self@[middle as int].0.rank() < self@[j].0.rank());
                }
                high = middle;
            }
        }
        proof {
            assert(splits(self@, key.rank(), low as int));
            lemma_slot(self@, key.rank(), low as int);
        }
        let found = low < self.levels.len() && {
            assert(self@[low as int].0.valid());
            !key.below(&self.levels[low].0)
        };
        (low, found)
    }

    /// Puts `value` at `key`, in place of the value that was there.
    pub fn insert(&mut self, key: K, value: V)
        requires
            old(self).wf(),
            key.valid(),
        ensures
            final(self).wf(),
            final(self)@ == placed(old(self)@, key, value),
    {
        proof {
            lemma_placed_ascending(self@, key, value);
        }
        let (i, found) = self.locate(&key);
        if found {
            self.levels[i].1 = value;
        } else {
            self.levels.insert(i, (key, value));
        }
        assert(self@ =~= placed(old(self)@, key, value));
    }

    /// Takes the level at `key` away.
    pub fn remove(&mut self, key: &K)
        requires
            old(self).wf(),
            key.valid(),
        ensures
            final(self).wf(),
            final(self)@ == removed(old(self)@, key.rank()),
    {
        proof {
            lemma_removed_ascending(self@, key.rank());
        }
        let (i, found) = self.locate(key);
        if found {
            self.levels.remove(i);
        }
    }

    pub fn get(&self, key: &K) -> (r: Option<&V>)
        requires
            self.wf(),
            key.valid(),
        ensures
            match r {
                Some(value) => value_at(self@, key.rank()) == Some(*value),
                None => value_at(self@, key.rank()) is None,
            },
    {
        let (i, found) = self.locate(key);
        if found {
            Some(&self.levels[i].1)
        } else {
            None
        }
    }

    /// The value at `key`, to be changed in place.
    pub fn get_mut(&mut self, key: &K) -> (r: Option<&mut V>)
        requires
            old(self).wf(),
            key.valid(),
        ensures
            match r {
                Some(value) => {
                    let i = slot(old(self)@, key.rank());
                    &&& has_rank(old(self)@, key.rank())
                    &&& *value == old(self)@[i].1
                    &&& final(self)@ == old(self)@.update(i, (old(self)@[i].0, *final(value)))
                },
                None => !has_rank(old(self)@, key.rank()) && final(self)@ == old(self)@,
            },
    {
        let (i, found) = self.locate(key);
        if found {
            Some(&mut self.levels[i].1)
        } else {
            None
        }
    }

    /// Keeps the `depth` lowest levels.
    pub fn keep_lowest(&mut self, depth: usize)
        requires
            old(self).wf(),
        ensures
            final(self).wf(),
            final(self)@ == (if old(self)@.len() > depth {
                old(self)@.take(depth as int)
            } else {
                old(self)@
            }),
    {
        if self.levels.len() > depth {
            self.levels.truncate(depth);
            assert(self@ =~= old(self)@.take(depth as int));
        }
        assert(ascending(self@)) by {
            assert forall|i: int| 0 <= i < self@.len() implies (#[trigger] self@[i]).0.valid() by {
                assert(self@[i] == old(self)@[i]);
            }
            assert forall|i: int, j: int| 0 <= i < j < self@.len() implies (
            #[trigger] self@[i]).0.rank() < (#[trigger] self@[j]).0.rank() by {
                assert(self@[i] == old(self)@[i] && self@[j] == old(self)@[j]);
            }
        }
    }

    /// Keeps the `depth` highest levels.
    pub fn keep_highest(&mut self, depth: usize)
        requires
            old(self).wf(),
        ensures
            final(self).wf(),
            final(self)@ == (if old(self)@.len() > depth {
                old(self)@.skip(old(self)@.len() - depth)
            } else {
                old(self)@
            }),
    {
        let n: usize = self.levels.len();
        if n > depth {
            let top = self.levels.split_off(n - depth);
            self.levels = top;
            assert(self@ =~= old(self)@.skip(n - depth));
        }
        assert(ascending(self@)) by {
            let gone = if n > depth { n - depth } else { 0 };
            assert forall|i: int| 0 <= i < self@.len() implies (#[trigger] self@[i]).0.valid() by {
                assert(self@[i] == old(self)@[i + gone]);
            }
            assert forall|i: int, j: int| 0 <= i < j < self@.len() implies (
            #[trigger] self@[i]).0.rank() < (#[trigger] self@[j]).0.rank() by {
                assert(self@[i] == old(self)@[i + gone] && self@[j] == old(self)@[j + gone]);
            }
        }
    }

    /// The `i`-th level from the lowest price up.
    pub fn level(&self, i: usize) -> (r: &(K, V))
        requires
            i < self@.len(),
        ensures
            *r == self@[i as int],
    {
        &self.levels[i]
    }
}

impl<K: Copy, V: Copy> Clone for Ladder<K, V> {
    fn clone(&self) -> (r: Self)
        ensures
            r@ == self@,
    {
        let n: usize = self.levels.len();
        let mut levels: Vec<(K, V)> = Vec::new();
        for i in 0..n
            invariant
                n == self.levels@.len(),
                levels@ =~= self.levels@.take(i as int),
        {
            let level = &self.levels[i];
            levels.push((level.0, level.1));
        }
        assert(self.levels@.take(n as int) == self.levels@);
        Ladder { levels }
    }
}

impl<K: PriceKey, T> Ladder<K, Vec<T>> {
    /// Takes the levels away that hold nothing.
    pub fn drop_empty(&mut self)
        requires
            old(self).wf(),
        ensures
            final(self).wf(),
            final(self)@ == old(self)@.filter(|level: (K, Vec<T>)| level.1@.len() > 0),
    {
        let ghost occupied = |level: (K, Vec<T>)| level.1@.len() > 0;
        let ghost before = self@;
        proof {
            lemma_filter_ascending(before, occupied);
            seqs::lemma_filter_none(before, occupied);
        }
        let mut all: Vec<(K, Vec<T>)> = Vec::new();
        std::mem::swap(&mut all, &mut self.levels);
        for level in it: all
            invariant
                it.seq() == before,
                occupied == (|level: (K, Vec<T>)| level.1@.len() > 0),
                self.levels@ == before.take(it.index()).filter(occupied),
        {
            proof {
                seqs::lemma_filter_step(before, occupied, it.index());
            }
            if level.1.len() > 0 {
                self.levels.push(level);
            }
        }
        assert(before.take(before.len() as int) == before);
    }
}

} // verus!
