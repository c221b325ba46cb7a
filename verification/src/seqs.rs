//! Facts about sequences that the loops of this library need.

use vstd::prelude::*;

verus! {

/// The contents of a list of texts.
pub open spec fn texts(s: Seq<String>) -> Seq<Seq<char>> {
    s.map_values(|t: String| t@)
}

/// Filtering one item more.
pub proof fn lemma_filter_step<A>(s: Seq<A>, keep: spec_fn(A) -> bool, i: int)
    requires
        0 <= i < s.len(),
    ensures
        s.take(i + 1).filter(keep) == (if keep(s[i]) {
            s.take(i).filter(keep).push(s[i])
        } else {
            s.take(i).filter(keep)
        }),
{
    assert(s.take(i + 1).drop_last() == s.take(i));
    reveal_with_fuel(Seq::filter, 2);
}

/// Filtering no item.
pub proof fn lemma_filter_none<A>(s: Seq<A>, keep: spec_fn(A) -> bool)
    ensures
        s.take(0).filter(keep) == Seq::<A>::empty(),
{
    reveal_with_fuel(Seq::filter, 1);
}

/// What a filter keeps is what was there and passes.
pub proof fn lemma_filter_members<A>(s: Seq<A>, keep: spec_fn(A) -> bool, x: A)
    ensures
        s.filter(keep).contains(x) <==> s.contains(x) && keep(x),
    decreases s.len(),
{
    reveal_with_fuel(Seq::filter, 2);
    if s.len() > 0 {
        let init = s.drop_last();
        lemma_filter_members(init, keep, x);
        assert(s == init.push(s.last()));
        assert(s.contains(x) <==> init.contains(x) || x == s.last()) by {
            lemma_push_members(init, s.last(), x);
        }
        if keep(s.last()) {
            lemma_push_members(init.filter(keep), s.last(), x);
        }
    }
}

/// What a longer list holds.
pub proof fn lemma_push_members<A>(s: Seq<A>, last: A, x: A)
    ensures
        s.push(last).contains(x) <==> s.contains(x) || x == last,
{
    let t = s.push(last);
    if s.contains(x) {
        let i = choose|i: int| 0 <= i < s.len() && s[i] == x;
        assert(t[i] == x);
    }
    assert(t[s.len() as int] == last);
    if t.contains(x) {
        let i = choose|i: int| 0 <= i < t.len() && t[i] == x;
        if i < s.len() {
            assert(s[i] == x);
        }
    }
}

/// A filter brings no duplicates.
pub proof fn lemma_filter_distinct<A>(s: Seq<A>, keep: spec_fn(A) -> bool)
    requires
        s.no_duplicates(),
    ensures
        s.filter(keep).no_duplicates(),
    decreases s.len(),
{
    reveal_with_fuel(Seq::filter, 2);
    if s.len() > 0 {
        let init = s.drop_last();
        assert(init.no_duplicates());
        lemma_filter_distinct(init, keep);
        lemma_filter_members(init, keep, s.last());
        if init.contains(s.last()) {
            let i = choose|i: int| 0 <= i < init.len() && init[i] == s.last();
            assert(s[i] == s[s.len() - 1]);
        }
        let f = init.filter(keep);
        if keep(s.last()) {
            assert forall|i: int, j: int|
                0 <= i < f.push(s.last()).len() && 0 <= j < f.push(s.last()).len() && i
                    != j implies f.push(s.last())[i] != f.push(s.last())[j] by {
                if i == f.len() {
                    assert(f.contains(f[j]));
                } else if j == f.len() {
                    assert(f.contains(f[i]));
                }
            }
        }
    }
}

/// Mapping the kept items is keeping among the mapped ones, where the test sees no difference.
pub proof fn lemma_map_filter<A, B>(
    s: Seq<A>,
    f: spec_fn(A) -> B,
    keep: spec_fn(A) -> bool,
    keep_mapped: spec_fn(B) -> bool,
)
    requires
        forall|a: A| #[trigger] keep(a) == keep_mapped(f(a)),
    ensures
        s.filter(keep).map_values(f) == s.map_values(f).filter(keep_mapped),
    decreases s.len(),
{
    reveal_with_fuel(Seq::filter, 2);
    if s.len() > 0 {
        let init = s.drop_last();
        lemma_map_filter(init, f, keep, keep_mapped);
        assert(s.map_values(f).drop_last() == init.map_values(f));
        assert(s.map_values(f).last() == f(s.last()));
        assert(keep(s.last()) == keep_mapped(f(s.last())));
        if keep(s.last()) {
            assert(s.filter(keep) == init.filter(keep).push(s.last()));
            assert(s.filter(keep).map_values(f) =~= init.filter(keep).map_values(f).push(
                f(s.last()),
            ));
        }
    } else {
        assert(s.map_values(f) =~= Seq::<B>::empty());
        assert(s.filter(keep).map_values(f) =~= Seq::<B>::empty());
    }
}

/// The test for texts other than this one.
pub open spec fn other_than(id: Seq<char>) -> spec_fn(Seq<char>) -> bool {
    |t: Seq<char>| t != id
}

/// The list without this id.
pub open spec fn without(ids: Seq<Seq<char>>, id: Seq<char>) -> Seq<Seq<char>> {
    ids.filter(other_than(id))
}

/// What a list without an id holds.
pub proof fn lemma_without(ids: Seq<Seq<char>>, id: Seq<char>)
    ensures
        forall|x: Seq<char>| #[trigger] without(ids, id).contains(x) <==> ids.contains(x) && x
            != id,
        ids.no_duplicates() ==> without(ids, id).no_duplicates(),
{
    let other = other_than(id);
    assert forall|x: Seq<char>| #[trigger] without(ids, id).contains(x) <==> ids.contains(x) && x
        != id by {
        lemma_filter_members(ids, other, x);
    }
    if ids.no_duplicates() {
        lemma_filter_distinct(ids, other);
    }
}

/// Of a list without an id the others are left, in their order.
pub proof fn law_without(ids: Seq<Seq<char>>, last: Seq<char>, id: Seq<char>)
    ensures
        without(Seq::empty(), id).len() == 0,
        last != id ==> without(ids.push(last), id) == without(ids, id).push(last),
        without(ids.push(id), id) == without(ids, id),
{
    reveal_with_fuel(Seq::filter, 2);
    assert(ids.push(last).drop_last() =~= ids);
    assert(ids.push(id).drop_last() =~= ids);
}

/// A list without an id that it does not hold is the same list.
pub proof fn lemma_without_stranger(ids: Seq<Seq<char>>, id: Seq<char>)
    requires
        !ids.contains(id),
    ensures
        without(ids, id) == ids,
    decreases ids.len(),
{
    reveal_with_fuel(Seq::filter, 2);
    if ids.len() > 0 {
        let init = ids.drop_last();
        assert(ids == init.push(ids.last()));
        lemma_push_members(init, ids.last(), id);
        lemma_without_stranger(init, id);
    }
}

} // verus!
