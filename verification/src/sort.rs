//! Ordering of the discovered records for presentation and deletion:
//! ascending by measured size, a record with no measured size counting as
//! size zero.

use vstd::prelude::*;

use crate::fs::recs_view;
use crate::node_modules::NodeModules;
use crate::node_modules::NodeModulesV;
use crate::node_modules::size_or_zero;

verus! {

broadcast use vstd::seq_lib::group_to_multiset_ensures;

/// Non-decreasing in size, an unset size counting as zero.
pub open spec fn sorted_by_size(s: Seq<NodeModulesV>) -> bool {
    forall|a: int, b: int| 0 <= a < b < s.len() ==> size_or_zero(s[a]) <= size_or_zero(s[b])
}

proof fn lemma_insert_multiset(s: Seq<NodeModulesV>, i: int, x: NodeModulesV)
    requires
        0 <= i <= s.len(),
    ensures
        s.insert(i, x).to_multiset() == s.to_multiset().insert(x),
{
    let a = s.subrange(0, i);
    let b = s.subrange(i, s.len() as int);
    assert(s =~= a + b);
    assert(s.insert(i, x) =~= a.push(x) + b);
    vstd::seq_lib::lemma_multiset_commutative(a, b);
    vstd::seq_lib::lemma_multiset_commutative(a.push(x), b);
    assert(a.push(x).to_multiset() == a.to_multiset().insert(x));
    assert(a.to_multiset().insert(x).add(b.to_multiset()) =~= a.to_multiset().add(
        b.to_multiset(),
    ).insert(x));
}

/// Sort the records ascending by size, a record with no measured size
/// counting as size zero. The records themselves are kept: the result holds
/// exactly the records it was given, reordered.
pub fn sort_by_size(v: &mut Vec<NodeModules>)
    ensures
        sorted_by_size(recs_view(final(v)@)),
        recs_view(final(v)@).to_multiset() == recs_view(old(v)@).to_multiset(),
        final(v)@.len() == old(v)@.len(),
{
    let ghost orig = recs_view(old(v)@);
    let mut i: usize = 1;
    while i < v.len()
        invariant
            1 <= i,
            i <= v@.len() || v@.len() == 0,
            recs_view(v@).to_multiset() == orig.to_multiset(),
            v@.len() == old(v)@.len(),
            forall|a: int, b: int|
                0 <= a < b < i && b < v@.len() ==> size_or_zero(recs_view(v@)[a]) <= size_or_zero(
                    recs_view(v@)[b],
                ),
        decreases v@.len() - i,
    {
        let mut j: usize = i;
        while j > 0 && v[j - 1].size_bytes() > v[j].size_bytes()
            invariant
                j <= i,
                i < v@.len(),
                v@.len() == old(v)@.len(),
                recs_view(v@).to_multiset() == orig.to_multiset(),
                forall|a: int, b: int|
                    0 <= a < b <= i && a != j && b != j ==> size_or_zero(recs_view(v@)[a])
                        <= size_or_zero(recs_view(v@)[b]),
                forall|b: int|
                    j < b <= i ==> size_or_zero(recs_view(v@)[j as int]) <= size_or_zero(
                        recs_view(v@)[b],
                    ),
            decreases j,
        {
            let ghost before = v@;
            let moved = v.remove(j);
            let ghost mid = v@;
            v.insert(j - 1, moved);
            proof {
                assert(recs_view(before).remove(j as int) =~= recs_view(mid));
                assert(recs_view(mid).insert(j - 1, moved@) =~= recs_view(v@));
                assert(recs_view(before).to_multiset().remove(recs_view(before)[j as int])
                    == recs_view(mid).to_multiset());
                lemma_insert_multiset(recs_view(mid), j - 1, moved@);
                assert(recs_view(v@).to_multiset() =~= recs_view(before).to_multiset());
            }
            j = j - 1;
        }
        proof {
            let k = recs_view(v@);
            assert forall|a: int, b: int| 0 <= a < b <= i implies size_or_zero(k[a])
                <= size_or_zero(k[b]) by {
                if b == j && a < j - 1 {
                    assert(size_or_zero(k[a]) <= size_or_zero(k[j - 1]));
                }
            }
        }
        i = i + 1;
    }
}

} // verus!
