//! Sorting of group numbers.
use vstd::prelude::*;

verus! {

pub open spec fn ascending(s: Seq<i32>) -> bool {
    forall|i: int, j: int| 0 <= i <= j < s.len() ==> s[i] <= s[j]
}

/// Put `x` into an ascending list.
fn insert_ascending(v: &mut Vec<i32>, x: i32)
    requires
        ascending(old(v)@),
    ensures
        ascending(final(v)@),
        final(v)@.to_multiset() == old(v)@.to_multiset().insert(x),
{
    let mut i: usize = v.len();
    while i > 0 && v[i - 1] > x
        invariant
            i <= v.len(),
            v@ == old(v)@,
            forall|k: int| i <= k < v.len() ==> v@[k] > x,
        decreases i,
    {
        i -= 1;
    }
    let ghost before = v@;
    v.insert(i, x);
    proof {
        vstd::seq_lib::to_multiset_insert(before, i as int, x);
        assert forall|a: int, b: int| 0 <= a <= b < v@.len() implies v@[a] <= v@[b] by {
            if i > 0 {
                assert(before[i - 1] <= x);
            }
            if a < i && i > 0 {
                assert(before[a] <= before[i - 1]);
            }
        }
    }
}

/// Arrange `v` in ascending order, keeping its elements.
pub fn sort_groups(v: &mut Vec<i32>)
    ensures
        ascending(final(v)@),
        final(v)@.to_multiset() == old(v)@.to_multiset(),
        final(v)@.len() == old(v)@.len(),
{
    let mut out: Vec<i32> = Vec::new();
    let mut i: usize = 0;
    proof {
        assert(v@.subrange(0, 0) =~= out@);
    }
    while i < v.len()
        invariant
            i <= v.len(),
            v@ == old(v)@,
            ascending(out@),
            out@.to_multiset() == v@.subrange(0, i as int).to_multiset(),
        decreases v.len() - i,
    {
        proof {
            vstd::seq_lib::to_multiset_build(v@.subrange(0, i as int), v@[i as int]);
            assert(v@.subrange(0, i as int).push(v@[i as int]) =~= v@.subrange(0, i + 1));
        }
        insert_ascending(&mut out, v[i]);
        i += 1;
    }
    proof {
        assert(v@.subrange(0, i as int) =~= v@);
        broadcast use vstd::seq_lib::group_to_multiset_ensures;

        assert(out@.to_multiset().len() == out@.len());
    }
    *v = out;
}

} // verus!
