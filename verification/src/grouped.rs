//! How an entry fits in with those declared before it.
use crate::dtype::TypeClass;
use crate::entry::EntryView;
use crate::error::FspecError;
use crate::joins::JoinView;
use crate::resolve;
use crate::space::{AddrSpace, VarnodeData};
use crate::storage;
use vstd::prelude::*;

verus! {

/// The earlier entry lies in the other as a whole, and is counted by itself.
pub open spec fn lies_in(x: EntryView, e: EntryView) -> bool {
    storage::bytes_within(x.base(), x.size as int, e.base(), e.size as int) && !x.flags.overlapping
}

proof fn lemma_covers(e: EntryView, x: EntryView)
    requires
        storage::one_range(e),
        storage::one_range(x),
    ensures
        resolve::covers(e, x) == lies_in(x, e),
{
    storage::law_entry_intersects(x, e.base(), e.size as int);
}

proof fn lemma_covered(e: EntryView, prev: Seq<EntryView>, n: int, g: i32)
    requires
        0 <= n <= prev.len(),
        storage::one_range(e),
        forall|i: int| 0 <= i < prev.len() ==> storage::one_range(#[trigger] prev[i]),
    ensures
        resolve::covered_groups(e, prev, n).contains(g) <==> exists|i: int|
            0 <= i < n && lies_in(#[trigger] prev[i], e) && prev[i].group_set.contains(g),
    decreases n,
{
    if n > 0 {
        lemma_covered(e, prev, n - 1, g);
        assert(storage::one_range(prev[n - 1]));
        lemma_covers(e, prev[n - 1]);
        let a = resolve::covered_groups(e, prev, n - 1);
        let b = prev[n - 1].group_set;
        let all = resolve::covered_groups(e, prev, n);
        if lies_in(prev[n - 1], e) {
            assert(all == a + b);
            assert(all.contains(g) <==> a.contains(g) || b.contains(g)) by {
                if a.contains(g) {
                    let k = choose|k: int| 0 <= k < a.len() && a[k] == g;
                    assert(all[k] == g);
                }
                if b.contains(g) {
                    let k = choose|k: int| 0 <= k < b.len() && b[k] == g;
                    assert(all[a.len() + k] == g);
                }
            }
        }
        if all.contains(g) {
            if a.contains(g) {
                let i = choose|i: int|
                    0 <= i < n - 1 && lies_in(#[trigger] prev[i], e) && prev[i].group_set.contains(
                        g,
                    );
                assert(lies_in(prev[i], e));
            } else {
                assert(lies_in(prev[n - 1], e));
            }
        }
        if exists|i: int|
            0 <= i < n && lies_in(#[trigger] prev[i], e) && prev[i].group_set.contains(g) {
            let i = choose|i: int|
                0 <= i < n && lies_in(#[trigger] prev[i], e) && prev[i].group_set.contains(g);
            if i < n - 1 {
                assert(lies_in(prev[i], e));
            }
        }
    } else {
        assert(!resolve::covered_groups(e, prev, n).contains(g));
    }
}

proof fn lemma_same_elements(a: Seq<i32>, b: Seq<i32>, g: i32)
    requires
        a.to_multiset() == b.to_multiset(),
    ensures
        a.contains(g) <==> b.contains(g),
{
    a.to_multiset_ensures();
    b.to_multiset_ensures();
    assert(a.contains(g) <==> a.to_multiset().count(g) > 0);
    assert(b.contains(g) <==> b.to_multiset().count(g) > 0);
}

/// Some earlier entry that lies in `e` starts where `e` does, or elsewhere.
pub open spec fn some_starts(e: EntryView, prev: Seq<EntryView>, same: bool) -> bool {
    exists|i: int|
        0 <= i < prev.len() && lies_in(#[trigger] prev[i], e) && (prev[i].addressbase
            == e.addressbase) == same
}

/// An entry over earlier ones takes exactly their groups, and its own group if
/// there is none; it is refused if an earlier one lies in it in part only. A value
/// in it is checked for its more significant part where an earlier entry holds its
/// less significant one, and the other way round.
pub proof fn law_entry_over_others(r: EntryView, e: EntryView, prev: Seq<EntryView>, g: i32)
    requires
        resolve::overlap_fitted(r, e, prev),
        storage::one_range(e),
        forall|i: int|
            0 <= i < prev.len() ==> storage::one_range(#[trigger] prev[i])
                && prev[i].group_set.len() > 0,
    ensures
        r.base() == e.base() && r.size == e.size && r.type_ == e.type_ && r.minsize == e.minsize
            && r.alignment == e.alignment && r.numslots == e.numslots && r.joinrec is None,
        (exists|i: int| 0 <= i < prev.len() && lies_in(#[trigger] prev[i], e)) ==> (
        r.group_set.contains(g) <==> exists|i: int|
            0 <= i < prev.len() && lies_in(#[trigger] prev[i], e) && prev[i].group_set.contains(g))
            && r.flags.overlapping,
        !(exists|i: int| 0 <= i < prev.len() && lies_in(#[trigger] prev[i], e)) ==> (
        r.group_set.contains(g) <==> e.group_set.contains(g)) && r.flags == e.flags,
        resolve::overlap_illegal(e, prev) <==> exists|i: int|
            0 <= i < prev.len() && !storage::bytes_apart(
                e.base(),
                e.size as int,
                (#[trigger] prev[i]).base(),
                prev[i].size as int,
            ) && !storage::bytes_within(
                prev[i].base(),
                prev[i].size as int,
                e.base(),
                e.size as int,
            ),
        r.flags.extracheck_low == (e.flags.extracheck_low || some_starts(
            e,
            prev,
            e.spaceid->0.big_endian,
        )),
        r.flags.extracheck_high == (e.flags.extracheck_high || some_starts(
            e,
            prev,
            !e.spaceid->0.big_endian,
        )),
{
    let n = prev.len() as int;
    lemma_covered(e, prev, n, g);
    lemma_same_elements(r.group_set, resolve::overlap_groups(e, prev), g);
    let all = resolve::covered_groups(e, prev, n);
    if exists|i: int| 0 <= i < n && lies_in(#[trigger] prev[i], e) {
        let i = choose|i: int| 0 <= i < n && lies_in(#[trigger] prev[i], e);
        let h = prev[i].group_set[0];
        lemma_covered(e, prev, n, h);
        assert(prev[i].group_set.contains(h));
        assert(all.contains(h));
        assert(all.len() > 0);
    } else {
        if all.len() > 0 {
            lemma_covered(e, prev, n, all[0]);
            assert(all.contains(all[0]));
        }
    }
    assert forall|i: int| 0 <= i < n implies {
        &&& resolve::covers(e, #[trigger] prev[i]) == lies_in(prev[i], e)
        &&& prev[i].meets(e.base(), e.size as int) == !storage::bytes_apart(
            e.base(),
            e.size as int,
            prev[i].base(),
            prev[i].size as int,
        )
        &&& prev[i].meets(e.base(), e.size as int) ==> e.holds(prev[i]) == storage::bytes_within(
            prev[i].base(),
            prev[i].size as int,
            e.base(),
            e.size as int,
        )
    } by {
        assert(storage::one_range(prev[i]));
        lemma_covers(e, prev[i]);
        storage::law_entry_intersects(prev[i], e.base(), e.size as int);
    }
    assert forall|same: bool| #[trigger]
        resolve::covers_some(e, prev, n, same) == some_starts(e, prev, same) by {
        if resolve::covers_some(e, prev, n, same) {
            let i = choose|i: int|
                0 <= i < n && resolve::covers(e, #[trigger] prev[i]) && (prev[i].addressbase
                    == e.addressbase) == same;
            assert(lies_in(prev[i], e));
        }
        if some_starts(e, prev, same) {
            let i = choose|i: int|
                0 <= i < n && lies_in(#[trigger] prev[i], e) && (prev[i].addressbase
                    == e.addressbase) == same;
            assert(resolve::covers(e, prev[i]));
        }
    }
    assert(resolve::covers_some(e, prev, n, true) == some_starts(e, prev, true));
    assert(resolve::covers_some(e, prev, n, false) == some_starts(e, prev, false));
}

/// The location is exactly that of the entry.
pub open spec fn same_storage(x: EntryView, v: VarnodeData) -> bool {
    x.spaceid == v.space && x.addressbase == v.offset && x.size as u32 == v.size
}

proof fn lemma_stored(prev: Seq<EntryView>, v: VarnodeData, n: int)
    requires
        0 <= n <= prev.len(),
    ensures
        match resolve::storage_position(prev, v, n) {
            Some(i) => 0 <= i < n && same_storage(prev[i], v) && forall|k: int|
                i < k < n ==> !same_storage(#[trigger] prev[k], v),
            None => forall|k: int| 0 <= k < n ==> !same_storage(#[trigger] prev[k], v),
        },
    decreases n,
{
    if n > 0 {
        lemma_stored(prev, v, n - 1);
    }
}

/// The last of the entries with exactly the storage of the piece.
pub open spec fn last_with(prev: Seq<EntryView>, v: VarnodeData, i: int) -> bool {
    0 <= i < prev.len() && same_storage(prev[i], v) && forall|k: int|
        i < k < prev.len() ==> !same_storage(#[trigger] prev[k], v)
}

/// A joined entry takes the groups of the entries that its pieces are.
pub proof fn law_joined_entry_groups(
    r: EntryView,
    e: EntryView,
    prev: Seq<EntryView>,
    j: JoinView,
    k: int,
    i: int,
    g: i32,
)
    requires
        resolve::join_fitted(r, e, prev, j),
        0 <= k < j.pieces.len(),
        last_with(prev, j.pieces[k], i),
        prev[i].group_set.contains(g),
    ensures
        r.group_set.contains(g),
        r.flags.overlapping,
        r.joinrec == Some(j),
        k == 0 ==> r.flags.extracheck_low,
        k > 0 ==> r.flags.extracheck_high,
{
    let n = j.pieces.len() as int;
    lemma_stored(prev, j.pieces[k], prev.len() as int);
    let p = resolve::storage_position(prev, j.pieces[k], prev.len() as int);
    assert(p == Some(i)) by {
        if p is None {
            assert(!same_storage(prev[i], j.pieces[k]));
        } else if p->0 < i {
            assert(!same_storage(prev[i], j.pieces[k]));
        } else if p->0 > i {
            assert(!same_storage(prev[p->0], j.pieces[k]));
        }
    }
    lemma_join_groups(prev, j.pieces, n, k, g);
    lemma_same_elements(r.group_set, resolve::join_groups(prev, j.pieces, n), g);
}

proof fn lemma_join_groups(prev: Seq<EntryView>, pieces: Seq<VarnodeData>, n: int, k: int, g: i32)
    requires
        0 <= k < n <= pieces.len(),
        resolve::piece_groups(prev, pieces[k]).contains(g),
    ensures
        resolve::join_groups(prev, pieces, n).contains(g),
    decreases n,
{
    let a = resolve::join_groups(prev, pieces, n - 1);
    let b = resolve::piece_groups(prev, pieces[n - 1]);
    let all = resolve::join_groups(prev, pieces, n);
    assert(all == a + b);
    if k < n - 1 {
        lemma_join_groups(prev, pieces, n - 1, k, g);
        let m = choose|m: int| 0 <= m < a.len() && a[m] == g;
        assert(all[m] == g);
    } else {
        let m = choose|m: int| 0 <= m < b.len() && b[m] == g;
        assert(all[a.len() + m] == g);
    }
}

/// The entry takes values of `n` bytes.
pub open spec fn takes_size(e: EntryView, n: int) -> bool {
    e.minsize <= n <= e.size
}

/// Two entries of one group go together where no value fits both, or where they
/// are of different classes and the more special one comes first.
pub proof fn law_group_shared(a: EntryView, b: EntryView)
    requires
        a.minsize <= a.size,
        b.minsize <= b.size,
    ensures
        resolve::group_order_error(a, b) is None <==> {
            ||| forall|n: int| !(#[trigger] takes_size(a, n) && #[trigger] takes_size(b, n))
            ||| a.type_ != b.type_ && a.type_ != TypeClass::General
        },
        a.type_ == b.type_ && resolve::group_order_error(a, b) is Some
            ==> resolve::group_order_error(a, b) == Some(FspecError::AmbiguousGroup),
{
    let n = if a.minsize > b.minsize {
        a.minsize as int
    } else {
        b.minsize as int
    };
    if !(b.minsize > a.size || a.minsize > b.size) {
        assert(takes_size(a, n) && takes_size(b, n));
    }
}

/// An entry is divided into as many slots as fit, unless the whole of it is one
/// slot; it hands them out downwards on a stack that grows that way, and is the
/// first of its class where another class, or nothing, stands in front of it.
pub proof fn law_entry_declared(
    grp: i32,
    type_: TypeClass,
    spc: AddrSpace,
    at: u64,
    size: i32,
    minsize: i32,
    alignment: i32,
    normalstack: bool,
    grouped: bool,
    prev: Seq<EntryView>,
)
    requires
        0 < size,
        0 <= alignment,
    ensures
        ({
            let e = resolve::declared(
                grp,
                type_,
                spc,
                at,
                size,
                minsize,
                alignment,
                0,
                normalstack,
                grouped,
                prev,
            );
            &&& e.group_set =~= seq![grp]
            &&& e.type_ == type_ && e.minsize == minsize && e.size == size
            &&& e.spaceid == Some(spc) && e.addressbase == at
            &&& alignment == size || alignment == 0 ==> e.alignment == 0 && e.numslots == 1
            &&& alignment != size && alignment > 0 ==> e.alignment == alignment && e.numslots
                * alignment <= size < (e.numslots + 1) * alignment
            &&& e.flags.reverse_stack == !normalstack
            &&& e.flags.is_grouped == grouped
            &&& e.flags.first_storage == (prev.len() == 0 || prev.last().type_ != type_)
            &&& e.flags.force_left_justify == (spc.reverse_justified && spc.big_endian)
        }),
{
    assert(forall|m: u32| #![auto] 0u32 & m == 0) by (bit_vector);
    if alignment > 0 {
        let s = size as int;
        let a = alignment as int;
        let q = s / a;
        assert(q * a <= s < (q + 1) * a && 0 <= q <= s) by (nonlinear_arith)
            requires
                q == s / a,
                s > 0,
                a > 0,
        ;
    }
}

} // verus!
