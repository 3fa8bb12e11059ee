//! What it means for an entry of a model to hold a range of bytes, and which
//! entry a range is found in.
use crate::entry::{Containment, EntryView};
use crate::paramlist;
use crate::paramlist::ListView;
use crate::space::Address;
use crate::storage;
use vstd::prelude::*;

verus! {

/// All of the `sz` bytes at `addr` belong to the entry.
pub open spec fn held(e: EntryView, addr: Address, sz: int) -> bool {
    storage::bytes_within(addr, sz, e.base(), e.size as int)
}

/// The convention puts values at the first byte of where they are passed.
pub open spec fn at_first_byte(e: EntryView) -> bool {
    e.flags.force_left_justify || !e.spaceid->0.big_endian
}

/// The `sz` bytes at `addr` are `r` bytes away from the end of the `n`-th slot of
/// the entry where the convention puts values, the whole entry being the only
/// slot of one that is not divided.
pub open spec fn away(e: EntryView, addr: Address, sz: int, r: int, n: int) -> bool {
    if e.alignment == 0 {
        if at_first_byte(e) {
            addr.offset == e.addressbase + r
        } else {
            addr.offset + sz + r == e.addressbase + e.size
        }
    } else {
        0 <= r < e.alignment && 0 <= n && if at_first_byte(e) {
            addr.offset == e.addressbase + n * e.alignment + r
        } else {
            addr.offset + sz + r == e.addressbase + n * e.alignment
        }
    }
}

/// An entry holds exactly the ranges whose bytes all belong to it, and tells how
/// far they are from where the convention puts values.
pub proof fn law_held(e: EntryView, addr: Address, sz: int)
    requires
        storage::one_range(e),
        storage::range_in_space(addr, sz),
    ensures
        e.justified(addr, sz) >= 0 <==> held(e, addr, sz),
        e.justified(addr, sz) < 0 ==> e.justified(addr, sz) == -1,
        held(e, addr, sz) ==> exists|n: int| #[trigger]
            away(e, addr, sz, e.justified(addr, sz), n),
        forall|r: int, n: int|
            held(e, addr, sz) && #[trigger] away(e, addr, sz, r, n) ==> e.justified(addr, sz) == r,
{
    let al = e.alignment as int;
    if held(e, addr, sz) {
        let j = e.justified(addr, sz);
        let d = addr.offset - e.addressbase;
        if al == 0 {
            assert(away(e, addr, sz, j, 0));
        } else if e.left_justified() {
            vstd::arithmetic::div_mod::lemma_fundamental_div_mod(d, al);
            let n = d / al;
            assert(n * al == al * n) by (nonlinear_arith);
            assert(n >= 0) by (nonlinear_arith)
                requires
                    n == d / al,
                    d >= 0,
                    al > 0,
            ;
            assert(away(e, addr, sz, j, n));
            assert forall|r: int, n: int| #[trigger] away(e, addr, sz, r, n) implies j == r by {
                vstd::arithmetic::div_mod::lemma_fundamental_div_mod_converse(d, al, n, r);
            }
        } else {
            let x = d + sz;
            vstd::arithmetic::div_mod::lemma_fundamental_div_mod(x, al);
            let q = x / al;
            assert(q * al == al * q) by (nonlinear_arith);
            assert((q + 1) * al == al * q + al) by (nonlinear_arith);
            assert(q >= 0) by (nonlinear_arith)
                requires
                    q == x / al,
                    x >= 0,
                    al > 0,
            ;
            if x % al == 0 {
                assert(away(e, addr, sz, j, q));
            } else {
                assert(away(e, addr, sz, j, q + 1));
            }
            assert forall|r: int, n: int| #[trigger] away(e, addr, sz, r, n) implies j == r by {
                assert(x == n * al - r);
                if r == 0 {
                    vstd::arithmetic::div_mod::lemma_fundamental_div_mod_converse(x, al, n, 0);
                } else {
                    assert((n - 1) * al == n * al - al) by (nonlinear_arith);
                    vstd::arithmetic::div_mod::lemma_fundamental_div_mod_converse(
                        x,
                        al,
                        n - 1,
                        al - r,
                    );
                }
            }
        }
    }
}

/// The entries are ranges of bytes, in spaces that can be searched, and the list
/// has been searched through.
pub open spec fn plain_list(l: ListView) -> bool {
    &&& l.wf()
    &&& l.resolved()
    &&& l.entry.len() <= usize::MAX
    &&& forall|i: int|
        0 <= i < l.entry.len() ==> storage::one_range(#[trigger] l.entry[i])
            && l.entry[i].spaceid->0.index >= 0
}

proof fn lemma_ranges(s: Seq<EntryView>, n: int)
    requires
        0 <= n <= s.len(),
        forall|i: int| 0 <= i < s.len() ==> (#[trigger] s[i]).joinrec is None,
    ensures
        paramlist::all_ranges(s, n).len() == n,
        forall|k: int|
            0 <= k < n ==> #[trigger] paramlist::all_ranges(s, n)[k] == paramlist::ranges_of(
                s[k],
                k,
            )[0],
    decreases n,
{
    if n > 0 {
        lemma_ranges(s, n - 1);
        assert(s[n - 1].joinrec is None);
    }
}

/// The range of an entry covers the first byte of what the entry holds.
proof fn lemma_covers(l: ListView, k: int, loc: Address, size: int)
    requires
        plain_list(l),
        0 <= k < l.entry.len(),
        storage::range_in_space(loc, size),
    ensures
        l.resolver.len() == l.entry.len(),
        l.resolver[k].entry == k,
        l.owner(k) == l.entry[k],
        held(l.entry[k], loc, size) ==> l.covers(k, loc),
{
    assert forall|i: int| 0 <= i < l.entry.len() implies (#[trigger] l.entry[i]).joinrec is None by {
        assert(storage::one_range(l.entry[i]));
    }
    lemma_ranges(l.entry, l.entry.len() as int);
    assert(storage::one_range(l.entry[k]));
    assert(l.resolver[k] == paramlist::ranges_of(l.entry[k], k)[0]);
}

/// The entry can hold the range: it has at least the size that the entry asks
/// for, its bytes belong to the entry and, if `just`, stand where the convention
/// puts values.
pub open spec fn can_hold(e: EntryView, loc: Address, size: int, just: bool) -> bool {
    &&& e.minsize <= size
    &&& held(e, loc, size)
    &&& just ==> exists|n: int| #[trigger] away(e, loc, size, 0, n)
}

proof fn lemma_matches(l: ListView, k: int, loc: Address, size: int, just: bool)
    requires
        plain_list(l),
        0 <= k < l.entry.len(),
        storage::range_in_space(loc, size),
    ensures
        l.matches_at(k, loc, size, just) == can_hold(l.entry[k], loc, size, just),
{
    lemma_covers(l, k, loc, size);
    assert(storage::one_range(l.entry[k]));
    law_held(l.entry[k], loc, size);
}

proof fn lemma_found_from(l: ListView, k: int, loc: Address, size: int, just: bool)
    requires
        plain_list(l),
        0 <= k <= l.entry.len(),
        l.resolver.len() == l.entry.len(),
        storage::range_in_space(loc, size),
    ensures
        match l.find_from(k, loc, size, just) {
            Some(e) => {
                &&& k <= e < l.entry.len()
                &&& can_hold(l.entry[e as int], loc, size, just)
                &&& forall|i: int| k <= i < e ==> !can_hold(#[trigger] l.entry[i], loc, size, just)
            },
            None => forall|i: int|
                k <= i < l.entry.len() ==> !can_hold(#[trigger] l.entry[i], loc, size, just),
        },
    decreases l.entry.len() - k,
{
    if k < l.entry.len() {
        lemma_matches(l, k, loc, size, just);
        lemma_covers(l, k, loc, size);
        lemma_found_from(l, k + 1, loc, size, just);
    }
}

proof fn lemma_lengths(l: ListView)
    requires
        plain_list(l),
    ensures
        l.resolver.len() == l.entry.len(),
{
    assert forall|i: int| 0 <= i < l.entry.len() implies (#[trigger] l.entry[i]).joinrec is None by {
        assert(storage::one_range(l.entry[i]));
    }
    lemma_ranges(l.entry, l.entry.len() as int);
}

/// A range is found in the first entry that can hold it, and nowhere if none can.
pub proof fn law_found_in_first_holder(l: ListView, loc: Address, size: int, just: bool)
    requires
        plain_list(l),
        storage::range_in_space(loc, size),
    ensures
        match l.found(loc, size, just) {
            Some(e) => {
                &&& e < l.entry.len()
                &&& can_hold(l.entry[e as int], loc, size, just)
                &&& forall|i: int| 0 <= i < e ==> !can_hold(#[trigger] l.entry[i], loc, size, just)
            },
            None => forall|i: int|
                0 <= i < l.entry.len() ==> !can_hold(#[trigger] l.entry[i], loc, size, just),
        },
{
    lemma_lengths(l);
    lemma_found_from(l, 0, loc, size, just);
    if !l.searchable(loc) {
        assert forall|i: int| 0 <= i < l.entry.len() implies !can_hold(
            #[trigger] l.entry[i],
            loc,
            size,
            just,
        ) by {
            assert(storage::one_range(l.entry[i]));
        }
    }
}

/// The bytes stand in the entry where the convention puts values.
pub open spec fn in_place(e: EntryView, loc: Address, size: int) -> bool {
    held(e, loc, size) && exists|n: int| #[trigger] away(e, loc, size, 0, n)
}

/// The whole entry, which is not divided, belongs to the range.
pub open spec fn swallowed(e: EntryView, loc: Address, size: int) -> bool {
    e.alignment == 0 && storage::bytes_within(e.base(), e.size as int, loc, size)
}

proof fn lemma_entry_characterized(l: ListView, i: int, loc: Address, size: int)
    requires
        plain_list(l),
        storage::range_in_space(loc, size),
        0 <= i < l.entry.len(),
    ensures
        in_place(l.entry[i], loc, size) == (l.covers(i, loc) && l.owner(i).justified(loc, size)
            == 0),
        held(l.entry[i], loc, size) == (l.covers(i, loc) && l.owner(i).justified(loc, size) >= 0),
        swallowed(l.entry[i], loc, size) == (l.inside_at(i, loc, size) && l.owner(
            i,
        ).exclusion()),
        !l.searchable(loc) ==> !held(l.entry[i], loc, size) && !swallowed(l.entry[i], loc, size),
{
    assert(storage::one_range(l.entry[i]));
    lemma_covers(l, i, loc, size);
    law_held(l.entry[i], loc, size);
    assert forall|k: int| 0 <= k < l.entry.len() implies (#[trigger] l.entry[k]).joinrec is None by {
        assert(storage::one_range(l.entry[k]));
    }
    lemma_ranges(l.entry, l.entry.len() as int);
    assert(l.resolver[i] == paramlist::ranges_of(l.entry[i], i)[0]);
}

/// Some entry holds the range where the convention puts values.
pub open spec fn placed(l: ListView, loc: Address, size: int) -> bool {
    exists|i: int| 0 <= i < l.entry.len() && in_place(#[trigger] l.entry[i], loc, size)
}

/// Some entry holds the range.
pub open spec fn held_at_all(l: ListView, loc: Address, size: int) -> bool {
    exists|i: int| 0 <= i < l.entry.len() && held(#[trigger] l.entry[i], loc, size)
}

/// Some entry belongs to the range as a whole.
pub open spec fn around_entry(l: ListView, loc: Address, size: int) -> bool {
    exists|i: int| 0 <= i < l.entry.len() && swallowed(#[trigger] l.entry[i], loc, size)
}

proof fn lemma_placed(l: ListView, loc: Address, size: int)
    requires
        plain_list(l),
        storage::range_in_space(loc, size),
    ensures
        l.holds_justified(loc, size) == placed(l, loc, size),
{
    lemma_lengths(l);
    if l.holds_justified(loc, size) {
        let k = choose|k: int|
            0 <= k < l.resolver.len() && #[trigger] l.covers(k, loc) && l.owner(k).justified(
                loc,
                size,
            ) == 0;
        lemma_entry_characterized(l, k, loc, size);
    }
    if placed(l, loc, size) {
        let i = choose|i: int| 0 <= i < l.entry.len() && in_place(#[trigger] l.entry[i], loc, size);
        lemma_entry_characterized(l, i, loc, size);
        assert(l.covers(i, loc));
    }
}

proof fn lemma_held_at_all(l: ListView, loc: Address, size: int)
    requires
        plain_list(l),
        storage::range_in_space(loc, size),
    ensures
        (l.holds_justified(loc, size) || l.holds_unjustified(loc, size)) == held_at_all(
            l,
            loc,
            size,
        ),
{
    lemma_lengths(l);
    if l.holds_justified(loc, size) {
        let k = choose|k: int|
            0 <= k < l.resolver.len() && #[trigger] l.covers(k, loc) && l.owner(k).justified(
                loc,
                size,
            ) == 0;
        lemma_entry_characterized(l, k, loc, size);
        assert(held(l.entry[k], loc, size));
    }
    if l.holds_unjustified(loc, size) {
        let k = choose|k: int|
            0 <= k < l.resolver.len() && #[trigger] l.covers(k, loc) && l.owner(k).justified(
                loc,
                size,
            ) > 0;
        lemma_entry_characterized(l, k, loc, size);
        assert(held(l.entry[k], loc, size));
    }
    if held_at_all(l, loc, size) {
        let i = choose|i: int| 0 <= i < l.entry.len() && held(#[trigger] l.entry[i], loc, size);
        lemma_entry_characterized(l, i, loc, size);
        assert(l.covers(i, loc));
    }
}

proof fn lemma_around(l: ListView, loc: Address, size: int)
    requires
        plain_list(l),
        storage::range_in_space(loc, size),
    ensures
        l.lies_within(loc, size) == around_entry(l, loc, size),
        !l.searchable(loc) ==> !around_entry(l, loc, size) && !held_at_all(l, loc, size)
            && !placed(l, loc, size),
{
    lemma_lengths(l);
    if l.lies_within(loc, size) {
        let k = choose|k: int|
            0 <= k < l.resolver.len() && #[trigger] l.inside_at(k, loc, size) && l.owner(
                k,
            ).exclusion();
        lemma_entry_characterized(l, k, loc, size);
        assert(swallowed(l.entry[k], loc, size));
    }
    if around_entry(l, loc, size) {
        let i = choose|i: int| 0 <= i < l.entry.len() && swallowed(#[trigger] l.entry[i], loc, size);
        lemma_entry_characterized(l, i, loc, size);
        assert(l.inside_at(i, loc, size));
    }
    if held_at_all(l, loc, size) {
        let i = choose|i: int| 0 <= i < l.entry.len() && held(#[trigger] l.entry[i], loc, size);
        lemma_entry_characterized(l, i, loc, size);
    }
    if placed(l, loc, size) {
        let i = choose|i: int| 0 <= i < l.entry.len() && in_place(#[trigger] l.entry[i], loc, size);
        lemma_entry_characterized(l, i, loc, size);
    }
}

/// How a range relates to the entries: some entry holds it in place, or only
/// away from there, or it holds a whole entry, or none of these.
pub proof fn law_range_characterized(l: ListView, loc: Address, size: int)
    requires
        plain_list(l),
        storage::range_in_space(loc, size),
    ensures
        l.characterized(loc, size) == (if placed(l, loc, size) {
            Containment::ContainsJustified
        } else if held_at_all(l, loc, size) {
            Containment::ContainsUnjustified
        } else if around_entry(l, loc, size) {
            Containment::ContainedBy
        } else {
            Containment::NoContainment
        }),
{
    lemma_placed(l, loc, size);
    lemma_held_at_all(l, loc, size);
    lemma_around(l, loc, size);
}

/// The entry at `i` belongs to the range as a whole, divided or not.
pub open spec fn part_of(l: ListView, i: int, loc: Address, size: int) -> bool {
    0 <= i < l.entry.len() && storage::bytes_within(
        l.entry[i].base(),
        l.entry[i].size as int,
        loc,
        size,
    )
}

/// The entry at `j` is not a bigger part than the one at `i`: it has no more
/// bytes, and of as many not a lower start.
pub open spec fn no_bigger(l: ListView, i: int, j: int) -> bool {
    l.entry[j].size < l.entry[i].size || (l.entry[j].size == l.entry[i].size
        && l.entry[j].addressbase >= l.entry[i].addressbase)
}

proof fn lemma_biggest(l: ListView, n: int, loc: Address, size: int)
    requires
        plain_list(l),
        storage::range_in_space(loc, size),
        l.searchable(loc),
        0 <= n <= l.entry.len(),
    ensures
        match l.biggest(n, loc, size) {
            Some(b) => {
                &&& b < n
                &&& part_of(l, b as int, loc, size)
                &&& forall|j: int|
                    0 <= j < n && #[trigger] part_of(l, j, loc, size) ==> no_bigger(l, b as int, j)
            },
            None => forall|j: int| 0 <= j < n ==> !#[trigger] part_of(l, j, loc, size),
        },
    decreases n,
{
    lemma_lengths(l);
    if n > 0 {
        lemma_biggest(l, n - 1, loc, size);
        lemma_covers(l, n - 1, loc, size);
        assert(storage::one_range(l.entry[n - 1]));
        assert(l.inside_at(n - 1, loc, size) == part_of(l, n - 1, loc, size)) by {
            assert forall|k: int| 0 <= k < l.entry.len() implies (
            #[trigger] l.entry[k]).joinrec is None by {
                assert(storage::one_range(l.entry[k]));
            }
            lemma_ranges(l.entry, l.entry.len() as int);
            assert(l.resolver[n - 1] == paramlist::ranges_of(l.entry[n - 1], n - 1)[0]);
        }
    }
}

/// The biggest part of a range that is an entry: the entry that is given, if one
/// is, belongs to the range and is not divided, and no entry that belongs to the
/// range is bigger. None is given only where none belongs to it or the biggest
/// is divided.
pub proof fn law_biggest_part(l: ListView, loc: Address, size: int)
    requires
        plain_list(l),
        storage::range_in_space(loc, size),
    ensures
        match l.biggest_contained(loc, size) {
            Some(v) => exists|i: int| #[trigger]
                part_of(l, i, loc, size) && l.entry[i].alignment == 0 && v.space
                    == l.entry[i].spaceid && v.offset == l.entry[i].addressbase && v.size
                    == l.entry[i].size && forall|j: int| #[trigger]
                    part_of(l, j, loc, size) ==> no_bigger(l, i, j),
            None => (forall|j: int| !#[trigger] part_of(l, j, loc, size)) || exists|i: int|
                #[trigger] part_of(l, i, loc, size) && l.entry[i].alignment != 0 && forall|j: int|
                    #[trigger] part_of(l, j, loc, size) ==> no_bigger(l, i, j),
        },
{
    if l.searchable(loc) {
        lemma_biggest(l, l.entry.len() as int, loc, size);
        lemma_lengths(l);
        match l.biggest(l.entry.len() as int, loc, size) {
            Some(b) => {
                assert(part_of(l, b as int, loc, size));
                assert(storage::one_range(l.entry[b as int]));
            },
            None => {},
        }
    } else {
        assert forall|j: int| !#[trigger] part_of(l, j, loc, size) by {
            if 0 <= j < l.entry.len() {
                assert(storage::one_range(l.entry[j]));
            }
        }
    }
}

} // verus!
