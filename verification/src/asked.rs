//! What a prototype answers about a range of bytes.
use crate::dtype::TypeMetatype;
use crate::entry::{Containment, EntryView};
use crate::held;
use crate::paramlist::ListView;
use crate::pieces;
use crate::proto;
use crate::proto::ProtoView;
use crate::query;
use crate::space::{Address, VarnodeData};
use crate::storage;
use crate::store::ParamView;
use vstd::prelude::*;

verus! {

/// All of the `size` bytes at `addr` belong to the parameter.
pub open spec fn within(p: ParamView, addr: Address, size: int) -> bool {
    storage::bytes_within(addr, size, p.addr, p.size() as int)
}

/// They are its least significant bytes.
pub open spec fn low_part(p: ParamView, addr: Address, size: int) -> bool {
    within(p, addr, size) && if p.addr.space->0.big_endian {
        addr.offset + size == p.addr.offset + p.size()
    } else {
        addr.offset == p.addr.offset
    }
}

/// The whole parameter belongs to the `size` bytes at `addr`.
pub open spec fn around(p: ParamView, addr: Address, size: int) -> bool {
    storage::bytes_within(p.addr, p.size() as int, addr, size)
}

/// The input is there, and its type is locked.
pub open spec fn locked(p: Option<ParamView>) -> bool {
    p is Some && p->0.flags & pieces::TYPELOCK != 0
}

/// The locked inputs are ranges of bytes.
pub open spec fn locked_ranges(s: Seq<Option<ParamView>>) -> bool {
    forall|i: int|
        0 <= i < s.len() && locked(#[trigger] s[i]) ==> storage::range_in_space(
            s[i]->0.addr,
            s[i]->0.size() as int,
        )
}

proof fn lemma_param(p: ParamView, addr: Address, size: int)
    requires
        storage::range_in_space(p.addr, p.size() as int),
        storage::range_in_space(addr, size),
    ensures
        (query::offset_in(p, addr, size) == 0) == low_part(p, addr, size),
        (query::offset_in(p, addr, size) >= 0) == within(p, addr, size),
        query::param_inside(p, addr, size) == around(p, addr, size),
{
}

/// Where some inputs are locked, and no more are allowed, they alone say what a
/// range is: an input if it is the least significant part of one, otherwise part of
/// one, around one, or none of these.
pub proof fn law_locked_inputs_answer(p: ProtoView, addr: Address, size: int)
    requires
        !p.flag(proto::DOTDOTDOT),
        !p.flag(proto::VOIDINPUTLOCK),
        exists|i: int| 0 <= i < p.inputs().len() && locked(#[trigger] p.inputs()[i]),
        locked_ranges(p.inputs()),
        storage::range_in_space(addr, size),
    ensures
        ({
            let s = p.inputs();
            let low = exists|i: int|
                0 <= i < s.len() && locked(#[trigger] s[i]) && low_part(s[i]->0, addr, size);
            let part = exists|i: int|
                0 <= i < s.len() && locked(#[trigger] s[i]) && within(s[i]->0, addr, size);
            let whole = exists|i: int|
                0 <= i < s.len() && locked(#[trigger] s[i]) && around(s[i]->0, addr, size);
            &&& p.input_possible(addr, size) == low
            &&& p.input_containment(addr, size) == (if low {
                Containment::ContainsJustified
            } else if part {
                Containment::ContainsUnjustified
            } else if whole {
                Containment::ContainedBy
            } else {
                Containment::NoContainment
            })
        }),
{
    let s = p.inputs();
    assert forall|i: int| 0 <= i < s.len() implies query::locked_at(s, i) == locked(
        #[trigger] s[i],
    ) by {}
    assert forall|i: int| 0 <= i < s.len() && locked(#[trigger] s[i]) implies (query::offset_in(
        s[i]->0,
        addr,
        size,
    ) == 0) == low_part(s[i]->0, addr, size) && (query::offset_in(s[i]->0, addr, size) >= 0)
        == within(s[i]->0, addr, size) && query::param_inside(s[i]->0, addr, size) == around(
        s[i]->0,
        addr,
        size,
    ) by {
        lemma_param(s[i]->0, addr, size);
    }
    let w = choose|i: int| 0 <= i < s.len() && locked(#[trigger] s[i]);
    assert(query::locked_at(s, w));
    if query::held_justified(s, addr, size) {
        let i = choose|i: int| #[trigger]
            query::locked_at(s, i) && query::offset_in(s[i]->0, addr, size) == 0;
        assert(locked(s[i]));
    }
    if query::held_unjustified(s, addr, size) {
        let i = choose|i: int| #[trigger]
            query::locked_at(s, i) && query::offset_in(s[i]->0, addr, size) > 0;
        assert(locked(s[i]));
    }
    if query::holds_locked(s, addr, size) {
        let i = choose|i: int| #[trigger]
            query::locked_at(s, i) && query::param_inside(s[i]->0, addr, size);
        assert(locked(s[i]));
    }
    assert forall|i: int|
        0 <= i < s.len() && locked(#[trigger] s[i]) && low_part(s[i]->0, addr, size) implies
        query::held_justified(s, addr, size) by {
        assert(query::locked_at(s, i));
    }
    assert forall|i: int|
        0 <= i < s.len() && locked(#[trigger] s[i]) && within(s[i]->0, addr, size) implies
        query::held_justified(s, addr, size) || query::held_unjustified(s, addr, size) by {
        assert(query::locked_at(s, i));
    }
    assert forall|i: int|
        0 <= i < s.len() && locked(#[trigger] s[i]) && around(s[i]->0, addr, size) implies
        query::holds_locked(s, addr, size) by {
        assert(query::locked_at(s, i));
    }
}

/// A locked return value alone says what a range is for it; a function that
/// returns nothing has no return value.
pub proof fn law_locked_output_answers(p: ProtoView, addr: Address, size: int)
    requires
        p.store is Some,
        p.output_locked(),
        storage::range_in_space(addr, size),
        storage::range_in_space(p.store->0.output().addr, p.store->0.output().size() as int),
    ensures
        ({
            let o = p.store->0.output();
            let void = o.type_ matches Some(t) && t.metatype == TypeMetatype::Void;
            &&& p.output_possible(addr, size) == (!void && low_part(o, addr, size))
            &&& p.output_containment(addr, size) == (if void {
                Containment::NoContainment
            } else if low_part(o, addr, size) {
                Containment::ContainsJustified
            } else if within(o, addr, size) {
                Containment::ContainsUnjustified
            } else if around(o, addr, size) {
                Containment::ContainedBy
            } else {
                Containment::NoContainment
            })
        }),
{
    lemma_param(p.store->0.output(), addr, size);
}

/// The biggest locked input that a range is around: none is bigger, and it is one
/// of them; nothing where there is none.
pub proof fn law_biggest_locked_input(
    s: Seq<Option<ParamView>>,
    n: int,
    addr: Address,
    size: int,
    none: VarnodeData,
)
    requires
        0 <= n <= s.len(),
        locked_ranges(s),
        storage::range_in_space(addr, size),
    ensures
        ({
            let r = query::biggest_locked(s, n, addr, size, none);
            &&& forall|i: int|
                0 <= i < n && locked(#[trigger] s[i]) && around(s[i]->0, addr, size)
                    ==> s[i]->0.size() <= r.size
            &&& r.size > 0 ==> exists|i: int|
                0 <= i < n && locked(#[trigger] s[i]) && around(s[i]->0, addr, size) && r.space
                    == s[i]->0.addr.space && r.offset == s[i]->0.addr.offset && r.size
                    == s[i]->0.size()
        }),
    decreases n,
{
    if n > 0 {
        law_biggest_locked_input(s, n - 1, addr, size, none);
        let b = query::biggest_locked(s, n - 1, addr, size, none);
        let r = query::biggest_locked(s, n, addr, size, none);
        assert(query::locked_at(s, n - 1) == locked(s[n - 1]));
        if locked(s[n - 1]) {
            lemma_param(s[n - 1]->0, addr, size);
        }
        if r == b && r.size > 0 {
            let i = choose|i: int|
                0 <= i < n - 1 && locked(#[trigger] s[i]) && around(s[i]->0, addr, size) && b.space
                    == s[i]->0.addr.space && b.offset == s[i]->0.addr.offset && b.size
                    == s[i]->0.size();
            assert(locked(s[i]));
        } else if r.size > 0 {
            assert(locked(s[n - 1]));
        }
    }
}

/// The entry holds both halves of a value: the less significant one where the
/// convention puts values, and the other right above it.
pub open spec fn holds_halves(
    e: EntryView,
    hi: Address,
    hisize: int,
    lo: Address,
    losize: int,
) -> bool {
    &&& e.size >= hisize + losize
    &&& held::in_place(e, lo, losize)
    &&& held::held(e, hi, hisize)
    &&& exists|n: int| #[trigger] held::away(e, hi, hisize, losize, n)
}

/// Two registers of different groups can be joined exactly where both can hold a
/// parameter and some larger entry holds both as the halves of a value.
pub proof fn law_registers_joinable(
    l: ListView,
    hi: Address,
    hisize: int,
    lo: Address,
    losize: int,
    a: usize,
    b: usize,
)
    requires
        held::plain_list(l),
        storage::range_in_space(hi, hisize),
        storage::range_in_space(lo, losize),
        l.found(hi, hisize, true) == Some(a),
        l.found(lo, losize, true) == Some(b),
        l.entry[a as int].group_set[0] != l.entry[b as int].group_set[0],
    ensures
        l.joinable(hi, hisize, lo, losize) <==> exists|i: int|
            0 <= i < l.entry.len() && holds_halves(#[trigger] l.entry[i], hi, hisize, lo, losize),
{
    assert forall|i: int| 0 <= i < l.entry.len() implies holds_halves(
        #[trigger] l.entry[i],
        hi,
        hisize,
        lo,
        losize,
    ) == (l.entry[i].size >= hisize + losize && l.entry[i].justified(lo, losize) == 0
        && l.entry[i].justified(hi, hisize) == losize) by {
        assert(storage::one_range(l.entry[i]));
        held::law_held(l.entry[i], lo, losize);
        held::law_held(l.entry[i], hi, hisize);
    }
    if l.joinable(hi, hisize, lo, losize) {
        let i = choose|i: int|
            0 <= i < l.entry.len() && (#[trigger] l.entry[i]).size >= hisize + losize
                && l.entry[i].justified(lo, losize) == 0 && l.entry[i].justified(hi, hisize)
                == losize;
        assert(holds_halves(l.entry[i], hi, hisize, lo, losize));
    }
    if exists|i: int|
        0 <= i < l.entry.len() && holds_halves(#[trigger] l.entry[i], hi, hisize, lo, losize) {
        let i = choose|i: int|
            0 <= i < l.entry.len() && holds_halves(#[trigger] l.entry[i], hi, hisize, lo, losize);
        assert(l.entry[i].size >= hisize + losize && l.entry[i].justified(lo, losize) == 0);
    }
}

/// A range that is found nowhere cannot be joined with another.
pub proof fn law_unheld_not_joinable(
    l: ListView,
    hi: Address,
    hisize: int,
    lo: Address,
    losize: int,
)
    requires
        held::plain_list(l),
        storage::range_in_space(hi, hisize),
        storage::range_in_space(lo, losize),
        l.joinable(hi, hisize, lo, losize),
    ensures
        exists|i: int|
            0 <= i < l.entry.len() && held::can_hold(#[trigger] l.entry[i], hi, hisize, true),
        exists|i: int|
            0 <= i < l.entry.len() && held::can_hold(#[trigger] l.entry[i], lo, losize, true),
{
    held::law_found_in_first_holder(l, hi, hisize, true);
    held::law_found_in_first_holder(l, lo, losize, true);
}

/// A range can be split exactly where its first bytes and the rest can each hold a
/// parameter.
pub proof fn law_range_splittable(l: ListView, loc: Address, size: int, cut: int)
    requires
        held::plain_list(l),
        storage::range_in_space(loc, size),
        0 < cut < size,
    ensures
        l.splittable(loc, size, cut) <==> (exists|i: int|
            0 <= i < l.entry.len() && held::can_hold(#[trigger] l.entry[i], loc, cut, true)) && (
        exists|i: int|
            0 <= i < l.entry.len() && held::can_hold(
                #[trigger] l.entry[i],
                Address { space: loc.space, offset: (loc.offset + cut) as u64 },
                size - cut,
                true,
            )),
{
    let rest = Address { space: loc.space, offset: (loc.offset + cut) as u64 };
    assert(loc.plus(cut) == rest);
    held::law_found_in_first_holder(l, loc, cut, true);
    held::law_found_in_first_holder(l, rest, size - cut, true);
}

} // verus!
