//! What holds of the storage that entries hand out: a value lies in the slots
//! that it takes, at the end where the convention puts it, and apart from the
//! values beside it.
use crate::entry::EntryView;
use crate::num;
use crate::space::{Address, SpaceType};
use vstd::prelude::*;

verus! {

/// The entry is one range of bytes, all of them within its space.
pub open spec fn one_range(e: EntryView) -> bool {
    e.wf() && e.joinrec is None && e.addressbase + e.size - 1 <= e.spaceid->0.highest
}

/// A value of `sz` bytes can be allocated from `slot` on, and the slot number
/// stays within its range when it is aligned.
pub open spec fn allocatable(e: EntryView, slot: i32, sz: int, type_align: int) -> bool {
    &&& one_range(e)
    &&& 0 <= slot
    &&& 0 <= type_align
    &&& slot + type_align <= i32::MAX
    &&& 0 < sz <= i32::MAX
    &&& e.has_room(slot, sz, type_align)
}

/// The `sz` bytes at `a` lie within the `size` bytes at `b`.
pub open spec fn bytes_within(a: Address, sz: int, b: Address, size: int) -> bool {
    a.space == b.space && b.offset <= a.offset && a.offset + sz <= b.offset + size
}

/// No byte belongs to both ranges.
pub open spec fn bytes_apart(a: Address, asz: int, b: Address, bsz: int) -> bool {
    a.space != b.space || a.offset + asz <= b.offset || b.offset + bsz <= a.offset
}

/// A slot number is never lowered by aligning it, and stays below its sum with
/// the alignment.
pub(crate) proof fn lemma_aligned(e: EntryView, slot: i32, type_align: int)
    requires
        e.wf(),
        e.alignment > 0,
        0 <= slot,
        0 <= type_align,
        slot + type_align <= i32::MAX,
    ensures
        slot <= e.aligned_slot(slot, type_align) <= slot + type_align,
{
    if type_align > e.alignment {
        let p = slot * e.alignment;
        assert(p >= 0) by (nonlinear_arith)
            requires
                p == slot * e.alignment,
                slot >= 0,
                e.alignment > 0,
        ;
        let tmp = p % type_align;
        let up = (type_align - tmp) / e.alignment as int;
        assert(0 <= up <= type_align - tmp) by (nonlinear_arith)
            requires
                up == (type_align - tmp) / e.alignment as int,
                type_align - tmp >= 0,
                e.alignment > 0,
        ;
    }
}

/// How many slots a value takes: enough to hold it, and one less would not do.
proof fn lemma_slots_for(e: EntryView, sz: int)
    requires
        e.alignment > 0,
        0 < sz,
    ensures
        e.slots_for(sz) >= 1,
        sz <= e.slots_for(sz) * e.alignment < sz + e.alignment,
{
    let a = e.alignment as int;
    vstd::arithmetic::div_mod::lemma_fundamental_div_mod(sz, a);
    let q = sz / a;
    let r = sz % a;
    assert(q >= 0) by (nonlinear_arith)
        requires
            q == sz / a,
            sz > 0,
            a > 0,
    ;
    assert((q + 1) * a == a * q + a) by (nonlinear_arith);
    assert(q * a == a * q) by (nonlinear_arith);
}

/// Index of the first slot, in address order, of a value allocated from `slot`
/// on.
pub open spec fn first_index(e: EntryView, slot: i32, sz: int, type_align: int) -> int {
    if e.flags.reverse_stack {
        e.numslots - e.aligned_slot(slot, type_align) - e.slots_for(sz)
    } else {
        e.aligned_slot(slot, type_align) as int
    }
}

/// Where an allocated value lies in a divided entry.
proof fn lemma_allocated(e: EntryView, slot: i32, sz: int, type_align: int, right: bool)
    requires
        allocatable(e, slot, sz, type_align),
        e.alignment > 0,
    ensures
        ({
            let a = e.plain_addr(slot, sz, type_align, right);
            let i = first_index(e, slot, sz, type_align);
            let n = e.slots_for(sz);
            let pad = if right {
                n * e.alignment - sz
            } else {
                0
            };
            &&& 0 <= i
            &&& i + n <= e.numslots
            &&& n >= 1
            &&& 0 <= i * e.alignment
            &&& (i + n) * e.alignment == i * e.alignment + n * e.alignment
            &&& (i + n) * e.alignment <= e.size
            &&& a.space == e.spaceid
            &&& a.offset == e.addressbase + i * e.alignment + pad
            &&& 0 <= pad < e.alignment
            &&& pad + sz <= n * e.alignment
        }),
{
    lemma_aligned(e, slot, type_align);
    lemma_slots_for(e, sz);
    let i = first_index(e, slot, sz, type_align);
    let n = e.slots_for(sz);
    let al = e.alignment as int;
    vstd::arithmetic::div_mod::lemma_fundamental_div_mod(e.size as int, al);
    assert(e.numslots * al <= e.size) by (nonlinear_arith)
        requires
            e.size == al * (e.size as int / al) + e.size as int % al,
            e.numslots == e.size as int / al,
            e.size as int % al >= 0,
    ;
    assert((i + n) * al <= e.numslots * al) by (nonlinear_arith)
        requires
            i + n <= e.numslots,
            al > 0,
    ;
    assert((i + n) * al == i * al + n * al) by (nonlinear_arith);
    assert(0 <= i * al) by (nonlinear_arith)
        requires
            i >= 0,
            al > 0,
    ;
}

/// Where an allocated value lies in a divided entry whose slots are aligned
/// well enough for it.
pub(crate) proof fn lemma_placed(e: EntryView, slot: i32, sz: int, type_align: int, right: bool)
    requires
        allocatable(e, slot, sz, type_align),
        0 < e.alignment,
        type_align <= e.alignment,
    ensures
        ({
            let a = e.plain_addr(slot, sz, type_align, right);
            let n = e.slots_for(sz);
            let first = if e.flags.reverse_stack {
                e.numslots - slot - n
            } else {
                slot as int
            };
            &&& a.space == e.spaceid
            &&& a.offset == e.addressbase + first * e.alignment + (if right {
                n * e.alignment - sz
            } else {
                0
            })
            &&& e.next_slot(slot, sz, type_align) == slot + n
        }),
{
    lemma_allocated(e, slot, sz, type_align, right);
}

/// A value allocated from an entry lies within the entry.
pub proof fn law_allocated_within(e: EntryView, slot: i32, sz: int, type_align: int, right: bool)
    requires
        allocatable(e, slot, sz, type_align),
    ensures
        bytes_within(
            e.plain_addr(slot, sz, type_align, right),
            sz,
            e.base(),
            e.size as int,
        ),
{
    if e.alignment > 0 {
        lemma_allocated(e, slot, sz, type_align, right);
    }
}

/// Allocating a value where the entry puts it and asking for its position
/// gives 0: the value covers the least significant bytes of its slots.
pub proof fn law_allocated_justified(e: EntryView, slot: i32, sz: int, type_align: int)
    requires
        allocatable(e, slot, sz, type_align),
    ensures
        e.justified(e.plain_addr(slot, sz, type_align, !e.left_justified()), sz) == 0,
{
    let a = e.plain_addr(slot, sz, type_align, !e.left_justified());
    if e.alignment > 0 {
        lemma_allocated(e, slot, sz, type_align, !e.left_justified());
        let i = first_index(e, slot, sz, type_align);
        let n = e.slots_for(sz);
        let al = e.alignment as int;
        if e.left_justified() {
            vstd::arithmetic::div_mod::lemma_mod_multiples_basic(i, al);
        } else {
            vstd::arithmetic::div_mod::lemma_mod_multiples_basic(i + n, al);
            assert(num::last_byte(a.offset, sz) - e.addressbase + 1 == (i + n) * al);
        }
    }
}

/// A value takes the slots it was given: of the slots that its first and its
/// last byte fall into, the lower is the one it was allocated from, and the
/// higher is the last of those it needs.
pub proof fn law_slots_read_back(e: EntryView, slot: i32, sz: int, type_align: int, right: bool)
    requires
        allocatable(e, slot, sz, type_align),
        e.alignment > 0,
    ensures
        ({
            let a = e.plain_addr(slot, sz, type_align, right);
            let first = e.group() + e.aligned_slot(slot, type_align);
            let last = first + e.slots_for(sz) - 1;
            if e.flags.reverse_stack {
                e.slot_at(a, 0) == last && e.slot_at(a, sz - 1) == first
            } else {
                e.slot_at(a, 0) == first && e.slot_at(a, sz - 1) == last
            }
        }),
{
    lemma_allocated(e, slot, sz, type_align, right);
    let a = e.plain_addr(slot, sz, type_align, right);
    let i = first_index(e, slot, sz, type_align);
    let n = e.slots_for(sz);
    let al = e.alignment as int;
    let low = a.offset - e.addressbase;
    let high = low + sz - 1;
    lemma_slots_for(e, sz);
    assert((i + n - 1) * al == (i + n) * al - al) by (nonlinear_arith);
    vstd::arithmetic::div_mod::lemma_fundamental_div_mod_converse(low, al, i, low - i * al);
    vstd::arithmetic::div_mod::lemma_fundamental_div_mod_converse(
        high,
        al,
        i + n - 1,
        high - (i + n - 1) * al,
    );
}

/// Two values allocated one after the other from the same entry have no byte
/// in common.
pub proof fn law_allocations_apart(
    e: EntryView,
    slot1: i32,
    sz1: int,
    align1: int,
    slot2: i32,
    sz2: int,
    align2: int,
    right: bool,
)
    requires
        allocatable(e, slot1, sz1, align1),
        allocatable(e, slot2, sz2, align2),
        e.alignment > 0,
        slot2 >= e.next_slot(slot1, sz1, align1),
    ensures
        bytes_apart(
            e.plain_addr(slot1, sz1, align1, right),
            sz1,
            e.plain_addr(slot2, sz2, align2, right),
            sz2,
        ),
{
    lemma_allocated(e, slot1, sz1, align1, right);
    lemma_allocated(e, slot2, sz2, align2, right);
    lemma_aligned(e, slot2, align2);
    let i = first_index(e, slot1, sz1, align1);
    let j = first_index(e, slot2, sz2, align2);
    let n = e.slots_for(sz1);
    let m = e.slots_for(sz2);
    let al = e.alignment as int;
    if e.flags.reverse_stack {
        assert((j + m) * al <= i * al) by (nonlinear_arith)
            requires
                j + m <= i,
                al > 0,
        ;
    } else {
        assert((i + n) * al <= j * al) by (nonlinear_arith)
            requires
                i + n <= j,
                al > 0,
        ;
    }
}

/// The range stays within its space.
pub open spec fn range_in_space(addr: Address, sz: int) -> bool {
    addr.space matches Some(s) && 0 < sz <= i32::MAX && addr.offset + sz - 1 <= s.highest
}

/// An offset above the middle of the 64-bit range, read as a signed number.
proof fn lemma_signed(off: u64)
    requires
        off >= 0x8000_0000_0000_0000,
    ensures
        (off as i64) as int == off - num::pow64(),
{
    assert(off >= 0x8000_0000_0000_0000u64 ==> (off as i64) == off - 0x1_0000_0000_0000_0000)
        by (bit_vector);
}

/// An address that overlaps a range lies between the ends of the range.
proof fn lemma_overlap_inside(addr: Address, base: Address, size: int)
    requires
        addr.space is Some,
        base.space == addr.space,
        0 < size <= i32::MAX,
        addr.offset <= addr.space->0.highest,
        base.offset + size - 1 <= addr.space->0.highest,
        addr.overlap_at(0, base, size) >= 0,
    ensures
        base.offset <= addr.offset < base.offset + size,
{
    let s = addr.space->0;
    if addr.offset < base.offset {
        let d = base.offset - addr.offset;
        let off = num::wadd(num::wadd(addr.offset, 0), -(base.offset as int));
        assert(off == num::pow64() - d);
        if off > s.highest {
            lemma_signed(off);
            assert((-d) % (s.highest + 1) == s.highest + 1 - d) by {
                num::lemma_mod_of_negative(-d, s.highest + 1);
                vstd::arithmetic::div_mod::lemma_small_mod(d as nat, (s.highest + 1) as nat);
            }
        }
    }
}

/// Two ranges of one space overlap exactly where they have a byte in common.
pub proof fn law_overlap_is_common_byte(a: Address, asz: int, b: Address, bsz: int)
    requires
        range_in_space(a, asz),
        range_in_space(b, bsz),
        a.space == b.space,
        a.space->0.type_ != SpaceType::Constant,
    ensures
        a.overlaps(asz, b, bsz) == !bytes_apart(a, asz, b, bsz),
{
    if a.overlap_at(0, b, bsz) >= 0 {
        lemma_overlap_inside(a, b, bsz);
    }
    if b.overlap_at(0, a, asz) >= 0 {
        lemma_overlap_inside(b, a, asz);
    }
}

/// An entry intersects a range exactly where they have a byte in common.
pub proof fn law_entry_intersects(e: EntryView, addr: Address, sz: int)
    requires
        one_range(e),
        range_in_space(addr, sz),
    ensures
        e.meets(addr, sz) == !bytes_apart(addr, sz, e.base(), e.size as int),
{
}

/// The slot that an address lies in starts at or before it, by less than one
/// slot.
proof fn lemma_slot_start(e: EntryView, addr: Address)
    requires
        one_range(e),
        e.alignment > 0,
        e.addressbase <= addr.offset,
    ensures
        e.slot_start(addr) == addr.offset - (addr.offset - e.addressbase) % e.alignment as int,
        e.addressbase <= e.slot_start(addr) <= addr.offset,
{
    let d = addr.offset - e.addressbase;
    let al = e.alignment as int;
    assert(0 <= d % al <= d) by (nonlinear_arith)
        requires
            d >= 0,
            al > 0,
    ;
}

/// A container holds the whole range that it was found for.
pub proof fn law_container_holds(e: EntryView, addr: Address, sz: int)
    requires
        one_range(e),
        range_in_space(addr, sz),
        e.container(addr, sz) is Some,
    ensures
        bytes_within(
            addr,
            sz,
            e.container(addr, sz)->0.addr(),
            e.container(addr, sz)->0.size as int,
        ),
{
    let end = addr.plus(sz - 1);
    lemma_overlap_inside(addr, e.base(), e.size as int);
    lemma_overlap_inside(end, e.base(), e.size as int);
    if e.alignment > 0 {
        lemma_slot_start(e, addr);
    }
}

/// A small value that is extended lies in its container, which is larger than
/// the value.
pub proof fn law_extension_is_larger(e: EntryView, addr: Address, sz: int)
    requires
        one_range(e),
        range_in_space(addr, sz),
        e.extends(addr, sz),
    ensures
        bytes_within(
            addr,
            sz,
            e.extension_container(addr).addr(),
            e.extension_container(addr).size as int,
        ),
        sz < e.extension_container(addr).size,
{
    if e.alignment > 0 {
        lemma_slot_start(e, addr);
        let al = e.alignment as int;
        let d = addr.offset - e.addressbase;
        let r = d % al;
        if !e.left_justified() {
            vstd::arithmetic::div_mod::lemma_fundamental_div_mod(d, al);
            vstd::arithmetic::div_mod::lemma_mod_multiples_vanish(d / al, r + sz, al);
            assert((r + sz) % al == 0);
            if r + sz > al {
                vstd::arithmetic::div_mod::lemma_fundamental_div_mod_converse(
                    r + sz,
                    al,
                    1,
                    r + sz - al,
                );
            }
        }
    }
}

} // verus!
