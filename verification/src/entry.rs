//! Parameter entries: the ranges of memory that a calling convention uses to
//! pass one parameter, or a run of parameters in aligned slots.
use crate::dtype::TypeClass;
use crate::error::FspecError;
use crate::joins::{AddrSpaceManager, JoinTable, JoinView};
use crate::num;
use crate::opcode::OpCode;
use crate::sort;
use crate::space;
use crate::space::{AddrSpace, Address, JoinRecord, VarnodeData};
use vstd::prelude::*;

verus! {

/// Big endian values are left justified within their slot.
pub const FORCE_LEFT_JUSTIFY: u32 = 1;

/// Slots are allocated in reverse order.
pub const REVERSE_STACK: u32 = 2;

/// Values below the maximum size are zero extended into the container.
pub const SMALLSIZE_ZEXT: u32 = 4;

/// Values below the maximum size are sign extended into the container.
pub const SMALLSIZE_SEXT: u32 = 8;

/// Values below the maximum size are extended according to their type.
pub const SMALLSIZE_INTTYPE: u32 = 0x20;

/// Values below the maximum size are floating-point extended.
pub const SMALLSIZE_FLOATEXT: u32 = 0x40;

/// The most significant half needs extra checks during recovery.
pub const EXTRACHECK_HIGH: u32 = 0x80;

/// The least significant half needs extra checks during recovery.
pub const EXTRACHECK_LOW: u32 = 0x100;

/// The entry is grouped with others.
pub const IS_GROUPED: u32 = 0x200;

/// The entry overlaps an earlier one.
pub const OVERLAPPING: u32 = 0x400;

/// The entry is the first of its storage class.
pub const FIRST_STORAGE: u32 = 0x800;

/// How a range of memory relates to a parameter entry.
#[derive(Debug, Clone, Copy, PartialEq, Eq, Structural)]
pub enum Containment {
    /// Neither contains the other.
    NoContainment,
    /// The entry contains the range, which misses the least significant bytes.
    ContainsUnjustified,
    /// The entry contains the range, which covers the least significant bytes.
    ContainsJustified,
    /// The range contains the entry.
    ContainedBy,
}

/// The boolean properties of an entry.
#[derive(Debug, Clone, Copy, PartialEq, Eq, Structural)]
pub struct EntryFlags {
    pub force_left_justify: bool,
    pub reverse_stack: bool,
    pub smallsize_zext: bool,
    pub smallsize_sext: bool,
    pub smallsize_inttype: bool,
    pub smallsize_floatext: bool,
    pub extracheck_high: bool,
    pub extracheck_low: bool,
    pub is_grouped: bool,
    pub overlapping: bool,
    pub first_storage: bool,
}

impl EntryFlags {
    /// The properties named by a flag word.
    pub open spec fn of_bits(f: u32) -> EntryFlags {
        EntryFlags {
            force_left_justify: num::bit(f, FORCE_LEFT_JUSTIFY),
            reverse_stack: num::bit(f, REVERSE_STACK),
            smallsize_zext: num::bit(f, SMALLSIZE_ZEXT),
            smallsize_sext: num::bit(f, SMALLSIZE_SEXT),
            smallsize_inttype: num::bit(f, SMALLSIZE_INTTYPE),
            smallsize_floatext: num::bit(f, SMALLSIZE_FLOATEXT),
            extracheck_high: num::bit(f, EXTRACHECK_HIGH),
            extracheck_low: num::bit(f, EXTRACHECK_LOW),
            is_grouped: num::bit(f, IS_GROUPED),
            overlapping: num::bit(f, OVERLAPPING),
            first_storage: num::bit(f, FIRST_STORAGE),
        }
    }

    pub fn from_bits(f: u32) -> (r: EntryFlags)
        ensures
            r == EntryFlags::of_bits(f),
    {
        EntryFlags {
            force_left_justify: num::has_bit(f, FORCE_LEFT_JUSTIFY),
            reverse_stack: num::has_bit(f, REVERSE_STACK),
            smallsize_zext: num::has_bit(f, SMALLSIZE_ZEXT),
            smallsize_sext: num::has_bit(f, SMALLSIZE_SEXT),
            smallsize_inttype: num::has_bit(f, SMALLSIZE_INTTYPE),
            smallsize_floatext: num::has_bit(f, SMALLSIZE_FLOATEXT),
            extracheck_high: num::has_bit(f, EXTRACHECK_HIGH),
            extracheck_low: num::has_bit(f, EXTRACHECK_LOW),
            is_grouped: num::has_bit(f, IS_GROUPED),
            overlapping: num::has_bit(f, OVERLAPPING),
            first_storage: num::has_bit(f, FIRST_STORAGE),
        }
    }
}

/// A contiguous range of memory that can pass a parameter. With alignment 0
/// it holds a single parameter; otherwise it is divided into slots of
/// `alignment` bytes. With a join record it is a logical value made of pieces.
#[derive(Debug)]
pub struct ParamEntry {
    pub flags: EntryFlags,
    pub type_: TypeClass,
    pub group_set: Vec<i32>,
    pub spaceid: Option<AddrSpace>,
    pub addressbase: u64,
    pub size: i32,
    pub minsize: i32,
    pub alignment: i32,
    pub numslots: i32,
    pub joinrec: Option<JoinRecord>,
}

/// A parameter entry in the abstract.
#[verifier::ext_equal]
pub struct EntryView {
    pub flags: EntryFlags,
    pub type_: TypeClass,
    pub group_set: Seq<i32>,
    pub spaceid: Option<AddrSpace>,
    pub addressbase: u64,
    pub size: i32,
    pub minsize: i32,
    pub alignment: i32,
    pub numslots: i32,
    pub joinrec: Option<JoinView>,
}

impl View for ParamEntry {
    type V = EntryView;

    open spec fn view(&self) -> EntryView {
        EntryView {
            flags: self.flags,
            type_: self.type_,
            group_set: self.group_set@,
            spaceid: self.spaceid,
            addressbase: self.addressbase,
            size: self.size,
            minsize: self.minsize,
            alignment: self.alignment,
            numslots: self.numslots,
            joinrec: match self.joinrec {
                Some(j) => Some(JoinView { pieces: j.pieces@, unified: j.unified }),
                None => None,
            },
        }
    }
}

/// The abstract form of a list of entries.
pub open spec fn entries_view(s: Seq<ParamEntry>) -> Seq<EntryView> {
    s.map_values(|e: ParamEntry| e@)
}

/// Do the `sz` bytes from the offset `a` on and the `size` bytes from `b` on
/// have one in common: one of them starts inside the other. A range without
/// bytes counts by where it starts.
pub open spec fn share_byte(a: u64, sz: int, b: u64, size: int) -> bool {
    num::wadd(a, -(b as int)) < size || num::wadd(b, -(a as int)) < sz
}

pub(crate) fn shares_byte(a: u64, sz: i32, b: u64, size: u64) -> (r: bool)
    ensures
        r == share_byte(a, sz as int, b, size as int),
{
    a.wrapping_sub(b) < size || (sz > 0 && b.wrapping_sub(a) < sz as u64)
}

/// Does the `sz`-byte range at `addr` share a byte with the piece `p`.
pub open spec fn piece_meets(p: VarnodeData, addr: Address, sz: int) -> bool {
    p.space == addr.space && share_byte(addr.offset, sz, p.offset, p.size as int)
}

/// Justified position of the range in the pieces `0..n` of a join, the least
/// significant piece last, `below` bytes being less significant than those.
pub open spec fn join_justified(
    pieces: Seq<VarnodeData>,
    n: int,
    addr: Address,
    sz: int,
) -> int
    decreases n,
{
    if n <= 0 || n > pieces.len() {
        -1
    } else {
        let p = pieces[n - 1];
        let cur = p.addr().justified_offset(p.size as int, addr, sz, false);
        if cur < 0 {
            join_justified(pieces, n - 1, addr, sz)
        } else {
            ((space::pieces_size(pieces, n) + cur) as i32) as int
        }
    }
}

/// The last of the pieces `0..n` that holds both ends of the range.
pub open spec fn join_container(
    pieces: Seq<VarnodeData>,
    n: int,
    addr: Address,
    end: Address,
) -> Option<VarnodeData>
    decreases n,
{
    if n <= 0 || n > pieces.len() {
        None
    } else {
        let p = pieces[n - 1];
        if addr.overlap_at(0, p.addr(), p.size as int) >= 0 && end.overlap_at(
            0,
            p.addr(),
            p.size as int,
        ) >= 0 {
            Some(p)
        } else {
            join_container(pieces, n - 1, addr, end)
        }
    }
}

impl EntryView {
    /// An entry in use: it has a space, a positive size and a non-empty,
    /// ascending group set; slots divide its size.
    pub open spec fn wf(self) -> bool {
        &&& self.spaceid is Some
        &&& self.size > 0
        &&& self.alignment >= 0
        &&& self.group_set.len() > 0
        &&& sort::ascending(self.group_set)
        &&& self.alignment > 0 ==> self.numslots == self.size as int / self.alignment as int
        &&& self.joinrec matches Some(j) ==> space::pieces_ok(j.pieces)
    }

    /// Start of the range.
    pub open spec fn base(self) -> Address {
        Address { space: self.spaceid, offset: self.addressbase }
    }

    /// The whole range.
    pub open spec fn whole(self) -> VarnodeData {
        VarnodeData { space: self.spaceid, offset: self.addressbase, size: self.size as u32 }
    }

    /// The lowest group of the entry.
    pub open spec fn group(self) -> int {
        self.group_set[0] as int
    }

    pub open spec fn exclusion(self) -> bool {
        self.alignment == 0
    }

    /// Values sit at the low end of their container.
    pub open spec fn left_justified(self) -> bool {
        self.flags.force_left_justify || !self.base().big_endian()
    }

    /// Some group belongs to both entries.
    pub open spec fn shares_group(self, op2: EntryView) -> bool {
        exists|i: int, j: int|
            0 <= i < self.group_set.len() && 0 <= j < op2.group_set.len()
                && #[trigger] self.group_set[i] == #[trigger] op2.group_set[j]
    }

    /// Everything `op2` can pass, this entry can pass.
    pub open spec fn subsumes(self, op2: EntryView) -> bool {
        &&& self.type_ == TypeClass::General || op2.type_ == self.type_
        &&& op2.base().inside(op2.size as int, self.base(), self.size as int)
        &&& self.alignment == op2.alignment
    }

    /// The whole entry lies in the `sz` bytes at `addr`. An entry joined from
    /// pieces never does.
    pub open spec fn within(self, addr: Address, sz: int) -> bool {
        self.joinrec is None && self.base().inside(self.size as int, addr, sz)
    }

    /// The entry, or a piece of it, shares a byte with the `sz` bytes at
    /// `addr`.
    pub open spec fn meets(self, addr: Address, sz: int) -> bool {
        (self.joinrec matches Some(j) && exists|i: int|
            0 <= i < j.pieces.len() && piece_meets(#[trigger] j.pieces[i], addr, sz)) || (
        self.spaceid == addr.space && share_byte(
            addr.offset,
            sz,
            self.addressbase,
            self.size as int,
        ))
    }

    /// Distance of the `sz` bytes at `addr` from the least significant end of
    /// the entry (of their slots, for an aligned entry); -1 when the entry
    /// does not contain them.
    pub open spec fn justified(self, addr: Address, sz: int) -> int {
        match self.joinrec {
            Some(j) => join_justified(j.pieces, j.pieces.len() as int, addr, sz),
            None => if self.alignment == 0 {
                self.base().justified_offset(
                    self.size as int,
                    addr,
                    sz,
                    self.flags.force_left_justify,
                )
            } else if self.spaceid != addr.space || addr.offset < self.addressbase {
                -1
            } else if num::last_byte(addr.offset, sz) < addr.offset || num::last_byte(
                addr.offset,
                sz,
            ) > num::last_byte(self.addressbase, self.size as int) {
                -1
            } else if self.left_justified() {
                (addr.offset - self.addressbase) % self.alignment as int
            } else {
                let over = (num::last_byte(addr.offset, sz) - self.addressbase + 1)
                    % self.alignment as int;
                if over == 0 {
                    0
                } else {
                    self.alignment - over
                }
            },
        }
    }

    /// The smallest part of the entry, in whole slots, around the `sz` bytes
    /// at `addr`.
    pub open spec fn container(self, addr: Address, sz: int) -> Option<VarnodeData> {
        let end = addr.plus(sz - 1);
        match self.joinrec {
            Some(j) => join_container(j.pieces, j.pieces.len() as int, addr, end),
            None => if addr.overlap_at(0, self.base(), self.size as int) < 0 || end.overlap_at(
                0,
                self.base(),
                self.size as int,
            ) < 0 {
                None
            } else if self.alignment == 0 {
                Some(self.whole())
            } else {
                let start = self.slot_start(addr);
                let bytes = (num::wadd(end.offset, -(start as int)) as i32) + 1;
                let over = num::tmod(bytes, self.alignment as int);
                Some(
                    VarnodeData {
                        space: self.spaceid,
                        offset: start,
                        size: (if over != 0 {
                            bytes + self.alignment - over
                        } else {
                            bytes
                        }) as u32,
                    },
                )
            },
        }
    }

    /// Offset of the slot that `addr` lies in.
    pub open spec fn slot_start(self, addr: Address) -> u64 {
        num::wadd(
            addr.offset,
            -((num::wadd(addr.offset, -(self.addressbase as int)) as int) % self.alignment as int),
        )
    }

    /// The entry (or a piece of it) contains the whole of `op2`.
    pub open spec fn holds(self, op2: EntryView) -> bool {
        match self.joinrec {
            None => op2.within(self.base(), self.size as int),
            Some(j) => exists|i: int|
                0 <= i < j.pieces.len() && op2.within(
                    (#[trigger] j.pieces[i]).addr(),
                    j.pieces[i].size as int,
                ),
        }
    }

    /// Is the `sz`-byte value at `addr` extended into a larger container.
    pub open spec fn extends(self, addr: Address, sz: int) -> bool {
        &&& self.flags.smallsize_zext || self.flags.smallsize_sext || self.flags.smallsize_inttype
        &&& sz < (if self.alignment != 0 {
            self.alignment
        } else {
            self.size
        })
        &&& self.joinrec is None
        &&& self.justified(addr, sz) == 0
    }

    /// The operation that extends such a value (a copy when none does).
    pub open spec fn extension_op(self, addr: Address, sz: int) -> OpCode {
        if !self.extends(addr, sz) {
            OpCode::Copy
        } else if self.flags.smallsize_zext {
            OpCode::IntZext
        } else if self.flags.smallsize_inttype {
            OpCode::Piece
        } else {
            OpCode::IntSext
        }
    }

    /// The container that such a value is extended into.
    pub open spec fn extension_container(self, addr: Address) -> VarnodeData {
        if self.alignment == 0 {
            self.whole()
        } else {
            VarnodeData {
                space: self.spaceid,
                offset: self.slot_start(addr),
                size: self.alignment as u32,
            }
        }
    }

    /// Group number of the slot that holds the byte `skip` past `addr`.
    pub open spec fn slot_at(self, addr: Address, skip: int) -> int {
        if self.alignment != 0 {
            let diff = num::wadd(num::wadd(addr.offset, skip), -(self.addressbase as int));
            let baseslot = num::tdiv((diff as i32) as int, self.alignment as int);
            if self.flags.reverse_stack {
                self.group() + (self.numslots - 1) - baseslot
            } else {
                self.group() + baseslot
            }
        } else if skip != 0 {
            self.group_set.last() as int
        } else {
            self.group()
        }
    }

    /// The slot number from `slot` on that satisfies `type_align`.
    pub open spec fn aligned_slot(self, slot: i32, type_align: int) -> i32 {
        if type_align > self.alignment {
            let tmp = num::tmod(slot * self.alignment, type_align);
            if tmp != 0 {
                (slot + num::tdiv(type_align - tmp, self.alignment as int)) as i32
            } else {
                slot
            }
        } else {
            slot
        }
    }

    /// How many slots a value of `sz` bytes takes.
    pub open spec fn slots_for(self, sz: int) -> int {
        num::tdiv(sz, self.alignment as int) + (if num::tmod(sz, self.alignment as int) != 0 {
            1int
        } else {
            0int
        })
    }

    /// Can a value of `sz` bytes be allocated from `slot` on.
    pub open spec fn has_room(self, slot: i32, sz: int, type_align: int) -> bool {
        sz >= self.minsize && (if self.alignment == 0 {
            slot == 0 && sz <= self.size
        } else {
            self.aligned_slot(slot, type_align) + self.slots_for(sz) <= self.numslots
        })
    }

    /// Is a value of `sz` bytes stored under a floating-point extension.
    pub open spec fn float_extends(self, sz: int) -> bool {
        self.alignment == 0 && self.flags.smallsize_floatext && sz != self.size
    }

    /// First byte of the slots taken by a value allocated from `slot` on.
    pub open spec fn slots_base(self, slot: i32, sz: int, type_align: int) -> Address {
        if self.alignment == 0 {
            self.base()
        } else {
            let first = self.aligned_slot(slot, type_align);
            let index = if self.flags.reverse_stack {
                self.numslots - first - self.slots_for(sz)
            } else {
                first as int
            };
            Address {
                space: self.spaceid,
                offset: (self.addressbase + index * self.alignment) as u64,
            }
        }
    }

    /// Bytes of the slots taken by a value of `sz` bytes.
    pub open spec fn space_for(self, sz: int) -> int {
        if self.alignment == 0 {
            self.size as int
        } else {
            self.slots_for(sz) * self.alignment
        }
    }

    /// The address allocated for a value of `sz` bytes from `slot` on, stored
    /// as it is; invalid when there is no room for it.
    pub open spec fn plain_addr(
        self,
        slot: i32,
        sz: int,
        type_align: int,
        justify_right: bool,
    ) -> Address {
        if !self.has_room(slot, sz, type_align) {
            Address::invalid()
        } else if justify_right {
            self.slots_base(slot, sz, type_align).plus(self.space_for(sz) - sz)
        } else {
            self.slots_base(slot, sz, type_align)
        }
    }

    /// The address allocated for a value of `sz` bytes from `slot` on; invalid
    /// when there is no room for it.
    pub open spec fn slot_addr(
        self,
        slot: i32,
        sz: int,
        type_align: int,
        justify_right: bool,
        t: JoinTable,
    ) -> Result<Address, FspecError> {
        if self.has_room(slot, sz, type_align) && self.float_extends(sz) {
            t.float_extension(self.base(), self.size as u32, sz as u32)
        } else {
            Ok(self.plain_addr(slot, sz, type_align, justify_right))
        }
    }

    /// The next slot number after that allocation.
    pub open spec fn next_slot(self, slot: i32, sz: int, type_align: int) -> i32 {
        if sz < self.minsize || self.alignment == 0 {
            slot
        } else if !self.has_room(slot, sz, type_align) {
            self.aligned_slot(slot, type_align)
        } else {
            (self.aligned_slot(slot, type_align) + self.slots_for(sz)) as i32
        }
    }

    /// The join table after that allocation.
    pub open spec fn next_table(
        self,
        slot: i32,
        sz: int,
        type_align: int,
        t: JoinTable,
    ) -> JoinTable {
        if self.has_room(slot, sz, type_align) && self.float_extends(sz) {
            t.after_float_extension(self.base(), self.size as u32, sz as u32)
        } else {
            t
        }
    }
}

proof fn lemma_product_bound(a: int, b: int)
    requires
        -0x8000_0000 <= a <= 0x8000_0000,
        -0x8000_0000 <= b <= 0x8000_0000,
    ensures
        -0x4000_0000_0000_0000 <= a * b <= 0x4000_0000_0000_0000,
{
    assert(-0x4000_0000_0000_0000 <= a * b <= 0x4000_0000_0000_0000) by (nonlinear_arith)
        requires
            -0x8000_0000 <= a <= 0x8000_0000,
            -0x8000_0000 <= b <= 0x8000_0000,
    ;
}

proof fn lemma_wide_product(a: int, b: int)
    requires
        -0x2_0000_0000 <= a <= 0x2_0000_0000,
        0 <= b < 0x8000_0000,
    ensures
        -0x1_0000_0000_0000_0000 <= a * b <= 0x1_0000_0000_0000_0000,
{
    assert(-0x1_0000_0000_0000_0000 <= a * b <= 0x1_0000_0000_0000_0000) by (nonlinear_arith)
        requires
            -0x2_0000_0000 <= a <= 0x2_0000_0000,
            0 <= b < 0x8000_0000,
    ;
}

pub(crate) proof fn lemma_tdiv_bound(a: int, b: int)
    requires
        b > 0,
    ensures
        a >= 0 ==> 0 <= num::tdiv(a, b) <= a,
        a < 0 ==> a <= num::tdiv(a, b) <= 0,
        a >= 0 ==> 0 <= num::tmod(a, b) < b,
        a < 0 ==> -b < num::tmod(a, b) <= 0,
{
    if a >= 0 {
        vstd::arithmetic::div_mod::lemma_div_pos_is_pos(a, b);
        vstd::arithmetic::div_mod::lemma_div_is_ordered_by_denominator(a, 1, b);
    } else {
        vstd::arithmetic::div_mod::lemma_div_pos_is_pos(-a, b);
        vstd::arithmetic::div_mod::lemma_div_is_ordered_by_denominator(-a, 1, b);
    }
}

impl ParamEntry {
    /// An empty entry of one group, before its range is known.
    pub fn new(grp: i32) -> (r: ParamEntry)
        ensures
            r@.group_set == seq![grp],
            r.spaceid is None,
            r.joinrec is None,
            r.type_ == TypeClass::General,
            r.flags == EntryFlags::of_bits(0),
            r.addressbase == 0,
            r.size == -1,
            r.minsize == -1,
            r.alignment == 0,
            r.numslots == 1,
    {
        let mut group_set: Vec<i32> = Vec::new();
        group_set.push(grp);
        assert(group_set@ =~= seq![grp]);
        ParamEntry {
            flags: EntryFlags::from_bits(0),
            type_: TypeClass::General,
            group_set,
            spaceid: None,
            addressbase: 0,
            size: -1,
            minsize: -1,
            alignment: 0,
            numslots: 1,
            joinrec: None,
        }
    }

    /// An equal entry.
    pub fn copy(&self) -> (r: ParamEntry)
        ensures
            r@ == self@,
    {
        let joinrec = match &self.joinrec {
            Some(j) => Some(j.copy()),
            None => None,
        };
        ParamEntry {
            flags: self.flags,
            type_: self.type_,
            group_set: copy_groups(&self.group_set),
            spaceid: self.spaceid,
            addressbase: self.addressbase,
            size: self.size,
            minsize: self.minsize,
            alignment: self.alignment,
            numslots: self.numslots,
            joinrec,
        }
    }

    pub fn get_group(&self) -> (r: i32)
        requires
            self@.group_set.len() > 0,
        ensures
            r == self@.group(),
    {
        self.group_set[0]
    }

    pub fn get_all_groups(&self) -> (r: &Vec<i32>)
        ensures
            r@ == self@.group_set,
    {
        &self.group_set
    }

    /// Entries are not restored from a document.
    pub fn decode(
        &mut self,
        _normalstack: bool,
        _grouped: bool,
        _prev_list: &[ParamEntry],
    ) -> (r: Result<(), FspecError>)
        ensures
            r == Err::<(), FspecError>(FspecError::Unsupported),
            *final(self) == *old(self),
    {
        Err(FspecError::Unsupported)
    }

    pub fn get_size(&self) -> (r: i32)
        ensures
            r == self.size,
    {
        self.size
    }

    pub fn get_min_size(&self) -> (r: i32)
        ensures
            r == self.minsize,
    {
        self.minsize
    }

    pub fn get_align(&self) -> (r: i32)
        ensures
            r == self.alignment,
    {
        self.alignment
    }

    pub fn get_join_record(&self) -> (r: Option<&JoinRecord>)
        ensures
            match r {
                Some(j) => self.joinrec == Some(*j),
                None => self.joinrec is None,
            },
    {
        match &self.joinrec {
            Some(j) => Some(j),
            None => None,
        }
    }

    pub fn get_type(&self) -> (r: TypeClass)
        ensures
            r == self.type_,
    {
        self.type_
    }

    pub fn is_exclusion(&self) -> (r: bool)
        ensures
            r == self@.exclusion(),
    {
        self.alignment == 0
    }

    pub fn is_reverse_stack(&self) -> (r: bool)
        ensures
            r == self.flags.reverse_stack,
    {
        self.flags.reverse_stack
    }

    pub fn is_grouped(&self) -> (r: bool)
        ensures
            r == self.flags.is_grouped,
    {
        self.flags.is_grouped
    }

    pub fn is_overlap(&self) -> (r: bool)
        ensures
            r == self.flags.overlapping,
    {
        self.flags.overlapping
    }

    pub fn is_first_in_class(&self) -> (r: bool)
        ensures
            r == self.flags.first_storage,
    {
        self.flags.first_storage
    }

    pub fn get_space(&self) -> (r: AddrSpace)
        requires
            self.spaceid is Some,
        ensures
            Some(r) == self.spaceid,
    {
        self.spaceid.unwrap()
    }

    pub fn get_base(&self) -> (r: u64)
        ensures
            r == self.addressbase,
    {
        self.addressbase
    }

    pub fn is_param_check_high(&self) -> (r: bool)
        ensures
            r == self.flags.extracheck_high,
    {
        self.flags.extracheck_high
    }

    pub fn is_param_check_low(&self) -> (r: bool)
        ensures
            r == self.flags.extracheck_low,
    {
        self.flags.extracheck_low
    }

    fn is_left_justified(&self) -> (r: bool)
        ensures
            r == self@.left_justified(),
    {
        self.flags.force_left_justify || !self.base_address().is_big_endian()
    }

    fn base_address(&self) -> (r: Address)
        ensures
            r == self@.base(),
    {
        Address { space: self.spaceid, offset: self.addressbase }
    }

    /// Do the two entries occupy a common group.
    pub fn group_overlap(&self, op2: &ParamEntry) -> (r: bool)
        requires
            self@.group_set.len() > 0,
            op2@.group_set.len() > 0,
            sort::ascending(self@.group_set),
            sort::ascending(op2@.group_set),
        ensures
            r == self@.shares_group(op2@),
    {
        let ghost a = self@.group_set;
        let ghost b = op2@.group_set;
        let mut i: usize = 0;
        let mut j: usize = 0;
        let mut val_this: i32 = self.group_set[i];
        let mut val_other: i32 = op2.group_set[j];
        while val_this != val_other
            invariant
                i < self.group_set.len(),
                j < op2.group_set.len(),
                a == self.group_set@,
                b == op2.group_set@,
                a == self@.group_set,
                b == op2@.group_set,
                val_this == a[i as int],
                val_other == b[j as int],
                sort::ascending(a),
                sort::ascending(b),
                forall|p: int, q: int|
                    0 <= p < i && 0 <= q < b.len() ==> #[trigger] a[p] != #[trigger] b[q],
                forall|p: int, q: int|
                    0 <= p < a.len() && 0 <= q < j ==> #[trigger] a[p] != #[trigger] b[q],
            decreases a.len() - i + b.len() - j,
        {
            if val_this < val_other {
                assert(forall|q: int| j <= q < b.len() ==> a[i as int] < b[q]);
                i += 1;
                if i >= self.group_set.len() {
                    return false;
                }
                val_this = self.group_set[i];
            } else {
                assert(forall|p: int| i <= p < a.len() ==> a[p] > b[j as int]);
                j += 1;
                if j >= op2.group_set.len() {
                    return false;
                }
                val_other = op2.group_set[j];
            }
        }
        assert(a[i as int] == b[j as int]);
        true
    }

    /// Does this entry subsume the definition of `op2`.
    pub fn subsumes_definition(&self, op2: &ParamEntry) -> (r: bool)
        ensures
            r == self@.subsumes(op2@),
    {
        if self.type_ != TypeClass::General && op2.type_ != self.type_ {
            return false;
        }
        if !op2.base_address().contained_by(op2.size, &self.base_address(), self.size) {
            return false;
        }
        self.alignment == op2.alignment
    }

    /// Does the whole entry lie in the `sz` bytes at `addr`. An entry joined
    /// from pieces never does.
    pub fn contained_by(&self, addr: &Address, sz: i32) -> (r: bool)
        ensures
            r == self@.within(*addr, sz as int),
    {
        self.joinrec.is_none() && self.base_address().contained_by(self.size, addr, sz)
    }

    /// Does the entry, or a piece of it, share a byte with the `sz` bytes at
    /// `addr`.
    pub fn intersects(&self, addr: &Address, sz: i32) -> (r: bool)
        ensures
            r == self@.meets(*addr, sz as int),
    {
        if let Some(jr) = &self.joinrec {
            let mut i: usize = 0;
            while i < jr.pieces.len()
                invariant
                    i <= jr.pieces.len(),
                    forall|k: int|
                        0 <= k < i ==> !piece_meets(#[trigger] jr.pieces@[k], *addr, sz as int),
                    self@.joinrec matches Some(j) && j.pieces == jr.pieces@,
                decreases jr.pieces.len() - i,
            {
                let v = jr.pieces[i];
                if space::same_space(&v.space, &addr.space) && shares_byte(
                    addr.offset,
                    sz,
                    v.offset,
                    v.size as u64,
                ) {
                    assert(piece_meets(jr.pieces@[i as int], *addr, sz as int));
                    return true;
                }
                i += 1;
            }
        }
        if !space::same_space(&self.spaceid, &addr.space) {
            return false;
        }
        let size: u64 = if self.size > 0 {
            self.size as u64
        } else {
            0
        };
        shares_byte(addr.offset, sz, self.addressbase, size)
    }

    /// Endian-aware containment of the `sz` bytes at `addr`: their distance
    /// from the least significant byte, or -1.
    pub fn justified_contain(&self, addr: &Address, sz: i32) -> (r: i32)
        requires
            self@.wf(),
        ensures
            r == self@.justified(*addr, sz as int),
    {
        if let Some(jr) = &self.joinrec {
            let mut below: i32 = 0;
            let mut i: usize = jr.pieces.len();
            while i > 0
                invariant
                    i <= jr.pieces.len(),
                    jr.wf(),
                    below == space::pieces_size(jr.pieces@, i as int),
                    join_justified(jr.pieces@, jr.pieces@.len() as int, *addr, sz as int)
                        == join_justified(jr.pieces@, i as int, *addr, sz as int),
                    self@.joinrec matches Some(j) && j.pieces == jr.pieces@,
                decreases i,
            {
                proof {
                    space::lemma_pieces_size_step(jr.pieces@, i - 1);
                }
                let v = jr.pieces[i - 1];
                let cur: i32 = v.get_addr().justified_contain(v.size as i32, addr, sz, false);
                if cur >= 0 {
                    return (below as i64 + cur as i64) as i32;
                }
                below += v.size as i32;
                i -= 1;
            }
            return -1;
        }
        if self.alignment == 0 {
            return self.base_address().justified_contain(
                self.size,
                addr,
                sz,
                self.flags.force_left_justify,
            );
        }
        if !space::same_space(&self.spaceid, &addr.space) {
            return -1;
        }
        if addr.offset < self.addressbase {
            return -1;
        }
        let endaddr: u64 = num::last_byte_of(addr.offset, sz);
        if endaddr < addr.offset {
            return -1;
        }
        if endaddr > num::last_byte_of(self.addressbase, self.size) {
            return -1;
        }
        let start: u64 = addr.offset - self.addressbase;
        let end: u64 = endaddr - self.addressbase;
        if !self.is_left_justified() {
            let res: u64 = (end + 1) % (self.alignment as u64);
            if res == 0 {
                return 0;
            }
            return self.alignment - res as i32;
        }
        (start % (self.alignment as u64)) as i32
    }

    /// Pass back in `res` the part of the entry around the `sz` bytes at
    /// `addr`; false, leaving `res`, if they are not contained.
    pub fn get_container(&self, addr: &Address, sz: i32, res: &mut VarnodeData) -> (r: bool)
        requires
            self@.wf(),
        ensures
            r == (self@.container(*addr, sz as int) is Some),
            *final(res) == (match self@.container(*addr, sz as int) {
                Some(v) => v,
                None => *old(res),
            }),
    {
        let endaddr = addr.advance(sz as i64 - 1);
        if let Some(jr) = &self.joinrec {
            let mut i: usize = jr.pieces.len();
            while i > 0
                invariant
                    i <= jr.pieces.len(),
                    jr.wf(),
                    *res == *old(res),
                    endaddr == addr.plus(sz - 1),
                    self@.joinrec matches Some(j) && j.pieces == jr.pieces@,
                    join_container(jr.pieces@, jr.pieces@.len() as int, *addr, endaddr)
                        == join_container(jr.pieces@, i as int, *addr, endaddr),
                decreases i,
            {
                proof {
                    space::lemma_pieces_size_step(jr.pieces@, i - 1);
                }
                let v = jr.pieces[i - 1];
                if addr.overlap(0, &v.get_addr(), v.size as i32) >= 0 && endaddr.overlap(
                    0,
                    &v.get_addr(),
                    v.size as i32,
                ) >= 0 {
                    *res = v;
                    return true;
                }
                i -= 1;
            }
            return false;
        }
        let entry = self.base_address();
        if addr.overlap(0, &entry, self.size) < 0 {
            return false;
        }
        if endaddr.overlap(0, &entry, self.size) < 0 {
            return false;
        }
        if self.alignment == 0 {
            *res = VarnodeData {
                space: self.spaceid,
                offset: self.addressbase,
                size: self.size as u32,
            };
            return true;
        }
        let start: u64 = self.start_of_slot(addr);
        let bytes: i64 = (endaddr.offset.wrapping_sub(start) as i32) as i64 + 1;
        let over: i64 = num::trunc_mod(bytes, self.alignment as i64);
        let size: i64 = if over != 0 {
            bytes + self.alignment as i64 - over
        } else {
            bytes
        };
        *res = VarnodeData { space: self.spaceid, offset: start, size: size as u32 };
        true
    }

    fn start_of_slot(&self, addr: &Address) -> (r: u64)
        requires
            self.alignment > 0,
        ensures
            r == self@.slot_start(*addr),
    {
        let al: u64 = addr.offset.wrapping_sub(self.addressbase) % (self.alignment as u64);
        addr.offset.wrapping_sub(al)
    }

    /// Does this entry contain the memory of `op2`.
    pub fn contains(&self, op2: &ParamEntry) -> (r: bool)
        requires
            self.joinrec matches Some(j) ==> j.wf(),
        ensures
            r == self@.holds(op2@),
    {
        if op2.joinrec.is_some() {
            return false;
        }
        match &self.joinrec {
            None => op2.contained_by(&self.base_address(), self.size),
            Some(jr) => {
                let mut i: usize = 0;
                while i < jr.pieces.len()
                    invariant
                        i <= jr.pieces.len(),
                        jr.wf(),
                        op2.joinrec is None,
                        self@.joinrec matches Some(j) && j.pieces == jr.pieces@,
                        forall|k: int|
                            0 <= k < i ==> !op2@.within(
                                (#[trigger] jr.pieces@[k]).addr(),
                                jr.pieces@[k].size as int,
                            ),
                    decreases jr.pieces.len() - i,
                {
                    proof {
                        space::lemma_pieces_size_step(jr.pieces@, i as int);
                    }
                    let v = jr.pieces[i];
                    if op2.contained_by(&v.get_addr(), v.size as i32) {
                        assert(op2@.within(
                            jr.pieces@[i as int].addr(),
                            jr.pieces@[i as int].size as int,
                        ));
                        return true;
                    }
                    i += 1;
                }
                false
            },
        }
    }

    /// The extension to expect for the `sz`-byte value at `addr`; where there
    /// is one, the extended container is passed back in `res`.
    pub fn assumed_extension(&self, addr: &Address, sz: i32, res: &mut VarnodeData) -> (r: OpCode)
        requires
            self@.wf(),
        ensures
            r == self@.extension_op(*addr, sz as int),
            *final(res) == (if self@.extends(*addr, sz as int) {
                self@.extension_container(*addr)
            } else {
                *old(res)
            }),
    {
        if !self.flags.smallsize_zext && !self.flags.smallsize_sext
            && !self.flags.smallsize_inttype {
            return OpCode::Copy;
        }
        if self.alignment != 0 {
            if sz >= self.alignment {
                return OpCode::Copy;
            }
        } else if sz >= self.size {
            return OpCode::Copy;
        }
        if self.joinrec.is_some() {
            return OpCode::Copy;
        }
        if self.justified_contain(addr, sz) != 0 {
            return OpCode::Copy;
        }
        if self.alignment == 0 {
            *res = VarnodeData {
                space: self.spaceid,
                offset: self.addressbase,
                size: self.size as u32,
            };
        } else {
            *res = VarnodeData {
                space: self.spaceid,
                offset: self.start_of_slot(addr),
                size: self.alignment as u32,
            };
        }
        if self.flags.smallsize_zext {
            return OpCode::IntZext;
        }
        if self.flags.smallsize_inttype {
            return OpCode::Piece;
        }
        OpCode::IntSext
    }

    /// The slot that holds the byte `skip` past `addr`, which is assumed to
    /// lie in the entry.
    pub fn get_slot(&self, addr: &Address, skip: i32) -> (r: i32)
        requires
            self@.wf(),
        ensures
            r == self@.slot_at(*addr, skip as int) as i32,
    {
        if self.alignment != 0 {
            let diff: u64 = num::wrapping_offset(addr.offset, skip as i64).wrapping_sub(
                self.addressbase,
            );
            let baseslot: i64 = num::trunc_div((diff as i32) as i64, self.alignment as i64);
            proof {
                lemma_tdiv_bound((diff as i32) as int, self.alignment as int);
            }
            if self.is_reverse_stack() {
                (self.group_set[0] as i64 + (self.numslots as i64 - 1) - baseslot) as i32
            } else {
                (self.group_set[0] as i64 + baseslot) as i32
            }
        } else if skip != 0 {
            self.group_set[self.group_set.len() - 1]
        } else {
            self.group_set[0]
        }
    }

    /// The address allocated for a value of `sz` bytes from slot `slotnum` on,
    /// justified as the entry is; `slotnum` moves past the slots taken.
    pub fn get_addr_by_slot(
        &self,
        slotnum: &mut i32,
        sz: i32,
        type_align: i32,
        manager: &mut AddrSpaceManager,
    ) -> (r: Result<Address, FspecError>)
        requires
            self@.wf(),
        ensures
            r == self@.slot_addr(
                *old(slotnum),
                sz as int,
                type_align as int,
                !self@.left_justified(),
                old(manager).table(),
            ),
            *final(slotnum) == self@.next_slot(*old(slotnum), sz as int, type_align as int),
            final(manager).table() == self@.next_table(
                *old(slotnum),
                sz as int,
                type_align as int,
                old(manager).table(),
            ),
            final(manager).default_data_space == old(manager).default_data_space,
            final(manager).stack_space == old(manager).stack_space,
            old(manager).wf() ==> final(manager).wf(),
    {
        let right = !self.is_left_justified();
        self.get_addr_by_slot_justify(slotnum, sz, type_align, right, manager)
    }

    /// As `get_addr_by_slot`, with the justification given.
    pub fn get_addr_by_slot_justify(
        &self,
        slotnum: &mut i32,
        sz: i32,
        type_align: i32,
        justify_right: bool,
        manager: &mut AddrSpaceManager,
    ) -> (r: Result<Address, FspecError>)
        requires
            self@.wf(),
        ensures
            r == self@.slot_addr(
                *old(slotnum),
                sz as int,
                type_align as int,
                justify_right,
                old(manager).table(),
            ),
            *final(slotnum) == self@.next_slot(*old(slotnum), sz as int, type_align as int),
            final(manager).table() == self@.next_table(
                *old(slotnum),
                sz as int,
                type_align as int,
                old(manager).table(),
            ),
            final(manager).default_data_space == old(manager).default_data_space,
            final(manager).stack_space == old(manager).stack_space,
            old(manager).wf() ==> final(manager).wf(),
    {
        if self.alignment == 0 && self.flags.smallsize_floatext && sz != self.size && sz
            >= self.minsize && *slotnum == 0 && sz <= self.size {
            return manager.construct_float_extension_address(
                &self.base_address(),
                self.size as u32,
                sz as u32,
            );
        }
        Ok(self.allocate(slotnum, sz, type_align, justify_right))
    }

    /// Allocate a value that is stored as it is, with the entry's own
    /// justification.
    pub fn plain_addr_by_slot(&self, slotnum: i32, sz: i32, type_align: i32) -> (r: Address)
        requires
            self@.wf(),
        ensures
            r == self@.plain_addr(slotnum, sz as int, type_align as int, !self@.left_justified()),
    {
        let mut slot: i32 = slotnum;
        let right = !self.is_left_justified();
        self.allocate(&mut slot, sz, type_align, right)
    }

    fn allocate(&self, slotnum: &mut i32, sz: i32, type_align: i32, justify_right: bool) -> (r:
        Address)
        requires
            self@.wf(),
        ensures
            r == self@.plain_addr(*old(slotnum), sz as int, type_align as int, justify_right),
            *final(slotnum) == self@.next_slot(*old(slotnum), sz as int, type_align as int),
    {
        if sz < self.minsize {
            return Address::new_invalid();
        }
        let res: Address;
        let spaceused: i64;
        if self.alignment == 0 {
            if *slotnum != 0 {
                return Address::new_invalid();
            }
            if sz > self.size {
                return Address::new_invalid();
            }
            res = self.base_address();
            spaceused = self.size as i64;
        } else {
            let al: i64 = self.alignment as i64;
            if type_align > self.alignment {
                proof {
                    lemma_product_bound(*slotnum as int, self.alignment as int);
                }
                let tmp: i64 = num::trunc_mod(*slotnum as i64 * al, type_align as i64);
                if tmp != 0 {
                    proof {
                        lemma_tdiv_bound(*slotnum * self.alignment, type_align as int);
                        lemma_tdiv_bound(type_align - tmp, al as int);
                    }
                    *slotnum = (*slotnum as i64 + num::trunc_div(type_align as i64 - tmp, al))
                        as i32;
                }
            }
            proof {
                lemma_tdiv_bound(sz as int, al as int);
            }
            let mut slotsused: i64 = num::trunc_div(sz as i64, al);
            if num::trunc_mod(sz as i64, al) != 0 {
                slotsused += 1;
            }
            assert(slotsused == self@.slots_for(sz as int));
            if *slotnum as i64 + slotsused > self.numslots as i64 {
                return Address::new_invalid();
            }
            proof {
                lemma_product_bound(slotsused as int, self.alignment as int);
            }
            spaceused = slotsused * al;
            let index: i64 = if self.is_reverse_stack() {
                self.numslots as i64 - *slotnum as i64 - slotsused
            } else {
                *slotnum as i64
            };
            proof {
                lemma_wide_product(index as int, self.alignment as int);
            }
            res = Address {
                space: self.spaceid,
                offset: (self.addressbase as i128 + index as i128 * al as i128) as u64,
            };
            *slotnum = (*slotnum as i64 + slotsused) as i32;
        }
        if justify_right {
            return res.advance(spaceused - sz as i64);
        }
        res
    }
}

/// An equal list of group numbers.
pub fn copy_groups(v: &Vec<i32>) -> (r: Vec<i32>)
    ensures
        r@ == v@,
{
    let mut out: Vec<i32> = Vec::new();
    let mut i: usize = 0;
    while i < v.len()
        invariant
            i <= v.len(),
            out@ == v@.subrange(0, i as int),
        decreases v.len() - i,
    {
        out.push(v[i]);
        i += 1;
    }
    assert(out@ == v@);
    out
}

} // verus!
