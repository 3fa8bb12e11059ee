//! Address spaces, addresses, sized storage locations and join records.
use crate::num;
use vstd::prelude::*;

verus! {

/// The kind of an address space.
#[derive(Debug, Clone, Copy, PartialEq, Eq, Structural)]
pub enum SpaceType {
    /// Constants, whose offset is their value.
    Constant,
    /// Ordinary memory or registers of the processor.
    Processor,
    /// Offsets relative to a base register, such as the stack.
    Spacebase,
    /// Temporaries of the analysis itself.
    Internal,
    /// References to call-site prototypes.
    Fspec,
    /// References to operations.
    Iop,
    /// Logical values split over several locations.
    Join,
}

/// An address space. Two values denote the same space when they are equal;
/// `index` is unique among the spaces of one processor.
#[derive(Debug, Clone, Copy, PartialEq, Eq, Structural)]
pub struct AddrSpace {
    pub type_: SpaceType,
    pub big_endian: bool,
    pub addr_size: u32,
    pub word_size: u32,
    pub index: i32,
    pub reverse_justified: bool,
    pub delay: i32,
    pub highest: u64,
}

impl AddrSpace {
    /// A space whose addresses hold `addr_size` bytes and count units of
    /// `word_size` bytes.
    pub fn new(
        type_: SpaceType,
        big_endian: bool,
        addr_size: u32,
        word_size: u32,
        index: i32,
        delay: i32,
    ) -> (r: AddrSpace)
        ensures
            r.type_ == type_,
            r.big_endian == big_endian,
            r.addr_size == addr_size,
            r.word_size == word_size,
            r.index == index,
            r.delay == delay,
            !r.reverse_justified,
            r.highest == highest_offset(addr_size, word_size),
    {
        AddrSpace {
            type_,
            big_endian,
            addr_size,
            word_size,
            index,
            reverse_justified: false,
            delay,
            highest: num::calc_mask(addr_size).wrapping_mul(word_size as u64).wrapping_add(
                (word_size as u64).wrapping_sub(1),
            ),
        }
    }

    /// The offset `off` brought back into the range of the space, which is a
    /// circle of `highest + 1` bytes.
    pub open spec fn wrapped(self, off: u64) -> u64 {
        if off <= self.highest {
            off
        } else {
            (((off as i64) as int) % (self.highest + 1)) as u64
        }
    }

    pub fn wrap_offset(&self, off: u64) -> (r: u64)
        ensures
            r == self.wrapped(off),
    {
        if off <= self.highest {
            return off;
        }
        let m: i128 = self.highest as i128 + 1;
        let s: i128 = (off as i64) as i128;
        if s >= 0 {
            (s % m) as u64
        } else {
            proof {
                num::lemma_mod_of_negative(s as int, m as int);
            }
            let t: i128 = (-s) % m;
            if t == 0 {
                0
            } else {
                (m - t) as u64
            }
        }
    }

    pub fn get_type(&self) -> (r: SpaceType)
        ensures
            r == self.type_,
    {
        self.type_
    }

    pub fn is_big_endian(&self) -> (r: bool)
        ensures
            r == self.big_endian,
    {
        self.big_endian
    }
}

/// The last byte offset of a space of `addr_size`-byte addresses that count
/// `word_size`-byte units.
pub open spec fn highest_offset(addr_size: u32, word_size: u32) -> u64 {
    vstd::wrapping::u64_specs::wrapping_add(
        vstd::wrapping::u64_specs::wrapping_mul(num::byte_mask(addr_size), word_size as u64),
        vstd::wrapping::u64_specs::wrapping_sub(word_size as u64, 1),
    )
}

/// A byte offset in a space; without a space the address is invalid.
#[derive(Debug, Clone, Copy, PartialEq, Eq, Structural)]
pub struct Address {
    pub space: Option<AddrSpace>,
    pub offset: u64,
}

/// Do two optional spaces denote the same space (or both none).
pub fn same_space(a: &Option<AddrSpace>, b: &Option<AddrSpace>) -> (r: bool)
    ensures
        r == (*a == *b),
{
    match (a, b) {
        (Some(x), Some(y)) => *x == *y,
        (None, None) => true,
        _ => false,
    }
}

/// The index of an optional space; no space comes before every space.
pub open spec fn space_index(s: Option<AddrSpace>) -> int {
    match s {
        Some(x) => x.index as int,
        None => i32::MIN - 1,
    }
}

pub fn space_index_of(s: &Option<AddrSpace>) -> (r: i64)
    ensures
        r == space_index(*s),
{
    match s {
        Some(x) => x.index as i64,
        None => i32::MIN as i64 - 1,
    }
}

impl Address {
    pub fn new(space: AddrSpace, offset: u64) -> (r: Address)
        ensures
            r == (Address { space: Some(space), offset }),
    {
        Address { space: Some(space), offset }
    }

    pub open spec fn invalid() -> Address {
        Address { space: None, offset: 0 }
    }

    pub fn new_invalid() -> (r: Address)
        ensures
            r == Address::invalid(),
    {
        Address { space: None, offset: 0 }
    }

    pub fn is_invalid(&self) -> (r: bool)
        ensures
            r == (self.space is None),
    {
        self.space.is_none()
    }

    pub fn get_offset(&self) -> (r: u64)
        ensures
            r == self.offset,
    {
        self.offset
    }

    pub fn get_space(&self) -> (r: Option<AddrSpace>)
        ensures
            r == self.space,
    {
        self.space
    }

    pub open spec fn big_endian(self) -> bool {
        self.space matches Some(s) && s.big_endian
    }

    pub fn is_big_endian(&self) -> (r: bool)
        ensures
            r == self.big_endian(),
    {
        match self.space {
            Some(s) => s.big_endian,
            None => false,
        }
    }

    /// Equality of addresses: the same space and the same offset.
    pub fn same(&self, other: &Address) -> (r: bool)
        ensures
            r == (*self == *other),
    {
        same_space(&self.space, &other.space) && self.offset == other.offset
    }

    /// The order of addresses: by space index, then by offset.
    pub open spec fn before(self, other: Address) -> bool {
        space_index(self.space) < space_index(other.space) || (space_index(self.space)
            == space_index(other.space) && self.offset < other.offset)
    }

    pub fn is_before(&self, other: &Address) -> (r: bool)
        ensures
            r == self.before(*other),
    {
        let a: i64 = space_index_of(&self.space);
        let b: i64 = space_index_of(&other.space);
        a < b || (a == b && self.offset < other.offset)
    }

    /// The address `n` bytes further on, around the circle of its space.
    pub open spec fn plus(self, n: int) -> Address {
        match self.space {
            Some(s) => Address { space: Some(s), offset: s.wrapped(num::wadd(self.offset, n)) },
            None => Address { space: None, offset: num::wadd(self.offset, n) },
        }
    }

    pub fn advance(&self, n: i64) -> (r: Address)
        ensures
            r == self.plus(n as int),
    {
        let raw: u64 = num::wrapping_offset(self.offset, n);
        match self.space {
            Some(s) => Address { space: Some(s), offset: s.wrap_offset(raw) },
            None => Address { space: None, offset: raw },
        }
    }

    /// Position of the byte `skip` past this address within the `size` bytes
    /// that start at `op`, or -1 when it lies outside of them.
    pub open spec fn overlap_at(self, skip: int, op: Address, size: int) -> int {
        match self.space {
            Some(s) => if self.space != op.space || s.type_ == SpaceType::Constant {
                -1
            } else {
                let dist = s.wrapped(num::wadd(num::wadd(self.offset, skip), -(op.offset as int)));
                if dist >= size {
                    -1
                } else {
                    dist as int
                }
            },
            None => -1,
        }
    }

    /// The `sz` bytes at this address and the `size` bytes at `op` have one in
    /// common: one of them starts inside the other. A range without bytes
    /// counts by where it starts.
    pub open spec fn overlaps(self, sz: int, op: Address, size: int) -> bool {
        self.overlap_at(0, op, size) >= 0 || op.overlap_at(0, self, sz) >= 0
    }

    pub fn overlap(&self, skip: i32, op: &Address, size: i32) -> (r: i32)
        ensures
            r == self.overlap_at(skip as int, *op, size as int),
    {
        match self.space {
            Some(s) => {
                if !same_space(&self.space, &op.space) || s.type_ == SpaceType::Constant {
                    return -1;
                }
                let at: u64 = num::wrapping_offset(self.offset, skip as i64);
                let dist: u64 = s.wrap_offset(at.wrapping_sub(op.offset));
                if size < 0 || dist >= size as u64 {
                    -1
                } else {
                    dist as i32
                }
            },
            None => -1,
        }
    }

    /// If the `sz2` bytes at `op2` lie within the `sz` bytes at this address:
    /// how far its least significant byte is from the container's least
    /// significant byte (from the first byte when `forceleft`). Otherwise -1.
    pub open spec fn justified_offset(
        self,
        sz: int,
        op2: Address,
        sz2: int,
        forceleft: bool,
    ) -> int {
        if self.space is None || self.space != op2.space {
            -1
        } else if op2.offset < self.offset {
            -1
        } else if num::last_byte(op2.offset, sz2) > num::last_byte(self.offset, sz) {
            -1
        } else if self.big_endian() && !forceleft {
            ((num::last_byte(self.offset, sz) - num::last_byte(op2.offset, sz2)) as i32) as int
        } else {
            ((op2.offset - self.offset) as i32) as int
        }
    }

    pub fn justified_contain(&self, sz: i32, op2: &Address, sz2: i32, forceleft: bool) -> (r: i32)
        ensures
            r == self.justified_offset(sz as int, *op2, sz2 as int, forceleft),
    {
        if self.space.is_none() || !same_space(&self.space, &op2.space) {
            return -1;
        }
        if op2.offset < self.offset {
            return -1;
        }
        let off1: u64 = num::last_byte_of(self.offset, sz);
        let off2: u64 = num::last_byte_of(op2.offset, sz2);
        if off2 > off1 {
            return -1;
        }
        if self.is_big_endian() && !forceleft {
            return (off1 - off2) as i32;
        }
        (op2.offset - self.offset) as i32
    }

    /// Do the `sz` bytes at this address lie within the `sz2` bytes at `op2`.
    pub open spec fn inside(self, sz: int, op2: Address, sz2: int) -> bool {
        self.space == op2.space && op2.offset <= self.offset && num::last_byte(self.offset, sz)
            <= num::last_byte(op2.offset, sz2)
    }

    pub fn contained_by(&self, sz: i32, op2: &Address, sz2: i32) -> (r: bool)
        ensures
            r == self.inside(sz as int, *op2, sz2 as int),
    {
        same_space(&self.space, &op2.space) && op2.offset <= self.offset && num::last_byte_of(
            self.offset,
            sz,
        ) <= num::last_byte_of(op2.offset, sz2)
    }

    /// Do the `sz` bytes here directly precede, in significance, the `losz`
    /// bytes at `lo`.
    pub open spec fn contiguous(self, sz: int, lo: Address, losz: int) -> bool {
        match self.space {
            Some(s) => self.space == lo.space && (if s.big_endian {
                s.wrapped(num::wadd(self.offset, sz)) == lo.offset
            } else {
                s.wrapped(num::wadd(lo.offset, losz)) == self.offset
            }),
            None => false,
        }
    }

    pub fn is_contiguous(&self, sz: i32, lo: &Address, losz: i32) -> (r: bool)
        ensures
            r == self.contiguous(sz as int, *lo, losz as int),
    {
        match self.space {
            Some(s) => {
                if !same_space(&self.space, &lo.space) {
                    false
                } else if s.big_endian {
                    s.wrap_offset(num::wrapping_offset(self.offset, sz as i64)) == lo.offset
                } else {
                    s.wrap_offset(num::wrapping_offset(lo.offset, losz as i64)) == self.offset
                }
            },
            None => false,
        }
    }
}

/// A storage location with a size.
#[derive(Debug, Clone, Copy, PartialEq, Eq, Structural)]
pub struct VarnodeData {
    pub space: Option<AddrSpace>,
    pub offset: u64,
    pub size: u32,
}

impl Default for VarnodeData {
    fn default() -> (r: VarnodeData)
        ensures
            r == (VarnodeData { space: None, offset: 0, size: 0 }),
    {
        VarnodeData { space: None, offset: 0, size: 0 }
    }
}

impl VarnodeData {
    pub open spec fn addr(self) -> Address {
        Address { space: self.space, offset: self.offset }
    }

    pub fn get_addr(&self) -> (r: Address)
        ensures
            r == self.addr(),
    {
        Address { space: self.space, offset: self.offset }
    }

    pub fn same(&self, other: &VarnodeData) -> (r: bool)
        ensures
            r == (*self == *other),
    {
        same_space(&self.space, &other.space) && self.offset == other.offset && self.size
            == other.size
    }

    /// The order of locations: by space index, by offset, then larger first.
    pub open spec fn before(self, other: VarnodeData) -> bool {
        if space_index(self.space) != space_index(other.space) {
            space_index(self.space) < space_index(other.space)
        } else if self.offset != other.offset {
            self.offset < other.offset
        } else {
            self.size > other.size
        }
    }

    pub fn is_before(&self, other: &VarnodeData) -> (r: bool)
        ensures
            r == self.before(*other),
    {
        let a: i64 = space_index_of(&self.space);
        let b: i64 = space_index_of(&other.space);
        if a != b {
            a < b
        } else if self.offset != other.offset {
            self.offset < other.offset
        } else {
            self.size > other.size
        }
    }
}

/// A logical value held in several locations, most significant piece first,
/// and the single location in the join space that stands for it.
#[derive(Debug)]
pub struct JoinRecord {
    pub pieces: Vec<VarnodeData>,
    pub unified: VarnodeData,
}

/// Total size of the pieces from index `from` on.
pub open spec fn pieces_size(pieces: Seq<VarnodeData>, from: int) -> int
    decreases pieces.len() - from,
{
    if from < 0 || from >= pieces.len() {
        0
    } else {
        pieces[from].size + pieces_size(pieces, from + 1)
    }
}

/// Every piece lies in a space and the whole is a positive 32-bit size.
pub open spec fn pieces_ok(pieces: Seq<VarnodeData>) -> bool {
    &&& pieces.len() > 0
    &&& forall|i: int|
        0 <= i < pieces.len() ==> (#[trigger] pieces[i]).space is Some && 0 < pieces[i].size
    &&& pieces_size(pieces, 0) <= i32::MAX
}

pub(crate) proof fn lemma_pieces_size_step(pieces: Seq<VarnodeData>, i: int)
    requires
        0 <= i < pieces.len(),
    ensures
        0 <= pieces_size(pieces, i + 1),
        pieces_size(pieces, i) == pieces[i].size + pieces_size(pieces, i + 1),
        pieces_size(pieces, i) <= pieces_size(pieces, 0),
    decreases pieces.len() + i,
{
    lemma_pieces_size_nonneg(pieces, i + 1);
    lemma_pieces_size_le(pieces, i);
}

pub(crate) proof fn lemma_pieces_size_nonneg(pieces: Seq<VarnodeData>, i: int)
    ensures
        0 <= pieces_size(pieces, i),
    decreases pieces.len() - i,
{
    if 0 <= i < pieces.len() {
        lemma_pieces_size_nonneg(pieces, i + 1);
    }
}

pub(crate) proof fn lemma_pieces_size_le(pieces: Seq<VarnodeData>, i: int)
    requires
        0 <= i <= pieces.len(),
    ensures
        pieces_size(pieces, i) <= pieces_size(pieces, 0),
    decreases i,
{
    if i > 0 {
        lemma_pieces_size_le(pieces, i - 1);
    }
}

impl JoinRecord {
    pub open spec fn wf(self) -> bool {
        pieces_ok(self.pieces@)
    }

    pub fn num_pieces(&self) -> (r: usize)
        ensures
            r == self.pieces@.len(),
    {
        self.pieces.len()
    }

    pub fn get_piece(&self, i: usize) -> (r: &VarnodeData)
        requires
            i < self.pieces@.len(),
        ensures
            *r == self.pieces@[i as int],
    {
        &self.pieces[i]
    }

    pub fn copy(&self) -> (r: JoinRecord)
        ensures
            r.pieces@ == self.pieces@,
            r.unified == self.unified,
    {
        JoinRecord { pieces: copy_locations(&self.pieces), unified: self.unified }
    }
}

pub fn copy_locations(v: &Vec<VarnodeData>) -> (r: Vec<VarnodeData>)
    ensures
        r@ == v@,
{
    let mut out: Vec<VarnodeData> = Vec::new();
    let mut i: usize = 0;
    while i < v.len()
        invariant
            i <= v.len(),
            out@ == v@.subrange(0, i as int),
        decreases v.len() - i,
    {
        out.push(v[i]);
        i += 1;
    }
    assert(out@ == v@);
    out
}

} // verus!
