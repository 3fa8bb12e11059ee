//! The table of join records, which gives every logical value that is split
//! over several locations an address of its own in the join space.
use crate::error::FspecError;
use crate::space;
use crate::space::{AddrSpace, Address, JoinRecord, VarnodeData};
use vstd::prelude::*;

verus! {

/// What a join record says: the pieces and the location that stands for them.
#[verifier::ext_equal]
pub struct JoinView {
    pub pieces: Seq<VarnodeData>,
    pub unified: VarnodeData,
}

/// The join table in the abstract.
#[verifier::ext_equal]
pub struct JoinTable {
    pub space: AddrSpace,
    pub next: u64,
    pub joins: Seq<JoinView>,
}

/// The spaces that the analysis reaches by role, and the join table.
#[derive(Debug)]
pub struct AddrSpaceManager {
    pub join_space: AddrSpace,
    pub join_next: u64,
    pub joins: Vec<JoinRecord>,
    pub default_data_space: Option<AddrSpace>,
    pub stack_space: Option<AddrSpace>,
}

impl JoinTable {
    /// Position of the first record at join-space offset `off`, or the length.
    pub open spec fn position(self, off: u64, from: int) -> int
        decreases self.joins.len() - from,
    {
        if from < 0 || from >= self.joins.len() {
            self.joins.len() as int
        } else if self.joins[from].unified.offset == off {
            from
        } else {
            self.position(off, from + 1)
        }
    }

    /// Position of the first record for `pieces` with the given total size, or
    /// the length.
    pub open spec fn position_of(self, pieces: Seq<VarnodeData>, total: u32, from: int) -> int
        decreases self.joins.len() - from,
    {
        if from < 0 || from >= self.joins.len() {
            self.joins.len() as int
        } else if self.joins[from].pieces == pieces && self.joins[from].unified.size == total {
            from
        } else {
            self.position_of(pieces, total, from + 1)
        }
    }

    /// The table after asking for a join of `pieces`: unchanged if there is a
    /// record, else with a new one in the next free 16-byte aligned place.
    pub open spec fn with_join(self, pieces: Seq<VarnodeData>, total: u32) -> JoinTable {
        if self.position_of(pieces, total, 0) < self.joins.len() {
            self
        } else {
            JoinTable {
                space: self.space,
                next: crate::num::wadd(self.next, round16(total)),
                joins: self.joins.push(
                    JoinView {
                        pieces,
                        unified: VarnodeData {
                            space: Some(self.space),
                            offset: self.next,
                            size: total,
                        },
                    },
                ),
            }
        }
    }

    /// The location that stands for a join of `pieces`.
    pub open spec fn unified(self, pieces: Seq<VarnodeData>, total: u32) -> VarnodeData {
        let t = self.with_join(pieces, total);
        t.joins[self.position_of(pieces, total, 0)].unified
    }

    /// What asking for a join of `pieces` gives.
    pub open spec fn find_add(self, pieces: Seq<VarnodeData>, logical: u32) -> Result<
        VarnodeData,
        FspecError,
    > {
        match join_error(pieces, logical) {
            Some(e) => Err(e),
            None => Ok(self.unified(pieces, join_total(pieces, logical))),
        }
    }

    pub open spec fn after_find_add(self, pieces: Seq<VarnodeData>, logical: u32) -> JoinTable {
        match join_error(pieces, logical) {
            Some(e) => self,
            None => self.with_join(pieces, join_total(pieces, logical)),
        }
    }

    /// The address that stands for a value of `logical` bytes extended, as a
    /// floating-point value, into the `realsize` bytes at `base`.
    pub open spec fn float_extension(self, base: Address, realsize: u32, logical: u32) -> Result<
        Address,
        FspecError,
    > {
        if logical == realsize {
            Ok(base)
        } else {
            match self.find_add(one_piece(base, realsize), logical) {
                Ok(v) => Ok(v.addr()),
                Err(e) => Err(e),
            }
        }
    }

    pub open spec fn after_float_extension(
        self,
        base: Address,
        realsize: u32,
        logical: u32,
    ) -> JoinTable {
        if logical == realsize {
            self
        } else {
            self.after_find_add(one_piece(base, realsize), logical)
        }
    }
}

pub open spec fn one_piece(base: Address, realsize: u32) -> Seq<VarnodeData> {
    seq![VarnodeData { space: base.space, offset: base.offset, size: realsize }]
}

/// `total` rounded up to a multiple of 16.
pub open spec fn round16(total: u32) -> int {
    (total + 15) / 16 * 16
}

/// Why a join of `pieces` with the given logical size (0 for none) is refused.
pub open spec fn join_error(pieces: Seq<VarnodeData>, logical: u32) -> Option<FspecError> {
    if pieces.len() == 0 {
        Some(FspecError::JoinWithoutPieces)
    } else if pieces.len() == 1 && logical == 0 {
        Some(FspecError::JoinSinglePiece)
    } else if pieces.len() != 1 && logical != 0 {
        Some(FspecError::JoinLogicalSize)
    } else if join_total(pieces, logical) == 0 {
        Some(FspecError::JoinZeroSize)
    } else {
        None
    }
}

pub open spec fn join_total(pieces: Seq<VarnodeData>, logical: u32) -> u32 {
    if logical != 0 {
        logical
    } else {
        space::pieces_size(pieces, 0) as u32
    }
}

/// Are two lists of locations equal.
pub fn same_locations(a: &Vec<VarnodeData>, b: &Vec<VarnodeData>) -> (r: bool)
    ensures
        r == (a@ == b@),
{
    if a.len() != b.len() {
        return false;
    }
    let mut i: usize = 0;
    while i < a.len()
        invariant
            i <= a.len(),
            a.len() == b.len(),
            forall|j: int| 0 <= j < i ==> a@[j] == b@[j],
        decreases a.len() - i,
    {
        if !a[i].same(&b[i]) {
            return false;
        }
        i += 1;
    }
    assert(a@ =~= b@);
    true
}

impl AddrSpaceManager {
    /// A manager with an empty join table and no spaces by role.
    pub fn new(join_space: AddrSpace) -> (r: AddrSpaceManager)
        ensures
            r.table() == (JoinTable { space: join_space, next: 0, joins: Seq::empty() }),
            r.default_data_space is None,
            r.stack_space is None,
    {
        let r = AddrSpaceManager {
            join_space,
            join_next: 0,
            joins: Vec::new(),
            default_data_space: None,
            stack_space: None,
        };
        assert(r.table().joins =~= Seq::empty());
        r
    }

    /// The join table.
    pub open spec fn table(self) -> JoinTable {
        JoinTable {
            space: self.join_space,
            next: self.join_next,
            joins: self.joins@.map_values(
                |j: JoinRecord| JoinView { pieces: j.pieces@, unified: j.unified },
            ),
        }
    }

    /// Every record can be taken apart.
    pub open spec fn wf(self) -> bool {
        forall|i: int| 0 <= i < self.joins@.len() ==> (#[trigger] self.joins@[i]).wf()
    }

    /// The position of the record whose join-space offset is `off`.
    pub fn find_join(&self, off: u64) -> (r: Result<usize, FspecError>)
        ensures
            match r {
                Ok(i) => i == self.table().position(off, 0) && i < self.joins@.len(),
                Err(e) => e == FspecError::UnlinkedJoin && self.table().position(off, 0)
                    == self.joins@.len(),
            },
    {
        let mut i: usize = 0;
        while i < self.joins.len()
            invariant
                i <= self.joins.len(),
                self.table().position(off, 0) == self.table().position(off, i as int),
            decreases self.joins.len() - i,
        {
            if self.joins[i].unified.offset == off {
                return Ok(i);
            }
            i += 1;
        }
        Err(FspecError::UnlinkedJoin)
    }

    /// The location that stands for a join of `pieces`, entered in the table
    /// if it is new. `logical` is 0, or the size of a value that is smaller
    /// than its single piece.
    pub fn find_add_join(&mut self, pieces: &Vec<VarnodeData>, logical: u32) -> (r: Result<
        VarnodeData,
        FspecError,
    >)
        requires
            space::pieces_size(pieces@, 0) <= i32::MAX,
        ensures
            r == old(self).table().find_add(pieces@, logical),
            final(self).table() == old(self).table().after_find_add(pieces@, logical),
            final(self).default_data_space == old(self).default_data_space,
            final(self).stack_space == old(self).stack_space,
            old(self).wf() && space::pieces_ok(pieces@) ==> final(self).wf(),
    {
        let ghost t = self.table();
        if pieces.len() == 0 {
            return Err(FspecError::JoinWithoutPieces);
        }
        if pieces.len() == 1 && logical == 0 {
            return Err(FspecError::JoinSinglePiece);
        }
        if pieces.len() != 1 && logical != 0 {
            return Err(FspecError::JoinLogicalSize);
        }
        let total: u32 = if logical != 0 {
            logical
        } else {
            let mut sum: u32 = 0;
            let mut k: usize = pieces.len();
            while k > 0
                invariant
                    k <= pieces.len(),
                    sum == space::pieces_size(pieces@, k as int),
                    space::pieces_size(pieces@, 0) <= i32::MAX,
                decreases k,
            {
                k -= 1;
                proof {
                    space::lemma_pieces_size_step(pieces@, k as int);
                }
                sum += pieces[k].size;
            }
            sum
        };
        if total == 0 {
            return Err(FspecError::JoinZeroSize);
        }
        let mut i: usize = 0;
        while i < self.joins.len()
            invariant
                i <= self.joins.len(),
                *self == *old(self),
                t == self.table(),
                total == join_total(pieces@, logical),
                join_error(pieces@, logical) is None,
                t.position_of(pieces@, total, 0) == t.position_of(pieces@, total, i as int),
            decreases self.joins.len() - i,
        {
            assert(t.joins[i as int] == (JoinView {
                pieces: self.joins@[i as int].pieces@,
                unified: self.joins@[i as int].unified,
            }));
            if self.joins[i].unified.size == total && same_locations(
                &self.joins[i].pieces,
                pieces,
            ) {
                return Ok(self.joins[i].unified);
            }
            i += 1;
        }
        let unified = VarnodeData {
            space: Some(self.join_space),
            offset: self.join_next,
            size: total,
        };
        let rec = JoinRecord { pieces: space::copy_locations(pieces), unified };
        self.joins.push(rec);
        let step: u64 = (total as u64 + 15) / 16 * 16;
        self.join_next = self.join_next.wrapping_add(step);
        assert(self.table().joins =~= t.with_join(pieces@, total).joins);
        Ok(unified)
    }

    /// The address for a floating-point value of `logical` bytes held,
    /// extended, in the `realsize` bytes at `base`.
    pub fn construct_float_extension_address(
        &mut self,
        base: &Address,
        realsize: u32,
        logical: u32,
    ) -> (r: Result<Address, FspecError>)
        requires
            realsize <= i32::MAX,
        ensures
            r == old(self).table().float_extension(*base, realsize, logical),
            final(self).table() == old(self).table().after_float_extension(
                *base,
                realsize,
                logical,
            ),
            final(self).default_data_space == old(self).default_data_space,
            final(self).stack_space == old(self).stack_space,
            old(self).wf() && base.space is Some && realsize > 0 ==> final(self).wf(),
    {
        if logical == realsize {
            return Ok(*base);
        }
        let mut pieces: Vec<VarnodeData> = Vec::new();
        pieces.push(VarnodeData { space: base.space, offset: base.offset, size: realsize });
        proof {
            assert(pieces@ =~= one_piece(*base, realsize));
            reveal_with_fuel(space::pieces_size, 3);
        }
        match self.find_add_join(&pieces, logical) {
            Ok(v) => Ok(v.get_addr()),
            Err(e) => Err(e),
        }
    }
}

/// A join once entered is found again, at the same place, and asking for it
/// a second time changes nothing.
pub proof fn law_join_is_stable(t: JoinTable, pieces: Seq<VarnodeData>, logical: u32)
    ensures
        t.after_find_add(pieces, logical).find_add(pieces, logical) == t.find_add(pieces, logical),
        t.after_find_add(pieces, logical).after_find_add(pieces, logical) == t.after_find_add(
            pieces,
            logical,
        ),
{
    if join_error(pieces, logical) is None {
        let total = join_total(pieces, logical);
        let u = t.with_join(pieces, total);
        lemma_position_of_bound(t, pieces, total, 0);
        if t.position_of(pieces, total, 0) == t.joins.len() {
            lemma_position_of_push(t, u, pieces, total, 0);
        }
    }
}

proof fn lemma_position_of_bound(t: JoinTable, pieces: Seq<VarnodeData>, total: u32, from: int)
    requires
        0 <= from <= t.joins.len(),
    ensures
        from <= t.position_of(pieces, total, from) <= t.joins.len(),
        t.position_of(pieces, total, from) < t.joins.len() ==> t.joins[t.position_of(
            pieces,
            total,
            from,
        )].pieces == pieces && t.joins[t.position_of(pieces, total, from)].unified.size == total,
    decreases t.joins.len() - from,
{
    if from < t.joins.len() {
        lemma_position_of_bound(t, pieces, total, from + 1);
    }
}

proof fn lemma_position_of_push(
    t: JoinTable,
    u: JoinTable,
    pieces: Seq<VarnodeData>,
    total: u32,
    from: int,
)
    requires
        0 <= from <= t.joins.len(),
        u == t.with_join(pieces, total),
        t.position_of(pieces, total, 0) == t.joins.len(),
        t.position_of(pieces, total, from) == t.joins.len(),
    ensures
        u.position_of(pieces, total, from) == t.joins.len(),
    decreases t.joins.len() - from,
{
    if from < t.joins.len() {
        lemma_position_of_bound(t, pieces, total, from + 1);
        lemma_position_of_push(t, u, pieces, total, from + 1);
    }
}

} // verus!
