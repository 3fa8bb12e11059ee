//! What the instructions of a callee show about the registers that it reads
//! and writes: a bounded walk over the paths from its entry.
use crate::byteset;
use crate::byteset::ByteSet;
use crate::entrymap::Fact;
use crate::opcode::OpCode;
use crate::space::{Address, SpaceType, VarnodeData};
use vstd::prelude::*;

verus! {

/// How many instructions one walk decodes before it is given up.
pub const MAX_PROBE_INSTRUCTIONS: u32 = 192;

/// How many register bytes one path may write before the walk is given up.
pub const MAX_WRITTEN_BYTES: usize = 4096;

/// How many ends of paths a walk keeps before it is given up.
pub const MAX_CUTS: usize = 64;

/// One operation of a decoded instruction.
#[derive(Debug)]
pub struct RawOp {
    pub opc: OpCode,
    pub out: Option<VarnodeData>,
    pub ins: Vec<VarnodeData>,
}

/// An operation of an instruction in the abstract.
#[verifier::ext_equal]
pub struct RawView {
    pub opc: OpCode,
    pub out: Option<VarnodeData>,
    pub ins: Seq<VarnodeData>,
}

impl View for RawOp {
    type V = RawView;

    open spec fn view(&self) -> RawView {
        RawView { opc: self.opc, out: self.out, ins: self.ins@ }
    }
}

/// Is input `i` an address or an annotation rather than a value that is read.
pub open spec fn skipped(opc: OpCode, i: int) -> bool {
    i == 0 && (match opc {
        OpCode::Branch
        | OpCode::CBranch
        | OpCode::BranchInd
        | OpCode::Call
        | OpCode::CallInd
        | OpCode::Return
        | OpCode::CallOther
        | OpCode::Load
        | OpCode::Store => true,
        _ => false,
    })
}

pub fn skip_input(opc: OpCode, i: usize) -> (r: bool)
    ensures
        r == skipped(opc, i as int),
{
    i == 0 && matches!(
        opc,
        OpCode::Branch
        | OpCode::CBranch
        | OpCode::BranchInd
        | OpCode::Call
        | OpCode::CallInd
        | OpCode::Return
        | OpCode::CallOther
        | OpCode::Load
        | OpCode::Store
    )
}

/// Is the location in the space with index `reg`.
pub open spec fn in_space(v: VarnodeData, reg: i32) -> bool {
    v.space matches Some(s) && s.index == reg
}

/// The location does not run over the end of the address range.
pub open spec fn ranged(v: VarnodeData) -> bool {
    v.size <= i32::MAX && v.offset + v.size <= u64::MAX
}

impl RawView {
    /// A branch or a conditional branch.
    pub open spec fn branches(self) -> bool {
        self.opc == OpCode::Branch || self.opc == OpCode::CBranch
    }

    /// A branch to another operation of the same instruction.
    pub open spec fn branches_inside(self) -> bool {
        self.branches() && self.ins.len() > 0 && (self.ins[0].space matches Some(s) && s.type_
            == SpaceType::Constant)
    }

    /// Where a branch to another instruction leads.
    pub open spec fn target(self) -> Option<Address> {
        if self.branches() && self.ins.len() > 0 && (self.ins[0].space matches Some(s) && s.type_
            != SpaceType::Constant) {
            Some(self.ins[0].addr())
        } else {
            None
        }
    }

    /// Does the path end here, because control goes where the walk cannot
    /// follow, or because it cannot be told which register is accessed.
    pub open spec fn ends_path(self, reg: i32) -> bool {
        match self.opc {
            OpCode::Call | OpCode::CallInd | OpCode::CallOther | OpCode::BranchInd | OpCode::Return
            => true,
            OpCode::Load | OpCode::Store => self.ins.len() > 0 && self.ins[0].offset as i32 == reg,
            OpCode::Branch | OpCode::CBranch => self.ins.len() == 0 || self.ins[0].space is None,
            _ => false,
        }
    }

    /// Is the `i`-th input a register that is read while some of its bytes
    /// are not in `base`.
    pub open spec fn reads_early(self, i: int, reg: i32, base: Set<(i32, u64)>) -> bool {
        !skipped(self.opc, i) && in_space(self.ins[i], reg) && !byteset::span(
            reg,
            self.ins[i].offset,
            self.ins[i].size as int,
        ).subset_of(base)
    }

    /// The ranges of the register space that the first `n` inputs read while
    /// some of their bytes are not in `base`.
    pub open spec fn early_reads(self, n: int, reg: i32, base: Set<(i32, u64)>) -> Seq<
        (i32, u64, i32),
    >
        decreases n,
    {
        if n <= 0 || n > self.ins.len() {
            Seq::empty()
        } else {
            let before = self.early_reads(n - 1, reg, base);
            if self.reads_early(n - 1, reg, base) {
                before.push((reg, self.ins[n - 1].offset, self.ins[n - 1].size as i32))
            } else {
                before
            }
        }
    }

    /// The register that the operation writes, if it writes one.
    pub open spec fn writes(self, reg: i32) -> Option<VarnodeData> {
        match self.out {
            Some(o) => if in_space(o, reg) {
                Some(o)
            } else {
                None
            },
            None => None,
        }
    }

    /// All locations of the operation are within the address range.
    pub open spec fn ranged(self) -> bool {
        &&& forall|i: int| 0 <= i < self.ins.len() ==> ranged(#[trigger] self.ins[i])
        &&& self.out matches Some(o) ==> ranged(o)
    }
}

/// The operations of one instruction, in order, and whether one of them
/// branches to another one.
#[derive(Debug)]
pub struct EntryEmit {
    pub ops: Vec<RawOp>,
    pub internal_flow: bool,
}

/// The operations of an instruction in the abstract.
#[verifier::ext_equal]
pub struct EmitView {
    pub ops: Seq<RawView>,
    pub internal_flow: bool,
}

impl View for EntryEmit {
    type V = EmitView;

    open spec fn view(&self) -> EmitView {
        EmitView {
            ops: Seq::new(self.ops@.len(), |i: int| self.ops@[i]@),
            internal_flow: self.internal_flow,
        }
    }
}

impl EmitView {
    /// The flag says whether an operation branches inside the instruction,
    /// and all locations are within the address range.
    pub open spec fn wf(self) -> bool {
        &&& self.internal_flow == exists|i: int|
            0 <= i < self.ops.len() && (#[trigger] self.ops[i]).branches_inside()
        &&& forall|i: int| 0 <= i < self.ops.len() ==> (#[trigger] self.ops[i]).ranged()
    }
}

impl EntryEmit {
    pub fn new() -> (r: EntryEmit)
        ensures
            r@.wf(),
            r@ == (EmitView { ops: Seq::empty(), internal_flow: false }),
    {
        let r = EntryEmit { ops: Vec::new(), internal_flow: false };
        assert(r@.ops =~= Seq::empty());
        r
    }

    /// One more operation.
    pub fn dump(&mut self, opc: OpCode, outvar: Option<VarnodeData>, vars: Vec<VarnodeData>)
        requires
            old(self)@.wf(),
            (RawView { opc, out: outvar, ins: vars@ }).ranged(),
        ensures
            final(self)@.wf(),
            final(self)@.ops == old(self)@.ops.push(RawView { opc, out: outvar, ins: vars@ }),
    {
        let ghost v = RawView { opc, out: outvar, ins: vars@ };
        let mut inside: bool = false;
        if matches!(opc, OpCode::Branch | OpCode::CBranch) && vars.len() > 0 {
            match vars[0].space {
                Some(sp) => {
                    inside = sp.type_ == SpaceType::Constant;
                },
                None => {},
            }
        }
        assert(inside == v.branches_inside());
        if inside {
            self.internal_flow = true;
        }
        self.ops.push(RawOp { opc, out: outvar, ins: vars });
        proof {
            assert(self@.ops =~= old(self)@.ops.push(v));
            let n = old(self)@.ops.len() as int;
            if inside {
                assert(self@.ops[n].branches_inside());
            }
            if old(self)@.internal_flow {
                let i = choose|i: int|
                    0 <= i < old(self)@.ops.len() && (#[trigger] old(self)@.ops[i]).branches_inside();
                assert(self@.ops[i].branches_inside());
            }
            if exists|i: int| 0 <= i < self@.ops.len() && (#[trigger] self@.ops[i]).branches_inside() {
                let i = choose|i: int|
                    0 <= i < self@.ops.len() && (#[trigger] self@.ops[i]).branches_inside();
                if i < n {
                    assert(old(self)@.ops[i].branches_inside());
                }
            }
        }
    }
}

/// What a bounded walk over a callee shows about its registers at entry.
#[derive(Debug)]
pub struct CalleeEntryDead {
    /// The index of the register space, the only one answered for, or -1.
    pub reg_idx: i32,
    /// Register ranges that some path reads before it writes all of them, as
    /// space index, offset and size.
    pub reads: Vec<(i32, u64, i32)>,
    /// For every end of a path the register bytes written on the way to it.
    pub cuts: Vec<ByteSet>,
    /// Did the walk cover every path.
    pub complete: bool,
}

/// The outcome of a walk in the abstract.
#[verifier::ext_equal]
pub struct DeadView {
    pub reg_idx: i32,
    pub reads: Seq<(i32, u64, i32)>,
    pub cuts: Seq<Set<(i32, u64)>>,
    pub complete: bool,
}

/// The views of a list of sets.
pub open spec fn sets_view(s: Seq<ByteSet>) -> Seq<Set<(i32, u64)>> {
    Seq::new(s.len(), |i: int| s[i]@)
}

impl View for CalleeEntryDead {
    type V = DeadView;

    open spec fn view(&self) -> DeadView {
        DeadView {
            reg_idx: self.reg_idx,
            reads: self.reads@,
            cuts: sets_view(self.cuts@),
            complete: self.complete,
        }
    }
}

/// Does a range that was read share a byte with the `size` bytes at `off` in
/// the space with index `idx`.
pub open spec fn touches(read: (i32, u64, i32), idx: i32, off: u64, size: int) -> bool {
    read.0 == idx && read.1 < off + size && off < read.1 + read.2
}

impl DeadView {
    /// Is the range one that the walk can answer for.
    pub open spec fn answers(self, addr: Address, size: int) -> bool {
        self.complete && size > 0 && self.reg_idx >= 0 && (addr.space matches Some(s) && s.index
            == self.reg_idx) && addr.offset + size <= u64::MAX
    }

    /// Does some path read a byte of the range before writing it.
    pub open spec fn read_early(self, addr: Address, size: int) -> bool {
        exists|i: int|
            0 <= i < self.reads.len() && touches(
                #[trigger] self.reads[i],
                self.reg_idx,
                addr.offset,
                size,
            )
    }

    /// Is the range never read before it is written: some path was seen to
    /// end, all of them write the whole range, and none reads it before.
    pub open spec fn dead(self, addr: Address, size: int) -> bool {
        self.answers(addr, size) && self.cuts.len() > 0 && !self.read_early(addr, size) && forall|
            i: int,
        |
            0 <= i < self.cuts.len() ==> byteset::span(self.reg_idx, addr.offset, size).subset_of(
                #[trigger] self.cuts[i],
            )
    }

    /// Is a byte of the range read before it is written.
    pub open spec fn live(self, addr: Address, size: int) -> bool {
        self.answers(addr, size) && self.read_early(addr, size)
    }

    /// Recorded ranges are within the address range.
    pub open spec fn wf(self) -> bool {
        forall|i: int|
            0 <= i < self.reads.len() ==> 0 <= (#[trigger] self.reads[i]).2 && self.reads[i].1
                + self.reads[i].2 <= u64::MAX
    }
}

/// Every set of a list lists its bytes once.
pub open spec fn sets_wf(s: Seq<ByteSet>) -> bool {
    forall|i: int| 0 <= i < s.len() ==> (#[trigger] s[i]).wf()
}

impl Fact for CalleeEntryDead {
    open spec fn holds(&self) -> bool {
        self.wf()
    }
}

impl Default for CalleeEntryDead {
    /// A walk that shows nothing.
    fn default() -> (r: CalleeEntryDead)
        ensures
            r.wf(),
            r@ == (DeadView { reg_idx: 0, reads: Seq::empty(), cuts: Seq::empty(), complete: false }),
    {
        CalleeEntryDead::blank(0, false)
    }
}

impl CalleeEntryDead {
    pub open spec fn wf(&self) -> bool {
        self@.wf() && sets_wf(self.cuts@)
    }

    fn blank(reg_idx: i32, complete: bool) -> (r: CalleeEntryDead)
        ensures
            r.wf(),
            r@ == (DeadView { reg_idx, reads: Seq::empty(), cuts: Seq::empty(), complete }),
    {
        let r = CalleeEntryDead { reg_idx, reads: Vec::new(), cuts: Vec::new(), complete };
        assert(r@.reads =~= Seq::empty());
        assert(r@.cuts =~= Seq::empty());
        r
    }

    fn can_answer(&self, addr: &Address, size: i32) -> (r: bool)
        ensures
            r == self@.answers(*addr, size as int),
    {
        if !self.complete || size <= 0 || self.reg_idx < 0 {
            return false;
        }
        match addr.space {
            Some(sp) => sp.index == self.reg_idx && addr.offset <= u64::MAX - size as u64,
            None => false,
        }
    }

    fn has_early_read(&self, addr: &Address, size: i32) -> (r: bool)
        requires
            self.wf(),
            self@.answers(*addr, size as int),
        ensures
            r == self@.read_early(*addr, size as int),
    {
        let off: u64 = addr.offset;
        let end: u64 = off + size as u64;
        let mut i: usize = 0;
        while i < self.reads.len()
            invariant
                i <= self.reads.len(),
                self.wf(),
                off == addr.offset,
                end == off + size,
                forall|k: int|
                    0 <= k < i ==> !touches(
                        #[trigger] self@.reads[k],
                        self.reg_idx,
                        addr.offset,
                        size as int,
                    ),
            decreases self.reads.len() - i,
        {
            let (ridx, roff, rsz) = self.reads[i];
            assert(self@.reads[i as int] == (ridx, roff, rsz));
            if ridx == self.reg_idx && roff < end && off < roff + rsz as u64 {
                return true;
            }
            i += 1;
        }
        false
    }

    /// Is it shown that the callee never reads a byte of the range before it
    /// writes it.
    pub fn proves_dead(&self, addr: &Address, size: i32) -> (r: bool)
        requires
            self.wf(),
        ensures
            r == self@.dead(*addr, size as int),
    {
        if !self.can_answer(addr, size) || self.cuts.len() == 0 {
            return false;
        }
        if self.has_early_read(addr, size) {
            return false;
        }
        let mut i: usize = 0;
        while i < self.cuts.len()
            invariant
                i <= self.cuts.len(),
                0 < size,
                addr.offset + size <= u64::MAX,
                forall|k: int|
                    0 <= k < i ==> byteset::span(
                        self.reg_idx,
                        addr.offset,
                        size as int,
                    ).subset_of(#[trigger] self@.cuts[k]),
            decreases self.cuts.len() - i,
        {
            if !self.cuts[i].contains_span(self.reg_idx, addr.offset, size as u32) {
                assert(self@.cuts[i as int] == self.cuts@[i as int]@);
                return false;
            }
            i += 1;
        }
        true
    }

    /// Is it shown that the callee reads a byte of the range before it writes
    /// it.
    pub fn proves_read(&self, addr: &Address, size: i32) -> (r: bool)
        requires
            self.wf(),
        ensures
            r == self@.live(*addr, size as int),
    {
        self.can_answer(addr, size) && self.has_early_read(addr, size)
    }

    /// Did the walk cover every path.
    pub fn is_complete(&self) -> (r: bool)
        ensures
            r == self@.complete,
    {
        self.complete
    }
}

/// A path that is still to be followed: where it goes on, and the bytes
/// written on the way there.
#[derive(Debug)]
pub struct Frame {
    pub at: Address,
    pub written: ByteSet,
}

/// A path to be followed, in the abstract.
#[verifier::ext_equal]
pub struct FrameView {
    pub at: Address,
    pub written: Set<(i32, u64)>,
}

impl View for Frame {
    type V = FrameView;

    open spec fn view(&self) -> FrameView {
        FrameView { at: self.at, written: self.written@ }
    }
}

/// The views of a list of frames.
pub open spec fn frames_view(s: Seq<Frame>) -> Seq<FrameView> {
    Seq::new(s.len(), |i: int| s[i]@)
}

/// Every frame lists its bytes once.
pub open spec fn frames_wf(s: Seq<Frame>) -> bool {
    forall|i: int| 0 <= i < s.len() ==> (#[trigger] s[i]).written.wf()
}

/// How the operations of an instruction end.
pub enum Outcome {
    /// The next instruction follows.
    Goes,
    /// The path ends.
    Ends,
    /// Too many bytes are written.
    TooMany,
}

/// What the operations of an instruction do: the early reads, the bytes
/// written at the end, where it branches to, whether it falls through, and
/// how it ends.
#[verifier::ext_equal]
pub struct StepView {
    pub reads: Seq<(i32, u64, i32)>,
    pub written: Set<(i32, u64)>,
    pub targets: Seq<Address>,
    pub falls: bool,
    pub outcome: Outcome,
}

impl StepView {
    /// One more operation; `incoming` holds the bytes written before the
    /// instruction.
    pub open spec fn extended(
        self,
        op: RawView,
        reg: i32,
        incoming: Set<(i32, u64)>,
        internal: bool,
    ) -> StepView {
        let base = if internal {
            incoming
        } else {
            self.written
        };
        let read = StepView {
            reads: self.reads + op.early_reads(op.ins.len() as int, reg, base),
            ..self
        };
        if op.ends_path(reg) {
            StepView { outcome: Outcome::Ends, ..read }
        } else {
            let flows = match op.target() {
                Some(t) => StepView {
                    targets: self.targets.push(t),
                    falls: self.falls && op.opc != OpCode::Branch,
                    ..read
                },
                None => read,
            };
            match op.writes(reg) {
                Some(o) => if internal {
                    flows
                } else {
                    let written = self.written.union(
                        byteset::span(reg, o.offset, o.size as int),
                    );
                    StepView {
                        written,
                        outcome: if written.len() > MAX_WRITTEN_BYTES {
                            Outcome::TooMany
                        } else {
                            Outcome::Goes
                        },
                        ..flows
                    }
                },
                None => flows,
            }
        }
    }

    /// Where the walk goes on.
    pub open spec fn frames(self, at: Address, len: int) -> Seq<FrameView> {
        if self.outcome is Goes {
            let taken = self.targets.map_values(
                |t: Address| FrameView { at: t, written: self.written },
            );
            if self.falls {
                taken.push(FrameView { at: at.plus(len), written: self.written })
            } else {
                taken
            }
        } else {
            Seq::empty()
        }
    }
}

impl EmitView {
    /// What the first `n` operations do, up to where the path ends.
    pub open spec fn steps(self, n: int, reg: i32, incoming: Set<(i32, u64)>) -> StepView
        decreases n,
    {
        if n <= 0 || n > self.ops.len() {
            StepView {
                reads: Seq::empty(),
                written: incoming,
                targets: Seq::empty(),
                falls: true,
                outcome: Outcome::Goes,
            }
        } else {
            let before = self.steps(n - 1, reg, incoming);
            if before.outcome is Goes {
                before.extended(self.ops[n - 1], reg, incoming, self.internal_flow)
            } else {
                before
            }
        }
    }

    /// What the instruction does.
    pub open spec fn step(self, reg: i32, incoming: Set<(i32, u64)>) -> StepView {
        self.steps(self.ops.len() as int, reg, incoming)
    }
}

impl DeadView {
    /// With what one instruction shows.
    pub open spec fn after(self, s: StepView) -> DeadView {
        DeadView {
            reads: self.reads + s.reads,
            cuts: if s.outcome is Ends {
                self.cuts.push(s.written)
            } else {
                self.cuts
            },
            complete: self.complete && !(s.outcome is TooMany),
            ..self
        }
    }
}

/// Once a path ends, the operations behind do nothing.
proof fn lemma_steps_end(e: EmitView, k: int, n: int, reg: i32, incoming: Set<(i32, u64)>)
    requires
        0 <= k <= n <= e.ops.len(),
        !(e.steps(k, reg, incoming).outcome is Goes),
    ensures
        e.steps(n, reg, incoming) == e.steps(k, reg, incoming),
    decreases n - k,
{
    if k < n {
        lemma_steps_end(e, k, n - 1, reg, incoming);
    }
}

/// Records the early reads of an operation.
fn record_reads(op: &RawOp, reg: i32, base: &ByteSet, reads: &mut Vec<(i32, u64, i32)>)
    requires
        op@.ranged(),
    ensures
        final(reads)@ == old(reads)@ + op@.early_reads(op@.ins.len() as int, reg, base@),
        (forall|i: int|
            0 <= i < old(reads)@.len() ==> 0 <= (#[trigger] old(reads)@[i]).2 && old(reads)@[i].1
                + old(reads)@[i].2 <= u64::MAX) ==> (forall|i: int|
            0 <= i < final(reads)@.len() ==> 0 <= (#[trigger] final(reads)@[i]).2
                && final(reads)@[i].1 + final(reads)@[i].2 <= u64::MAX),
{
    let mut i: usize = 0;
    assert(reads@ =~= old(reads)@ + op@.early_reads(0, reg, base@));
    while i < op.ins.len()
        invariant
            i <= op.ins.len(),
            op@.ranged(),
            reads@ == old(reads)@ + op@.early_reads(i as int, reg, base@),
            (forall|i: int|
                0 <= i < old(reads)@.len() ==> 0 <= (#[trigger] old(reads)@[i]).2
                    && old(reads)@[i].1 + old(reads)@[i].2 <= u64::MAX) ==> (forall|i: int|
                0 <= i < reads@.len() ==> 0 <= (#[trigger] reads@[i]).2 && reads@[i].1 + reads@[i].2
                    <= u64::MAX),
        decreases op.ins.len() - i,
    {
        let v = op.ins[i];
        assert(ranged(op@.ins[i as int]));
        if !skip_input(op.opc, i) {
            match v.space {
                Some(sp) => {
                    if sp.index == reg && !base.contains_span(reg, v.offset, v.size) {
                        reads.push((reg, v.offset, v.size as i32));
                    }
                },
                None => {},
            }
        }
        i += 1;
        assert(reads@ =~= old(reads)@ + op@.early_reads(i as int, reg, base@));
    }
}

impl RawOp {
    fn ends(&self, reg: i32) -> (r: bool)
        ensures
            r == self@.ends_path(reg),
    {
        match self.opc {
            OpCode::Call
            | OpCode::CallInd
            | OpCode::CallOther
            | OpCode::BranchInd
            | OpCode::Return => true,
            OpCode::Load | OpCode::Store => self.ins.len() > 0 && self.ins[0].offset as i32 == reg,
            OpCode::Branch | OpCode::CBranch => self.ins.len() == 0 || self.ins[0].space.is_none(),
            _ => false,
        }
    }

    fn branch_target(&self) -> (r: Option<Address>)
        ensures
            r == self@.target(),
    {
        if !matches!(self.opc, OpCode::Branch | OpCode::CBranch) || self.ins.len() == 0 {
            return None;
        }
        match self.ins[0].space {
            Some(sp) => if sp.type_ == SpaceType::Constant {
                None
            } else {
                Some(self.ins[0].get_addr())
            },
            None => None,
        }
    }
}

/// The frames that follow an instruction.
fn follow(targets: &Vec<Address>, falls: bool, at: &Address, len: i32, written: ByteSet) -> (r: Vec<
    Frame,
>)
    requires
        written.wf(),
    ensures
        frames_wf(r@),
        forall|s: StepView|
            s.targets == targets@ && s.falls == falls && s.written == written@ && s.outcome is Goes
                ==> frames_view(r@) == #[trigger] s.frames(*at, len as int),
{
    let mut r: Vec<Frame> = Vec::new();
    let mut i: usize = 0;
    while i < targets.len()
        invariant
            i <= targets.len(),
            written.wf(),
            r@.len() == i,
            frames_wf(r@),
            forall|k: int|
                0 <= k < i ==> (#[trigger] r@[k])@ == (FrameView {
                    at: targets@[k],
                    written: written@,
                }),
        decreases targets.len() - i,
    {
        r.push(Frame { at: targets[i], written: written.copy() });
        i += 1;
    }
    let ghost r0 = r@;
    if falls {
        r.push(Frame { at: at.advance(len as i64), written });
    }
    proof {
        assert forall|s: StepView|
            s.targets == targets@ && s.falls == falls && s.written == written@
                && s.outcome is Goes implies frames_view(r@) == #[trigger] s.frames(
            *at,
            len as int,
        ) by {
            assert(frames_view(r@) =~= s.frames(*at, len as int));
        }
    }
    r
}

/// Runs the operations of an instruction on a path on which `written` is
/// written before it. The result holds where the walk goes on, or nothing
/// when it is given up.
fn step_instruction(
    res: &mut CalleeEntryDead,
    emit: &EntryEmit,
    written: ByteSet,
    at: &Address,
    len: i32,
) -> (r: Option<Vec<Frame>>)
    requires
        old(res).wf(),
        emit@.wf(),
        written.wf(),
    ensures
        final(res).wf(),
        final(res)@ == old(res)@.after(emit@.step(old(res)@.reg_idx, written@)),
        match r {
            Some(f) => !(emit@.step(old(res)@.reg_idx, written@).outcome is TooMany) && frames_wf(f@)
                && frames_view(f@) == emit@.step(old(res)@.reg_idx, written@).frames(
                *at,
                len as int,
            ),
            None => emit@.step(old(res)@.reg_idx, written@).outcome is TooMany,
        },
{
    let reg: i32 = res.reg_idx;
    let incoming = written.copy();
    let mut cur = written;
    let mut targets: Vec<Address> = Vec::new();
    let mut falls: bool = true;
    let mut i: usize = 0;
    let ghost e = emit@;
    let ghost inc = incoming@;
    let ghost n = e.ops.len() as int;
    assert(targets@ =~= e.steps(0, reg, inc).targets);
    assert(res@.reads =~= old(res)@.reads + e.steps(0, reg, inc).reads);
    while i < emit.ops.len()
        invariant
            i <= emit.ops.len(),
            e == emit@,
            e.wf(),
            n == e.ops.len(),
            reg == old(res)@.reg_idx,
            inc == incoming@,
            inc == written@,
            incoming.wf(),
            cur.wf(),
            res.wf(),
            old(res).wf(),
            e.steps(i as int, reg, inc).outcome is Goes,
            e.steps(i as int, reg, inc).written == cur@,
            e.steps(i as int, reg, inc).targets == targets@,
            e.steps(i as int, reg, inc).falls == falls,
            res@.reads == old(res)@.reads + e.steps(i as int, reg, inc).reads,
            res@.cuts == old(res)@.cuts,
            res@.complete == old(res)@.complete,
            res@.reg_idx == reg,
        decreases emit.ops.len() - i,
    {
        let op = &emit.ops[i];
        let ghost before = e.steps(i as int, reg, inc);
        let ghost now = e.steps(i as int + 1, reg, inc);
        assert(op@ == e.ops[i as int]);
        assert(now == before.extended(op@, reg, inc, e.internal_flow));
        let ghost res0 = res@;
        let ghost cuts0 = res.cuts@;
        if emit.internal_flow {
            record_reads(op, reg, &incoming, &mut res.reads);
        } else {
            record_reads(op, reg, &cur, &mut res.reads);
        }
        assert(res.reads@ =~= old(res)@.reads + now.reads);
        assert(res.cuts@ == cuts0);
        if op.ends(reg) {
            assert(now.outcome is Ends);
            proof {
                lemma_steps_end(e, i as int + 1, n, reg, inc);
            }
            res.cuts.push(cur);
            assert(sets_view(res.cuts@) =~= old(res)@.cuts.push(now.written));
            let none: Vec<Frame> = Vec::new();
            assert(frames_view(none@) =~= Seq::empty());
            return Some(none);
        }
        match op.branch_target() {
            Some(t) => {
                targets.push(t);
                if op.opc == OpCode::Branch {
                    falls = false;
                }
            },
            None => {},
        }
        if !emit.internal_flow {
            match op.out {
                Some(o) => {
                    match o.space {
                        Some(sp) => {
                            if sp.index == reg {
                                cur.insert_span(reg, o.offset, o.size);
                                if cur.len() > MAX_WRITTEN_BYTES {
                                    proof {
                                        lemma_steps_end(e, i as int + 1, n, reg, inc);
                                    }
                                    res.complete = false;
                                    return None;
                                }
                            }
                        },
                        None => {},
                    }
                },
                None => {},
            }
        }
        i += 1;
    }
    Some(follow(&targets, falls, at, len, cur))
}

/// A decoded instruction: its operations and its length in bytes.
#[derive(Debug)]
pub struct Instruction {
    pub emit: EntryEmit,
    pub len: i32,
}

/// A decoded instruction in the abstract.
#[verifier::ext_equal]
pub struct InsView {
    pub emit: EmitView,
    pub len: i32,
}

impl View for Instruction {
    type V = InsView;

    open spec fn view(&self) -> InsView {
        InsView { emit: self.emit@, len: self.len }
    }
}

/// The state of a walk over a callee: what it shows so far, the bytes written
/// when an address was last followed, the paths still to be followed, how
/// many more instructions may be decoded, and the path whose instruction is
/// asked for.
#[derive(Debug)]
pub struct Walk {
    dead: CalleeEntryDead,
    visited: Vec<((i32, u64), ByteSet)>,
    todo: Vec<Frame>,
    budget: u32,
    pending: Option<Frame>,
}

/// The state of a walk in the abstract.
#[verifier::ext_equal]
pub struct WalkView {
    pub dead: DeadView,
    pub visited: Map<(i32, u64), Set<(i32, u64)>>,
    pub todo: Seq<FrameView>,
    pub budget: u32,
    pub pending: Option<FrameView>,
}

/// The last set for each address among the first `n` of a list.
spec fn latest(s: Seq<((i32, u64), ByteSet)>, n: int) -> Map<(i32, u64), Set<(i32, u64)>>
    decreases n,
{
    if n <= 0 || n > s.len() {
        Map::empty()
    } else {
        latest(s, n - 1).insert(s[n - 1].0, s[n - 1].1@)
    }
}

proof fn lemma_latest_push(s: Seq<((i32, u64), ByteSet)>, x: ((i32, u64), ByteSet), n: int)
    requires
        0 <= n <= s.len(),
    ensures
        latest(s.push(x), n) == latest(s, n),
    decreases n,
{
    if n > 0 {
        lemma_latest_push(s, x, n - 1);
    }
}

impl View for Walk {
    type V = WalkView;

    closed spec fn view(&self) -> WalkView {
        WalkView {
            dead: self.dead@,
            visited: latest(self.visited@, self.visited@.len() as int),
            todo: frames_view(self.todo@),
            budget: self.budget,
            pending: match self.pending {
                Some(f) => Some(f@),
                None => None,
            },
        }
    }
}

impl WalkView {
    /// The walk given up.
    pub open spec fn given_up(self) -> WalkView {
        WalkView {
            dead: DeadView { complete: false, ..self.dead },
            todo: Seq::empty(),
            pending: None,
            ..self
        }
    }

    /// Was the address followed before with no more bytes written.
    pub open spec fn covered(self, key: (i32, u64), written: Set<(i32, u64)>) -> bool {
        self.visited.dom().contains(key) && self.visited[key].subset_of(written)
    }

    /// Up to the next instruction that is asked for, or to the end.
    pub open spec fn asking(self) -> WalkView
        decreases self.todo.len(),
    {
        if self.todo.len() == 0 {
            WalkView { pending: None, ..self }
        } else {
            let f = self.todo.last();
            let rest = WalkView { todo: self.todo.drop_last(), ..self };
            match f.at.space {
                None => self.given_up(),
                Some(sp) => {
                    let key = (sp.index, f.at.offset);
                    if self.covered(key, f.written) {
                        rest.asking()
                    } else {
                        let noted = WalkView {
                            visited: self.visited.insert(key, f.written),
                            ..rest
                        };
                        if self.budget == 0 || self.dead.cuts.len() > MAX_CUTS || f.written.len()
                            > MAX_WRITTEN_BYTES {
                            noted.given_up()
                        } else {
                            WalkView {
                                budget: (self.budget - 1) as u32,
                                pending: Some(f),
                                ..noted
                            }
                        }
                    }
                },
            }
        }
    }

    /// With the instruction that was asked for, if it could be decoded.
    pub open spec fn answered(self, ins: Option<InsView>) -> WalkView {
        match self.pending {
            None => self,
            Some(f) => {
                let went = WalkView { pending: None, ..self };
                match ins {
                    Some(i) => if i.len > 0 {
                        let step = i.emit.step(self.dead.reg_idx, f.written);
                        let seen = WalkView { dead: self.dead.after(step), ..went };
                        if step.outcome is TooMany {
                            seen.given_up()
                        } else {
                            WalkView { todo: self.todo + step.frames(f.at, i.len as int), ..seen }
                        }
                    } else {
                        WalkView {
                            dead: DeadView { cuts: self.dead.cuts.push(f.written), ..self.dead },
                            ..went
                        }
                    },
                    None => WalkView {
                        dead: DeadView { cuts: self.dead.cuts.push(f.written), ..self.dead },
                        ..went
                    },
                }
            },
        }
    }
}

/// The start of a walk from `entry`.
pub open spec fn walk_start(entry: Address, reg_idx: i32) -> WalkView {
    let good = reg_idx >= 0 && (entry.space matches Some(s) && s.type_ == SpaceType::Processor);
    WalkView {
        dead: DeadView { reg_idx, reads: Seq::empty(), cuts: Seq::empty(), complete: good },
        visited: Map::empty(),
        todo: if good {
            seq![FrameView { at: entry, written: Set::empty() }]
        } else {
            Seq::empty()
        },
        budget: MAX_PROBE_INSTRUCTIONS,
        pending: None,
    }
}

/// What a walk shows in the end: nothing when it was given up.
pub open spec fn concluded(d: DeadView) -> DeadView {
    if d.complete {
        d
    } else {
        DeadView { reads: Seq::empty(), cuts: Seq::empty(), ..d }
    }
}

impl Walk {
    pub closed spec fn wf(&self) -> bool {
        &&& self.dead.wf()
        &&& frames_wf(self.todo@)
        &&& self.pending matches Some(f) ==> f.written.wf()
    }

    /// Start a walk from `entry`; `reg_idx` is the index of the register
    /// space.
    pub fn start(entry: &Address, reg_idx: i32) -> (r: Walk)
        ensures
            r.wf(),
            r@ == walk_start(*entry, reg_idx),
    {
        let good: bool = reg_idx >= 0 && match entry.space {
            Some(sp) => sp.type_ == SpaceType::Processor,
            None => false,
        };
        let mut todo: Vec<Frame> = Vec::new();
        if good {
            todo.push(Frame { at: *entry, written: ByteSet::new() });
        }
        let r = Walk {
            dead: CalleeEntryDead::blank(reg_idx, good),
            visited: Vec::new(),
            todo,
            budget: MAX_PROBE_INSTRUCTIONS,
            pending: None,
        };
        assert(r@.visited =~= Map::empty());
        assert(r@.todo =~= walk_start(*entry, reg_idx).todo);
        r
    }

    fn give_up(&mut self)
        requires
            old(self).wf(),
        ensures
            final(self).wf(),
            final(self)@ == old(self)@.given_up(),
    {
        self.dead.complete = false;
        self.todo = Vec::new();
        self.pending = None;
        assert(self@.todo =~= Seq::empty());
    }

    fn is_covered(&self, key: (i32, u64), written: &ByteSet) -> (r: bool)
        ensures
            r == self@.covered(key, written@),
    {
        let mut i: usize = self.visited.len();
        while i > 0
            invariant
                i <= self.visited.len(),
                latest(self.visited@, i as int).dom().contains(key)
                    == self@.visited.dom().contains(key),
                self@.visited.dom().contains(key) ==> latest(self.visited@, i as int)[key]
                    == self@.visited[key],
            decreases i,
        {
            i -= 1;
            let k = self.visited[i].0;
            if k.0 == key.0 && k.1 == key.1 {
                return self.visited[i].1.is_subset(written);
            }
        }
        false
    }

    fn note_visit(&mut self, key: (i32, u64), written: ByteSet)
        requires
            old(self).wf(),
        ensures
            final(self).wf(),
            final(self)@ == (WalkView {
                visited: old(self)@.visited.insert(key, written@),
                ..old(self)@
            }),
    {
        self.visited.push((key, written));
        proof {
            lemma_latest_push(old(self).visited@, (key, written), old(self).visited@.len() as int);
        }
    }

    /// The address of the next instruction that is needed, if one is.
    pub fn ask(&mut self) -> (r: Option<Address>)
        requires
            old(self).wf(),
        ensures
            final(self).wf(),
            final(self)@ == old(self)@.asking(),
            match final(self)@.pending {
                Some(f) => r == Some(f.at),
                None => r is None,
            },
    {
        loop
            invariant
                self.wf(),
                self@.asking() == old(self)@.asking(),
            decreases self.todo.len(),
        {
            let ghost w0 = self@;
            match self.todo.pop() {
                None => {
                    self.pending = None;
                    assert(self@ =~= w0.asking());
                    return None;
                },
                Some(frame) => {
                    proof {
                        assert(w0.todo.last() == frame@);
                        assert(self@.todo =~= w0.todo.drop_last());
                        assert(self@ =~= (WalkView { todo: w0.todo.drop_last(), ..w0 }));
                    }
                    match frame.at.space {
                        None => {
                            self.give_up();
                            assert(self@ =~= w0.asking());
                            return None;
                        },
                        Some(sp) => {
                            let key: (i32, u64) = (sp.index, frame.at.offset);
                            if !self.is_covered(key, &frame.written) {
                                self.note_visit(key, frame.written.copy());
                                if self.budget == 0 || self.dead.cuts.len() > MAX_CUTS
                                    || frame.written.len() > MAX_WRITTEN_BYTES {
                                    self.give_up();
                                    assert(self@ =~= w0.asking());
                                    return None;
                                }
                                self.budget -= 1;
                                let at = frame.at;
                                self.pending = Some(frame);
                                assert(self@ =~= w0.asking());
                                return Some(at);
                            }
                        },
                    }
                },
            }
        }
    }

    /// Go on with the instruction that was asked for, if it could be decoded.
    pub fn answer(&mut self, ins: Option<&Instruction>)
        requires
            old(self).wf(),
            ins matches Some(i) ==> i@.emit.wf(),
        ensures
            final(self).wf(),
            final(self)@ == old(self)@.answered(
                match ins {
                    Some(i) => Some(i@),
                    None => None,
                },
            ),
    {
        let ghost w0 = self@;
        match self.pending.take() {
            None => {},
            Some(frame) => {
                match ins {
                    Some(i) => {
                        if i.len > 0 {
                            let at = frame.at;
                            match step_instruction(&mut self.dead, &i.emit, frame.written, &at, i.len) {
                                Some(next) => {
                                    let mut next = next;
                                    let ghost todo0 = self.todo@;
                                    let ghost next0 = next@;
                                    self.todo.append(&mut next);
                                    assert(self@.todo =~= frames_view(todo0) + frames_view(next0));
                                },
                                None => {
                                    self.give_up();
                                },
                            }
                            return;
                        }
                    },
                    None => {},
                }
                self.dead.cuts.push(frame.written);
                assert(self@.dead.cuts =~= w0.dead.cuts.push(frame@.written));
            },
        }
    }

    /// What the walk shows.
    pub fn finish(self) -> (r: CalleeEntryDead)
        requires
            self.wf(),
        ensures
            r.wf(),
            r@ == concluded(self@.dead),
    {
        let mut r = self.dead;
        if !r.complete {
            r.reads = Vec::new();
            r.cuts = Vec::new();
            assert(r@.reads =~= Seq::empty());
            assert(r@.cuts =~= Seq::empty());
        }
        r
    }
}

/// Decoded instructions by address.
#[derive(Debug)]
pub struct Code {
    pub instructions: Vec<(Address, Instruction)>,
}

/// Decoded instructions in the abstract.
#[verifier::ext_equal]
pub struct CodeView {
    pub instructions: Seq<(Address, InsView)>,
}

impl View for Code {
    type V = CodeView;

    open spec fn view(&self) -> CodeView {
        CodeView {
            instructions: Seq::new(
                self.instructions@.len(),
                |i: int| (self.instructions@[i].0, self.instructions@[i].1@),
            ),
        }
    }
}

impl CodeView {
    /// The first instruction at an address from the `i`-th one on.
    pub open spec fn find(self, at: Address, i: int) -> Option<InsView>
        decreases self.instructions.len() - i,
    {
        if i < 0 || i >= self.instructions.len() {
            None
        } else if self.instructions[i].0 == at {
            Some(self.instructions[i].1)
        } else {
            self.find(at, i + 1)
        }
    }

    /// The instruction at an address, if one can be decoded there.
    pub open spec fn at(self, at: Address) -> Option<InsView> {
        self.find(at, 0)
    }

    pub open spec fn wf(self) -> bool {
        forall|i: int| 0 <= i < self.instructions.len() ==> (#[trigger] self.instructions[i]).1.emit.wf()
    }
}

impl Code {
    /// The instruction at an address, if one can be decoded there.
    pub fn fetch(&self, at: &Address) -> (r: Option<&Instruction>)
        requires
            self@.wf(),
        ensures
            match r {
                Some(i) => self@.at(*at) == Some(i@) && i@.emit.wf(),
                None => self@.at(*at) is None,
            },
    {
        let mut i: usize = 0;
        while i < self.instructions.len()
            invariant
                i <= self.instructions.len(),
                self@.wf(),
                self@.at(*at) == self@.find(*at, i as int),
            decreases self.instructions.len() - i,
        {
            assert(self@.instructions[i as int].1.emit.wf());
            if self.instructions[i].0.same(at) {
                return Some(&self.instructions[i].1);
            }
            i += 1;
        }
        None
    }
}

/// Every instruction that is asked for is paid for.
pub proof fn lemma_asking_spends(w: WalkView)
    ensures
        w.asking().pending is Some ==> w.asking().budget + 1 == w.budget,
    decreases w.todo.len(),
{
    if w.todo.len() > 0 {
        lemma_asking_spends(WalkView { todo: w.todo.drop_last(), ..w });
    }
}

impl WalkView {
    /// The end of the walk over `code`.
    pub open spec fn run(self, code: CodeView) -> WalkView
        decreases self.budget,
    {
        proof {
            lemma_asking_spends(self);
        }
        let w = self.asking();
        match w.pending {
            None => w,
            Some(f) => w.answered(code.at(f.at)).run(code),
        }
    }
}

/// What a walk over `code` from `entry` shows.
pub open spec fn probed(code: CodeView, entry: Address, reg_idx: i32) -> DeadView {
    concluded(walk_start(entry, reg_idx).run(code).dead)
}

/// What a bounded walk over the code of a callee from its entry shows about
/// the registers of the space with index `reg_idx`.
pub fn probe_callee_entry_dead(code: &Code, entry: &Address, reg_idx: i32) -> (r: CalleeEntryDead)
    requires
        code@.wf(),
    ensures
        r.wf(),
        r@ == probed(code@, *entry, reg_idx),
{
    let mut w = Walk::start(entry, reg_idx);
    loop
        invariant_except_break
            code@.wf(),
            w.wf(),
            w@.run(code@) == walk_start(*entry, reg_idx).run(code@),
        ensures
            w.wf(),
            w@ == walk_start(*entry, reg_idx).run(code@),
        decreases w@.budget,
    {
        proof {
            lemma_asking_spends(w@);
        }
        match w.ask() {
            Some(at) => {
                w.answer(code.fetch(&at));
            },
            None => {
                break ;
            },
        }
    }
    w.finish()
}

/// A walk that was given up shows nothing, nor does one that saw no path end
/// show that a range is dead; and no range is shown to be both dead and read.
pub proof fn law_shown(d: DeadView, addr: Address, size: int)
    ensures
        !d.complete ==> !d.dead(addr, size) && !d.live(addr, size),
        d.cuts.len() == 0 ==> !d.dead(addr, size),
        !(d.dead(addr, size) && d.live(addr, size)),
{
}

} // verus!
