//! Changes to the data-flow graph, in the order in which they are to be made.
use crate::dtype::Datatype;
use crate::graph::{BlockId, OpId, VarnodeId};
use crate::opcode::OpCode;
use crate::space::{AddrSpace, Address};
use vstd::prelude::*;

verus! {

/// Why the analysis of a function starts again.
#[derive(Debug, Clone, Copy, PartialEq, Eq, Structural)]
pub enum RestartReason {
    /// A prototype was found late at an indirect call.
    ProtoDeindirect,
    /// A prototype was forced late at a call.
    ProtoForced,
}

impl RestartReason {
    pub fn message(&self) -> (r: &'static str)
        ensures
            r@ == (match *self {
                RestartReason::ProtoDeindirect => "prototype discovered late at indirect call"@,
                RestartReason::ProtoForced => "prototype forced late at call site"@,
            }),
    {
        match self {
            RestartReason::ProtoDeindirect => "prototype discovered late at indirect call",
            RestartReason::ProtoForced => "prototype forced late at call site",
        }
    }
}

/// One change to the graph or to what is known of the function.
#[derive(Debug, Clone, Copy, PartialEq, Eq, Structural)]
pub enum Edit {
    /// An operation with `inputs` open slots at `addr`.
    NewOp { op: OpId, inputs: i32, addr: Address },
    SetOpcode { op: OpId, code: OpCode },
    SetInput { op: OpId, vn: VarnodeId, slot: i32 },
    /// Open a slot and fill it.
    InsertInput { op: OpId, vn: VarnodeId, slot: i32 },
    RemoveInput { op: OpId, slot: i32 },
    /// Leave `count` open slots, which are filled next.
    SetInputCount { op: OpId, count: i32 },
    SetOutput { op: OpId, vn: VarnodeId },
    UnsetOutput { op: OpId },
    InsertBefore { op: OpId, at: OpId },
    InsertAfter { op: OpId, at: OpId },
    InsertBegin { op: OpId, block: BlockId },
    /// Take an operation out of its block.
    Uninsert { op: OpId },
    /// Take an operation out of its block and cut it off.
    Unlink { op: OpId },
    Destroy { op: OpId },
    NewVarnode { vn: VarnodeId, size: i32, addr: Address },
    NewConstant { vn: VarnodeId, size: i32, value: u64 },
    /// A varnode written by `op`.
    NewVarnodeOut { vn: VarnodeId, size: i32, addr: Address, op: OpId },
    /// A temporary written by `op`.
    NewUniqueOut { vn: VarnodeId, size: i32, op: OpId },
    /// A reference to an operation.
    NewIop { vn: VarnodeId, op: OpId },
    /// A reference to the prototype of a call.
    NewCallSpecs { vn: VarnodeId, handle: u64 },
    /// A value created by a call, by the operation `op`.
    NewIndirectCreation { op: OpId, vn: VarnodeId, call: OpId, addr: Address, size: i32 },
    /// A load relative to the stack pointer before `op`.
    StackLoad { vn: VarnodeId, space: AddrSpace, offset: u64, bytes: u32, op: OpId, stackref: Option<VarnodeId> },
    DeleteVarnode { vn: VarnodeId },
    /// Make the varnode an input of the function. An input that is there with
    /// the same storage takes its place.
    SetInputVarnode { vn: VarnodeId },
    LockInput { vn: VarnodeId },
    LockType { vn: VarnodeId, type_: Datatype },
    /// The varnode stands for the stack pointer at a call.
    MarkPlaceholder { vn: VarnodeId },
    /// The varnode causes no further analysis.
    WriteMask { vn: VarnodeId },
    /// The operation gives a truth value.
    CalculatedBool { op: OpId },
    /// The range holds no local variable.
    NotMapped { space: AddrSpace, offset: u64, size: i32 },
    /// The call at `site` always reaches `target`.
    IndirectOverride { site: Address, target: Address },
    /// Find anew where local variables can be.
    ResetLocalWindow,
    /// Start to recover the return value.
    InitActiveOutput,
    /// The return value is recovered.
    ClearActiveOutput,
    ClearDeadVarnodes,
    /// Find anew which ranges hold no local variable.
    RestrictLocal,
    /// Drop a part of the return value that nothing computes.
    StripUncomputedReturn,
    /// Start the analysis of the function again, because of the call at `site`.
    Restart { reason: RestartReason, site: Address },
}

/// A list of changes. New operations and varnodes are numbered as they come;
/// `loads` says whether loads relative to the stack pointer can be made.
#[derive(Debug)]
pub struct Script {
    pub edits: Vec<Edit>,
    pub next_vn: u64,
    pub next_op: u64,
    pub loads: bool,
}

/// A list of changes in the abstract.
#[verifier::ext_equal]
pub struct ScriptView {
    pub edits: Seq<Edit>,
    pub next_vn: u64,
    pub next_op: u64,
    pub loads: bool,
}

impl View for Script {
    type V = ScriptView;

    open spec fn view(&self) -> ScriptView {
        ScriptView {
            edits: self.edits@,
            next_vn: self.next_vn,
            next_op: self.next_op,
            loads: self.loads,
        }
    }
}

/// The number after `n`.
pub open spec fn following(n: u64) -> u64 {
    if n == u64::MAX {
        0
    } else {
        (n + 1) as u64
    }
}

impl ScriptView {
    /// One more change.
    pub open spec fn then_do(self, e: Edit) -> ScriptView {
        ScriptView { edits: self.edits.push(e), ..self }
    }

    /// The identity of the next new operation.
    pub open spec fn op(self) -> OpId {
        OpId(self.next_op)
    }

    /// The identity of the next new varnode.
    pub open spec fn vn(self) -> VarnodeId {
        VarnodeId(self.next_vn)
    }

    pub open spec fn new_op(self, inputs: i32, addr: Address) -> ScriptView {
        ScriptView {
            next_op: following(self.next_op),
            ..self.then_do(Edit::NewOp { op: self.op(), inputs, addr })
        }
    }

    /// A change that makes the next varnode.
    pub open spec fn make_vn(self, e: Edit) -> ScriptView {
        ScriptView { next_vn: following(self.next_vn), ..self.then_do(e) }
    }

    pub open spec fn new_varnode(self, size: i32, addr: Address) -> ScriptView {
        self.make_vn(Edit::NewVarnode { vn: self.vn(), size, addr })
    }

    pub open spec fn new_constant(self, size: i32, value: u64) -> ScriptView {
        self.make_vn(Edit::NewConstant { vn: self.vn(), size, value })
    }

    pub open spec fn new_varnode_out(self, size: i32, addr: Address, op: OpId) -> ScriptView {
        self.make_vn(Edit::NewVarnodeOut { vn: self.vn(), size, addr, op })
    }

    pub open spec fn new_unique_out(self, size: i32, op: OpId) -> ScriptView {
        self.make_vn(Edit::NewUniqueOut { vn: self.vn(), size, op })
    }

    pub open spec fn new_iop(self, op: OpId) -> ScriptView {
        self.make_vn(Edit::NewIop { vn: self.vn(), op })
    }

    pub open spec fn new_call_specs(self, handle: u64) -> ScriptView {
        self.make_vn(Edit::NewCallSpecs { vn: self.vn(), handle })
    }

    pub open spec fn new_indirect_creation(self, call: OpId, addr: Address, size: i32) -> ScriptView {
        ScriptView {
            next_op: following(self.next_op),
            ..self.make_vn(
                Edit::NewIndirectCreation { op: self.op(), vn: self.vn(), call, addr, size },
            )
        }
    }

    pub open spec fn stack_load(
        self,
        space: AddrSpace,
        offset: u64,
        size: u32,
        op: OpId,
        stackref: Option<VarnodeId>,
    ) -> ScriptView {
        self.make_vn(Edit::StackLoad { vn: self.vn(), space, offset, bytes: size, op, stackref })
    }

    pub open spec fn set_opcode(self, op: OpId, code: OpCode) -> ScriptView {
        self.then_do(Edit::SetOpcode { op, code })
    }

    pub open spec fn set_input(self, op: OpId, vn: VarnodeId, slot: int) -> ScriptView {
        self.then_do(Edit::SetInput { op, vn, slot: slot as i32 })
    }

    pub open spec fn insert_input(self, op: OpId, vn: VarnodeId, slot: int) -> ScriptView {
        self.then_do(Edit::InsertInput { op, vn, slot: slot as i32 })
    }

    /// The first `n` inputs of an operation filled in order.
    pub open spec fn fill_inputs(self, op: OpId, vns: Seq<VarnodeId>, n: int) -> ScriptView
        decreases n,
    {
        if n <= 0 || n > vns.len() {
            self
        } else {
            self.fill_inputs(op, vns, n - 1).set_input(op, vns[n - 1], n - 1)
        }
    }

    /// All inputs of an operation replaced.
    pub open spec fn set_all_input(self, op: OpId, vns: Seq<VarnodeId>) -> ScriptView {
        self.then_do(Edit::SetInputCount { op, count: vns.len() as i32 }).fill_inputs(
            op,
            vns,
            vns.len() as int,
        )
    }
}

impl Script {
    /// No changes yet; new operations and varnodes are numbered from these on.
    pub fn new(next_vn: u64, next_op: u64, loads: bool) -> (r: Script)
        ensures
            r@ == (ScriptView { edits: Seq::empty(), next_vn, next_op, loads }),
    {
        let r = Script { edits: Vec::new(), next_vn, next_op, loads };
        assert(r@.edits =~= Seq::empty());
        r
    }

    pub fn push(&mut self, e: Edit)
        ensures
            final(self)@ == old(self)@.then_do(e),
    {
        self.edits.push(e);
    }

    fn take_vn(&mut self) -> (r: VarnodeId)
        ensures
            r == old(self)@.vn(),
            final(self)@ == (ScriptView { next_vn: following(old(self)@.next_vn), ..old(self)@ }),
    {
        let r = VarnodeId(self.next_vn);
        self.next_vn = self.next_vn.wrapping_add(1);
        r
    }

    fn take_op(&mut self) -> (r: OpId)
        ensures
            r == old(self)@.op(),
            final(self)@ == (ScriptView { next_op: following(old(self)@.next_op), ..old(self)@ }),
    {
        let r = OpId(self.next_op);
        self.next_op = self.next_op.wrapping_add(1);
        r
    }

    pub fn new_op(&mut self, inputs: i32, addr: Address) -> (r: OpId)
        ensures
            r == old(self)@.op(),
            final(self)@ == old(self)@.new_op(inputs, addr),
    {
        let op = self.take_op();
        self.push(Edit::NewOp { op, inputs, addr });
        op
    }

    pub fn new_varnode(&mut self, size: i32, addr: Address) -> (r: VarnodeId)
        ensures
            r == old(self)@.vn(),
            final(self)@ == old(self)@.new_varnode(size, addr),
    {
        let vn = self.take_vn();
        self.push(Edit::NewVarnode { vn, size, addr });
        vn
    }

    pub fn new_constant(&mut self, size: i32, value: u64) -> (r: VarnodeId)
        ensures
            r == old(self)@.vn(),
            final(self)@ == old(self)@.new_constant(size, value),
    {
        let vn = self.take_vn();
        self.push(Edit::NewConstant { vn, size, value });
        vn
    }

    pub fn new_varnode_out(&mut self, size: i32, addr: Address, op: OpId) -> (r: VarnodeId)
        ensures
            r == old(self)@.vn(),
            final(self)@ == old(self)@.new_varnode_out(size, addr, op),
    {
        let vn = self.take_vn();
        self.push(Edit::NewVarnodeOut { vn, size, addr, op });
        vn
    }

    pub fn new_unique_out(&mut self, size: i32, op: OpId) -> (r: VarnodeId)
        ensures
            r == old(self)@.vn(),
            final(self)@ == old(self)@.new_unique_out(size, op),
    {
        let vn = self.take_vn();
        self.push(Edit::NewUniqueOut { vn, size, op });
        vn
    }

    pub fn new_iop(&mut self, op: OpId) -> (r: VarnodeId)
        ensures
            r == old(self)@.vn(),
            final(self)@ == old(self)@.new_iop(op),
    {
        let vn = self.take_vn();
        self.push(Edit::NewIop { vn, op });
        vn
    }

    pub fn new_call_specs(&mut self, handle: u64) -> (r: VarnodeId)
        ensures
            r == old(self)@.vn(),
            final(self)@ == old(self)@.new_call_specs(handle),
    {
        let vn = self.take_vn();
        self.push(Edit::NewCallSpecs { vn, handle });
        vn
    }

    /// The varnode that a load relative to the stack pointer gives, if such
    /// loads can be made.
    pub fn stack_load(
        &mut self,
        space: AddrSpace,
        offset: u64,
        size: u32,
        op: OpId,
        stackref: Option<VarnodeId>,
    ) -> (r: Option<VarnodeId>)
        ensures
            if old(self)@.loads {
                r == Some(old(self)@.vn()) && final(self)@ == old(self)@.stack_load(
                    space,
                    offset,
                    size,
                    op,
                    stackref,
                )
            } else {
                r is None && final(self)@ == old(self)@
            },
    {
        if !self.loads {
            return None;
        }
        let vn = self.take_vn();
        self.push(Edit::StackLoad { vn, space, offset, bytes: size, op, stackref });
        Some(vn)
    }

    /// The new operation and the varnode that it creates.
    pub fn new_indirect_creation(&mut self, call: OpId, addr: Address, size: i32) -> (r: (
        OpId,
        VarnodeId,
    ))
        ensures
            r == (old(self)@.op(), old(self)@.vn()),
            final(self)@ == old(self)@.new_indirect_creation(call, addr, size),
    {
        let op = self.take_op();
        let vn = self.take_vn();
        self.push(Edit::NewIndirectCreation { op, vn, call, addr, size });
        (op, vn)
    }

    pub fn set_opcode(&mut self, op: OpId, code: OpCode)
        ensures
            final(self)@ == old(self)@.set_opcode(op, code),
    {
        self.push(Edit::SetOpcode { op, code });
    }

    pub fn set_input(&mut self, op: OpId, vn: VarnodeId, slot: i32)
        ensures
            final(self)@ == old(self)@.set_input(op, vn, slot as int),
    {
        self.push(Edit::SetInput { op, vn, slot });
    }

    pub fn insert_input(&mut self, op: OpId, vn: VarnodeId, slot: i32)
        ensures
            final(self)@ == old(self)@.insert_input(op, vn, slot as int),
    {
        self.push(Edit::InsertInput { op, vn, slot });
    }

    /// Replace all inputs of an operation.
    pub fn set_all_input(&mut self, op: OpId, vns: &Vec<VarnodeId>)
        ensures
            final(self)@ == old(self)@.set_all_input(op, vns@),
    {
        self.push(Edit::SetInputCount { op, count: vns.len() as i32 });
        let ghost s0 = self@;
        let mut i: usize = 0;
        while i < vns.len()
            invariant
                i <= vns.len(),
                self@ == s0.fill_inputs(op, vns@, i as int),
            decreases vns.len() - i,
        {
            let vn = vns[i];
            self.push(Edit::SetInput { op, vn, slot: i as i32 });
            i += 1;
        }
    }
}

} // verus!
