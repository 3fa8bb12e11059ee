//! The data-flow graph of a function as far as prototype recovery reads it:
//! operations and the storage locations that they read and write.
use crate::dtype::Datatype;
use crate::opcode::OpCode;
use crate::space::{Address, SpaceType};
use vstd::prelude::*;

verus! {

/// The identity of an operation.
#[derive(Debug, Clone, Copy, PartialEq, Eq, Structural)]
pub struct OpId(pub u64);

/// The identity of a varnode, a value in a storage location.
#[derive(Debug, Clone, Copy, PartialEq, Eq, Structural)]
pub struct VarnodeId(pub u64);

/// The identity of a basic block.
#[derive(Debug, Clone, Copy, PartialEq, Eq, Structural)]
pub struct BlockId(pub u64);

/// A varnode: its storage, the operation that writes it, whether it is an
/// input of the function or not connected at all, how often it is read,
/// whether it holds the place of the stack pointer at a call, and the
/// data-type of the variable that it belongs to.
#[derive(Debug, Clone, Copy, PartialEq, Eq, Structural)]
pub struct Varnode {
    pub addr: Address,
    pub size: i32,
    pub def: Option<OpId>,
    pub input: bool,
    pub free: bool,
    pub readers: u32,
    pub placeholder: bool,
    pub type_: Option<Datatype>,
}

impl Varnode {
    pub open spec fn constant(self) -> bool {
        self.addr.space matches Some(s) && s.type_ == SpaceType::Constant
    }

    pub fn is_constant(&self) -> (r: bool)
        ensures
            r == self.constant(),
    {
        match self.addr.space {
            Some(s) => s.type_ == SpaceType::Constant,
            None => false,
        }
    }

    /// A temporary of the analysis.
    pub open spec fn internal(self) -> bool {
        self.addr.space matches Some(s) && s.type_ == SpaceType::Internal
    }

    pub fn is_internal(&self) -> (r: bool)
        ensures
            r == self.internal(),
    {
        match self.addr.space {
            Some(s) => s.type_ == SpaceType::Internal,
            None => false,
        }
    }
}

/// An operation: its code, address, inputs and output, whether it is dead,
/// halts the function or creates a value indirectly, the operation before it
/// in its block, and its position there.
#[derive(Debug)]
pub struct PcodeOp {
    pub code: OpCode,
    pub addr: Address,
    pub inputs: Vec<VarnodeId>,
    pub output: Option<VarnodeId>,
    pub dead: bool,
    pub halt: bool,
    pub creation: bool,
    pub previous: Option<OpId>,
    pub order: u64,
}

/// An operation in the abstract.
#[verifier::ext_equal]
pub struct OpView {
    pub code: OpCode,
    pub addr: Address,
    pub inputs: Seq<VarnodeId>,
    pub output: Option<VarnodeId>,
    pub dead: bool,
    pub halt: bool,
    pub creation: bool,
    pub previous: Option<OpId>,
    pub order: u64,
}

impl OpView {
    /// The input in a slot, if there is one.
    pub open spec fn input(self, slot: int) -> Option<VarnodeId> {
        if 0 <= slot < self.inputs.len() {
            Some(self.inputs[slot])
        } else {
            None
        }
    }

    /// The first slot from `i` on that holds `vn`, or the number of inputs.
    pub open spec fn slot_of(self, vn: VarnodeId, i: int) -> int
        decreases self.inputs.len() - i,
    {
        if i < 0 || i >= self.inputs.len() {
            self.inputs.len() as int
        } else if self.inputs[i] == vn {
            i
        } else {
            self.slot_of(vn, i + 1)
        }
    }

    /// A call of either form.
    pub open spec fn is_call(self) -> bool {
        self.code == OpCode::Call || self.code == OpCode::CallInd
    }
}

impl View for PcodeOp {
    type V = OpView;

    open spec fn view(&self) -> OpView {
        OpView {
            code: self.code,
            addr: self.addr,
            inputs: self.inputs@,
            output: self.output,
            dead: self.dead,
            halt: self.halt,
            creation: self.creation,
            previous: self.previous,
            order: self.order,
        }
    }
}

impl PcodeOp {
    pub fn new(code: OpCode, addr: Address, inputs: Vec<VarnodeId>) -> (r: PcodeOp)
        ensures
            r@ == (OpView {
                code,
                addr,
                inputs: inputs@,
                output: None,
                dead: false,
                halt: false,
                creation: false,
                previous: None,
                order: 0,
            }),
    {
        PcodeOp {
            code,
            addr,
            inputs,
            output: None,
            dead: false,
            halt: false,
            creation: false,
            previous: None,
            order: 0,
        }
    }

    pub fn num_input(&self) -> (r: i32)
        ensures
            r == self@.inputs.len() as i32,
    {
        self.inputs.len() as i32
    }

    pub fn get_in(&self, slot: i32) -> (r: Option<VarnodeId>)
        ensures
            r == self@.input(slot as int),
    {
        if slot < 0 || slot as usize >= self.inputs.len() {
            None
        } else {
            Some(self.inputs[slot as usize])
        }
    }

    /// The first slot that holds the varnode, or the number of inputs.
    pub fn get_slot(&self, vn: VarnodeId) -> (r: i32)
        requires
            self@.inputs.len() <= i32::MAX,
        ensures
            r == self@.slot_of(vn, 0),
    {
        let n: i32 = self.inputs.len() as i32;
        let mut i: i32 = 0;
        while i < n
            invariant
                0 <= i <= n,
                n == self@.inputs.len(),
                self@.slot_of(vn, 0) == self@.slot_of(vn, i as int),
            decreases n - i,
        {
            if self.inputs[i as usize] == vn {
                return i;
            }
            i += 1;
        }
        n
    }
}

/// The operations and varnodes of a function, by identity.
#[derive(Debug)]
pub struct Graph {
    pub varnodes: Vec<Varnode>,
    pub ops: Vec<PcodeOp>,
}

/// A graph in the abstract.
#[verifier::ext_equal]
pub struct GraphView {
    pub varnodes: Seq<Varnode>,
    pub ops: Seq<OpView>,
}

impl View for Graph {
    type V = GraphView;

    open spec fn view(&self) -> GraphView {
        GraphView {
            varnodes: self.varnodes@,
            ops: Seq::new(self.ops@.len(), |i: int| self.ops@[i]@),
        }
    }
}

impl GraphView {
    pub open spec fn vn(self, id: VarnodeId) -> Option<Varnode> {
        if id.0 < self.varnodes.len() {
            Some(self.varnodes[id.0 as int])
        } else {
            None
        }
    }

    pub open spec fn op(self, id: OpId) -> Option<OpView> {
        if id.0 < self.ops.len() {
            Some(self.ops[id.0 as int])
        } else {
            None
        }
    }

    /// The input of an operation in a slot, if both are there.
    pub open spec fn input(self, op: OpId, slot: int) -> Option<VarnodeId> {
        match self.op(op) {
            Some(o) => o.input(slot),
            None => None,
        }
    }

    /// The operation before another one in its block.
    pub open spec fn previous(self, op: OpId) -> Option<OpId> {
        match self.op(op) {
            Some(o) => o.previous,
            None => None,
        }
    }

    /// The position of an operation in its block.
    pub open spec fn order(self, op: OpId) -> int {
        match self.op(op) {
            Some(o) => o.order as int,
            None => 0,
        }
    }

    /// Positions grow along a block, and inputs can be counted.
    pub open spec fn wf(self) -> bool {
        &&& forall|i: int|
            0 <= i < self.ops.len() ==> ((#[trigger] self.ops[i]).previous matches Some(p)
                ==> self.op(p) is Some && self.order(p) < self.ops[i].order)
        &&& forall|i: int| 0 <= i < self.ops.len() ==> (#[trigger] self.ops[i]).inputs.len()
            <= i32::MAX
    }
}

impl Graph {
    pub fn get_vn(&self, id: VarnodeId) -> (r: Option<Varnode>)
        ensures
            r == self@.vn(id),
    {
        if id.0 < self.varnodes.len() as u64 {
            Some(self.varnodes[id.0 as usize])
        } else {
            None
        }
    }

    pub fn get_op(&self, id: OpId) -> (r: Option<&PcodeOp>)
        ensures
            match r {
                Some(o) => self@.op(id) == Some(o@),
                None => self@.op(id) is None,
            },
    {
        if id.0 < self.ops.len() as u64 {
            let o = &self.ops[id.0 as usize];
            assert(self@.ops[id.0 as int] == o@);
            Some(o)
        } else {
            None
        }
    }

    pub fn get_in(&self, op: OpId, slot: i32) -> (r: Option<VarnodeId>)
        ensures
            r == self@.input(op, slot as int),
    {
        match self.get_op(op) {
            Some(o) => o.get_in(slot),
            None => None,
        }
    }

    pub fn previous_op(&self, op: OpId) -> (r: Option<OpId>)
        ensures
            r == self@.previous(op),
    {
        match self.get_op(op) {
            Some(o) => o.previous,
            None => None,
        }
    }
}

} // verus!
