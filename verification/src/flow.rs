//! What the operations and the varnodes of a function are once a list of
//! changes has been made.
use crate::graph::{GraphView, OpId, VarnodeId};
use crate::opcode::OpCode;
use crate::script::{Edit, ScriptView};
use vstd::prelude::*;

verus! {

/// The slots of an operation that is there from the start.
pub open spec fn first_slots(g: GraphView, op: OpId) -> Seq<Option<VarnodeId>> {
    if op.0 < g.ops.len() {
        g.ops[op.0 as int].inputs.map_values(|v: VarnodeId| Some(v))
    } else {
        Seq::empty()
    }
}

/// The slots of `op` after one change, `before` being those in front of it. An
/// open slot holds nothing.
pub open spec fn slots_step(before: Seq<Option<VarnodeId>>, e: Edit, op: OpId) -> Seq<
    Option<VarnodeId>,
> {
    match e {
        Edit::NewOp { op: o, inputs, addr } => if o == op && inputs >= 0 {
            Seq::new(inputs as nat, |i: int| None)
        } else {
            before
        },
        Edit::SetInputCount { op: o, count } => if o == op && count >= 0 {
            Seq::new(count as nat, |i: int| None)
        } else {
            before
        },
        Edit::SetInput { op: o, vn, slot } => if o == op && 0 <= slot < before.len() {
            before.update(slot as int, Some(vn))
        } else {
            before
        },
        Edit::InsertInput { op: o, vn, slot } => if o == op && 0 <= slot <= before.len() {
            before.insert(slot as int, Some(vn))
        } else {
            before
        },
        Edit::RemoveInput { op: o, slot } => if o == op && 0 <= slot < before.len() {
            before.remove(slot as int)
        } else {
            before
        },
        _ => before,
    }
}

/// The slots of `op` once the changes are made.
pub open spec fn slots(g: GraphView, edits: Seq<Edit>, op: OpId) -> Seq<Option<VarnodeId>>
    decreases edits.len(),
{
    if edits.len() == 0 {
        first_slots(g, op)
    } else {
        slots_step(slots(g, edits.drop_last(), op), edits.last(), op)
    }
}

/// The change gives the operation its code.
pub open spec fn sets_code(e: Edit, op: OpId) -> Option<OpCode> {
    match e {
        Edit::SetOpcode { op: o, code } => if o == op {
            Some(code)
        } else {
            None
        },
        _ => None,
    }
}

/// The code of `op` once the changes are made.
pub open spec fn code(g: GraphView, edits: Seq<Edit>, op: OpId) -> Option<OpCode>
    decreases edits.len(),
{
    if edits.len() == 0 {
        if op.0 < g.ops.len() {
            Some(g.ops[op.0 as int].code)
        } else {
            None
        }
    } else {
        match sets_code(edits.last(), op) {
            Some(c) => Some(c),
            None => code(g, edits.drop_last(), op),
        }
    }
}

/// The change makes the varnode.
pub open spec fn makes(e: Edit, v: VarnodeId) -> bool {
    match e {
        Edit::NewVarnode { vn, size, addr } => vn == v,
        Edit::NewConstant { vn, size, value } => vn == v,
        Edit::NewVarnodeOut { vn, size, addr, op } => vn == v,
        Edit::NewUniqueOut { vn, size, op } => vn == v,
        Edit::NewIop { vn, op } => vn == v,
        Edit::NewCallSpecs { vn, handle } => vn == v,
        Edit::NewIndirectCreation { op, vn, call, addr, size } => vn == v,
        Edit::StackLoad { vn, space, offset, bytes, op, stackref } => vn == v,
        _ => false,
    }
}

/// The last of the changes that makes the varnode.
pub open spec fn maker(edits: Seq<Edit>, v: VarnodeId) -> Option<Edit>
    decreases edits.len(),
{
    if edits.len() == 0 {
        None
    } else if makes(edits.last(), v) {
        Some(edits.last())
    } else {
        maker(edits.drop_last(), v)
    }
}

/// The change says what the output of the operation is: some varnode, or none.
pub open spec fn sets_output(e: Edit, op: OpId) -> Option<Option<VarnodeId>> {
    match e {
        Edit::NewVarnodeOut { vn, size, addr, op: o } => if o == op {
            Some(Some(vn))
        } else {
            None
        },
        Edit::NewUniqueOut { vn, size, op: o } => if o == op {
            Some(Some(vn))
        } else {
            None
        },
        Edit::NewIndirectCreation { op: o, vn, call, addr, size } => if o == op {
            Some(Some(vn))
        } else {
            None
        },
        Edit::SetOutput { op: o, vn } => if o == op {
            Some(Some(vn))
        } else {
            None
        },
        Edit::UnsetOutput { op: o } => if o == op {
            Some(None)
        } else {
            None
        },
        _ => None,
    }
}

/// The output of `op` once the changes are made.
pub open spec fn output(g: GraphView, edits: Seq<Edit>, op: OpId) -> Option<VarnodeId>
    decreases edits.len(),
{
    if edits.len() == 0 {
        if op.0 < g.ops.len() {
            g.ops[op.0 as int].output
        } else {
            None
        }
    } else {
        match sets_output(edits.last(), op) {
            Some(v) => v,
            None => output(g, edits.drop_last(), op),
        }
    }
}

/// The change puts the operation somewhere, or takes it away.
pub open spec fn moves(e: Edit, op: OpId) -> bool {
    match e {
        Edit::InsertBefore { op: o, at } => o == op,
        Edit::InsertAfter { op: o, at } => o == op,
        Edit::InsertBegin { op: o, block } => o == op,
        Edit::Uninsert { op: o } => o == op,
        Edit::Unlink { op: o } => o == op,
        Edit::Destroy { op: o } => o == op,
        _ => false,
    }
}

/// The last of the changes that puts the operation somewhere or takes it away.
pub open spec fn mover(edits: Seq<Edit>, op: OpId) -> Option<Edit>
    decreases edits.len(),
{
    if edits.len() == 0 {
        None
    } else if moves(edits.last(), op) {
        Some(edits.last())
    } else {
        mover(edits.drop_last(), op)
    }
}

/// What is new in the script is told apart from what the graph has, and `ops`
/// more operations and `vns` more varnodes can be numbered.
pub open spec fn numbered(g: GraphView, s: ScriptView, ops: int, vns: int) -> bool {
    &&& g.ops.len() <= s.next_op
    &&& g.varnodes.len() <= s.next_vn
    &&& s.next_op + ops <= u64::MAX
    &&& s.next_vn + vns <= u64::MAX
}

pub broadcast proof fn lemma_slots_push(g: GraphView, edits: Seq<Edit>, e: Edit, op: OpId)
    ensures
        #[trigger] slots(g, edits.push(e), op) == slots_step(slots(g, edits, op), e, op),
{
    assert(edits.push(e).drop_last() =~= edits);
}

pub broadcast proof fn lemma_code_push(g: GraphView, edits: Seq<Edit>, e: Edit, op: OpId)
    ensures
        #[trigger] code(g, edits.push(e), op) == (match sets_code(e, op) {
            Some(c) => Some(c),
            None => code(g, edits, op),
        }),
{
    assert(edits.push(e).drop_last() =~= edits);
}

pub broadcast proof fn lemma_maker_push(edits: Seq<Edit>, e: Edit, v: VarnodeId)
    ensures
        #[trigger] maker(edits.push(e), v) == (if makes(e, v) {
            Some(e)
        } else {
            maker(edits, v)
        }),
{
    assert(edits.push(e).drop_last() =~= edits);
}

pub broadcast proof fn lemma_output_push(g: GraphView, edits: Seq<Edit>, e: Edit, op: OpId)
    ensures
        #[trigger] output(g, edits.push(e), op) == (match sets_output(e, op) {
            Some(v) => v,
            None => output(g, edits, op),
        }),
{
    assert(edits.push(e).drop_last() =~= edits);
}

pub broadcast proof fn lemma_mover_push(edits: Seq<Edit>, e: Edit, op: OpId)
    ensures
        #[trigger] mover(edits.push(e), op) == (if moves(e, op) {
            Some(e)
        } else {
            mover(edits, op)
        }),
{
    assert(edits.push(e).drop_last() =~= edits);
}

pub broadcast group group_flow {
    lemma_slots_push,
    lemma_code_push,
    lemma_maker_push,
    lemma_output_push,
    lemma_mover_push,
}

/// Filling the first `n` slots of an operation changes nothing else.
proof fn lemma_fill(g: GraphView, s: ScriptView, op: OpId, vns: Seq<VarnodeId>, n: int)
    requires
        0 <= n <= vns.len() <= i32::MAX,
        slots(g, s.edits, op).len() == vns.len(),
    ensures
        ({
            let t = s.fill_inputs(op, vns, n);
            &&& t.next_op == s.next_op && t.next_vn == s.next_vn && t.loads == s.loads
            &&& slots(g, t.edits, op).len() == vns.len()
            &&& forall|i: int| 0 <= i < n ==> #[trigger] slots(g, t.edits, op)[i] == Some(vns[i])
            &&& forall|o: OpId|
                o != op ==> #[trigger] slots(g, t.edits, o) == slots(g, s.edits, o)
            &&& forall|o: OpId| #[trigger] code(g, t.edits, o) == code(g, s.edits, o)
            &&& forall|o: OpId| #[trigger] output(g, t.edits, o) == output(g, s.edits, o)
            &&& forall|o: OpId| #[trigger] mover(t.edits, o) == mover(s.edits, o)
            &&& forall|v: VarnodeId| #[trigger] maker(t.edits, v) == maker(s.edits, v)
        }),
    decreases n,
{
    broadcast use group_flow;

    if n > 0 {
        lemma_fill(g, s, op, vns, n - 1);
    }
}

/// Replacing the inputs of an operation gives it those inputs, in order, and
/// changes nothing else.
pub proof fn law_inputs_replaced(g: GraphView, s: ScriptView, op: OpId, vns: Seq<VarnodeId>)
    requires
        vns.len() <= i32::MAX,
    ensures
        ({
            let t = s.set_all_input(op, vns);
            &&& t.next_op == s.next_op && t.next_vn == s.next_vn && t.loads == s.loads
            &&& slots(g, t.edits, op) =~= vns.map_values(|v: VarnodeId| Some(v))
            &&& forall|o: OpId|
                o != op ==> #[trigger] slots(g, t.edits, o) == slots(g, s.edits, o)
            &&& forall|o: OpId| #[trigger] code(g, t.edits, o) == code(g, s.edits, o)
            &&& forall|o: OpId| #[trigger] output(g, t.edits, o) == output(g, s.edits, o)
            &&& forall|o: OpId| #[trigger] mover(t.edits, o) == mover(s.edits, o)
            &&& forall|v: VarnodeId| #[trigger] maker(t.edits, v) == maker(s.edits, v)
        }),
{
    broadcast use group_flow;

    let s1 = s.then_do(Edit::SetInputCount { op, count: vns.len() as i32 });
    lemma_fill(g, s1, op, vns, vns.len() as int);
}

} // verus!
