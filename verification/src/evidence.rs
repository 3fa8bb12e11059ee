//! What the code around a call is evidence of.
use crate::callspec::CallView;
use crate::deadarg;
use crate::effects;
use crate::entrymap;
use crate::graph::{GraphView, OpView, VarnodeId};
use crate::opcode::OpCode;
use crate::preserves;
use crate::preserves::WritesView;
use crate::space::{AddrSpace, Address, SpaceType, VarnodeData};
use vstd::prelude::*;

verus! {

/// The varnode is written by an operation of the graph with this code.
pub open spec fn written_by(g: GraphView, v: VarnodeId, code: OpCode) -> bool {
    v.0 < g.varnodes.len() && (g.varnodes[v.0 as int].def matches Some(d) && d.0 < g.ops.len()
        && g.ops[d.0 as int].code == code)
}

/// The operation that writes the varnode.
pub open spec fn writer_op(g: GraphView, v: VarnodeId) -> OpView {
    g.ops[(g.varnodes[v.0 as int].def->0).0 as int]
}

/// A call leaves the varnode behind: it writes it, or creates it indirectly.
pub open spec fn left_by_call(g: GraphView, v: VarnodeId) -> bool {
    ||| written_by(g, v, OpCode::Call)
    ||| written_by(g, v, OpCode::CallInd)
    ||| written_by(g, v, OpCode::Indirect) && writer_op(g, v).creation
}

/// The varnode is moved, as a whole or in parts, from others.
pub open spec fn moved_here(g: GraphView, v: VarnodeId) -> bool {
    ||| written_by(g, v, OpCode::Copy)
    ||| written_by(g, v, OpCode::SubPiece)
    ||| written_by(g, v, OpCode::IntZext)
    ||| written_by(g, v, OpCode::IntSext)
    ||| written_by(g, v, OpCode::Piece)
    ||| written_by(g, v, OpCode::MultiEqual)
    ||| written_by(g, v, OpCode::Indirect) && !writer_op(g, v).creation
}

/// How many of the inputs of the operation that moves `v` are moved: both halves
/// of a concatenation, all of a merge, the first of anything else.
pub open spec fn moved_inputs(g: GraphView, v: VarnodeId) -> int {
    if written_by(g, v, OpCode::Piece) {
        2
    } else if written_by(g, v, OpCode::MultiEqual) {
        writer_op(g, v).inputs.len() as int
    } else {
        1
    }
}

/// The varnode `w` is the `i`-th of those that `v` is moved from.
pub open spec fn source(g: GraphView, v: VarnodeId, w: VarnodeId, i: int) -> bool {
    let ins = writer_op(g, v).inputs;
    moved_here(g, v) && 0 <= i < moved_inputs(g, v) && i < ins.len() && ins[i] == w
}

/// The varnode `w` is one of those that `v` is moved from.
pub open spec fn moved_from(g: GraphView, v: VarnodeId, w: VarnodeId) -> bool {
    exists|i: int| #[trigger] source(g, v, w, i)
}

/// Each varnode of the chain is moved from the next.
pub open spec fn chain(g: GraphView, c: Seq<VarnodeId>) -> bool {
    c.len() > 0 && forall|k: int|
        0 <= k < c.len() - 1 ==> moved_from(g, #[trigger] c[k], c[k + 1])
}

proof fn lemma_all(g: GraphView, v: VarnodeId, n: int, depth: int, i: int)
    requires
        v.0 < g.varnodes.len(),
        g.varnodes[v.0 as int].def is Some,
        (g.varnodes[v.0 as int].def->0).0 < g.ops.len(),
        deadarg::all_leftover(g, writer_op(g, v), n, depth),
        0 <= i < n,
    ensures
        ({
            let ins = writer_op(g, v).inputs;
            i < ins.len() && deadarg::leftover(g, ins[i], depth + 1)
        }),
    decreases n,
{
    reveal_with_fuel(deadarg::all_leftover, 2);
    if i < n - 1 {
        lemma_all(g, v, n - 1, depth, i);
    }
}

/// Only what calls left behind counts as left behind: whatever such a value is
/// moved from, over any number of steps, is in turn written by a call, created by
/// one, or moved from somewhere. It is never an input of the function, a constant
/// or something computed.
pub proof fn law_leftover_from_calls(g: GraphView, c: Seq<VarnodeId>, depth: int)
    requires
        chain(g, c),
        deadarg::leftover(g, c[0], depth),
    ensures
        left_by_call(g, c.last()) || moved_here(g, c.last()),
        depth + c.len() <= deadarg::MAX_LEFTOVER_DEPTH,
    decreases c.len(),
{
    reveal_with_fuel(deadarg::leftover, 2);
    let v = c[0];
    if c.len() > 1 {
        assert(c[0] == v);
        assert(moved_from(g, v, c[0int + 1]));
        let i = choose|i: int| #[trigger] source(g, v, c[1], i);
        let n = moved_inputs(g, v);
        assert(deadarg::all_leftover(g, writer_op(g, v), n, depth));
        lemma_all(g, v, n, depth, i);
        let rest = c.skip(1);
        assert(rest[0] == c[1]);
        assert(chain(g, rest)) by {
            assert forall|k: int| 0 <= k < rest.len() - 1 implies moved_from(
                g,
                #[trigger] rest[k],
                rest[k + 1],
            ) by {
                assert(rest[k] == c[k + 1]);
                assert(rest[k + 1] == c[k + 1 + 1]);
            }
        }
        law_leftover_from_calls(g, rest, depth + 1);
        assert(rest.last() == c.last());
    }
}

proof fn lemma_all_from(g: GraphView, v: VarnodeId, n: int, depth: int)
    requires
        v.0 < g.varnodes.len(),
        g.varnodes[v.0 as int].def is Some,
        (g.varnodes[v.0 as int].def->0).0 < g.ops.len(),
        depth < deadarg::MAX_LEFTOVER_DEPTH,
        n <= writer_op(g, v).inputs.len(),
        forall|i: int|
            0 <= i < n ==> deadarg::leftover(
                g,
                #[trigger] writer_op(g, v).inputs[i],
                depth + 1,
            ),
    ensures
        deadarg::all_leftover(g, writer_op(g, v), n, depth),
    decreases n,
{
    reveal_with_fuel(deadarg::all_leftover, 2);
    if n > 0 {
        lemma_all_from(g, v, n - 1, depth);
        assert(deadarg::leftover(
            g,
            writer_op(g, v).inputs[n - 1],
            depth + 1,
        ));
    }
}

/// What a call leaves behind counts as such, and so does what is moved from
/// nothing but that, as long as it is not moved too often.
pub proof fn law_moved_leftover(g: GraphView, v: VarnodeId, depth: int)
    requires
        0 <= depth < deadarg::MAX_LEFTOVER_DEPTH,
    ensures
        left_by_call(g, v) ==> deadarg::leftover(g, v, depth),
        moved_here(g, v) && moved_inputs(g, v)
            <= writer_op(g, v).inputs.len() && (forall|i: int|
            0 <= i < moved_inputs(g, v) ==> deadarg::leftover(
                g,
                #[trigger] writer_op(g, v).inputs[i],
                depth + 1,
            )) ==> deadarg::leftover(g, v, depth),
{
    reveal_with_fuel(deadarg::leftover, 2);
    if moved_here(g, v) && moved_inputs(g, v)
        <= writer_op(g, v).inputs.len() && (forall|i: int|
        0 <= i < moved_inputs(g, v) ==> deadarg::leftover(
            g,
            #[trigger] writer_op(g, v).inputs[i],
            depth + 1,
        )) {
        lemma_all_from(g, v, moved_inputs(g, v), depth);
    }
}

/// No byte belongs to both ranges of one space.
pub open spec fn clear_of(w: (i32, u64, i32), index: i32, offset: u64, size: int) -> bool {
    w.0 != index || w.1 + w.2 <= offset || offset + size <= w.1
}

/// The `k`-th range that the code writes is one that the convention says to
/// survive a call, in a space that is known, and not part of the stack pointer.
pub open spec fn against_convention(
    c: CallView,
    w: WritesView,
    spaces: Seq<AddrSpace>,
    pointer: Option<VarnodeData>,
    k: int,
    s: int,
) -> bool {
    let r = w.written[k];
    &&& 0 <= k < w.written.len()
    &&& 0 <= s < spaces.len()
    &&& spaces[s].index == r.0
    &&& forall|j: int| 0 <= j < s ==> (#[trigger] spaces[j]).index != r.0
    &&& pointer matches Some(p) ==> (p.space matches Some(x) ==> clear_of(
        r,
        x.index,
        p.offset,
        p.size as int,
    ))
    &&& c.proto.effect(Address { space: Some(spaces[s]), offset: r.1 }, r.2 as int)
        == effects::UNAFFECTED
}

proof fn lemma_space_with(spaces: Seq<AddrSpace>, index: i32, i: int, s: int)
    requires
        0 <= i <= s < spaces.len(),
        spaces[s].index == index,
        forall|j: int| 0 <= j < s ==> (#[trigger] spaces[j]).index != index,
    ensures
        preserves::space_with(spaces, index, i) == Some(spaces[s]),
    decreases s - i,
{
    if i < s {
        lemma_space_with(spaces, index, i + 1, s);
    }
}

/// A register survives a call against the convention where the whole code of the
/// callee was seen, none of it writes a byte of the register, and it does write
/// something that the convention says to survive: code that keeps to the
/// convention is no evidence against it.
pub proof fn law_register_survives(
    c: CallView,
    facts: Map<(i32, u64), WritesView>,
    spaces: Seq<AddrSpace>,
    pointer: Option<VarnodeData>,
    addr: Address,
    size: int,
    w: WritesView,
    k: int,
    s: int,
)
    requires
        addr.space matches Some(x) && x.type_ == SpaceType::Processor,
        c.proto.effectlist.len() == 0,
        entrymap::fact_at(facts, c.entryaddress) == Some(w),
        w.complete,
        size > 0,
        addr.offset + size <= u64::MAX,
        forall|i: int|
            0 <= i < w.written.len() ==> clear_of(
                #[trigger] w.written[i],
                addr.space->0.index,
                addr.offset,
                size,
            ),
        against_convention(c, w, spaces, pointer, k, s),
    ensures
        preserves::preserved(true, c, facts, spaces, pointer, addr, size),
        !preserves::preserved(false, c, facts, spaces, pointer, addr, size),
{
    lemma_space_with(spaces, w.written[k].0, 0, s);
    assert forall|i: int| 0 <= i < w.written.len() implies !crate::probe::touches(
        #[trigger] w.written[i],
        addr.space->0.index,
        addr.offset,
        size,
    ) by {
        assert(clear_of(w.written[i], addr.space->0.index, addr.offset, size));
    }
    assert(preserves::departs(w.written[k], c, spaces, pointer));
}

} // verus!
