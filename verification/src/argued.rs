//! The arguments that a call is given are the values of its parameters.
use crate::active;
use crate::callsite;
use crate::callspec::CallView;
use crate::flow;
use crate::graph::{GraphView, OpId, Varnode, VarnodeId};
use crate::opcode::OpCode;
use crate::script::{Edit, ScriptView};
use crate::space::{Address, SpaceType};
use crate::trial::ParamTrial;
use crate::wired;
use vstd::prelude::*;

verus! {

/// How many of the first `n` trials are parameters.
pub open spec fn used_count(ts: Seq<ParamTrial>, n: int) -> int
    decreases n,
{
    if n <= 0 {
        0
    } else {
        used_count(ts, n - 1) + (if ts[n - 1].flags.used {
            1int
        } else {
            0int
        })
    }
}

/// The location of the trial seen from the caller: what is relative to the
/// stack pointer of the callee is moved by the distance of the two.
pub open spec fn seen_from_caller(c: CallView, t: ParamTrial, a: Address) -> bool {
    let sp = t.addr.space->0;
    let sum = c.stackoffset + t.addr.offset;
    if sp.type_ == SpaceType::Spacebase {
        &&& a.space == Some(sp)
        &&& sum <= sp.highest ==> a.offset == sum
        &&& 0 <= sum - 0x1_0000_0000_0000_0000 <= sp.highest ==> a.offset == sum
            - 0x1_0000_0000_0000_0000
    } else {
        a == t.addr
    }
}

/// Where the `size` least significant bytes of the varnode are.
pub open spec fn low_bytes_at(v: Varnode, size: i32, big_endian: bool, a: Address) -> bool {
    if big_endian {
        &&& a.space == v.addr.space
        &&& v.addr.space is Some && v.addr.offset + v.size - size <= v.addr.space->0.highest
            ==> a.offset == v.addr.offset + v.size - size
    } else {
        a == v.addr
    }
}

/// The operation `p` in front of `op` cuts `cur` to its `size` least
/// significant bytes, which `out` holds.
pub open spec fn cuts(
    g: GraphView,
    edits: Seq<Edit>,
    p: OpId,
    op: OpId,
    cur: VarnodeId,
    v: Varnode,
    size: i32,
    big_endian: bool,
    out: VarnodeId,
    zero: VarnodeId,
    at: Address,
) -> bool {
    let r = flow::slots(g, edits, p);
    &&& flow::code(g, edits, p) == Some(OpCode::SubPiece)
    &&& flow::output(g, edits, p) == Some(out)
    &&& r.len() == 2
    &&& r[0] == Some(cur)
    &&& r[1] == Some(zero)
    &&& flow::maker(edits, zero) == Some(Edit::NewConstant { vn: zero, size: 1, value: 0 })
    &&& flow::maker(edits, out) == Some(Edit::NewVarnodeOut { vn: out, size, addr: at, op: p })
    &&& low_bytes_at(v, size, big_endian, at)
    &&& flow::mover(edits, p) == Some(Edit::InsertBefore { op: p, at: op })
}

/// The varnode is the argument of the trial: a new one with the storage of a
/// trial that nothing refers to, the value that the call has for the trial, or
/// the least significant bytes of that value if it is wider. What it is made of
/// is numbered below `vtop` and `otop`.
pub open spec fn argument_of(
    g: GraphView,
    edits: Seq<Edit>,
    c: CallView,
    t: ParamTrial,
    big_endian: bool,
    out: VarnodeId,
    vtop: int,
    otop: int,
) -> bool {
    let cur = g.ops[c.op.0 as int].inputs[t.slot as int];
    if t.flags.unref {
        &&& out.0 < vtop
        &&& exists|a: Address|
            flow::maker(edits, out) == Some(Edit::NewVarnode { vn: out, size: t.size, addr: a })
                && #[trigger] seen_from_caller(c, t, a)
    } else if cur.0 < g.varnodes.len() && g.varnodes[cur.0 as int].size > t.size {
        &&& out.0 < vtop
        &&& exists|p: OpId, zero: VarnodeId, at: Address|
            g.ops.len() <= p.0 < otop && zero.0 < vtop && #[trigger] cuts(
                g,
                edits,
                p,
                c.op,
                cur,
                g.varnodes[cur.0 as int],
                t.size,
                big_endian,
                out,
                zero,
                at,
            )
    } else {
        out == cur
    }
}

proof fn lemma_argument_kept(
    g: GraphView,
    a: Seq<Edit>,
    b: Seq<Edit>,
    c: CallView,
    t: ParamTrial,
    big_endian: bool,
    out: VarnodeId,
    vtop: int,
    otop: int,
    vtop2: int,
    otop2: int,
)
    requires
        argument_of(g, a, c, t, big_endian, out, vtop, otop),
        wired::kept(g, a, b, c.op, vtop, otop),
        vtop <= vtop2,
        otop <= otop2,
        c.op.0 < g.ops.len(),
    ensures
        argument_of(g, b, c, t, big_endian, out, vtop2, otop2),
{
    let cur = g.ops[c.op.0 as int].inputs[t.slot as int];
    if t.flags.unref {
        assert(flow::maker(b, out) == flow::maker(a, out));
    } else if cur.0 < g.varnodes.len() && g.varnodes[cur.0 as int].size > t.size {
        let v = g.varnodes[cur.0 as int];
        let (p, zero, at) = choose|p: OpId, zero: VarnodeId, at: Address|
            g.ops.len() <= p.0 < otop && zero.0 < vtop && #[trigger] cuts(
                g,
                a,
                p,
                c.op,
                cur,
                v,
                t.size,
                big_endian,
                out,
                zero,
                at,
            );
        assert(flow::maker(b, out) == flow::maker(a, out));
        assert(flow::maker(b, zero) == flow::maker(a, zero));
        assert(flow::code(g, b, p) == flow::code(g, a, p));
        assert(flow::slots(g, b, p) == flow::slots(g, a, p));
        assert(cuts(g, b, p, c.op, cur, v, t.size, big_endian, out, zero, at));
    }
}

/// The trial has storage, and the call has a value for it unless nothing refers
/// to it.
pub open spec fn passable(c: CallView, g: GraphView, t: ParamTrial) -> bool {
    t.addr.space is Some && (t.flags.unref || 0 <= t.slot < g.ops[c.op.0 as int].inputs.len())
}

proof fn lemma_truncated(
    g: GraphView,
    s: ScriptView,
    op: OpId,
    cur: VarnodeId,
    v: Varnode,
    size: i32,
    big_endian: bool,
)
    requires
        op.0 < g.ops.len(),
        flow::numbered(g, s, 1, 2),
        v.size > size >= 0,
    ensures
        ({
            let (out, t) = callsite::truncated(g, s, op, cur, v, size, big_endian);
            &&& out == VarnodeId(s.next_vn)
            &&& exists|at: Address|
                #[trigger] cuts(
                    g,
                    t.edits,
                    OpId(s.next_op),
                    op,
                    cur,
                    v,
                    size,
                    big_endian,
                    out,
                    VarnodeId((s.next_vn + 1) as u64),
                    at,
                )
            &&& wired::kept(g, s.edits, t.edits, op, s.next_vn as int, s.next_op as int)
            &&& t.next_vn == s.next_vn + 2
            &&& t.next_op == s.next_op + 1
        }),
{
    broadcast use flow::group_flow;

    let at = if big_endian {
        v.addr.plus(v.size - size)
    } else {
        v.addr
    };
    let (out, t) = callsite::truncated(g, s, op, cur, v, size, big_endian);
    assert(cuts(
        g,
        t.edits,
        OpId(s.next_op),
        op,
        cur,
        v,
        size,
        big_endian,
        out,
        VarnodeId((s.next_vn + 1) as u64),
        at,
    ));
}

proof fn lemma_passed(c: CallView, g: GraphView, s: ScriptView, t: ParamTrial, big_endian: bool)
    requires
        c.op.0 < g.ops.len(),
        passable(c, g, t),
        t.size >= 0,
        flow::numbered(g, s, 1, 2),
    ensures
        ({
            let (out, u) = c.passed(g, s, t, big_endian);
            &&& out is Some
            &&& argument_of(
                g,
                u.edits,
                c,
                t,
                big_endian,
                out->0,
                u.next_vn as int,
                u.next_op as int,
            )
            &&& wired::kept(g, s.edits, u.edits, c.op, s.next_vn as int, s.next_op as int)
            &&& s.next_vn <= u.next_vn <= s.next_vn + 2
            &&& s.next_op <= u.next_op <= s.next_op + 1
        }),
{
    let (out, u) = c.passed(g, s, t, big_endian);
    let cur = g.ops[c.op.0 as int].inputs[t.slot as int];
    if t.flags.unref {
        broadcast use flow::group_flow;

        assert(seen_from_caller(c, t, c.caller_address(t)));
    } else if cur.0 < g.varnodes.len() && g.varnodes[cur.0 as int].size > t.size {
        lemma_truncated(g, s, c.op, cur, g.varnodes[cur.0 as int], t.size, big_endian);
    }
}

/// The arguments found so far are those of the first `n` trials.
pub open spec fn arguments_right(
    c: CallView,
    g: GraphView,
    vns: Seq<VarnodeId>,
    s: ScriptView,
    base: int,
    n: int,
    big_endian: bool,
) -> bool {
    forall|j: int|
        0 <= j < n && (#[trigger] c.activeinput.trial[j]).flags.used ==> argument_of(
            g,
            s.edits,
            c,
            c.activeinput.trial[j],
            big_endian,
            vns[base + used_count(c.activeinput.trial, j)],
            s.next_vn as int,
            s.next_op as int,
        )
}

proof fn lemma_count(ts: Seq<ParamTrial>, j: int, n: int)
    requires
        0 <= j <= n,
    ensures
        0 <= used_count(ts, j) <= used_count(ts, n) <= n,
        j < n && ts[j].flags.used ==> used_count(ts, j) < used_count(ts, n),
    decreases n,
{
    if j < n {
        lemma_count(ts, j, n - 1);
    } else if n > 0 {
        lemma_count(ts, j - 1, n - 1);
    }
}

proof fn lemma_arguments(
    c: CallView,
    g: GraphView,
    s: ScriptView,
    first: Seq<VarnodeId>,
    n: int,
    big_endian: bool,
)
    requires
        0 <= n <= c.activeinput.trial.len(),
        c.op.0 < g.ops.len(),
        flow::numbered(g, s, n, 2 * n),
        forall|j: int|
            0 <= j < n && (#[trigger] c.activeinput.trial[j]).flags.used ==> passable(
                c,
                g,
                c.activeinput.trial[j],
            ) && c.activeinput.trial[j].size >= 0,
    ensures
        ({
            let (vns, t) = c.arguments(g, s, first, n, big_endian);
            &&& vns.len() == first.len() + used_count(c.activeinput.trial, n)
            &&& vns.take(first.len() as int) =~= first
            &&& arguments_right(c, g, vns, t, first.len() as int, n, big_endian)
            &&& wired::kept(g, s.edits, t.edits, c.op, s.next_vn as int, s.next_op as int)
            &&& s.next_vn <= t.next_vn <= s.next_vn + 2 * n
            &&& s.next_op <= t.next_op <= s.next_op + n
        }),
    decreases n,
{
    let ts = c.activeinput.trial;
    if n > 0 {
        lemma_arguments(c, g, s, first, n - 1, big_endian);
        let (vns, s1) = c.arguments(g, s, first, n - 1, big_endian);
        let (ws, s3) = c.arguments(g, s, first, n, big_endian);
        let t = ts[n - 1];
        let base = first.len() as int;
        lemma_count(ts, 0, n - 1);
        if t.flags.used {
            lemma_passed(c, g, s1, t, big_endian);
            let (out, s2) = c.passed(g, s1, t, big_endian);
            assert(ws == vns.push(out->0));
            lemma_unmapped(g, s2, c, t);
            wired::lemma_kept_chain(
                g,
                s1.edits,
                s2.edits,
                s3.edits,
                c.op,
                s1.next_vn as int,
                s1.next_op as int,
                s2.next_vn as int,
                s2.next_op as int,
            );
            wired::lemma_kept_chain(
                g,
                s.edits,
                s1.edits,
                s3.edits,
                c.op,
                s.next_vn as int,
                s.next_op as int,
                s1.next_vn as int,
                s1.next_op as int,
            );
            assert forall|j: int| 0 <= j < n && (#[trigger] ts[j]).flags.used implies argument_of(
                g,
                s3.edits,
                c,
                ts[j],
                big_endian,
                ws[base + used_count(ts, j)],
                s3.next_vn as int,
                s3.next_op as int,
            ) by {
                lemma_count(ts, j, n - 1);
                if j < n - 1 {
                    assert(ws[base + used_count(ts, j)] == vns[base + used_count(ts, j)]);
                    lemma_argument_kept(
                        g,
                        s1.edits,
                        s3.edits,
                        c,
                        ts[j],
                        big_endian,
                        vns[base + used_count(ts, j)],
                        s1.next_vn as int,
                        s1.next_op as int,
                        s3.next_vn as int,
                        s3.next_op as int,
                    );
                } else {
                    lemma_argument_kept(
                        g,
                        s2.edits,
                        s3.edits,
                        c,
                        t,
                        big_endian,
                        out->0,
                        s2.next_vn as int,
                        s2.next_op as int,
                        s3.next_vn as int,
                        s3.next_op as int,
                    );
                }
            }
            assert(ws.take(base) =~= vns.take(base));
        }
    }
}

/// Marking a stack range as no local variable changes no value.
proof fn lemma_unmapped(g: GraphView, s: ScriptView, c: CallView, t: ParamTrial)
    ensures
        ({
            let e = Edit::NotMapped {
                space: t.addr.space->0,
                offset: c.caller_address(t).offset,
                size: t.size,
            };
            wired::kept(
                g,
                s.edits,
                s.then_do(e).edits,
                c.op,
                s.next_vn as int,
                s.next_op as int,
            )
        }),
        wired::kept(g, s.edits, s.edits, c.op, s.next_vn as int, s.next_op as int),
{
    broadcast use flow::group_flow;

}

/// A call gets its target as the first input and then one argument for each
/// trial that is a parameter, in their order: the value that it has for the
/// trial, the low bytes of it if it is wider than the parameter, or a new
/// varnode in the place of the parameter, seen from the caller, if nothing
/// refers to it.
pub proof fn law_arguments_given(c: CallView, g: GraphView, s: ScriptView, big_endian: bool)
    requires
        c.op.0 < g.ops.len(),
        g.ops[c.op.0 as int].inputs.len() > 0,
        c.activeinput.trial.len() < i32::MAX,
        flow::numbered(
            g,
            s,
            c.activeinput.trial.len() as int,
            2 * c.activeinput.trial.len() as int,
        ),
        forall|j: int|
            0 <= j < c.activeinput.trial.len() && (#[trigger] c.activeinput.trial[j]).flags.used
                ==> passable(c, g, c.activeinput.trial[j]) && c.activeinput.trial[j].size >= 0,
    ensures
        ({
            let ts = c.activeinput.trial;
            let (vns, s1) = c.final_inputs(g, s, big_endian);
            let t = s1.set_all_input(c.op, vns);
            let r = flow::slots(g, t.edits, c.op);
            &&& r.len() == 1 + used_count(ts, ts.len() as int)
            &&& r[0] == Some(g.ops[c.op.0 as int].inputs[0])
            &&& forall|j: int|
                0 <= j < ts.len() && (#[trigger] ts[j]).flags.used ==> r[1 + used_count(ts, j)]
                    is Some && argument_of(
                    g,
                    t.edits,
                    c,
                    ts[j],
                    big_endian,
                    r[1 + used_count(ts, j)]->0,
                    t.next_vn as int,
                    t.next_op as int,
                )
        }),
{
    let ts = c.activeinput.trial;
    let n = ts.len() as int;
    let first = c.target_list(g);
    lemma_arguments(c, g, s, first, n, big_endian);
    lemma_count(ts, 0, n);
    let (vns, s1) = c.final_inputs(g, s, big_endian);
    flow::law_inputs_replaced(g, s1, c.op, vns);
    let t = s1.set_all_input(c.op, vns);
    let r = flow::slots(g, t.edits, c.op);
    assert(vns[0] == vns.take(1)[0]);
    assert(wired::kept(g, s1.edits, t.edits, c.op, s1.next_vn as int, s1.next_op as int));
    assert forall|j: int| 0 <= j < n && (#[trigger] ts[j]).flags.used implies r[1 + used_count(
        ts,
        j,
    )] is Some && argument_of(
        g,
        t.edits,
        c,
        ts[j],
        big_endian,
        r[1 + used_count(ts, j)]->0,
        t.next_vn as int,
        t.next_op as int,
    ) by {
        lemma_count(ts, j, n);
        assert(r[1 + used_count(ts, j)] == Some(vns[1 + used_count(ts, j)]));
        lemma_argument_kept(
            g,
            s1.edits,
            t.edits,
            c,
            ts[j],
            big_endian,
            vns[1 + used_count(ts, j)],
            s1.next_vn as int,
            s1.next_op as int,
            t.next_vn as int,
            t.next_op as int,
        );
    }
}

/// A settled call keeps exactly the trials that are parameters, in their order
/// and in the slots of the arguments, and where each of them is.
pub proof fn law_arguments_kept(c: CallView, n: int, j: int)
    requires
        0 <= j < n <= c.activeinput.trial.len(),
    ensures
        ({
            let ts = c.activeinput.trial;
            let kept = active::used_trials(ts, n);
            let places = callsite::used_storage(ts, n);
            &&& kept.len() == used_count(ts, n)
            &&& places.len() == used_count(ts, n)
            &&& ts[j].flags.used ==> kept[used_count(ts, j)] == (ParamTrial {
                slot: (1 + used_count(ts, j)) as i32,
                ..ts[j]
            }) && places[used_count(ts, j)] == (ts[j].addr, ts[j].size)
        }),
    decreases n,
{
    let ts = c.activeinput.trial;
    lemma_count(ts, j, n);
    if n > 1 {
        if j < n - 1 {
            law_arguments_kept(c, n - 1, j);
            lemma_count(ts, j, n - 1);
        } else {
            law_arguments_kept(c, n - 1, 0);
        }
    } else {
        reveal_with_fuel(active::used_trials, 2);
        reveal_with_fuel(callsite::used_storage, 2);
        reveal_with_fuel(used_count, 2);
    }
}

/// Every stack range that passes an argument is marked as holding no local
/// variable.
pub proof fn law_argument_ranges(
    c: CallView,
    g: GraphView,
    s: ScriptView,
    first: Seq<VarnodeId>,
    n: int,
    big_endian: bool,
    j: int,
)
    requires
        0 <= j < n <= c.activeinput.trial.len(),
        c.activeinput.trial[j].flags.used,
        passable(c, g, c.activeinput.trial[j]),
        c.op.0 < g.ops.len(),
        c.activeinput.trial[j].addr.space->0.type_ == SpaceType::Spacebase,
    ensures
        ({
            let t = c.activeinput.trial[j];
            let e = c.arguments(g, s, first, n, big_endian).1.edits;
            exists|k: int, a: Address|
                0 <= k < e.len() && #[trigger] seen_from_caller(c, t, a) && #[trigger] e[k] == (
                Edit::NotMapped { space: a.space->0, offset: a.offset, size: t.size })
        }),
    decreases n,
{
    let t = c.activeinput.trial[j];
    let (vns, s1) = c.arguments(g, s, first, n - 1, big_endian);
    let e = c.arguments(g, s, first, n, big_endian).1.edits;
    if j < n - 1 {
        law_argument_ranges(c, g, s, first, n - 1, big_endian, j);
        let f = s1.edits;
        let (k, a) = choose|k: int, a: Address|
            0 <= k < f.len() && #[trigger] seen_from_caller(c, t, a) && #[trigger] f[k] == (
            Edit::NotMapped { space: a.space->0, offset: a.offset, size: t.size });
        assert(e.len() >= f.len() && e[k] == f[k]);
    } else {
        let a = c.caller_address(t);
        assert(seen_from_caller(c, t, a));
        let k = e.len() - 1;
        assert(e[k] == (Edit::NotMapped { space: a.space->0, offset: a.offset, size: t.size }));
    }
}

} // verus!
