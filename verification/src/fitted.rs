//! A call whose prototype was changed late reads the values of its parameters,
//! and what its former outputs held is taken from its return value.
use crate::callspec::CallView;
use crate::commit;
use crate::commit::InputCommit;
use crate::dtype::TypeMetatype;
use crate::flow;
use crate::graph::{GraphView, OpId, VarnodeId};
use crate::opcode::OpCode;
use crate::pieced;
use crate::proto;
use crate::script::{Edit, ScriptView};
use crate::space::{Address, SpaceType};
use crate::store::ParamView;
use crate::trial::ParamTrial;
use crate::wired;
use vstd::prelude::*;

verus! {

/// The operation `q` in front of `op` gives in `out` the `size` least
/// significant bytes of `v`. A free varnode that has a reader is read through a
/// second varnode with the same storage.
pub open spec fn cut_low(
    g: GraphView,
    edits: Seq<Edit>,
    q: OpId,
    op: OpId,
    v: VarnodeId,
    size: i32,
    out: VarnodeId,
    src: VarnodeId,
    zero: VarnodeId,
) -> bool {
    let x = g.varnodes[v.0 as int];
    let r = flow::slots(g, edits, q);
    &&& flow::code(g, edits, q) == Some(OpCode::SubPiece)
    &&& flow::output(g, edits, q) == Some(out)
    &&& flow::maker(edits, out) == Some(Edit::NewUniqueOut { vn: out, size, op: q })
    &&& flow::mover(edits, q) == Some(Edit::InsertBefore { op: q, at: op })
    &&& r.len() == 2
    &&& r[0] == Some(src)
    &&& r[1] == Some(zero)
    &&& flow::maker(edits, zero) == Some(Edit::NewConstant { vn: zero, size: 4, value: 0 })
    &&& if x.free && !x.constant() && x.readers != 0 {
        flow::maker(edits, src) == Some(Edit::NewVarnode { vn: src, size: x.size, addr: x.addr })
    } else {
        src == v
    }
}

/// The varnode is what the call passes for the parameter: the value that is
/// there, its least significant bytes if it has another size, or what is loaded
/// from the bytes of the parameter if there is none. What it is made of is
/// numbered below `vtop` and `otop`.
pub open spec fn passed_as(
    g: GraphView,
    edits: Seq<Edit>,
    op: OpId,
    v: Option<VarnodeId>,
    p: ParamView,
    stackref: Option<VarnodeId>,
    out: VarnodeId,
    vtop: int,
    otop: int,
) -> bool {
    &&& out.0 < vtop
    &&& match v {
        None => flow::maker(edits, out) == Some(
            Edit::StackLoad {
                vn: out,
                space: p.addr.space->0,
                offset: p.addr.offset,
                bytes: p.size() as u32,
                op,
                stackref,
            },
        ),
        Some(v) => if g.varnodes[v.0 as int].size == p.size() {
            out == v
        } else {
            exists|q: OpId, src: VarnodeId, zero: VarnodeId|
                g.ops.len() <= q.0 < otop && src.0 < vtop && zero.0 < vtop && #[trigger] cut_low(
                    g,
                    edits,
                    q,
                    op,
                    v,
                    p.size(),
                    out,
                    src,
                    zero,
                )
        },
    }
}

proof fn lemma_passed_kept(
    g: GraphView,
    e: Seq<Edit>,
    f: Seq<Edit>,
    op: OpId,
    v: Option<VarnodeId>,
    p: ParamView,
    stackref: Option<VarnodeId>,
    out: VarnodeId,
    vtop: int,
    otop: int,
    vtop2: int,
    otop2: int,
)
    requires
        passed_as(g, e, op, v, p, stackref, out, vtop, otop),
        wired::kept(g, e, f, op, vtop, otop),
        vtop <= vtop2,
        otop <= otop2,
        op.0 < g.ops.len(),
    ensures
        passed_as(g, f, op, v, p, stackref, out, vtop2, otop2),
{
    assert(flow::maker(f, out) == flow::maker(e, out));
    if v is Some && g.varnodes[(v->0).0 as int].size != p.size() {
        let (q, src, zero) = choose|q: OpId, src: VarnodeId, zero: VarnodeId|
            g.ops.len() <= q.0 < otop && src.0 < vtop && zero.0 < vtop && #[trigger] cut_low(
                g,
                e,
                q,
                op,
                v->0,
                p.size(),
                out,
                src,
                zero,
            );
        assert(flow::maker(f, src) == flow::maker(e, src));
        assert(flow::maker(f, zero) == flow::maker(e, zero));
        assert(flow::code(g, f, q) == flow::code(g, e, q));
        assert(flow::slots(g, f, q) == flow::slots(g, e, q));
        assert(cut_low(g, f, q, op, v->0, p.size(), out, src, zero));
    }
}

/// The value of a parameter can be made.
pub open spec fn makeable(g: GraphView, v: Option<VarnodeId>, p: ParamView) -> bool {
    match v {
        Some(v) => v.0 < g.varnodes.len(),
        None => p.addr.space is Some,
    }
}

proof fn lemma_built(
    g: GraphView,
    op: OpId,
    s: ScriptView,
    v: Option<VarnodeId>,
    p: ParamView,
    stackref: Option<VarnodeId>,
)
    requires
        op.0 < g.ops.len(),
        s.loads,
        makeable(g, v, p),
        flow::numbered(g, s, 1, 3),
    ensures
        ({
            let (out, t) = commit::built(op, g, s, v, p.addr, p.size(), stackref);
            &&& out is Some
            &&& passed_as(
                g,
                t.edits,
                op,
                v,
                p,
                stackref,
                out->0,
                t.next_vn as int,
                t.next_op as int,
            )
            &&& s.next_vn <= t.next_vn <= s.next_vn + 3
            &&& s.next_op <= t.next_op <= s.next_op + 1
            &&& t.loads
            &&& wired::kept(g, s.edits, t.edits, op, s.next_vn as int, s.next_op as int)
            &&& flow::slots(g, t.edits, op) == flow::slots(g, s.edits, op)
        }),
{
    broadcast use flow::group_flow;

    let (out, t) = commit::built(op, g, s, v, p.addr, p.size(), stackref);
    if v is Some && g.varnodes[(v->0).0 as int].size != p.size() {
        let x = g.varnodes[(v->0).0 as int];
        let fresh = x.free && !x.constant() && x.readers != 0;
        let src = if fresh {
            VarnodeId((s.next_vn + 1) as u64)
        } else {
            v->0
        };
        let zero = VarnodeId((s.next_vn + if fresh { 2int } else { 1int }) as u64);
        assert(cut_low(g, t.edits, OpId(s.next_op), op, v->0, p.size(), out->0, src, zero));
    }
}

/// The `k`-th parameter has its trial: active, at its storage.
pub open spec fn has_trial(t: ParamTrial, p: ParamView) -> bool {
    t.addr == p.addr && t.size == p.size() && t.flags.active && !t.flags.defnouse
}

/// The first `n` parameters are set up.
pub open spec fn set_up(
    g: GraphView,
    op: OpId,
    params: Seq<Option<ParamView>>,
    n: int,
    stackref: Option<VarnodeId>,
    newinput: Seq<Option<VarnodeId>>,
    c: InputCommit,
) -> bool {
    &&& !c.failed
    &&& c.inputs.len() == newinput.len()
    &&& c.active.trial.len() == n
    &&& forall|k: int| 0 <= k < newinput.len() && !(1 <= k <= n) ==> #[trigger] c.inputs[k] == newinput[k]
    &&& forall|k: int|
        1 <= k <= n ==> (#[trigger] c.inputs[k]) is Some && passed_as(
            g,
            c.script.edits,
            op,
            newinput[k],
            params[k - 1]->0,
            stackref,
            c.inputs[k]->0,
            c.script.next_vn as int,
            c.script.next_op as int,
        )
    &&& forall|k: int| 0 <= k < n ==> has_trial(#[trigger] c.active.trial[k], params[k]->0)
}

/// The parameter lies on the stack.
pub open spec fn stacked(p: Option<ParamView>) -> bool {
    p is Some && p->0.addr.space is Some && p->0.addr.space->0.type_ == SpaceType::Spacebase
}

/// The `k`-th parameter is the first that lies on the stack.
pub open spec fn first_stacked(params: Seq<Option<ParamView>>, k: int) -> bool {
    stacked(params[k]) && forall|j: int| 0 <= j < k ==> !stacked(#[trigger] params[j])
}

proof fn lemma_built_all(
    g: GraphView,
    op: OpId,
    params: Seq<Option<ParamView>>,
    n: int,
    stackref: Option<VarnodeId>,
    start: InputCommit,
)
    requires
        0 <= n <= params.len(),
        n < start.inputs.len(),
        op.0 < g.ops.len(),
        start.script.loads,
        !start.failed,
        start.active.trial.len() == 0,
        start.looking,
        forall|k: int| 0 <= k < params.len() ==> (#[trigger] params[k]) is Some,
        forall|k: int|
            1 <= k <= n ==> makeable(g, #[trigger] start.inputs[k], params[k - 1]->0),
        flow::numbered(g, start.script, n, 3 * n),
    ensures
        ({
            let c = commit::inputs_built(op, g, params, n, stackref, start);
            let s = start.script;
            &&& set_up(g, op, params, n, stackref, start.inputs, c)
            &&& s.next_vn <= c.script.next_vn <= s.next_vn + 3 * n
            &&& s.next_op <= c.script.next_op <= s.next_op + n
            &&& c.script.loads
            &&& flow::slots(g, c.script.edits, op) == flow::slots(g, s.edits, op)
            &&& c.looking == (forall|k: int| 0 <= k < n ==> !stacked(#[trigger] params[k]))
            &&& c.placeholder == (if c.looking {
                start.placeholder
            } else {
                None
            })
            &&& forall|k: int|
                0 <= k < n && #[trigger] first_stacked(params, k) ==> c.script.edits.contains(
                    Edit::MarkPlaceholder { vn: c.inputs[k + 1]->0 },
                )
        }),
    decreases n,
{
    broadcast use flow::group_flow;

    if n > 0 {
        lemma_built_all(g, op, params, n - 1, stackref, start);
        let c = commit::inputs_built(op, g, params, n - 1, stackref, start);
        let d = commit::inputs_built(op, g, params, n, stackref, start);
        let p = params[n - 1]->0;
        assert(params[n - 1] is Some);
        assert(c.inputs[n] == start.inputs[n]);
        lemma_built(g, op, c.script, c.inputs[n], p, stackref);
        let (out, t) = commit::built(op, g, c.script, c.inputs[n], p.addr, p.size(), stackref);
        lemma_grows(op, g, c.script, c.inputs[n], p, stackref);
        assert(wired::kept(
            g,
            t.edits,
            d.script.edits,
            op,
            t.next_vn as int,
            t.next_op as int,
        ));
        wired::lemma_kept_chain(
            g,
            c.script.edits,
            t.edits,
            d.script.edits,
            op,
            c.script.next_vn as int,
            c.script.next_op as int,
            t.next_vn as int,
            t.next_op as int,
        );
        assert forall|k: int| 1 <= k <= n implies (#[trigger] d.inputs[k]) is Some && passed_as(
            g,
            d.script.edits,
            op,
            start.inputs[k],
            params[k - 1]->0,
            stackref,
            d.inputs[k]->0,
            d.script.next_vn as int,
            d.script.next_op as int,
        ) by {
            if k < n {
                assert(d.inputs[k] == c.inputs[k]);
                lemma_passed_kept(
                    g,
                    c.script.edits,
                    d.script.edits,
                    op,
                    start.inputs[k],
                    params[k - 1]->0,
                    stackref,
                    c.inputs[k]->0,
                    c.script.next_vn as int,
                    c.script.next_op as int,
                    d.script.next_vn as int,
                    d.script.next_op as int,
                );
            } else {
                lemma_passed_kept(
                    g,
                    t.edits,
                    d.script.edits,
                    op,
                    start.inputs[k],
                    params[k - 1]->0,
                    stackref,
                    out->0,
                    t.next_vn as int,
                    t.next_op as int,
                    d.script.next_vn as int,
                    d.script.next_op as int,
                );
            }
        }
        assert forall|k: int| 0 <= k < n implies has_trial(
            #[trigger] d.active.trial[k],
            params[k]->0,
        ) by {
            if k < n - 1 {
                assert(d.active.trial[k] == c.active.trial[k]);
            }
        }
        assert(c.looking && stacked(params[n - 1]) ==> first_stacked(params, n - 1));
        assert forall|k: int| 0 <= k < n && #[trigger] first_stacked(params, k) implies
            d.script.edits.contains(Edit::MarkPlaceholder { vn: d.inputs[k + 1]->0 }) by {
            if k < n - 1 {
                let e = Edit::MarkPlaceholder { vn: c.inputs[k + 1]->0 };
                let w = choose|w: int| 0 <= w < c.script.edits.len() && c.script.edits[w] == e;
                assert(t.edits[w] == e);
                assert(d.script.edits[w] == e);
                assert(d.inputs[k + 1] == c.inputs[k + 1]);
            } else {
                assert(c.looking) by {
                    assert forall|j: int| 0 <= j < n - 1 implies !stacked(#[trigger] params[j]) by {
                    }
                }
                assert(d.script.edits.last() == (Edit::MarkPlaceholder { vn: out->0 }));
            }
        }
    }
}

proof fn lemma_grows(
    op: OpId,
    g: GraphView,
    s: ScriptView,
    v: Option<VarnodeId>,
    p: ParamView,
    stackref: Option<VarnodeId>,
)
    ensures
        ({
            let t = commit::built(op, g, s, v, p.addr, p.size(), stackref).1;
            &&& s.edits.len() <= t.edits.len()
            &&& forall|w: int| 0 <= w < s.edits.len() ==> #[trigger] t.edits[w] == s.edits[w]
        }),
{
}

/// A call whose inputs are installed anew reads, for each parameter of its
/// locked prototype and in order, the value that is given for it: as it is if
/// the size is right, cut to its least significant bytes if not, and loaded from
/// the bytes of the parameter if none is given. Each parameter has an active
/// trial at its storage. What stands for the stack pointer stays behind the
/// inputs unless a parameter lies on the stack, the first of which takes over.
pub proof fn law_inputs_installed(
    c: CallView,
    g: GraphView,
    s: ScriptView,
    newinput: Seq<Option<VarnodeId>>,
)
    requires
        c.inputs_ready(g, newinput),
        c.proto.input_locked(),
        s.loads,
        0 < newinput.len() < i32::MAX,
        flow::numbered(g, s, c.proto.inputs().len() as int, 3 * c.proto.inputs().len() as int),
    ensures
        ({
            let (ok, call, list, t) = c.inputs_committed(g, s, newinput);
            let params = c.proto.inputs();
            let n = params.len() as int;
            let ph = g.input(c.op, c.stack_placeholder_slot as int);
            let plain = forall|k: int| 0 <= k < n ==> !stacked(#[trigger] params[k]);
            &&& ok
            &&& flow::slots(g, t.edits, c.op) =~= list
            &&& forall|k: int|
                0 <= k < newinput.len() && !(1 <= k <= n) ==> #[trigger] list[k] == newinput[k]
            &&& forall|k: int|
                1 <= k <= n ==> (#[trigger] list[k]) is Some && passed_as(
                    g,
                    t.edits,
                    c.op,
                    newinput[k],
                    params[k - 1]->0,
                    c.spacebase_relative(g),
                    list[k]->0,
                    t.next_vn as int,
                    t.next_op as int,
                )
            &&& if c.stack_placeholder_slot >= 0 && ph is Some && plain {
                &&& list.len() == newinput.len() + 1
                &&& list.last() == ph
                &&& call.stack_placeholder_slot == newinput.len()
            } else {
                &&& list.len() == newinput.len()
                &&& call.stack_placeholder_slot == -1
            }
            &&& call.activeinput.trial.len() == n
            &&& forall|k: int|
                0 <= k < n ==> has_trial(#[trigger] call.activeinput.trial[k], params[k]->0)
            &&& call.isinputactive == (c.isinputactive && c.proto.flag(proto::DOTDOTDOT))
        }),
{
    let params = c.proto.inputs();
    let n = params.len() as int;
    let start = c.commit_start(g, s, newinput);
    let back = c.spacebase_relative(g);
    lemma_built_all(g, c.op, params, n, back, start);
    let b = commit::inputs_built(c.op, g, params, n, back, start);
    let (ok, call, list, t) = c.inputs_committed(g, s, newinput);
    let listed = match b.placeholder {
        Some(ph) => b.inputs.push(Some(ph)),
        None => b.inputs,
    };
    assert(list == listed);
    assert forall|k: int| 0 <= k < list.len() implies (#[trigger] list[k]) is Some by {
        if k < newinput.len() {
            assert(list[k] == b.inputs[k]);
            if !(1 <= k <= n) {
                assert(newinput[k] is Some);
            }
        }
    }
    flow::law_inputs_replaced(g, b.script, c.op, commit::given(list));
    assert(flow::slots(g, t.edits, c.op) =~= list);
    assert(wired::kept(
        g,
        b.script.edits,
        t.edits,
        c.op,
        b.script.next_vn as int,
        b.script.next_op as int,
    ));
    assert forall|k: int| 1 <= k <= n implies (#[trigger] list[k]) is Some && passed_as(
        g,
        t.edits,
        c.op,
        newinput[k],
        params[k - 1]->0,
        back,
        list[k]->0,
        t.next_vn as int,
        t.next_op as int,
    ) by {
        assert(list[k] == b.inputs[k]);
        lemma_passed_kept(
            g,
            b.script.edits,
            t.edits,
            c.op,
            newinput[k],
            params[k - 1]->0,
            back,
            b.inputs[k]->0,
            b.script.next_vn as int,
            b.script.next_op as int,
            t.next_vn as int,
            t.next_op as int,
        );
    }
}

/// The `isize` bytes at `inner` are some of the `size` bytes at `addr`, which do
/// not run over the end of their space.
pub open spec fn bytes_within(addr: Address, size: int, inner: Address, isize: int) -> bool {
    &&& addr.space matches Some(s) && s.type_ != SpaceType::Constant && addr.offset + size
        <= s.highest + 1
    &&& inner.space == addr.space
    &&& addr.offset <= inner.offset
    &&& inner.offset + isize <= addr.offset + size
    &&& 0 < isize && 0 < size <= i32::MAX
}

/// How many of the `size` bytes at `addr` are less significant than the `isize`
/// bytes at `inner` among them.
pub open spec fn bytes_below(addr: Address, size: int, inner: Address, isize: int) -> int {
    if addr.space->0.big_endian {
        (addr.offset + size) - (inner.offset + isize)
    } else {
        inner.offset - addr.offset
    }
}

/// The `n` bytes at `a` are those of the `size` bytes at `addr` that have `below`
/// less significant ones.
pub open spec fn part_at(addr: Address, size: int, below: int, n: int, a: Address) -> bool {
    a.space == addr.space && bytes_below(addr, size, a, n) == below
}

/// The operation after the call gives in `v` the bytes of `main` that have
/// `below` less significant ones.
pub open spec fn takes_part(
    g: GraphView,
    edits: Seq<Edit>,
    call: OpId,
    q: OpId,
    v: VarnodeId,
    main: VarnodeId,
    below: int,
    k: VarnodeId,
) -> bool {
    let r = flow::slots(g, edits, q);
    &&& flow::code(g, edits, q) == Some(OpCode::SubPiece)
    &&& flow::output(g, edits, q) == Some(v)
    &&& flow::mover(edits, q) == Some(Edit::InsertAfter { op: q, at: call })
    &&& r.len() == 2
    &&& r[0] == Some(main)
    &&& r[1] == Some(k)
    &&& flow::maker(edits, k) == Some(Edit::NewConstant { vn: k, size: 4, value: below as u64 })
}

/// The varnode stands for `n` bytes at `a` that the call creates.
pub open spec fn created(edits: Seq<Edit>, call: OpId, v: VarnodeId, a: Address, n: int) -> bool {
    exists|o: OpId|
        flow::maker(edits, v) == Some(
            #[trigger] indirectly(o, v, call, a, n as i32),
        )
}

/// The change that makes bytes created by a call.
pub open spec fn indirectly(o: OpId, v: VarnodeId, call: OpId, a: Address, n: i32) -> Edit {
    Edit::NewIndirectCreation { op: o, vn: v, call, addr: a, size: n }
}

/// The varnode `v` with `size` bytes at `addr` is put together around `main`:
/// of the bytes below it, if there are any, and those above, if there are any,
/// which the call creates. `q` and `r` are the operations, `lo`, `mid` and `hi`
/// the varnodes that they read.
pub open spec fn around(
    g: GraphView,
    edits: Seq<Edit>,
    call: OpId,
    v: VarnodeId,
    addr: Address,
    size: int,
    main: VarnodeId,
    msize: int,
    low: int,
    q: OpId,
    r: OpId,
    lo: VarnodeId,
    mid: VarnodeId,
    hi: VarnodeId,
    lo_at: Address,
    hi_at: Address,
) -> bool {
    let high = size - msize - low;
    &&& low > 0 ==> {
        &&& created(edits, call, lo, lo_at, low)
        &&& part_at(addr, size, 0, low, lo_at)
        &&& pieced::puts_together(g, edits, q, if high > 0 { mid } else { v }, main, lo)
        &&& flow::mover(edits, q) == Some(Edit::InsertAfter { op: q, at: call })
    }
    &&& low > 0 && high > 0 ==> (flow::maker(edits, mid) matches Some(
        Edit::NewVarnodeOut { vn: _, size: w, addr: at, op: o },
    ) && o == q && w == low + msize && part_at(addr, size, 0, w as int, at))
    &&& high > 0 ==> {
        &&& created(edits, call, hi, hi_at, high)
        &&& part_at(addr, size, low + msize, high, hi_at)
        &&& pieced::puts_together(g, edits, r, v, hi, if low > 0 { mid } else { main })
        &&& flow::mover(edits, r) == Some(
            Edit::InsertAfter { op: r, at: if low > 0 { q } else { call } },
        )
    }
}

/// The code that extends a value whose extension is `asked`; one that depends
/// on the type keeps the sign of an integer.
pub open spec fn extends_by(asked: OpCode, integer: bool, code: OpCode) -> bool {
    match asked {
        OpCode::Piece => if integer {
            code == OpCode::IntSext
        } else {
            code == OpCode::IntZext
        },
        _ => code == asked,
    }
}

/// The operation is new, or the one other than the call that wrote `v` so far.
pub open spec fn free_for(g: GraphView, call: OpId, v: VarnodeId, q: OpId, otop: int) -> bool {
    ||| g.ops.len() <= q.0 < otop
    ||| g.varnodes[v.0 as int].def == Some(q) && q != call && q.0 < g.ops.len()
}

/// The former output `v` is taken from the return value `p` of the call, which
/// `main` holds: a narrower one is those bytes of it that it was, a wider one
/// extends it as the model assumes or is put together around it.
pub open spec fn taken_from(
    g: GraphView,
    edits: Seq<Edit>,
    c: CallView,
    p: ParamView,
    main: VarnodeId,
    mainaddr: Address,
    v: VarnodeId,
    vtop: int,
    otop: int,
) -> bool {
    let x = g.varnodes[v.0 as int];
    let low = bytes_below(x.addr, x.size as int, p.addr, p.size() as int);
    let asked = c.assumed_extension(p.addr, p.size() as int);
    if x.size < p.size() {
        exists|q: OpId, k: VarnodeId|
            free_for(g, c.op, v, q, otop) && k.0 < vtop && #[trigger] takes_part(
                g,
                edits,
                c.op,
                q,
                v,
                main,
                bytes_below(mainaddr, p.size() as int, x.addr, x.size as int),
                k,
            )
    } else if asked != OpCode::Copy && low == 0 {
        exists|q: OpId|
            free_for(g, c.op, v, q, otop) && (#[trigger] flow::code(g, edits, q)) is Some
                && extends_by(
                asked,
                p.is_kind(TypeMetatype::Int),
                flow::code(g, edits, q)->0,
            ) && flow::output(g, edits, q) == Some(v) && flow::slots(g, edits, q) =~= seq![
                Some(main),
            ] && flow::mover(edits, q) == Some(Edit::InsertAfter { op: q, at: c.op })
    } else {
        exists|
            q: OpId,
            r: OpId,
            lo: VarnodeId,
            mid: VarnodeId,
            hi: VarnodeId,
            lo_at: Address,
            hi_at: Address,
        |
            g.ops.len() <= q.0 < otop && g.ops.len() <= r.0 < otop && lo.0 < vtop && mid.0 < vtop
                && hi.0 < vtop && #[trigger] around(
                g,
                edits,
                c.op,
                v,
                x.addr,
                x.size as int,
                main,
                p.size() as int,
                low,
                q,
                r,
                lo,
                mid,
                hi,
                lo_at,
                hi_at,
            )
    }
}

/// What is numbered below the bounds is the same after both lists of changes,
/// but for the operation `ex`.
pub open spec fn kept_but(
    g: GraphView,
    a: Seq<Edit>,
    b: Seq<Edit>,
    ex: Option<OpId>,
    vtop: int,
    otop: int,
) -> bool {
    &&& forall|v: VarnodeId| v.0 < vtop ==> #[trigger] flow::maker(b, v) == flow::maker(a, v)
    &&& forall|p: OpId|
        p.0 < otop && Some(p) != ex ==> #[trigger] flow::code(g, b, p) == flow::code(g, a, p)
            && flow::output(g, b, p) == flow::output(g, a, p) && flow::mover(b, p) == flow::mover(
            a,
            p,
        ) && flow::slots(g, b, p) == flow::slots(g, a, p)
}

/// The operation other than the call that wrote the varnode so far.
pub open spec fn writer(g: GraphView, call: OpId, v: VarnodeId) -> Option<OpId> {
    let d = g.varnodes[v.0 as int].def;
    if d == Some(call) {
        None
    } else {
        d
    }
}

/// The former output can be taken from the return value: the smaller of the two
/// lies within the other, and the operation that wrote it, if it was not the
/// call, writes it and reads two varnodes.
pub open spec fn takeable(
    g: GraphView,
    call: OpId,
    p: ParamView,
    mainaddr: Address,
    v: VarnodeId,
) -> bool {
    let x = g.varnodes[v.0 as int];
    &&& v.0 < g.varnodes.len()
    &&& x.size < p.size() ==> bytes_within(mainaddr, p.size() as int, x.addr, x.size as int)
    &&& x.size > p.size() ==> bytes_within(x.addr, x.size as int, p.addr, p.size() as int)
    &&& writer(g, call, v) matches Some(o) ==> {
        &&& o.0 < g.ops.len()
        &&& g.ops[o.0 as int].output == Some(v)
        &&& g.ops[o.0 as int].inputs.len() == 2
    }
}

proof fn lemma_position(addr: Address, size: int, inner: Address, isize: int)
    requires
        bytes_within(addr, size, inner, isize),
    ensures
        commit::overlap_of(inner, isize, addr, size) == bytes_below(addr, size, inner, isize),
        addr.justified_offset(size, inner, isize, false) == bytes_below(addr, size, inner, isize),
        0 <= bytes_below(addr, size, inner, isize) <= size - isize,
{
}

proof fn lemma_narrowed(
    c: CallView,
    g: GraphView,
    s: ScriptView,
    p: ParamView,
    main: VarnodeId,
    mainaddr: Address,
    v: VarnodeId,
)
    requires
        c.op.0 < g.ops.len(),
        takeable(g, c.op, p, mainaddr, v),
        g.varnodes[v.0 as int].size < p.size(),
        main.0 < s.next_vn,
        flow::numbered(g, s, 4, 3),
        writer(g, c.op, v) matches Some(o) ==> untouched(g, s.edits, o),
    ensures
        ({
            let t = c.redefined(g, s, v, p, main, mainaddr);
            &&& taken_from(
                g,
                t.edits,
                c,
                p,
                main,
                mainaddr,
                v,
                t.next_vn as int,
                t.next_op as int,
            )
            &&& step_fits(g, c.op, s, t, v)
        }),
{
    broadcast use flow::group_flow;

    let x = g.varnodes[v.0 as int];
    lemma_position(mainaddr, p.size() as int, x.addr, x.size as int);
    let t = c.redefined(g, s, v, p, main, mainaddr);
    let q = match writer(g, c.op, v) {
        Some(o) => o,
        None => OpId(s.next_op),
    };
    let k = VarnodeId(s.next_vn);
    assert(takes_part(
        g,
        t.edits,
        c.op,
        q,
        v,
        main,
        bytes_below(mainaddr, p.size() as int, x.addr, x.size as int),
        k,
    ));
}

/// The operation is as it was before any change.
pub open spec fn untouched(g: GraphView, edits: Seq<Edit>, o: OpId) -> bool {
    &&& flow::slots(g, edits, o) == flow::first_slots(g, o)
    &&& flow::output(g, edits, o) == g.ops[o.0 as int].output
}

/// The step that redefines `v` leaves everything else as it is.
pub open spec fn step_fits(
    g: GraphView,
    call: OpId,
    s: ScriptView,
    t: ScriptView,
    v: VarnodeId,
) -> bool {
    &&& kept_but(
        g,
        s.edits,
        t.edits,
        writer(g, call, v),
        s.next_vn as int,
        s.next_op as int,
    )
    &&& s.next_vn <= t.next_vn <= s.next_vn + 3
    &&& s.next_op <= t.next_op <= s.next_op + 4
}

proof fn lemma_widened(
    c: CallView,
    g: GraphView,
    s: ScriptView,
    p: ParamView,
    main: VarnodeId,
    mainaddr: Address,
    v: VarnodeId,
)
    requires
        c.op.0 < g.ops.len(),
        takeable(g, c.op, p, mainaddr, v),
        g.varnodes[v.0 as int].size > p.size(),
        c.assumed_extension(p.addr, p.size() as int) != OpCode::Copy,
        bytes_below(
            g.varnodes[v.0 as int].addr,
            g.varnodes[v.0 as int].size as int,
            p.addr,
            p.size() as int,
        ) == 0,
        main.0 < s.next_vn,
        flow::numbered(g, s, 4, 3),
        writer(g, c.op, v) matches Some(o) ==> untouched(g, s.edits, o),
    ensures
        ({
            let t = c.redefined(g, s, v, p, main, mainaddr);
            &&& taken_from(
                g,
                t.edits,
                c,
                p,
                main,
                mainaddr,
                v,
                t.next_vn as int,
                t.next_op as int,
            )
            &&& step_fits(g, c.op, s, t, v)
        }),
{
    broadcast use flow::group_flow;

    let x = g.varnodes[v.0 as int];
    lemma_position(x.addr, x.size as int, p.addr, p.size() as int);
    let t = c.redefined(g, s, v, p, main, mainaddr);
    let q = match writer(g, c.op, v) {
        Some(o) => o,
        None => OpId(s.next_op),
    };
    assert(flow::code(g, t.edits, q) is Some);
    assert(flow::slots(g, t.edits, q) =~= seq![Some(main)]);
}

proof fn lemma_parts_at(addr: Address, size: int, low: int, msize: int)
    requires
        addr.space matches Some(s) && s.type_ != SpaceType::Constant && addr.offset + size
            <= s.highest + 1,
        0 <= low,
        0 < msize,
        low + msize <= size <= i32::MAX,
    ensures
        low > 0 && addr.big_endian() ==> part_at(addr, size, 0, low, addr.plus(size - low)),
        !addr.big_endian() ==> part_at(addr, size, 0, low, addr),
        low + msize < size && !addr.big_endian() ==> part_at(
            addr,
            size,
            low + msize,
            size - low - msize,
            addr.plus(msize + low),
        ),
        addr.big_endian() ==> part_at(addr, size, low + msize, size - low - msize, addr),
{
}

/// The varnode has bytes around the return value, which no extension gives.
pub open spec fn surrounds(c: CallView, g: GraphView, p: ParamView, v: VarnodeId) -> bool {
    let x = g.varnodes[v.0 as int];
    &&& x.size > p.size()
    &&& c.assumed_extension(p.addr, p.size() as int) == OpCode::Copy || bytes_below(
        x.addr,
        x.size as int,
        p.addr,
        p.size() as int,
    ) != 0
}

#[verifier::spinoff_prover]
proof fn lemma_below(
    c: CallView,
    g: GraphView,
    s: ScriptView,
    p: ParamView,
    main: VarnodeId,
    v: VarnodeId,
    low: int,
    high: int,
    lo_at: Address,
    hi_at: Address,
)
    requires
        c.op.0 < g.ops.len(),
        v.0 < g.varnodes.len(),
        main.0 < s.next_vn,
        flow::numbered(g, s, 4, 3),
        writer(g, c.op, v) matches Some(o) ==> o.0 < g.ops.len(),
        low > 0 && high == 0,
        p.size() > 0,
        low + p.size() + high == g.varnodes[v.0 as int].size,
        lo_at == (if g.varnodes[v.0 as int].addr.big_endian() {
            g.varnodes[v.0 as int].addr.plus(g.varnodes[v.0 as int].size - low)
        } else {
            g.varnodes[v.0 as int].addr
        }),
        hi_at == (if !g.varnodes[v.0 as int].addr.big_endian() {
            g.varnodes[v.0 as int].addr.plus(p.size() + low)
        } else {
            g.varnodes[v.0 as int].addr
        }),
        low > 0 ==> part_at(
            g.varnodes[v.0 as int].addr,
            g.varnodes[v.0 as int].size as int,
            0,
            low,
            lo_at,
        ),
        high > 0 ==> part_at(
            g.varnodes[v.0 as int].addr,
            g.varnodes[v.0 as int].size as int,
            low + p.size(),
            high,
            hi_at,
        ),
        part_at(
            g.varnodes[v.0 as int].addr,
            g.varnodes[v.0 as int].size as int,
            0,
            low + p.size(),
            if g.varnodes[v.0 as int].addr.big_endian() {
                p.addr
            } else {
                lo_at
            },
        ),
    ensures
        ({
            let t = c.surrounded(g, s, v, main, p.addr, p.size(), low as i32);
            &&& around(
                g,
                t.edits,
                c.op,
                v,
                g.varnodes[v.0 as int].addr,
                g.varnodes[v.0 as int].size as int,
                main,
                p.size() as int,
                low,
                OpId((s.next_op + 1) as u64),
                OpId((s.next_op + 1) as u64),
                VarnodeId(s.next_vn),
                main,
                VarnodeId(s.next_vn),
                lo_at,
                hi_at,
            )
            &&& step_fits(g, c.op, s, t, v)
            &&& t.next_op == s.next_op + 2
            &&& t.next_vn == s.next_vn + 1
        }),
{
    broadcast use flow::group_flow;

    let t = c.surrounded(g, s, v, main, p.addr, p.size(), low as i32);
    let a = VarnodeId(s.next_vn);
    let b = VarnodeId(s.next_vn);
    assert(flow::maker(t.edits, a) == Some(
        indirectly(OpId(s.next_op), a, c.op, lo_at, low as i32),
    ));
    assert(created(t.edits, c.op, a, lo_at, low));
}

#[verifier::spinoff_prover]
proof fn lemma_above(
    c: CallView,
    g: GraphView,
    s: ScriptView,
    p: ParamView,
    main: VarnodeId,
    v: VarnodeId,
    low: int,
    high: int,
    lo_at: Address,
    hi_at: Address,
)
    requires
        c.op.0 < g.ops.len(),
        v.0 < g.varnodes.len(),
        main.0 < s.next_vn,
        flow::numbered(g, s, 4, 3),
        writer(g, c.op, v) matches Some(o) ==> o.0 < g.ops.len(),
        low == 0 && high > 0,
        p.size() > 0,
        low + p.size() + high == g.varnodes[v.0 as int].size,
        lo_at == (if g.varnodes[v.0 as int].addr.big_endian() {
            g.varnodes[v.0 as int].addr.plus(g.varnodes[v.0 as int].size - low)
        } else {
            g.varnodes[v.0 as int].addr
        }),
        hi_at == (if !g.varnodes[v.0 as int].addr.big_endian() {
            g.varnodes[v.0 as int].addr.plus(p.size() + low)
        } else {
            g.varnodes[v.0 as int].addr
        }),
        low > 0 ==> part_at(
            g.varnodes[v.0 as int].addr,
            g.varnodes[v.0 as int].size as int,
            0,
            low,
            lo_at,
        ),
        high > 0 ==> part_at(
            g.varnodes[v.0 as int].addr,
            g.varnodes[v.0 as int].size as int,
            low + p.size(),
            high,
            hi_at,
        ),
        part_at(
            g.varnodes[v.0 as int].addr,
            g.varnodes[v.0 as int].size as int,
            0,
            low + p.size(),
            if g.varnodes[v.0 as int].addr.big_endian() {
                p.addr
            } else {
                lo_at
            },
        ),
    ensures
        ({
            let t = c.surrounded(g, s, v, main, p.addr, p.size(), low as i32);
            &&& around(
                g,
                t.edits,
                c.op,
                v,
                g.varnodes[v.0 as int].addr,
                g.varnodes[v.0 as int].size as int,
                main,
                p.size() as int,
                low,
                OpId((s.next_op + 1) as u64),
                OpId((s.next_op + 1) as u64),
                VarnodeId(s.next_vn),
                main,
                VarnodeId(s.next_vn),
                lo_at,
                hi_at,
            )
            &&& step_fits(g, c.op, s, t, v)
            &&& t.next_op == s.next_op + 2
            &&& t.next_vn == s.next_vn + 1
        }),
{
    broadcast use flow::group_flow;

    let t = c.surrounded(g, s, v, main, p.addr, p.size(), low as i32);
    let a = VarnodeId(s.next_vn);
    let b = VarnodeId(s.next_vn);
    assert(flow::maker(t.edits, b) == Some(
        indirectly(OpId(s.next_op), b, c.op, hi_at, high as i32),
    ));
    assert(created(t.edits, c.op, b, hi_at, high));
}

#[verifier::spinoff_prover]
proof fn lemma_both(
    c: CallView,
    g: GraphView,
    s: ScriptView,
    p: ParamView,
    main: VarnodeId,
    v: VarnodeId,
    low: int,
    high: int,
    lo_at: Address,
    hi_at: Address,
)
    requires
        c.op.0 < g.ops.len(),
        v.0 < g.varnodes.len(),
        main.0 < s.next_vn,
        flow::numbered(g, s, 4, 3),
        writer(g, c.op, v) matches Some(o) ==> o.0 < g.ops.len(),
        low > 0 && high > 0,
        p.size() > 0,
        low + p.size() + high == g.varnodes[v.0 as int].size,
        lo_at == (if g.varnodes[v.0 as int].addr.big_endian() {
            g.varnodes[v.0 as int].addr.plus(g.varnodes[v.0 as int].size - low)
        } else {
            g.varnodes[v.0 as int].addr
        }),
        hi_at == (if !g.varnodes[v.0 as int].addr.big_endian() {
            g.varnodes[v.0 as int].addr.plus(p.size() + low)
        } else {
            g.varnodes[v.0 as int].addr
        }),
        low > 0 ==> part_at(
            g.varnodes[v.0 as int].addr,
            g.varnodes[v.0 as int].size as int,
            0,
            low,
            lo_at,
        ),
        high > 0 ==> part_at(
            g.varnodes[v.0 as int].addr,
            g.varnodes[v.0 as int].size as int,
            low + p.size(),
            high,
            hi_at,
        ),
        part_at(
            g.varnodes[v.0 as int].addr,
            g.varnodes[v.0 as int].size as int,
            0,
            low + p.size(),
            if g.varnodes[v.0 as int].addr.big_endian() {
                p.addr
            } else {
                lo_at
            },
        ),
    ensures
        ({
            let t = c.surrounded(g, s, v, main, p.addr, p.size(), low as i32);
            &&& around(
                g,
                t.edits,
                c.op,
                v,
                g.varnodes[v.0 as int].addr,
                g.varnodes[v.0 as int].size as int,
                main,
                p.size() as int,
                low,
                OpId((s.next_op + 1) as u64),
                OpId((s.next_op + 3) as u64),
                VarnodeId(s.next_vn),
                VarnodeId((s.next_vn + 1) as u64),
                VarnodeId((s.next_vn + 2) as u64),
                lo_at,
                hi_at,
            )
            &&& step_fits(g, c.op, s, t, v)
            &&& t.next_op == s.next_op + 4
            &&& t.next_vn == s.next_vn + 3
        }),
{
    broadcast use flow::group_flow;

    let t = c.surrounded(g, s, v, main, p.addr, p.size(), low as i32);
    let a = VarnodeId(s.next_vn);
    let b = VarnodeId((s.next_vn + 2) as u64);
    assert(flow::maker(t.edits, a) == Some(
        indirectly(OpId(s.next_op), a, c.op, lo_at, low as i32),
    ));
    assert(created(t.edits, c.op, a, lo_at, low));
    assert(flow::maker(t.edits, b) == Some(
        indirectly(OpId((s.next_op + 2) as u64), b, c.op, hi_at, high as i32),
    ));
    assert(created(t.edits, c.op, b, hi_at, high));
}

proof fn lemma_surrounded(
    c: CallView,
    g: GraphView,
    s: ScriptView,
    p: ParamView,
    main: VarnodeId,
    mainaddr: Address,
    v: VarnodeId,
)
    requires
        c.op.0 < g.ops.len(),
        takeable(g, c.op, p, mainaddr, v),
        surrounds(c, g, p, v),
        mainaddr == p.addr,
        main.0 < s.next_vn,
        flow::numbered(g, s, 4, 3),
    ensures
        ({
            let t = c.redefined(g, s, v, p, main, mainaddr);
            &&& taken_from(
                g,
                t.edits,
                c,
                p,
                main,
                mainaddr,
                v,
                t.next_vn as int,
                t.next_op as int,
            )
            &&& step_fits(g, c.op, s, t, v)
        }),
{
    let x = g.varnodes[v.0 as int];
    let size = x.size as int;
    let msize = p.size() as int;
    lemma_position(x.addr, size, p.addr, msize);
    let low = bytes_below(x.addr, size, p.addr, msize);
    let high = size - low - msize;
    lemma_parts_at(x.addr, size, low, msize);
    let lo_at = if x.addr.big_endian() {
        x.addr.plus(size - low)
    } else {
        x.addr
    };
    let hi_at = if !x.addr.big_endian() {
        x.addr.plus(msize + low)
    } else {
        x.addr
    };
    if high == 0 {
        lemma_below(c, g, s, p, main, v, low, high, lo_at, hi_at);
    } else if low == 0 {
        lemma_above(c, g, s, p, main, v, low, high, lo_at, hi_at);
    } else {
        lemma_both(c, g, s, p, main, v, low, high, lo_at, hi_at);
    }
}

proof fn lemma_around_kept(
    g: GraphView,
    e: Seq<Edit>,
    f: Seq<Edit>,
    ex: Option<OpId>,
    call: OpId,
    v: VarnodeId,
    addr: Address,
    size: int,
    main: VarnodeId,
    msize: int,
    low: int,
    q: OpId,
    r: OpId,
    lo: VarnodeId,
    mid: VarnodeId,
    hi: VarnodeId,
    lo_at: Address,
    hi_at: Address,
    vtop: int,
    otop: int,
)
    requires
        around(g, e, call, v, addr, size, main, msize, low, q, r, lo, mid, hi, lo_at, hi_at),
        kept_but(g, e, f, ex, vtop, otop),
        Some(q) != ex && Some(r) != ex,
        q.0 < otop && r.0 < otop,
        lo.0 < vtop && mid.0 < vtop && hi.0 < vtop,
    ensures
        around(g, f, call, v, addr, size, main, msize, low, q, r, lo, mid, hi, lo_at, hi_at),
{
    assert(flow::maker(f, lo) == flow::maker(e, lo));
    assert(flow::maker(f, mid) == flow::maker(e, mid));
    assert(flow::maker(f, hi) == flow::maker(e, hi));
    assert(flow::code(g, f, q) == flow::code(g, e, q));
    assert(flow::code(g, f, r) == flow::code(g, e, r));
    let high = size - msize - low;
    if low > 0 {
        let o = choose|o: OpId|
            flow::maker(e, lo) == Some(#[trigger] indirectly(o, lo, call, lo_at, low as i32));
        assert(flow::maker(f, lo) == Some(indirectly(o, lo, call, lo_at, low as i32)));
    }
    if high > 0 {
        let o = choose|o: OpId|
            flow::maker(e, hi) == Some(#[trigger] indirectly(o, hi, call, hi_at, high as i32));
        assert(flow::maker(f, hi) == Some(indirectly(o, hi, call, hi_at, high as i32)));
    }
}

proof fn lemma_taken_kept(
    g: GraphView,
    e: Seq<Edit>,
    f: Seq<Edit>,
    c: CallView,
    p: ParamView,
    main: VarnodeId,
    mainaddr: Address,
    v: VarnodeId,
    w: VarnodeId,
    vtop: int,
    otop: int,
    vtop2: int,
    otop2: int,
)
    requires
        taken_from(g, e, c, p, main, mainaddr, v, vtop, otop),
        takeable(g, c.op, p, mainaddr, v),
        takeable(g, c.op, p, mainaddr, w),
        v != w,
        kept_but(g, e, f, writer(g, c.op, w), vtop, otop),
        g.ops.len() <= otop,
        vtop <= vtop2,
        otop <= otop2,
    ensures
        taken_from(g, f, c, p, main, mainaddr, v, vtop2, otop2),
{
    let x = g.varnodes[v.0 as int];
    let low = bytes_below(x.addr, x.size as int, p.addr, p.size() as int);
    let asked = c.assumed_extension(p.addr, p.size() as int);
    let ex = writer(g, c.op, w);
    if x.size < p.size() {
        let below = bytes_below(mainaddr, p.size() as int, x.addr, x.size as int);
        let (q, k) = choose|q: OpId, k: VarnodeId|
            free_for(g, c.op, v, q, otop) && k.0 < vtop && #[trigger] takes_part(
                g,
                e,
                c.op,
                q,
                v,
                main,
                below,
                k,
            );
        assert(Some(q) != ex);
        assert(flow::maker(f, k) == flow::maker(e, k));
        assert(flow::code(g, f, q) == flow::code(g, e, q));
        assert(takes_part(g, f, c.op, q, v, main, below, k));
    } else if asked != OpCode::Copy && low == 0 {
        let q = choose|q: OpId|
            free_for(g, c.op, v, q, otop) && (#[trigger] flow::code(g, e, q)) is Some
                && extends_by(asked, p.is_kind(TypeMetatype::Int), flow::code(g, e, q)->0)
                && flow::output(g, e, q) == Some(v) && flow::slots(g, e, q) =~= seq![Some(main)]
                && flow::mover(e, q) == Some(Edit::InsertAfter { op: q, at: c.op });
        assert(Some(q) != ex);
        assert(flow::code(g, f, q) == flow::code(g, e, q));
    } else {
        let (q, r, lo, mid, hi, lo_at, hi_at) = choose|
            q: OpId,
            r: OpId,
            lo: VarnodeId,
            mid: VarnodeId,
            hi: VarnodeId,
            lo_at: Address,
            hi_at: Address,
        |
            g.ops.len() <= q.0 < otop && g.ops.len() <= r.0 < otop && lo.0 < vtop && mid.0 < vtop
                && hi.0 < vtop && #[trigger] around(
                g,
                e,
                c.op,
                v,
                x.addr,
                x.size as int,
                main,
                p.size() as int,
                low,
                q,
                r,
                lo,
                mid,
                hi,
                lo_at,
                hi_at,
            );
        lemma_around_kept(
            g,
            e,
            f,
            ex,
            c.op,
            v,
            x.addr,
            x.size as int,
            main,
            p.size() as int,
            low,
            q,
            r,
            lo,
            mid,
            hi,
            lo_at,
            hi_at,
            vtop,
            otop,
        );
    }
}

proof fn lemma_redefined(
    c: CallView,
    g: GraphView,
    s: ScriptView,
    p: ParamView,
    main: VarnodeId,
    mainaddr: Address,
    v: VarnodeId,
)
    requires
        c.op.0 < g.ops.len(),
        takeable(g, c.op, p, mainaddr, v),
        mainaddr == p.addr,
        main.0 < s.next_vn,
        flow::numbered(g, s, 4, 3),
        writer(g, c.op, v) matches Some(o) ==> untouched(g, s.edits, o),
    ensures
        ({
            let t = c.redefined(g, s, v, p, main, mainaddr);
            &&& g.varnodes[v.0 as int].size != p.size() ==> taken_from(
                g,
                t.edits,
                c,
                p,
                main,
                mainaddr,
                v,
                t.next_vn as int,
                t.next_op as int,
            )
            &&& step_fits(g, c.op, s, t, v)
        }),
{
    let x = g.varnodes[v.0 as int];
    if x.size < p.size() {
        lemma_narrowed(c, g, s, p, main, mainaddr, v);
    } else if x.size > p.size() {
        if surrounds(c, g, p, v) {
            lemma_surrounded(c, g, s, p, main, mainaddr, v);
        } else {
            lemma_widened(c, g, s, p, main, mainaddr, v);
        }
    }
}

/// All former outputs can be taken from the return value, and no two are the
/// same.
pub open spec fn all_takeable(
    g: GraphView,
    call: OpId,
    p: ParamView,
    vns: Seq<VarnodeId>,
) -> bool {
    &&& forall|k: int| 0 <= k < vns.len() ==> takeable(g, call, p, p.addr, #[trigger] vns[k])
    &&& forall|j: int, k: int|
        0 <= j < k < vns.len() ==> #[trigger] vns[j] != #[trigger] vns[k]
}

/// The operations that wrote the former outputs are as they were.
pub open spec fn writers_untouched(
    g: GraphView,
    edits: Seq<Edit>,
    call: OpId,
    vns: Seq<VarnodeId>,
    from: int,
) -> bool {
    forall|k: int|
        from <= k < vns.len() ==> (writer(g, call, #[trigger] vns[k]) matches Some(o)
            ==> untouched(g, edits, o))
}

proof fn lemma_all_redefined(
    c: CallView,
    g: GraphView,
    s: ScriptView,
    vns: Seq<VarnodeId>,
    n: int,
    p: ParamView,
    main: VarnodeId,
)
    requires
        0 <= n <= vns.len(),
        c.op.0 < g.ops.len(),
        all_takeable(g, c.op, p, vns),
        writers_untouched(g, s.edits, c.op, vns, 0),
        main.0 < s.next_vn,
        flow::numbered(g, s, 4 * n, 3 * n),
    ensures
        ({
            let t = c.all_redefined(g, s, vns, n, p, main, p.addr);
            &&& forall|k: int|
                0 <= k < n && g.varnodes[(#[trigger] vns[k]).0 as int].size != p.size()
                    ==> taken_from(
                    g,
                    t.edits,
                    c,
                    p,
                    main,
                    p.addr,
                    vns[k],
                    t.next_vn as int,
                    t.next_op as int,
                )
            &&& s.next_vn <= t.next_vn <= s.next_vn + 3 * n
            &&& s.next_op <= t.next_op <= s.next_op + 4 * n
            &&& writers_untouched(g, t.edits, c.op, vns, n)
            &&& flow::output(g, t.edits, c.op) == flow::output(g, s.edits, c.op)
            &&& forall|v: VarnodeId|
                v.0 < s.next_vn ==> #[trigger] flow::maker(t.edits, v) == flow::maker(s.edits, v)
            &&& forall|o: OpId|
                o.0 < g.ops.len() && #[trigger] spared(g, c.op, p, vns, o) ==> flow::mover(
                    t.edits,
                    o,
                ) == flow::mover(s.edits, o)
        }),
    decreases n,
{
    if n > 0 {
        lemma_all_redefined(c, g, s, vns, n - 1, p, main);
        let u = c.all_redefined(g, s, vns, n - 1, p, main, p.addr);
        let t = c.all_redefined(g, s, vns, n, p, main, p.addr);
        let w = vns[n - 1];
        assert(takeable(g, c.op, p, p.addr, w));
        lemma_first_sized(g, vns, 0, p.size());
        if commit::first_of_size(g, vns, 0, p.size()) == Some(w) {
            assert(t == u);
        } else {
            lemma_redefined(c, g, u, p, main, p.addr, w);
            assert forall|k: int|
                0 <= k < n && g.varnodes[(#[trigger] vns[k]).0 as int].size
                    != p.size() implies taken_from(
                g,
                t.edits,
                c,
                p,
                main,
                p.addr,
                vns[k],
                t.next_vn as int,
                t.next_op as int,
            ) by {
                if k < n - 1 {
                    assert(takeable(g, c.op, p, p.addr, vns[k]));
                    lemma_taken_kept(
                        g,
                        u.edits,
                        t.edits,
                        c,
                        p,
                        main,
                        p.addr,
                        vns[k],
                        w,
                        u.next_vn as int,
                        u.next_op as int,
                        t.next_vn as int,
                        t.next_op as int,
                    );
                }
            }
            assert forall|k: int| n <= k < vns.len() implies (writer(g, c.op, #[trigger] vns[k])
                matches Some(o) ==> untouched(g, t.edits, o)) by {
                assert(takeable(g, c.op, p, p.addr, vns[k]));
                if writer(g, c.op, vns[k]) is Some {
                    let o = writer(g, c.op, vns[k])->0;
                    assert(Some(o) != writer(g, c.op, w));
                    assert(flow::code(g, t.edits, o) == flow::code(g, u.edits, o));
                }
            }
            assert(flow::code(g, t.edits, c.op) == flow::code(g, u.edits, c.op));
            assert forall|v: VarnodeId| v.0 < s.next_vn implies #[trigger] flow::maker(t.edits, v)
                == flow::maker(s.edits, v) by {
                assert(flow::maker(u.edits, v) == flow::maker(s.edits, v));
            }
            assert forall|o: OpId|
                o.0 < g.ops.len() && #[trigger] spared(g, c.op, p, vns, o) implies flow::mover(
                t.edits,
                o,
            ) == flow::mover(s.edits, o) by {
                if g.varnodes[w.0 as int].size != p.size() {
                    assert(Some(o) != writer(g, c.op, w));
                    assert(flow::code(g, t.edits, o) == flow::code(g, u.edits, o));
                }
            }
        }
    }
}

/// The operation wrote no former output of another size than the return value.
pub open spec fn spared(
    g: GraphView,
    call: OpId,
    p: ParamView,
    vns: Seq<VarnodeId>,
    o: OpId,
) -> bool {
    forall|k: int|
        0 <= k < vns.len() && g.varnodes[(#[trigger] vns[k]).0 as int].size != p.size()
            ==> writer(g, call, vns[k]) != Some(o)
}

/// The `j`-th varnode is the first of its size.
pub open spec fn first_sized(g: GraphView, vns: Seq<VarnodeId>, size: i32, j: int) -> bool {
    &&& 0 <= j < vns.len()
    &&& g.varnodes[vns[j].0 as int].size == size
    &&& forall|k: int| 0 <= k < j ==> g.varnodes[(#[trigger] vns[k]).0 as int].size != size
}

proof fn lemma_first_sized(g: GraphView, vns: Seq<VarnodeId>, i: int, size: i32)
    requires
        0 <= i <= vns.len(),
        forall|k: int| 0 <= k < vns.len() ==> (#[trigger] vns[k]).0 < g.varnodes.len(),
        forall|k: int| 0 <= k < i ==> g.varnodes[(#[trigger] vns[k]).0 as int].size != size,
    ensures
        match commit::first_of_size(g, vns, i, size) {
            Some(v) => exists|j: int| #[trigger] first_sized(g, vns, size, j) && vns[j] == v,
            None => forall|k: int|
                0 <= k < vns.len() ==> g.varnodes[(#[trigger] vns[k]).0 as int].size != size,
        },
    decreases vns.len() - i,
{
    if i < vns.len() {
        if g.varnodes[vns[i].0 as int].size == size {
            assert(first_sized(g, vns, size, i));
        } else {
            lemma_first_sized(g, vns, i + 1, size);
        }
    }
}

/// A call whose return value is installed anew has an output of exactly its
/// size: the first former output of that size, which nothing else writes any
/// more, or else a new varnode with its storage. Every former output of another
/// size is taken from it: a narrower one is the bytes of it that it was, a wider
/// one extends it as the model assumes, or is put together of it and of the bytes
/// around it, which the call creates.
pub proof fn law_output_installed(
    c: CallView,
    g: GraphView,
    s: ScriptView,
    newoutput: Seq<VarnodeId>,
)
    requires
        c.proto.output_locked(),
        newoutput.len() > 0,
        c.op.0 < g.ops.len(),
        all_takeable(g, c.op, c.proto.store->0.output(), newoutput),
        writers_untouched(g, s.edits, c.op, newoutput, 0),
        forall|k: int|
            0 <= k < newoutput.len() && g.varnodes[(#[trigger] newoutput[k]).0 as int].size
                == c.proto.store->0.output().size() ==> g.varnodes[newoutput[k].0 as int].addr
                == c.proto.store->0.output().addr,
        forall|k: int|
            0 <= k < newoutput.len() && g.varnodes[(#[trigger] newoutput[k]).0 as int].def == Some(
                c.op,
            ) ==> flow::output(g, s.edits, c.op) == Some(newoutput[k]),
        flow::numbered(g, s, 4 * newoutput.len() as int, 3 * newoutput.len() as int + 1),
    ensures
        ({
            let (call, t) = c.outputs_committed(g, s, newoutput);
            let p = c.proto.store->0.output();
            let main = flow::output(g, t.edits, c.op);
            &&& main is Some
            &&& forall|j: int| #[trigger]
                first_sized(g, newoutput, p.size(), j) ==> {
                    &&& main == Some(newoutput[j])
                    &&& writer(g, c.op, newoutput[j]) matches Some(o) ==> flow::mover(t.edits, o)
                        == Some(Edit::Unlink { op: o })
                }
            &&& (forall|k: int|
                0 <= k < newoutput.len() ==> g.varnodes[(#[trigger] newoutput[k]).0 as int].size
                    != p.size()) ==> flow::maker(t.edits, main->0) == Some(
                Edit::NewVarnodeOut { vn: main->0, size: p.size(), addr: p.addr, op: c.op },
            )
            &&& forall|k: int|
                0 <= k < newoutput.len() && g.varnodes[(#[trigger] newoutput[k]).0 as int].size
                    != p.size() ==> taken_from(
                    g,
                    t.edits,
                    c,
                    p,
                    main->0,
                    p.addr,
                    newoutput[k],
                    t.next_vn as int,
                    t.next_op as int,
                )
            &&& call.activeoutput.trial.len() == 1
            &&& call.activeoutput.trial[0].addr == p.addr
            &&& call.activeoutput.trial[0].size == p.size()
            &&& !call.isoutputactive
        }),
{
    broadcast use flow::group_flow;

    let p = c.proto.store->0.output();
    let (call, t) = c.outputs_committed(g, s, newoutput);
    let n = newoutput.len() as int;
    assert forall|k: int| 0 <= k < n implies (#[trigger] newoutput[k]).0 < g.varnodes.len() by {
        assert(takeable(g, c.op, p, p.addr, newoutput[k]));
    }
    lemma_first_sized(g, newoutput, 0, p.size());
    let (main, s1) = c.main_output(g, s, newoutput, p);
    assert(writers_untouched(g, s1.edits, c.op, newoutput, 0)) by {
        assert forall|k: int| 0 <= k < n implies (writer(g, c.op, #[trigger] newoutput[k])
            matches Some(o) ==> untouched(g, s1.edits, o)) by {
            assert(takeable(g, c.op, p, p.addr, newoutput[k]));
        }
    }
    lemma_all_redefined(c, g, s1, newoutput, n, p, main);
    assert forall|j: int| #[trigger] first_sized(g, newoutput, p.size(), j) implies {
        &&& main == newoutput[j]
        &&& writer(g, c.op, newoutput[j]) matches Some(o) ==> flow::mover(t.edits, o) == Some(
            Edit::Unlink { op: o },
        )
    } by {
        let i = choose|i: int| #[trigger]
            first_sized(g, newoutput, p.size(), i) && newoutput[i] == main;
        assert(i == j) by {
            if i < j {
                assert(g.varnodes[newoutput[i].0 as int].size == p.size());
            } else if j < i {
                assert(g.varnodes[newoutput[j].0 as int].size == p.size());
            }
        }
        assert(takeable(g, c.op, p, p.addr, newoutput[j]));
        if writer(g, c.op, newoutput[j]) is Some {
            let o = writer(g, c.op, newoutput[j])->0;
            assert forall|k: int|
                0 <= k < n && g.varnodes[(#[trigger] newoutput[k]).0 as int].size
                    != p.size() implies writer(g, c.op, newoutput[k]) != Some(o) by {
                assert(takeable(g, c.op, p, p.addr, newoutput[k]));
            }
            assert(spared(g, c.op, p, newoutput, o));
        }
    }
}

} // verus!
