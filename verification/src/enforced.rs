//! What a locked prototype forces upon a function: its returns return the value
//! of the prototype, and its inputs are there.
use crate::entry::EntryView;
use crate::flow;
use crate::forced;
use crate::graph::{BlockId, GraphView, OpId, VarnodeId};
use crate::opcode::OpCode;
use crate::paramlist::ListView;
use crate::proto::ProtoView;
use crate::script::{Edit, ScriptView};
use crate::space::Address;
use crate::store::ParamView;
use crate::dtype::TypeMetatype;
use vstd::prelude::*;

verus! {

/// The second list of changes goes on from the first.
pub open spec fn goes_on(a: Seq<Edit>, b: Seq<Edit>) -> bool {
    a.len() <= b.len() && forall|w: int| 0 <= w < a.len() ==> #[trigger] b[w] == a[w]
}

proof fn lemma_contains(a: Seq<Edit>, b: Seq<Edit>, e: Edit)
    requires
        goes_on(a, b),
        a.contains(e),
    ensures
        b.contains(e),
{
    let w = choose|w: int| 0 <= w < a.len() && a[w] == e;
    assert(b[w] == e);
}

/// The operations of the graph have the same slots after both lists of changes,
/// and the varnodes numbered below `vtop` the same makers.
pub open spec fn left_alone(g: GraphView, s: ScriptView, t: ScriptView) -> bool {
    &&& goes_on(s.edits, t.edits)
    &&& s.next_vn <= t.next_vn
    &&& s.next_op <= t.next_op
    &&& forall|o: OpId|
        o.0 < s.next_op ==> #[trigger] flow::slots(g, t.edits, o) == flow::slots(g, s.edits, o)
            && flow::code(g, t.edits, o) == flow::code(g, s.edits, o) && flow::output(
            g,
            t.edits,
            o,
        ) == flow::output(g, s.edits, o) && flow::mover(t.edits, o) == flow::mover(s.edits, o)
    &&& forall|v: VarnodeId|
        v.0 < s.next_vn ==> #[trigger] flow::maker(t.edits, v) == flow::maker(s.edits, v)
}

pub(crate) proof fn lemma_left_alone_chain(g: GraphView, s: ScriptView, t: ScriptView, u: ScriptView)
    requires
        left_alone(g, s, t),
        left_alone(g, t, u),
    ensures
        left_alone(g, s, u),
{
    assert forall|w: int| 0 <= w < s.edits.len() implies #[trigger] u.edits[w] == s.edits[w] by {
        assert(t.edits[w] == s.edits[w]);
    }
    assert forall|o: OpId| o.0 < s.next_op implies #[trigger] flow::slots(g, u.edits, o)
        == flow::slots(g, s.edits, o) && flow::code(g, u.edits, o) == flow::code(g, s.edits, o)
        && flow::output(g, u.edits, o) == flow::output(g, s.edits, o) && flow::mover(u.edits, o)
        == flow::mover(s.edits, o) by {
        assert(flow::slots(g, t.edits, o) == flow::slots(g, s.edits, o));
    }
    assert forall|v: VarnodeId| v.0 < s.next_vn implies #[trigger] flow::maker(u.edits, v)
        == flow::maker(s.edits, v) by {
        assert(flow::maker(t.edits, v) == flow::maker(s.edits, v));
    }
}

/// The first input of the operation is a constant: the one that was there, or
/// else zero, in as many bytes as what was there.
pub open spec fn address_gone(g: GraphView, edits: Seq<Edit>, op: OpId) -> bool {
    let ins = g.ops[op.0 as int].inputs;
    let r = flow::slots(g, edits, op);
    let there = ins[0].0 < g.varnodes.len();
    let x = g.varnodes[ins[0].0 as int];
    if there && x.constant() {
        r[0] == Some(ins[0])
    } else {
        r[0] is Some && flow::maker(edits, r[0]->0) == Some(
            Edit::NewConstant {
                vn: r[0]->0,
                size: if there {
                    x.size
                } else {
                    1
                },
                value: 0,
            },
        )
    }
}

/// The inputs of the operation but the first are as they were.
pub open spec fn rest_stays(g: GraphView, edits: Seq<Edit>, op: OpId) -> bool {
    let ins = g.ops[op.0 as int].inputs;
    let r = flow::slots(g, edits, op);
    r.len() >= ins.len() && forall|j: int| 1 <= j < ins.len() ==> #[trigger] r[j] == Some(ins[j])
}

/// No two returns are the same, each is there, has an input and is as it was.
pub open spec fn returns_there(g: GraphView, s: ScriptView, rs: Seq<OpId>) -> bool {
    &&& forall|k: int|
        0 <= k < rs.len() ==> (#[trigger] rs[k]).0 < g.ops.len() && g.ops[rs[k].0 as int].inputs.len()
            > 0 && g.ops[rs[k].0 as int].inputs.len() < i32::MAX && flow::slots(g, s.edits, rs[k])
            == flow::first_slots(g, rs[k])
    &&& forall|j: int, k: int| 0 <= j < k < rs.len() ==> #[trigger] rs[j] != #[trigger] rs[k]
}

spec fn stripped_to(g: GraphView, t: ScriptView, rs: Seq<OpId>, k: int, n: int) -> bool {
    let ins = g.ops[rs[k].0 as int].inputs;
    let r = flow::slots(g, t.edits, rs[k]);
    &&& r.len() == ins.len()
    &&& if k < n {
        address_gone(g, t.edits, rs[k]) && rest_stays(g, t.edits, rs[k]) && r[0] is Some
            && (r[0]->0).0 < t.next_vn
    } else {
        r == flow::first_slots(g, rs[k])
    }
}

/// The first input of the operation is a varnode of the graph.
spec fn seen(g: GraphView, op: OpId) -> bool {
    g.ops[op.0 as int].inputs[0].0 < g.varnodes.len()
}

proof fn lemma_stripped(g: GraphView, s: ScriptView, rs: Seq<OpId>, n: int)
    requires
        0 <= n <= rs.len(),
        returns_there(g, s, rs),
        forall|k: int| 0 <= k < rs.len() ==> seen(g, #[trigger] rs[k]),
        flow::numbered(g, s, 0, n),
    ensures
        ({
            let t = forced::returns_stripped(g, s, rs, n).0;
            &&& goes_on(s.edits, t.edits)
            &&& s.next_vn <= t.next_vn <= s.next_vn + n
            &&& t.next_op == s.next_op
            &&& forall|k: int| 0 <= k < rs.len() ==> #[trigger] stripped_to(g, t, rs, k, n)
        }),
    decreases n,
{
    broadcast use flow::group_flow;

    if n == 0 {
        assert forall|k: int| 0 <= k < rs.len() implies #[trigger] stripped_to(g, s, rs, k, n) by {
            assert(rs[k].0 < g.ops.len());
        }
    } else {
        lemma_stripped(g, s, rs, n - 1);
        let u = forced::returns_stripped(g, s, rs, n - 1).0;
        let t = forced::returns_stripped(g, s, rs, n).0;
        let op = rs[n - 1];
        assert(op.0 < g.ops.len() && seen(g, op));
        assert(stripped_to(g, u, rs, n - 1, n - 1));
        assert forall|k: int| 0 <= k < rs.len() implies #[trigger] stripped_to(g, t, rs, k, n) by {
            assert(rs[k].0 < g.ops.len() && seen(g, rs[k]));
            assert(stripped_to(g, u, rs, k, n - 1));
            if k != n - 1 {
                assert(rs[k] != op);
                assert(flow::slots(g, t.edits, rs[k]) == flow::slots(g, u.edits, rs[k]));
                if k < n {
                    let r = flow::slots(g, u.edits, rs[k]);
                    assert(flow::maker(t.edits, r[0]->0) == flow::maker(u.edits, r[0]->0));
                }
            }
        }
    }
}

/// The return gives back the value of the prototype, last of its inputs: a
/// varnode with the storage of the value, whose type is locked.
pub open spec fn gives_back(
    g: GraphView,
    edits: Seq<Edit>,
    op: OpId,
    p: ParamView,
    v: VarnodeId,
) -> bool {
    let r = flow::slots(g, edits, op);
    &&& r.len() == g.ops[op.0 as int].inputs.len() + 1
    &&& r.last() == Some(v)
    &&& flow::maker(edits, v) == Some(Edit::NewVarnode { vn: v, size: p.size(), addr: p.addr })
    &&& edits.contains(Edit::LockType { vn: v, type_: p.type_->0 })
}

/// The return is live: it is not dead and not one that never comes back.
pub open spec fn comes_back(g: GraphView, op: OpId) -> bool {
    !g.ops[op.0 as int].dead && !g.ops[op.0 as int].halt
}

/// What has become of the `k`-th return once the first `n` are done.
spec fn returned_by(
    g: GraphView,
    t: ScriptView,
    rs: Seq<OpId>,
    k: int,
    n: int,
    p: ParamView,
) -> bool {
    let r = flow::slots(g, t.edits, rs[k]);
    &&& address_gone(g, t.edits, rs[k])
    &&& rest_stays(g, t.edits, rs[k])
    &&& r[0] is Some
    &&& (r[0]->0).0 < t.next_vn
    &&& if k < n && comes_back(g, rs[k]) {
        exists|v: VarnodeId| v.0 < t.next_vn && #[trigger] gives_back(g, t.edits, rs[k], p, v)
    } else {
        r.len() == g.ops[rs[k].0 as int].inputs.len()
    }
}

proof fn lemma_returned_kept(
    g: GraphView,
    s: ScriptView,
    t: ScriptView,
    rs: Seq<OpId>,
    k: int,
    n: int,
    m: int,
    p: ParamView,
)
    requires
        returned_by(g, s, rs, k, n, p),
        goes_on(s.edits, t.edits),
        s.next_vn <= t.next_vn,
        flow::slots(g, t.edits, rs[k]) == flow::slots(g, s.edits, rs[k]),
        forall|v: VarnodeId|
            v.0 < s.next_vn ==> #[trigger] flow::maker(t.edits, v) == flow::maker(s.edits, v),
        k < n <==> k < m,
    ensures
        returned_by(g, t, rs, k, m, p),
{
    let r = flow::slots(g, s.edits, rs[k]);
    assert(flow::maker(t.edits, r[0]->0) == flow::maker(s.edits, r[0]->0));
    if k < n && comes_back(g, rs[k]) {
        let v = choose|v: VarnodeId|
            v.0 < s.next_vn && #[trigger] gives_back(g, s.edits, rs[k], p, v);
        assert(flow::maker(t.edits, v) == flow::maker(s.edits, v));
        lemma_contains(s.edits, t.edits, Edit::LockType { vn: v, type_: p.type_->0 });
        assert(gives_back(g, t.edits, rs[k], p, v));
    }
}

proof fn lemma_returned(g: GraphView, s: ScriptView, rs: Seq<OpId>, n: int, p: ParamView)
    requires
        0 <= n <= rs.len(),
        forall|k: int| 0 <= k < rs.len() ==> #[trigger] returned_by(g, s, rs, k, 0, p),
        forall|k: int|
            0 <= k < rs.len() ==> (#[trigger] rs[k]).0 < g.ops.len()
                && 0 < g.ops[rs[k].0 as int].inputs.len() < i32::MAX,
        forall|j: int, k: int| 0 <= j < k < rs.len() ==> #[trigger] rs[j] != #[trigger] rs[k],
        flow::numbered(g, s, 0, n),
    ensures
        ({
            let t = forced::returns_forced(g, s, rs, n, p).0;
            &&& goes_on(s.edits, t.edits)
            &&& s.next_vn <= t.next_vn <= s.next_vn + n
            &&& t.next_op == s.next_op
            &&& forall|k: int| 0 <= k < rs.len() ==> #[trigger] returned_by(g, t, rs, k, n, p)
        }),
    decreases n,
{
    broadcast use flow::group_flow;

    if n > 0 {
        lemma_returned(g, s, rs, n - 1, p);
        let u = forced::returns_forced(g, s, rs, n - 1, p).0;
        let t = forced::returns_forced(g, s, rs, n, p).0;
        let op = rs[n - 1];
        assert(op.0 < g.ops.len());
        assert(returned_by(g, u, rs, n - 1, n - 1, p));
        assert forall|k: int| 0 <= k < rs.len() implies #[trigger] returned_by(
            g,
            t,
            rs,
            k,
            n,
            p,
        ) by {
            assert(rs[k].0 < g.ops.len());
            assert(returned_by(g, u, rs, k, n - 1, p));
            if k != n - 1 {
                assert(rs[k] != op);
                lemma_returned_kept(g, u, t, rs, k, n - 1, n, p);
            } else if comes_back(g, op) {
                let v = u.vn();
                let r = flow::slots(g, u.edits, op);
                assert(t.edits.last() == (Edit::LockType { vn: v, type_: p.type_->0 }));
                assert(flow::slots(g, t.edits, op) =~= r.push(Some(v)));
                assert(flow::maker(t.edits, r[0]->0) == flow::maker(u.edits, r[0]->0));
                assert(gives_back(g, t.edits, op, p, v));
            }
        }
    }
}

/// The entry extends values at this place and of this size.
pub open spec fn widens(e: EntryView, addr: Address, size: int) -> bool {
    e.minsize <= size && e.extends(addr, size)
}

/// The entry at `i` is the first that extends such values.
pub open spec fn first_widening(l: ListView, addr: Address, size: int, i: int) -> bool {
    &&& 0 <= i < l.entry.len()
    &&& widens(l.entry[i], addr, size)
    &&& forall|j: int| 0 <= j < i ==> !widens(#[trigger] l.entry[j], addr, size)
}

/// How the entry extends a value: with zeros if it says so, else as the kind of
/// the value asks for if it says that, else with the sign.
pub open spec fn widened_by(e: EntryView, integer: bool) -> OpCode {
    if e.flags.smallsize_zext {
        OpCode::IntZext
    } else if e.flags.smallsize_inttype && !integer {
        OpCode::IntZext
    } else {
        OpCode::IntSext
    }
}

/// The input is there: a varnode with the storage of the parameter, an input of
/// the function, locked, and with the type of the parameter locked if it is
/// known.
pub open spec fn input_there(edits: Seq<Edit>, p: ParamView, v: VarnodeId) -> bool {
    &&& flow::maker(edits, v) == Some(Edit::NewVarnode { vn: v, size: p.size(), addr: p.addr })
    &&& edits.contains(Edit::SetInputVarnode { vn: v })
    &&& edits.contains(Edit::LockInput { vn: v })
    &&& p.type_ is Some && p.type_->0.metatype != TypeMetatype::Unknown ==> edits.contains(
        Edit::LockType { vn: v, type_: p.type_->0 },
    )
}

/// The operation at the top of the function extends `v` into the bytes that the
/// entry extends it into.
pub open spec fn extended_at_top(
    g: GraphView,
    edits: Seq<Edit>,
    e: EntryView,
    p: ParamView,
    v: VarnodeId,
    top: BlockId,
    q: OpId,
    w: VarnodeId,
) -> bool {
    let whole = e.extension_container(p.addr);
    &&& flow::code(g, edits, q) == Some(widened_by(e, p.type_->0.metatype == TypeMetatype::Int))
    &&& flow::slots(g, edits, q) =~= seq![Some(v)]
    &&& flow::output(g, edits, q) == Some(w)
    &&& flow::maker(edits, w) == Some(
        Edit::NewVarnodeOut {
            vn: w,
            size: whole.size as i32,
            addr: Address { space: whole.space, offset: whole.offset },
            op: q,
        },
    )
    &&& flow::mover(edits, q) == Some(Edit::InsertBegin { op: q, block: top })
}

/// The input for `p` is there and, where an entry extends such values, is
/// extended at the top of the function.
pub open spec fn input_ready(
    g: GraphView,
    t: ScriptView,
    l: ListView,
    p: ParamView,
    top: Option<(BlockId, Address)>,
    v: VarnodeId,
) -> bool {
    &&& v.0 < t.next_vn
    &&& input_there(t.edits, p, v)
    &&& top is Some && p.type_ is Some ==> forall|i: int| #[trigger]
        first_widening(l, p.addr, p.size() as int, i) ==> exists|q: OpId, w: VarnodeId|
            q.0 < t.next_op && w.0 < t.next_vn && #[trigger] extended_at_top(
                g,
                t.edits,
                l.entry[i],
                p,
                v,
                (top->0).0,
                q,
                w,
            )
}

proof fn lemma_first_widening(l: ListView, k: int, addr: Address, size: int, i: int)
    requires
        0 <= k <= i,
        first_widening(l, addr, size, i),
    ensures
        l.first_extender(k, addr, size) == Some(i),
    decreases i - k,
{
    if k < i {
        assert(!widens(l.entry[k], addr, size));
        lemma_first_widening(l, k + 1, addr, size, i);
    }
}

proof fn lemma_input(
    g: GraphView,
    s: ScriptView,
    l: ListView,
    p: ParamView,
    top: Option<(BlockId, Address)>,
)
    requires
        flow::numbered(g, s, 1, 2),
    ensures
        ({
            let t = forced::input_forced(l, s, p, top);
            &&& left_alone(g, s, t)
            &&& t.next_vn <= s.next_vn + 2
            &&& t.next_op <= s.next_op + 1
            &&& input_ready(g, t, l, p, top, s.vn())
        }),
{
    broadcast use flow::group_flow;

    let t = forced::input_forced(l, s, p, top);
    let v = s.vn();
    let n = s.edits.len() as int;
    assert(t.edits[n + 1] == (Edit::SetInputVarnode { vn: v }));
    assert(t.edits[n + 2] == (Edit::LockInput { vn: v }));
    if p.type_ is Some && p.type_->0.metatype != TypeMetatype::Unknown {
        assert(t.edits[n + 3] == (Edit::LockType { vn: v, type_: p.type_->0 }));
    }
    if top is Some && p.type_ is Some {
        assert forall|i: int| #[trigger] first_widening(l, p.addr, p.size() as int, i) implies (
        exists|q: OpId, w: VarnodeId|
            q.0 < t.next_op && w.0 < t.next_vn && #[trigger] extended_at_top(
                g,
                t.edits,
                l.entry[i],
                p,
                v,
                (top->0).0,
                q,
                w,
            )) by {
            lemma_first_widening(l, 0, p.addr, p.size() as int, i);
            let q = OpId(s.next_op);
            let w = VarnodeId((s.next_vn + 1) as u64);
            assert(flow::slots(g, t.edits, q) =~= seq![Some(v)]);
            assert(extended_at_top(g, t.edits, l.entry[i], p, v, (top->0).0, q, w));
        }
    }
}

proof fn lemma_input_kept(
    g: GraphView,
    s: ScriptView,
    t: ScriptView,
    l: ListView,
    p: ParamView,
    top: Option<(BlockId, Address)>,
    v: VarnodeId,
)
    requires
        input_ready(g, s, l, p, top, v),
        left_alone(g, s, t),
    ensures
        input_ready(g, t, l, p, top, v),
{
    assert(flow::maker(t.edits, v) == flow::maker(s.edits, v));
    lemma_contains(s.edits, t.edits, Edit::SetInputVarnode { vn: v });
    lemma_contains(s.edits, t.edits, Edit::LockInput { vn: v });
    if p.type_ is Some && p.type_->0.metatype != TypeMetatype::Unknown {
        lemma_contains(s.edits, t.edits, Edit::LockType { vn: v, type_: p.type_->0 });
    }
    if top is Some && p.type_ is Some {
        assert forall|i: int| #[trigger] first_widening(l, p.addr, p.size() as int, i) implies (
        exists|q: OpId, w: VarnodeId|
            q.0 < t.next_op && w.0 < t.next_vn && #[trigger] extended_at_top(
                g,
                t.edits,
                l.entry[i],
                p,
                v,
                (top->0).0,
                q,
                w,
            )) by {
            let (q, w) = choose|q: OpId, w: VarnodeId|
                q.0 < s.next_op && w.0 < s.next_vn && #[trigger] extended_at_top(
                    g,
                    s.edits,
                    l.entry[i],
                    p,
                    v,
                    (top->0).0,
                    q,
                    w,
                );
            assert(flow::maker(t.edits, w) == flow::maker(s.edits, w));
            assert(flow::slots(g, t.edits, q) == flow::slots(g, s.edits, q));
            assert(extended_at_top(g, t.edits, l.entry[i], p, v, (top->0).0, q, w));
        }
    }
}

proof fn lemma_inputs(
    g: GraphView,
    s: ScriptView,
    l: ListView,
    params: Seq<Option<ParamView>>,
    n: int,
    top: Option<(BlockId, Address)>,
    taken: Seq<bool>,
)
    requires
        0 <= n <= params.len(),
        flow::numbered(g, s, n, 2 * n),
    ensures
        ({
            let t = forced::inputs_forced(l, s, params, n, top, taken).0;
            &&& left_alone(g, s, t)
            &&& t.next_vn <= s.next_vn + 2 * n
            &&& t.next_op <= s.next_op + n
            &&& forall|k: int|
                0 <= k < n && (#[trigger] params[k]) is Some && !(k < taken.len() && taken[k])
                    ==> exists|v: VarnodeId| #[trigger]
                    input_ready(g, t, l, params[k]->0, top, v)
        }),
    decreases n,
{
    broadcast use flow::group_flow;

    if n > 0 {
        lemma_inputs(g, s, l, params, n - 1, top, taken);
        let u = forced::inputs_forced(l, s, params, n - 1, top, taken).0;
        let t = forced::inputs_forced(l, s, params, n, top, taken).0;
        if params[n - 1] is Some {
            let p = params[n - 1]->0;
            lemma_input(g, u, l, p, top);
            assert(left_alone(g, u, t));
            lemma_left_alone_chain(g, s, u, t);
        }
        assert forall|k: int|
            0 <= k < n && (#[trigger] params[k]) is Some && !(k < taken.len()
                && taken[k]) implies (exists|v: VarnodeId| #[trigger]
            input_ready(g, t, l, params[k]->0, top, v)) by {
            if k < n - 1 {
                let v = choose|v: VarnodeId| #[trigger]
                    input_ready(g, u, l, params[k]->0, top, v);
                if params[n - 1] is Some {
                    lemma_input_kept(g, u, t, l, params[k]->0, top, v);
                }
                assert(input_ready(g, t, l, params[k]->0, top, v));
            } else {
                assert(input_ready(g, t, l, params[k]->0, top, u.vn()));
            }
        }
    }
}

/// A locked prototype is forced upon a function. No return keeps the return
/// address: a constant takes its place. If the return value is locked, each
/// return that comes back gives back a varnode with exactly its storage, its type
/// locked, behind what it had; otherwise the value is to be recovered. For each
/// locked input whose storage nothing else takes there is an input varnode with
/// that storage, extended at the top of the function where the model extends such
/// values.
pub proof fn law_prototype_enforced(
    g: GraphView,
    s: ScriptView,
    rs: Seq<OpId>,
    p: ProtoView,
    top: Option<(BlockId, Address)>,
    taken: Seq<bool>,
    k: int,
    j: int,
)
    requires
        returns_there(g, s, rs),
        forall|i: int| 0 <= i < rs.len() ==> g.ops[(#[trigger] rs[i]).0 as int].inputs[0].0
            < g.varnodes.len(),
        0 <= k < rs.len(),
        flow::numbered(
            g,
            s,
            p.inputs().len() as int,
            2 * rs.len() + 2 * p.inputs().len() as int,
        ),
    ensures
        ({
            let t = forced::types_forced(g, s, rs, p, top, taken).0;
            let o = p.store->0.output();
            &&& address_gone(g, t.edits, rs[k])
            &&& rest_stays(g, t.edits, rs[k])
            &&& if p.output_locked() && o.type_ is Some && o.type_->0.metatype
                != TypeMetatype::Void && comes_back(g, rs[k]) {
                exists|v: VarnodeId| #[trigger] gives_back(g, t.edits, rs[k], o, v)
            } else {
                flow::slots(g, t.edits, rs[k]).len() == g.ops[rs[k].0 as int].inputs.len()
            }
            &&& !p.output_locked() ==> t.edits.contains(Edit::InitActiveOutput)
            &&& t.edits.contains(Edit::ResetLocalWindow)
            &&& p.input_locked() && 0 <= j < p.inputs().len() && p.inputs()[j] is Some && !(j
                < taken.len() && taken[j]) ==> exists|v: VarnodeId| #[trigger]
                input_ready(g, t, p.model_view().ins(), p.inputs()[j]->0, top, v)
        }),
{
    broadcast use flow::group_flow;

    let n = rs.len() as int;
    let o = p.store->0.output();
    let s0 = s.then_do(Edit::ResetLocalWindow);
    assert(returns_there(g, s0, rs)) by {
        assert forall|i: int|
            0 <= i < rs.len() implies (#[trigger] rs[i]).0 < g.ops.len() && g.ops[rs[i].0 as int].inputs.len()
            > 0 && g.ops[rs[i].0 as int].inputs.len() < i32::MAX && flow::slots(g, s0.edits, rs[i])
            == flow::first_slots(g, rs[i]) by {
            assert(flow::slots(g, s.edits, rs[i]) == flow::first_slots(g, rs[i]));
        }
    }
    assert forall|i: int| 0 <= i < rs.len() implies seen(g, #[trigger] rs[i]) by {}
    lemma_stripped(g, s0, rs, n);
    let s1 = forced::returns_stripped(g, s0, rs, n).0;
    assert(s0.edits.last() == Edit::ResetLocalWindow);
    lemma_contains(s0.edits, s1.edits, Edit::ResetLocalWindow);
    let value = p.output_locked() && o.type_ is Some && o.type_->0.metatype != TypeMetatype::Void;
    assert forall|i: int| 0 <= i < n implies #[trigger] returned_by(g, s1, rs, i, 0, o) by {
        assert(rs[i].0 < g.ops.len() && seen(g, rs[i]));
        assert(stripped_to(g, s1, rs, i, n));
    }
    let s2 = if !p.output_locked() {
        s1.then_do(Edit::InitActiveOutput)
    } else if !value {
        s1
    } else {
        forced::returns_forced(g, s1, rs, n, o).0
    };
    let m = if value {
        n
    } else {
        0
    };
    if value {
        assert forall|i: int|
            0 <= i < rs.len() implies (#[trigger] rs[i]).0 < g.ops.len() && 0
            < g.ops[rs[i].0 as int].inputs.len() < i32::MAX by {}
        lemma_returned(g, s1, rs, n, o);
    } else if !p.output_locked() {
        lemma_returned_kept(g, s1, s2, rs, k, 0, 0, o);
        assert(s2.edits.last() == Edit::InitActiveOutput);
    }
    assert(returned_by(g, s2, rs, k, m, o));
    assert(goes_on(s1.edits, s2.edits));
    let t = forced::types_forced(g, s, rs, p, top, taken).0;
    if p.input_locked() {
        lemma_inputs(
            g,
            s2,
            p.model_view().ins(),
            p.inputs(),
            p.inputs().len() as int,
            top,
            taken,
        );
        assert(rs[k].0 < g.ops.len());
        assert(flow::slots(g, t.edits, rs[k]) == flow::slots(g, s2.edits, rs[k]));
        lemma_returned_kept(g, s2, t, rs, k, m, m, o);
        if 0 <= j < p.inputs().len() {
            assert(p.inputs()[j] == p.inputs()[j]);
        }
    }
    assert(returned_by(g, t, rs, k, m, o));
    assert(goes_on(s2.edits, t.edits));
    lemma_contains(s1.edits, s2.edits, Edit::ResetLocalWindow);
    lemma_contains(s2.edits, t.edits, Edit::ResetLocalWindow);
    if !p.output_locked() {
        lemma_contains(s2.edits, t.edits, Edit::InitActiveOutput);
    }
}

} // verus!
