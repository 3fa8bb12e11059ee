//! A call whose prototype is fixed reads and writes the storage of its
//! parameters.
use crate::active::ActiveView;
use crate::callspec::CallView;
use crate::flow;
use crate::graph::{GraphView, OpId, VarnodeId};
use crate::joins::JoinTable;
use crate::link;
use crate::link::LinkState;
use crate::opcode::OpCode;
use crate::pieced;
use crate::proto;
use crate::script::{Edit, ScriptView};
use crate::space::{AddrSpace, Address, SpaceType, VarnodeData};
use crate::store::ParamView;
use vstd::prelude::*;

verus! {

/// The varnode is loaded from exactly these bytes of the stack, for `op`.
pub open spec fn loaded_from(
    edits: Seq<Edit>,
    v: VarnodeId,
    space: AddrSpace,
    offset: u64,
    size: u32,
    op: OpId,
) -> bool {
    flow::maker(edits, v) == Some(
        Edit::StackLoad { vn: v, space, offset, bytes: size, op, stackref: None },
    )
}

/// The varnode is put together of the stack piece `stack` and `rest`; the
/// stack piece is the most significant part if `first`.
pub open spec fn two_parts(
    g: GraphView,
    edits: Seq<Edit>,
    v: VarnodeId,
    stack: VarnodeData,
    rest: VarnodeData,
    first: bool,
    op: OpId,
    p: OpId,
    a: VarnodeId,
    b: VarnodeId,
) -> bool {
    &&& stack.space is Some
    &&& loaded_from(edits, a, stack.space->0, stack.offset, stack.size, op)
    &&& flow::maker(edits, b) == Some(
        Edit::NewVarnode {
            vn: b,
            size: rest.size as i32,
            addr: Address { space: rest.space, offset: rest.offset },
        },
    )
    &&& flow::mover(edits, p) == Some(Edit::InsertBefore { op: p, at: op })
    &&& if first {
        pieced::puts_together(g, edits, p, v, a, b)
    } else {
        pieced::puts_together(g, edits, p, v, b, a)
    }
}

/// The parameter is split: it is joined storage with an end on the stack, and
/// the rest of it is given.
pub open spec fn split(table: JoinTable, addr: Address, remain: Option<VarnodeData>) -> bool {
    &&& addr.space matches Some(s) && s.type_ == SpaceType::Join
    &&& remain is Some
    &&& link::split_on_stack(table, addr) is Some
}

/// The varnode is the value of the parameter: loaded from its bytes if it is
/// on the stack, put together if it is split, and its own storage otherwise.
/// What it is made of is numbered below `vtop` and `otop`.
pub open spec fn stands_for(
    g: GraphView,
    edits: Seq<Edit>,
    v: VarnodeId,
    addr: Address,
    size: i32,
    table: JoinTable,
    remain: Option<VarnodeData>,
    op: OpId,
    vtop: int,
    otop: int,
) -> bool {
    if addr.space->0.type_ == SpaceType::Spacebase {
        loaded_from(edits, v, addr.space->0, addr.offset, size as u32, op)
    } else if split(table, addr, remain) {
        let (pieces, k) = link::split_on_stack(table, addr)->0;
        exists|p: OpId, a: VarnodeId, b: VarnodeId|
            #![trigger flow::code(g, edits, p), flow::maker(edits, a), flow::maker(edits, b)]
            g.ops.len() <= p.0 < otop && a.0 < vtop && b.0 < vtop && two_parts(
                g,
                edits,
                v,
                pieces[k],
                remain->0,
                k == 0,
                op,
                p,
                a,
                b,
            )
    } else {
        flow::maker(edits, v) == Some(Edit::NewVarnode { vn: v, size, addr })
    }
}

/// What is numbered below the bounds is the same after both lists of changes,
/// but for the slots of `op`.
pub open spec fn kept(
    g: GraphView,
    a: Seq<Edit>,
    b: Seq<Edit>,
    op: OpId,
    vtop: int,
    otop: int,
) -> bool {
    &&& forall|v: VarnodeId| v.0 < vtop ==> #[trigger] flow::maker(b, v) == flow::maker(a, v)
    &&& forall|p: OpId|
        p.0 < otop ==> #[trigger] flow::code(g, b, p) == flow::code(g, a, p) && flow::output(g, b, p)
            == flow::output(g, a, p) && flow::mover(b, p) == flow::mover(a, p)
    &&& forall|p: OpId|
        p.0 < otop && p != op ==> #[trigger] flow::slots(g, b, p) == flow::slots(g, a, p)
}

pub(crate) proof fn lemma_kept_chain(
    g: GraphView,
    a: Seq<Edit>,
    b: Seq<Edit>,
    c: Seq<Edit>,
    op: OpId,
    vtop: int,
    otop: int,
    vtop2: int,
    otop2: int,
)
    requires
        kept(g, a, b, op, vtop, otop),
        kept(g, b, c, op, vtop2, otop2),
        vtop <= vtop2,
        otop <= otop2,
    ensures
        kept(g, a, c, op, vtop, otop),
{
    assert forall|v: VarnodeId| v.0 < vtop implies #[trigger] flow::maker(c, v) == flow::maker(
        a,
        v,
    ) by {
        assert(flow::maker(b, v) == flow::maker(a, v));
    }
    assert forall|p: OpId| p.0 < otop implies #[trigger] flow::code(g, c, p) == flow::code(g, a, p)
        && flow::output(g, c, p) == flow::output(g, a, p) && flow::mover(c, p) == flow::mover(
        a,
        p,
    ) by {
        assert(flow::code(g, b, p) == flow::code(g, a, p));
        assert(flow::code(g, c, p) == flow::code(g, b, p));
    }
    assert forall|p: OpId| p.0 < otop && p != op implies #[trigger] flow::slots(g, c, p)
        == flow::slots(g, a, p) by {
        assert(flow::slots(g, b, p) == flow::slots(g, a, p));
    }
}

proof fn lemma_stands_kept(
    g: GraphView,
    e: Seq<Edit>,
    f: Seq<Edit>,
    v: VarnodeId,
    addr: Address,
    size: i32,
    table: JoinTable,
    remain: Option<VarnodeData>,
    op: OpId,
    vtop: int,
    otop: int,
    vtop2: int,
    otop2: int,
)
    requires
        stands_for(g, e, v, addr, size, table, remain, op, vtop, otop),
        kept(g, e, f, op, vtop, otop),
        v.0 < vtop <= vtop2,
        otop <= otop2,
        op.0 < g.ops.len(),
    ensures
        stands_for(g, f, v, addr, size, table, remain, op, vtop2, otop2),
{
    assert(flow::maker(f, v) == flow::maker(e, v));
    if addr.space->0.type_ != SpaceType::Spacebase && split(table, addr, remain) {
        let (pieces, k) = link::split_on_stack(table, addr)->0;
        let (p, a, b) = choose|p: OpId, a: VarnodeId, b: VarnodeId|
            #![trigger flow::code(g, e, p), flow::maker(e, a), flow::maker(e, b)]
            g.ops.len() <= p.0 < otop && a.0 < vtop && b.0 < vtop && two_parts(
                g,
                e,
                v,
                pieces[k],
                remain->0,
                k == 0,
                op,
                p,
                a,
                b,
            );
        assert(flow::maker(f, a) == flow::maker(e, a));
        assert(flow::maker(f, b) == flow::maker(e, b));
        assert(flow::code(g, f, p) == flow::code(g, e, p));
        assert(flow::slots(g, f, p) == flow::slots(g, e, p));
        assert(two_parts(g, f, v, pieces[k], remain->0, k == 0, op, p, a, b));
    }
}

/// The parameter can be set up.
pub open spec fn placeable(addr: Address, remain: Option<VarnodeData>) -> bool {
    addr.space is Some && (remain matches Some(r) ==> r.space is Some)
}

/// The number of inputs that is counted is that of the call.
pub open spec fn counted(g: GraphView, op: OpId, st: LinkState) -> bool {
    st.nin == flow::slots(g, st.script.edits, op).len() && st.nin < i32::MAX
}

proof fn lemma_pieced(
    g: GraphView,
    op: OpId,
    opaddr: Address,
    stack: VarnodeData,
    first: bool,
    rest: VarnodeData,
    size: i32,
    nin: int,
    s: ScriptView,
)
    requires
        op.0 < g.ops.len(),
        flow::numbered(g, s, 1, 3),
        stack.space is Some,
        rest.space is Some,
        nin == flow::slots(g, s.edits, op).len(),
        nin < i32::MAX,
    ensures
        ({
            let t = link::pieced_together(op, opaddr, stack, first, rest, size, nin, s);
            let v = VarnodeId((s.next_vn + 2) as u64);
            &&& flow::slots(g, t.edits, op) =~= flow::slots(g, s.edits, op).push(Some(v))
            &&& two_parts(
                g,
                t.edits,
                v,
                stack,
                rest,
                first,
                op,
                OpId(s.next_op),
                VarnodeId(s.next_vn),
                VarnodeId((s.next_vn + 1) as u64),
            )
            &&& t.next_vn == s.next_vn + 3
            &&& t.next_op == s.next_op + 1
            &&& t.loads == s.loads
            &&& kept(g, s.edits, t.edits, op, s.next_vn as int, s.next_op as int)
        }),
{
    broadcast use flow::group_flow;

}

proof fn lemma_linked(
    g: GraphView,
    op: OpId,
    opaddr: Address,
    table: JoinTable,
    addr: Address,
    size: i32,
    remain: Option<VarnodeData>,
    st: LinkState,
)
    requires
        op.0 < g.ops.len(),
        counted(g, op, st),
        st.script.loads,
        placeable(addr, remain),
        flow::numbered(g, st.script, 1, 3),
    ensures
        ({
            let t = link::linked(op, opaddr, table, addr, size, remain, st);
            let s = st.script;
            let r = flow::slots(g, t.script.edits, op);
            &&& t.nin == st.nin + 1
            &&& r.len() == t.nin
            &&& r.drop_last() =~= flow::slots(g, s.edits, op)
            &&& r.last() is Some
            &&& (r.last()->0).0 < t.script.next_vn
            &&& stands_for(
                g,
                t.script.edits,
                r.last()->0,
                addr,
                size,
                table,
                remain,
                op,
                t.script.next_vn as int,
                t.script.next_op as int,
            )
            &&& s.next_vn <= t.script.next_vn <= s.next_vn + 3
            &&& s.next_op <= t.script.next_op <= s.next_op + 1
            &&& t.script.loads
            &&& kept(g, s.edits, t.script.edits, op, s.next_vn as int, s.next_op as int)
            &&& t.spacebase is Some ==> t.spacebase == st.spacebase
            &&& addr.space->0.type_ == SpaceType::Spacebase && !st.marked ==> t.marked
                && t.spacebase is None
            &&& addr.space->0.type_ != SpaceType::Spacebase || st.marked ==> t.marked == st.marked
                && t.spacebase == st.spacebase
        }),
{
    let s = st.script;
    if addr.space->0.type_ != SpaceType::Spacebase && link::split_on_stack(table, addr) is Some
        && remain is Some {
        let (pieces, k) = link::split_on_stack(table, addr)->0;
        lemma_pieced(g, op, opaddr, pieces[k], k == 0, remain->0, size, st.nin, s);
        let t = link::linked(op, opaddr, table, addr, size, remain, st);
        let a = VarnodeId(s.next_vn);
        let b = VarnodeId((s.next_vn + 1) as u64);
        let p = OpId(s.next_op);
        let e = t.script.edits;
        assert(flow::maker(e, a) is Some && flow::maker(e, b) is Some && flow::code(g, e, p)
            is Some);
        let r = flow::slots(g, e, op);
        assert(two_parts(g, e, r.last()->0, pieces[k], remain->0, k == 0, op, p, a, b));
    } else {
        broadcast use flow::group_flow;

    }
}

/// The `k`-th of the new inputs of the call stands for the `k`-th parameter.
pub open spec fn input_stands(
    g: GraphView,
    s: ScriptView,
    op: OpId,
    table: JoinTable,
    params: Seq<Option<ParamView>>,
    remains: Seq<Option<VarnodeData>>,
    base: int,
    k: int,
) -> bool {
    let r = flow::slots(g, s.edits, op);
    &&& r[base + k] is Some
    &&& (r[base + k]->0).0 < s.next_vn
    &&& stands_for(
        g,
        s.edits,
        r[base + k]->0,
        params[k]->0.addr,
        params[k]->0.size(),
        table,
        remains[k],
        op,
        s.next_vn as int,
        s.next_op as int,
    )
}

proof fn lemma_linked_all(
    g: GraphView,
    op: OpId,
    opaddr: Address,
    table: JoinTable,
    params: Seq<Option<ParamView>>,
    n: int,
    remains: Seq<Option<VarnodeData>>,
    st: LinkState,
)
    requires
        0 <= n <= params.len(),
        op.0 < g.ops.len(),
        st.nin == flow::slots(g, st.script.edits, op).len(),
        st.nin + n <= i32::MAX,
        st.script.loads,
        forall|k: int| 0 <= k < n ==> placeable((#[trigger] params[k])->0.addr, remains[k]),
        flow::numbered(g, st.script, n, 3 * n),
    ensures
        ({
            let t = link::linked_all(op, opaddr, table, params, n, remains, st);
            let s = st.script;
            let r = flow::slots(g, t.script.edits, op);
            &&& t.nin == st.nin + n
            &&& r.len() == t.nin
            &&& r.take(st.nin) =~= flow::slots(g, s.edits, op)
            &&& forall|k: int|
                0 <= k < n ==> #[trigger] input_stands(
                    g,
                    t.script,
                    op,
                    table,
                    params,
                    remains,
                    st.nin,
                    k,
                )
            &&& s.next_vn <= t.script.next_vn <= s.next_vn + 3 * n
            &&& s.next_op <= t.script.next_op <= s.next_op + n
            &&& t.script.loads
            &&& kept(g, s.edits, t.script.edits, op, s.next_vn as int, s.next_op as int)
            &&& t.spacebase is Some ==> t.spacebase == st.spacebase
            &&& st.marked ==> t.marked && t.spacebase == st.spacebase
            &&& !st.marked ==> t.spacebase == (if exists|k: int|
                0 <= k < n && (#[trigger] params[k])->0.addr.space->0.type_
                    == SpaceType::Spacebase {
                None
            } else {
                st.spacebase
            })
            &&& t.marked == (st.marked || exists|k: int|
                0 <= k < n && (#[trigger] params[k])->0.addr.space->0.type_
                    == SpaceType::Spacebase)
        }),
    decreases n,
{
    if n > 0 {
        lemma_linked_all(g, op, opaddr, table, params, n - 1, remains, st);
        let u = link::linked_all(op, opaddr, table, params, n - 1, remains, st);
        let p = params[n - 1]->0;
        assert(placeable(params[n - 1]->0.addr, remains[n - 1]));
        lemma_linked(g, op, opaddr, table, p.addr, p.size(), remains[n - 1], u);
        let t = link::linked_all(op, opaddr, table, params, n, remains, st);
        let s = st.script;
        lemma_kept_chain(
            g,
            s.edits,
            u.script.edits,
            t.script.edits,
            op,
            s.next_vn as int,
            s.next_op as int,
            u.script.next_vn as int,
            u.script.next_op as int,
        );
        let q = flow::slots(g, u.script.edits, op);
        let r = flow::slots(g, t.script.edits, op);
        assert forall|k: int| 0 <= k < n implies #[trigger] input_stands(
            g,
            t.script,
            op,
            table,
            params,
            remains,
            st.nin,
            k,
        ) by {
            if k < n - 1 {
                assert(input_stands(g, u.script, op, table, params, remains, st.nin, k));
                assert(r[st.nin + k] == r.drop_last()[st.nin + k]);
                assert(r[st.nin + k] == q[st.nin + k]);
                lemma_stands_kept(
                    g,
                    u.script.edits,
                    t.script.edits,
                    q[st.nin + k]->0,
                    params[k]->0.addr,
                    params[k]->0.size(),
                    table,
                    remains[k],
                    op,
                    u.script.next_vn as int,
                    u.script.next_op as int,
                    t.script.next_vn as int,
                    t.script.next_op as int,
                );
            } else {
                assert(r[st.nin + k] == r.last());
            }
        }
        assert(r.take(st.nin) =~= r.drop_last().take(st.nin));
        if p.addr.space->0.type_ == SpaceType::Spacebase {
            assert(params[n - 1]->0.addr.space->0.type_ == SpaceType::Spacebase);
        }
    }
}

/// Each fixed parameter of a call gets one input, in order and behind those
/// that are there: a parameter on the stack is loaded from exactly its bytes,
/// one in joined storage with an end on the stack is put together of both
/// parts, and any other is a varnode with exactly its storage. One more input
/// stands for the stack pointer if the model has a stack and no parameter is
/// loaded from it.
pub proof fn law_fixed_inputs(
    c: CallView,
    g: GraphView,
    s: ScriptView,
    table: JoinTable,
    remains: Seq<Option<VarnodeData>>,
)
    requires
        c.inputs_linkable(g, remains),
        c.proto.input_locked(),
        s.loads,
        c.op.0 < g.ops.len(),
        ({
            let params = c.proto.inputs();
            let n = params.len() as int;
            let have = g.ops[c.op.0 as int].inputs.len();
            &&& flow::slots(g, s.edits, c.op).len() == have
            &&& have + n < i32::MAX
            &&& flow::numbered(g, s, n, 3 * n + 1)
            &&& forall|k: int| 0 <= k < n ==> placeable((#[trigger] params[k])->0.addr, remains[k])
        }),
    ensures
        ({
            let params = c.proto.inputs();
            let n = params.len() as int;
            let have = g.ops[c.op.0 as int].inputs.len() as int;
            let (d, t) = c.inputs_linked(g, s, table, remains);
            let r = flow::slots(g, t.edits, c.op);
            let base = match c.proto.model_view().input {
                Some(l) => l.spacebase,
                None => None,
            };
            let wanted = base is Some && (c.proto.flag(proto::DOTDOTDOT) || !exists|k: int|
                0 <= k < n && (#[trigger] params[k])->0.addr.space->0.type_
                    == SpaceType::Spacebase);
            &&& r.len() == have + n + (if wanted {
                1int
            } else {
                0int
            })
            &&& r.take(have) =~= flow::slots(g, s.edits, c.op)
            &&& forall|k: int|
                0 <= k < n ==> #[trigger] input_stands(
                    g,
                    t,
                    c.op,
                    table,
                    params,
                    remains,
                    have,
                    k,
                )
            &&& wanted ==> r.last() is Some && loaded_from(
                t.edits,
                r.last()->0,
                base->0,
                0,
                1,
                c.op,
            ) && d.stack_placeholder_slot == have + n && t.edits.last() == (
            Edit::MarkPlaceholder { vn: r.last()->0 })
            &&& !wanted ==> d.stack_placeholder_slot == c.stack_placeholder_slot
        }),
{
    let params = c.proto.inputs();
    let n = params.len() as int;
    let have = g.ops[c.op.0 as int].inputs.len() as int;
    let varargs = c.proto.flag(proto::DOTDOTDOT);
    let c1 = if varargs {
        c.recovering_inputs()
    } else {
        c
    };
    let st = c1.link_start(g, s);
    let opaddr = g.op(c.op)->0.addr;
    lemma_linked_all(g, c.op, opaddr, table, params, n, remains, st);
    let u = link::linked_all(c.op, opaddr, table, params, n, remains, st);
    let (d, t) = c.inputs_linked(g, s, table, remains);
    if u.spacebase is Some {
        lemma_placeholder(g, c.op, u.script, u.spacebase->0, u.nin);
        let q = flow::slots(g, u.script.edits, c.op);
        let r = flow::slots(g, t.edits, c.op);
        assert forall|k: int| 0 <= k < n implies #[trigger] input_stands(
            g,
            t,
            c.op,
            table,
            params,
            remains,
            have,
            k,
        ) by {
            assert(input_stands(g, u.script, c.op, table, params, remains, have, k));
            assert(r[have + k] == q[have + k]);
            lemma_stands_kept(
                g,
                u.script.edits,
                t.edits,
                q[have + k]->0,
                params[k]->0.addr,
                params[k]->0.size(),
                table,
                remains[k],
                c.op,
                u.script.next_vn as int,
                u.script.next_op as int,
                t.next_vn as int,
                t.next_op as int,
            );
        }
        assert(r.take(have) =~= q.take(have));
    }
}

proof fn lemma_placeholder(g: GraphView, op: OpId, s: ScriptView, sb: AddrSpace, nin: int)
    requires
        op.0 < g.ops.len(),
        flow::numbered(g, s, 0, 1),
        nin == flow::slots(g, s.edits, op).len(),
        nin < i32::MAX,
    ensures
        ({
            let t = s.stack_load(sb, 0, 1, op, None).insert_input(op, s.vn(), nin).then_do(
                Edit::MarkPlaceholder { vn: s.vn() },
            );
            &&& flow::slots(g, t.edits, op) =~= flow::slots(g, s.edits, op).push(Some(s.vn()))
            &&& loaded_from(t.edits, s.vn(), sb, 0, 1, op)
            &&& t.edits.last() == (Edit::MarkPlaceholder { vn: s.vn() })
            &&& kept(g, s.edits, t.edits, op, s.next_vn as int, s.next_op as int)
            &&& t.next_vn == s.next_vn + 1
            &&& t.next_op == s.next_op
        }),
{
    broadcast use flow::group_flow;

}

/// Each fixed parameter of a call gets a trial in its place that is active and
/// has exactly its storage; a variadic call notes its position.
pub proof fn law_fixed_trials(
    a: ActiveView,
    params: Seq<Option<ParamView>>,
    n: int,
    varargs: bool,
    k: int,
)
    requires
        a.trial.len() == 0,
        0 <= k < n <= params.len() <= i32::MAX,
        a.slotbase + n <= i32::MAX,
    ensures
        ({
            let b = link::fixed_trials(a, params, n, varargs);
            let t = b.trial[k];
            &&& b.trial.len() == n
            &&& b.slotbase == a.slotbase + n
            &&& t.addr == params[k]->0.addr
            &&& t.size == params[k]->0.size()
            &&& t.slot == a.slotbase + k
            &&& t.flags.active && t.flags.checked && !t.flags.used && !t.flags.defnouse
            &&& t.fixed_position == (if varargs {
                k as i32
            } else {
                -1i32
            })
        }),
    decreases n,
{
    if n > 1 {
        law_fixed_trials(a, params, n - 1, varargs, if k < n - 1 {
            k
        } else {
            0
        });
    } else {
        assert(link::fixed_trials(a, params, 0, varargs) == a);
    }
}

/// The output of a call. One that is open is to be recovered. One that is fixed
/// and not on the stack becomes a varnode with exactly the storage of the
/// return value; if the model extends it, an operation behind the call extends
/// that storage into the larger one. One on the stack is left for later, and a
/// call that returns nothing gets no output. An output that was there goes.
pub proof fn law_fixed_output(c: CallView, g: GraphView, s: ScriptView, types_known: bool)
    requires
        c.output_linkable(g),
        c.op.0 < g.ops.len(),
        flow::numbered(g, s, 1, 3),
        flow::output(g, s.edits, c.op) == g.ops[c.op.0 as int].output,
    ensures
        ({
            let (d, t) = c.output_linked(g, s, types_known);
            let p = c.proto.store->0.output();
            let out = flow::output(g, t.edits, c.op);
            let plain = c.proto.output_locked() && p.type_ is Some && p.type_->0.metatype
                != crate::dtype::TypeMetatype::Void;
            let stacked = p.addr.space matches Some(sp) && sp.type_ == SpaceType::Spacebase;
            &&& d.proto == c.proto && d.activeinput == c.activeinput && d.activeoutput
                == c.activeoutput
            &&& !c.proto.output_locked() ==> d.isoutputactive && out is None
            &&& c.proto.output_locked() ==> d.isoutputactive == c.isoutputactive
            &&& !plain || stacked ==> out is None
            &&& plain && stacked ==> d.isstackoutputlock
            &&& plain && !stacked ==> out is Some && flow::maker(t.edits, out->0) == Some(
                Edit::NewVarnodeOut {
                    vn: out->0,
                    size: p.type_->0.size,
                    addr: p.addr,
                    op: c.op,
                },
            )
            &&& flow::slots(g, t.edits, c.op) == flow::slots(g, s.edits, c.op)
        }),
{
    broadcast use flow::group_flow;

}

/// The extension of a return value that the model assumes: it reads the storage
/// of the value, gives the larger storage, stands behind the call, and is a
/// sign extension for a signed integer where the type decides.
pub proof fn law_output_extended(c: CallView, g: GraphView, s: ScriptView, p: ParamView)
    requires
        c.op.0 < g.ops.len(),
        flow::numbered(g, s, 1, 2),
    ensures
        ({
            let t = c.output_extended(g, s, p);
            let ext = OpId(s.next_op);
            let sz = match p.type_ {
                Some(x) => x.size,
                None => 0,
            };
            let assumed = c.assumed_extension(p.addr, sz as int);
            &&& assumed == OpCode::Copy ==> t == s
            &&& assumed != OpCode::Copy ==> {
                let r = flow::slots(g, t.edits, ext);
                &&& r.len() == 1
                &&& r[0] is Some
                &&& flow::maker(t.edits, r[0]->0) == Some(
                    Edit::NewVarnode { vn: r[0]->0, size: sz, addr: p.addr },
                )
                &&& flow::mover(t.edits, ext) == Some(Edit::InsertAfter { op: ext, at: c.op })
                &&& flow::code(g, t.edits, ext) == Some(
                    if assumed == OpCode::Piece {
                        if p.type_ matches Some(x) && x.metatype == crate::dtype::TypeMetatype::Int {
                            OpCode::IntSext
                        } else {
                            OpCode::IntZext
                        }
                    } else {
                        assumed
                    },
                )
                &&& flow::output(g, t.edits, ext) is Some
                &&& flow::output(g, t.edits, ext) != r[0]
            }
        }),
{
    broadcast use flow::group_flow;

}

/// How a call moves the stack pointer: behind a call that pops a known number
/// of bytes the pointer is the one before it plus that number, and a call that
/// pops an unknown number gives a new one in front of itself.
pub proof fn law_pop_related(
    g: GraphView,
    s: ScriptView,
    op: OpId,
    opaddr: Address,
    base: VarnodeData,
    pop: i32,
)
    requires
        op.0 < g.ops.len(),
        flow::numbered(g, s, 1, 3),
    ensures
        ({
            let t = link::pop_script(s, op, opaddr, base, pop);
            let rel = OpId(s.next_op);
            let r = flow::slots(g, t.edits, rel);
            let out = flow::output(g, t.edits, rel);
            let at = Address { space: base.space, offset: base.offset };
            &&& r.len() == 2 && r[0] is Some && r[1] is Some && out is Some
            &&& flow::maker(t.edits, out->0) == Some(
                Edit::NewVarnodeOut { vn: out->0, size: base.size as i32, addr: at, op: rel },
            )
            &&& flow::maker(t.edits, r[0]->0) == Some(
                Edit::NewVarnode { vn: r[0]->0, size: base.size as i32, addr: at },
            )
            &&& pop != 0x8000 ==> flow::code(g, t.edits, rel) == Some(OpCode::IntAdd)
                && flow::maker(t.edits, r[1]->0) == Some(
                Edit::NewConstant {
                    vn: r[1]->0,
                    size: base.size as i32,
                    value: (pop as i64) as u64,
                },
            ) && flow::mover(t.edits, rel) == Some(Edit::InsertAfter { op: rel, at: op })
            &&& pop == 0x8000 ==> flow::code(g, t.edits, rel) == Some(OpCode::Indirect)
                && flow::maker(t.edits, r[1]->0) == Some(Edit::NewIop { vn: r[1]->0, op })
                && flow::mover(t.edits, rel) == Some(Edit::InsertBefore { op: rel, at: op })
        }),
{
    broadcast use flow::group_flow;

}

} // verus!
