//! What calls become once it is known what they reach, and how each of them gets
//! its prototype and gives back its value.
use crate::active;
use crate::callpass;
use crate::callpass::SplitView;
use crate::callspec::CallView;
use crate::dtype::Datatype;
use crate::flow;
use crate::forced;
use crate::forced::CalleeDecl;
use crate::graph::{GraphView, OpId, VarnodeId};
use crate::joins::JoinTable;
use crate::model::ProtoModel;
use crate::opcode::OpCode;
use crate::proto;
use crate::proto::ProtoView;
use crate::script::{Edit, ScriptView};
use crate::space::{AddrSpace, Address};
use crate::store;
use crate::trial::ParamTrial;
use std::rc::Rc;
use vstd::prelude::*;

verus! {

/// An indirect call that is found to reach a function becomes a direct call of
/// it: its target is a new varnode that stands for the call, its other inputs and
/// all other operations stay, and it is recorded at the place of the call what it
/// reaches.
pub proof fn law_call_directed(
    c: CallView,
    g: GraphView,
    s: ScriptView,
    entry: Address,
    name: Seq<char>,
    handle: u64,
)
    requires
        c.op.0 < g.ops.len(),
        flow::slots(g, s.edits, c.op).len() > 0,
    ensures
        ({
            let r = c.directed(entry, name);
            &&& r.entryaddress == entry && r.name == name && r.has_fd
            &&& r.op == c.op && r.proto == c.proto
        }),
        ({
            let t = c.direct_script(g, s, entry, handle).edits;
            &&& flow::code(g, t, c.op) == Some(OpCode::Call)
            &&& flow::slots(g, t, c.op) == flow::slots(g, s.edits, c.op).update(0, Some(s.vn()))
            &&& flow::maker(t, s.vn()) == Some(Edit::NewCallSpecs { vn: s.vn(), handle })
            &&& forall|o: OpId|
                o != c.op ==> #[trigger] flow::slots(g, t, o) == flow::slots(g, s.edits, o)
            &&& forall|o: OpId|
                o != c.op ==> #[trigger] flow::code(g, t, o) == flow::code(g, s.edits, o)
            &&& t.contains(
                Edit::IndirectOverride { site: g.ops[c.op.0 as int].addr, target: entry },
            )
        }),
{
    broadcast use flow::group_flow;

    let e1 = s.edits.push(Edit::NewCallSpecs { vn: s.vn(), handle });
    let e2 = e1.push(Edit::SetInput { op: c.op, vn: s.vn(), slot: 0 });
    let e3 = e2.push(Edit::SetOpcode { op: c.op, code: OpCode::Call });
    let over = Edit::IndirectOverride { site: g.ops[c.op.0 as int].addr, target: entry };
    let e4 = e3.push(over);
    assert(c.direct_script(g, s, entry, handle).edits == e4);
    assert(e4[e4.len() - 1] == over);
    assert(e1.drop_last() =~= s.edits && e2.drop_last() =~= e1 && e3.drop_last() =~= e2
        && e4.drop_last() =~= e3);
    assert forall|o: OpId| o != c.op implies #[trigger] flow::slots(g, e4, o) == flow::slots(
        g,
        s.edits,
        o,
    ) by {
        assert(flow::slots(g, e3, o) == flow::slots(g, e2, o));
        assert(flow::slots(g, e2, o) == flow::slots(g, e1, o));
    }
    assert forall|o: OpId| o != c.op implies #[trigger] flow::code(g, e4, o) == flow::code(
        g,
        s.edits,
        o,
    ) by {
        assert(flow::code(g, e3, o) == flow::code(g, e2, o));
        assert(flow::code(g, e2, o) == flow::code(g, e1, o));
    }
}

/// Where a call is rewritten for the function that it reaches, the varnode that
/// stands for the call is the first of the inputs, and the others are as they were
/// chosen.
pub proof fn law_target_first(list: Seq<Option<VarnodeId>>, target: VarnodeId)
    ensures
        ({
            let r = CallView::retargeted(list, target);
            &&& r.len() == list.len()
            &&& list.len() > 0 ==> r[0] == Some(target)
            &&& forall|k: int| 0 < k < list.len() ==> #[trigger] r[k] == list[k]
        }),
{
}

/// A prototype that is evaluated under a model follows it, unless it is locked to
/// its own. What it declares stays.
pub proof fn law_evaluated(p: ProtoView, m: Rc<ProtoModel>)
    ensures
        ({
            let r = p.evaluated(Some(m));
            &&& p.flags & proto::MODELLOCK != 0 ==> r == p
            &&& p.flags & proto::MODELLOCK == 0 ==> r.model is Some && (*r.model->0)@.id
                == (*m)@.id
            &&& r.store == p.store
        }),
        p.evaluated(None) == p,
{
}

/// A call of which nothing is declared has a prototype without inputs and without
/// a return value, under the model to evaluate calls with if it had none. Where
/// only a return value is declared, it has that one, locked. A declared prototype
/// is taken as it is, under its own model if that is locked, with as many bytes
/// consumed of the return value as before.
pub proof fn law_default_prototype(
    c: CallView,
    evalfp: Rc<ProtoModel>,
    void_type: Datatype,
    decl: CalleeDecl,
    default_fp: Option<Rc<ProtoModel>>,
    data_space: Option<AddrSpace>,
    table: JoinTable,
)
    ensures
        ({
            let (r, t) = c.with_default(evalfp, void_type, decl, default_fp, data_space, table);
            &&& r == CallView { proto: r.proto, ..c }
            &&& decl.pieces is None ==> {
                &&& t == table
                &&& r.proto.store == Some(store::empty_store(void_type))
                &&& r.proto.store->0.inparam.len() == 0
                &&& r.proto.model == if c.proto.model is Some {
                    c.proto.model
                } else {
                    Some(evalfp)
                }
            }
            &&& decl.output_only() ==> {
                &&& t == table
                &&& r.proto.store->0.inparam.len() == 0
                &&& r.proto.store->0.output().addr == decl.pieces->0@.output_storage->0.addr
                &&& r.proto.model == if c.proto.model is Some {
                    c.proto.model
                } else {
                    Some(evalfp)
                }
            }
            &&& decl.declared(default_fp, void_type, data_space, table) matches Some(out) ==> {
                &&& t == out.table
                &&& out.res is Ok ==> {
                    &&& r.proto.store == out.proto.store
                    &&& r.proto.return_bytes_consumed == c.proto.return_bytes_consumed
                    &&& out.proto.flags & proto::MODELLOCK != 0 ==> r.proto.model
                        == out.proto.model
                    &&& out.proto.flags & proto::MODELLOCK == 0 ==> r.proto.model is Some && (
                    *r.proto.model->0)@.id == (*evalfp)@.id
                }
            }
        }),
{
}

/// Each call gets its prototype alone. One that has a model is left as it is, and
/// of one whose callee is not known nothing counts as declared.
pub proof fn law_defaults_set(
    cs: Seq<CallView>,
    n: int,
    evalfp: Rc<ProtoModel>,
    void_type: Datatype,
    decls: Seq<CalleeDecl>,
    default_fp: Option<Rc<ProtoModel>>,
    data_space: Option<AddrSpace>,
    table: JoinTable,
    i: int,
)
    requires
        0 <= i < cs.len(),
        0 <= n <= cs.len(),
    ensures
        ({
            let (ds, t) = forced::defaults_set(
                cs,
                n,
                evalfp,
                void_type,
                decls,
                default_fp,
                data_space,
                table,
            );
            &&& ds.len() == cs.len()
            &&& i >= n || cs[i].proto.model is Some ==> ds[i] == cs[i]
            &&& ds[i] == CallView { proto: ds[i].proto, ..cs[i] }
            &&& i < n && cs[i].proto.model is None && (!cs[i].has_fd || decls[i].pieces is None)
                ==> {
                &&& ds[i].proto.model == Some(evalfp)
                &&& ds[i].proto.store == Some(store::empty_store(void_type))
            }
        }),
    decreases n,
{
    if n > 0 {
        law_defaults_set(
            cs,
            n - 1,
            evalfp,
            void_type,
            decls,
            default_fp,
            data_space,
            table,
            i,
        );
        let t = forced::defaults_set(
            cs,
            n - 1,
            evalfp,
            void_type,
            decls,
            default_fp,
            data_space,
            table,
        ).1;
        law_default_prototype(
            cs[n - 1],
            evalfp,
            void_type,
            cs[n - 1].declaration(decls[n - 1]),
            default_fp,
            data_space,
            t,
        );
    }
}

/// The value of the call is to be recovered.
pub open spec fn to_recover(c: CallView, g: GraphView) -> bool {
    c.isoutputactive && c.op.0 < g.ops.len() && !g.ops[c.op.0 as int].dead
        && g.ops[c.op.0 as int].is_call()
}

/// The pieces belong to one of the first `n` calls.
pub open spec fn of_some_call(cs: Seq<CallView>, n: int, g: GraphView, x: SplitView) -> bool {
    exists|i: int|
        0 <= i < n && to_recover(#[trigger] cs[i], g) && x.op == cs[i].op && x.entry
            == cs[i].entryaddress
}

/// The value of a call is recovered once, and alone: a call whose value is not to
/// be recovered is left as it is, and so is everything of the others but their
/// trials. Of a split value it is said which call gives it back.
pub proof fn law_results_recovered(cs: Seq<CallView>, n: int, g: GraphView, s: ScriptView, i: int)
    requires
        0 <= i < cs.len(),
        0 <= n <= cs.len(),
    ensures
        ({
            let p = callpass::results_recovered(cs, n, g, s);
            &&& p.calls.len() == cs.len()
            &&& i >= n || !to_recover(cs[i], g) ==> p.calls[i] == cs[i]
            &&& i < n && to_recover(cs[i], g) ==> {
                &&& !p.calls[i].isoutputactive
                &&& p.calls[i].op == cs[i].op
                &&& p.calls[i].entryaddress == cs[i].entryaddress
                &&& p.calls[i].activeinput == cs[i].activeinput
                &&& p.calls[i].isinputactive == cs[i].isinputactive
                &&& forall|k: int|
                    0 <= k < p.calls[i].activeoutput.trial.len() ==> (
                    #[trigger] p.calls[i].activeoutput.trial[k]).flags.used
            }
            &&& forall|k: int|
                0 <= k < p.splits.len() ==> of_some_call(cs, n, g, #[trigger] p.splits[k])
            &&& 0 <= p.splits.len() <= p.count <= n
            &&& n > 0 ==> p.count == callpass::results_recovered(cs, n - 1, g, s).count + (
            if to_recover(cs[n - 1], g) {
                1int
            } else {
                0
            })
        }),
    decreases n,
{
    if n > 0 {
        law_results_recovered(cs, n - 1, g, s, i);
        let p = callpass::results_recovered(cs, n - 1, g, s);
        let r = callpass::results_recovered(cs, n, g, s);
        let c = cs[n - 1];
        if to_recover(c, g) {
            let w = c.outputs_weighed(g).activeoutput.trial;
            lemma_used(w, w.len() as int);
        }
        assert forall|k: int| 0 <= k < r.splits.len() implies of_some_call(
            cs,
            n,
            g,
            #[trigger] r.splits[k],
        ) by {
            if k < p.splits.len() {
                assert(of_some_call(cs, n - 1, g, p.splits[k]));
                let j = choose|j: int|
                    0 <= j < n - 1 && to_recover(#[trigger] cs[j], g) && p.splits[k].op == cs[j].op
                        && p.splits[k].entry == cs[j].entryaddress;
                assert(to_recover(cs[j], g));
            } else {
                assert(to_recover(cs[n - 1], g));
            }
        }
    }
}

proof fn lemma_used(ts: Seq<ParamTrial>, n: int)
    requires
        0 <= n <= ts.len(),
    ensures
        forall|k: int|
            0 <= k < active::used_trials(ts, n).len() ==> (
            #[trigger] active::used_trials(ts, n)[k]).flags.used,
    decreases n,
{
    if n > 0 {
        lemma_used(ts, n - 1);
    }
}

} // verus!
