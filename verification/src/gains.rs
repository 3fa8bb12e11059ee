//! What a call with a short list of arguments can gain, and that calls are set up
//! each by itself.
use crate::argued;
use crate::aritylive;
use crate::aritylive::ExtendView;
use crate::callspec::CallView;
use crate::flow;
use crate::graph::{GraphView, OpId, VarnodeId};
use crate::joins::JoinTable;
use crate::link;
use crate::opcode::OpCode;
use crate::probe::DeadView;
use crate::script::ScriptView;
use crate::space::{Address, SpaceType, VarnodeData};
use crate::trial::ParamTrial;
use vstd::prelude::*;

verus! {

/// The trial is in a register.
pub open spec fn in_register(t: ParamTrial) -> bool {
    t.addr.space matches Some(s) && s.type_ != SpaceType::Spacebase
}

/// The varnode is what the call passes for a trial that is no argument yet but
/// could be: one in a register that is not ruled out and that something refers to,
/// of the size of the trial.
pub open spec fn spare(g: GraphView, op: OpId, t: ParamTrial, v: VarnodeId) -> bool {
    &&& !t.flags.used && !t.flags.defnouse && !t.flags.unref
    &&& in_register(t)
    &&& op.0 < g.ops.len()
    &&& 1 <= t.slot < g.ops[op.0 as int].inputs.len()
    &&& g.ops[op.0 as int].inputs[t.slot as int] == v
    &&& v.0 < g.varnodes.len()
    &&& g.varnodes[v.0 as int].size == t.size
}

/// The candidate comes from one of the first `n` trials.
pub open spec fn of_trial(
    g: GraphView,
    op: OpId,
    ts: Seq<ParamTrial>,
    n: int,
    c: (Address, i32, VarnodeId),
) -> bool {
    exists|k: int|
        0 <= k < n && #[trigger] spare(g, op, ts[k], c.2) && c.0 == ts[k].addr && c.1
            == ts[k].size
}

/// What was sorted out of the first `n` trials.
spec fn sorted(
    g: GraphView,
    op: OpId,
    ts: Seq<ParamTrial>,
    n: int,
    kept: Seq<(Address, i32)>,
    cands: Seq<(Address, i32, VarnodeId)>,
) -> bool {
    &&& kept.len() == argued::used_count(ts, n)
    &&& forall|k: int|
        0 <= k < n && (#[trigger] ts[k]).flags.used ==> {
            let i = argued::used_count(ts, k);
            0 <= i < kept.len() && kept[i] == (ts[k].addr, ts[k].size) && in_register(ts[k])
        }
    &&& forall|j: int|
        0 <= j < cands.len() ==> of_trial(g, op, ts, n, #[trigger] cands[j])
    &&& forall|k: int, v: VarnodeId|
        0 <= k < n && #[trigger] spare(g, op, ts[k], v) ==> exists|j: int|
            0 <= j < cands.len() && #[trigger] cands[j] == (ts[k].addr, ts[k].size, v)
}

proof fn lemma_sorted(g: GraphView, op: OpId, ts: Seq<ParamTrial>, n: int)
    requires
        0 <= n <= ts.len(),
    ensures
        aritylive::sorted_out(g, op, ts, n) matches Some((kept, cands)) ==> sorted(
            g,
            op,
            ts,
            n,
            kept,
            cands,
        ),
    decreases n,
{
    if n > 0 && aritylive::sorted_out(g, op, ts, n) is Some {
        lemma_sorted(g, op, ts, n - 1);
        let (k0, c0) = aritylive::sorted_out(g, op, ts, n - 1)->0;
        let (k1, c1) = aritylive::sorted_out(g, op, ts, n)->0;
        let t = ts[n - 1];
        assert forall|k: int| 0 <= k < n && (#[trigger] ts[k]).flags.used implies ({
            let i = argued::used_count(ts, k);
            0 <= i < k1.len() && k1[i] == (ts[k].addr, ts[k].size) && in_register(ts[k])
        }) by {
            let i = argued::used_count(ts, k);
            if k < n - 1 {
                assert(k0[i] == k1[i]);
            }
        }
        assert forall|j: int| 0 <= j < c1.len() implies of_trial(g, op, ts, n, #[trigger] c1[j]) by {
            if j < c0.len() {
                assert(c1[j] == c0[j]);
                assert(of_trial(g, op, ts, n - 1, c0[j]));
            } else {
                assert(spare(g, op, ts[n - 1], c1[j].2));
            }
        }
        assert forall|k: int, v: VarnodeId|
            0 <= k < n && #[trigger] spare(g, op, ts[k], v) implies (exists|j: int|
            0 <= j < c1.len() && #[trigger] c1[j] == (ts[k].addr, ts[k].size, v)) by {
            if k < n - 1 {
                let j = choose|j: int|
                    0 <= j < c0.len() && #[trigger] c0[j] == (ts[k].addr, ts[k].size, v);
                assert(c1[j] == c0[j]);
            } else {
                assert(aritylive::promotable(g, op, t) == Some(v));
                assert(c1[c1.len() - 1] == (t.addr, t.size, v));
            }
        }
        assert(k1.len() == argued::used_count(ts, n));
        assert(sorted(g, op, ts, n, k1, c1));
    }
}

/// A call is noted as one with a short list of arguments only where that is asked
/// for, its inputs are not locked, and it is a direct call that is alive. What is
/// noted is the storage of its arguments, all in registers and in order, and what
/// else it passes in registers that could be arguments.
pub proof fn law_short_list_noted(on: bool, c: CallView, g: GraphView, k: int, j: int)
    requires
        aritylive::captured(on, c, g) is Some,
    ensures
        ({
            let x = aritylive::captured(on, c, g)->0;
            let ts = c.activeinput.trial;
            &&& on
            &&& !c.proto.input_locked()
            &&& c.op.0 < g.ops.len()
            &&& !g.ops[c.op.0 as int].dead
            &&& g.ops[c.op.0 as int].code == OpCode::Call
            &&& x.op == c.op
            &&& x.entry == c.entryaddress
            &&& x.recovered.len() == argued::used_count(ts, ts.len() as int)
            &&& x.recovered.len() > 0
            &&& x.candidates.len() > 0
            &&& 0 <= k < ts.len() && ts[k].flags.used ==> {
                let i = argued::used_count(ts, k);
                0 <= i < x.recovered.len() && x.recovered[i] == (ts[k].addr, ts[k].size)
                    && in_register(ts[k])
            }
            &&& 0 <= j < x.candidates.len() ==> of_trial(
                g,
                c.op,
                ts,
                ts.len() as int,
                x.candidates[j],
            )
            &&& forall|m: int, v: VarnodeId|
                0 <= m < ts.len() && #[trigger] spare(g, c.op, ts[m], v) ==> x.candidates.contains(
                    (ts[m].addr, ts[m].size, v),
                )
        }),
{
    let ts = c.activeinput.trial;
    let x = aritylive::captured(on, c, g)->0;
    lemma_sorted(g, c.op, ts, ts.len() as int);
    assert(sorted(g, c.op, ts, ts.len() as int, x.recovered, x.candidates));
    if 0 <= k < ts.len() && ts[k].flags.used {
        assert(ts[k].flags.used);
    }
    if 0 <= j < x.candidates.len() {
        assert(of_trial(g, c.op, ts, ts.len() as int, x.candidates[j]));
    }
}

/// A call that gains arguments passes, behind what it passed, the candidates at
/// the further locations of the other call, one for each and in that order.
pub proof fn law_gained_at_location(
    p: ExtendView,
    calls: Seq<CallView>,
    g: GraphView,
    s: ScriptView,
    witness: Seq<(Address, i32)>,
    facts: Map<(i32, u64), DeadView>,
    k: int,
)
    requires
        p.candidates.len() <= i32::MAX,
        p.extended(calls, g, s, witness, facts).2,
        p.recovered.len() <= k < witness.len() < i32::MAX,
    ensures
        ({
            let t = p.extended(calls, g, s, witness, facts).1;
            let ins = g.ops[p.op.0 as int].inputs;
            let r = flow::slots(g, t.edits, p.op);
            &&& p.op.0 < g.ops.len()
            &&& ins.len() == p.recovered.len() + 1
            &&& r.len() == witness.len() + 1
            &&& forall|i: int| 0 <= i < ins.len() ==> #[trigger] r[i] == Some(ins[i])
            &&& exists|c: int|
                0 <= c < p.candidates.len() && (#[trigger] p.candidates[c]).0 == witness[k].0
                    && p.candidates[c].1 == witness[k].1 && r[k + 1] == Some(p.candidates[c].2)
        }),
{
    let n = p.recovered.len() as int;
    let tail = witness.skip(n);
    let st = aritylive::storage(p.candidates);
    aritylive::law_tail_in_order(tail, st);
    let picked = aritylive::plan(tail, st)->0;
    let more = aritylive::promoted(p, picked);
    let ins = g.ops[p.op.0 as int].inputs;
    flow::law_inputs_replaced(g, s, p.op, ins + more);
    let c = picked[k - n] as int;
    assert(st[c] == tail[k - n]);
    assert(st[c] == (p.candidates[c].0, p.candidates[c].1));
    let t = p.extended(calls, g, s, witness, facts).1;
    let r = flow::slots(g, t.edits, p.op);
    assert(r =~= (ins + more).map_values(|v: VarnodeId| Some(v)));
    assert(r[k + 1] == Some((ins + more)[k + 1]));
    assert((ins + more)[k + 1] == more[k - n]);
    assert(p.candidates[c].2 == more[k - n]);
}

/// Calls are set up one after the other: a call that is not reached yet is as it
/// was, and one that was reached is not touched again.
pub proof fn law_calls_set_up_once(
    cs: Seq<CallView>,
    m: int,
    n: int,
    g: GraphView,
    s: ScriptView,
    table: JoinTable,
    remains: Seq<Vec<Option<VarnodeData>>>,
    types_known: bool,
    i: int,
)
    requires
        0 <= m <= n <= cs.len(),
        0 <= i < cs.len(),
    ensures
        ({
            let a = link::calls_linked(cs, m, g, s, table, remains, types_known).0;
            let b = link::calls_linked(cs, n, g, s, table, remains, types_known).0;
            &&& a.len() == cs.len() && b.len() == cs.len()
            &&& i < m ==> a[i] == b[i]
            &&& i >= n ==> b[i] == cs[i]
            &&& b[i].op == cs[i].op
            &&& b[i].entryaddress == cs[i].entryaddress
            &&& b[i].proto.store == cs[i].proto.store
        }),
    decreases n,
{
    if n > 0 {
        if m < n {
            law_calls_set_up_once(cs, m, n - 1, g, s, table, remains, types_known, i);
        } else {
            law_calls_set_up_once(cs, n - 1, n - 1, g, s, table, remains, types_known, i);
        }
    }
}

} // verus!
