//! How the passes over the arguments of calls go on, and what they leave.
use crate::argued;
use crate::callpass;
use crate::callpass::{CallEvidence, EvidenceView, PassSettings};
use crate::callsite;
use crate::callsite::Evidence;
use crate::callspec::CallView;
use crate::graph::{GraphView, OpId, VarnodeId};
use crate::judged;
use crate::opcode::OpCode;
use crate::probe::DeadView;
use crate::recover;
use crate::recover::Ancestry;
use crate::script::ScriptView;
use crate::space::SpaceType;
use crate::trial::ParamTrial;
use vstd::prelude::*;

verus! {

/// The judgement on the `i`-th trial may depend on conditional execution: it is in
/// a register that the callee may read, its value can only be an argument, and
/// conditional execution affects it.
pub open spec fn conditional(
    c: CallView,
    g: GraphView,
    e: Evidence,
    on: bool,
    facts: Map<(i32, u64), DeadView>,
    i: int,
) -> bool {
    let t = c.activeinput.trial[i];
    match judged::value_of(c, g, t) {
        None => false,
        Some(v) => {
            &&& !(v.addr.space matches Some(s) && s.type_ == SpaceType::Spacebase)
            &&& !c.trial_dead(on, facts, g, i)
            &&& e.ancestry.realistic || e.ancestry.solid
            &&& e.ancestry.only
            &&& e.ancestry.trial.flags.condexe_effect
        },
    }
}

/// It is noted that trials have to be looked into once more exactly where a
/// judgement may depend on conditional execution, now or before.
pub proof fn law_final_check_noted(
    c: CallView,
    g: GraphView,
    s: ScriptView,
    n: int,
    es: Seq<Evidence>,
    on: bool,
    facts: Map<(i32, u64), DeadView>,
)
    requires
        0 <= n <= c.activeinput.trial.len(),
    ensures
        c.trials_judged(g, s, n, es, on, facts).0.activeinput.needsfinalcheck == (
        c.activeinput.needsfinalcheck || exists|i: int|
            0 <= i < n && #[trigger] conditional(c, g, es[i], on, facts, i)),
    decreases n,
{
    if n > 0 {
        law_final_check_noted(c, g, s, n - 1, es, on, facts);
        judged::law_trials_judged(c, g, s, n - 1, es, on, facts, n - 1);
        let b = c.trials_judged(g, s, n - 1, es, on, facts).0;
        let d = c.trials_judged(g, s, n, es, on, facts).0;
        assert(b.activeinput.trial[n - 1] == c.activeinput.trial[n - 1]);
        assert(b.trial_dead(on, facts, g, n - 1) == c.trial_dead(on, facts, g, n - 1));
        assert(d.activeinput.needsfinalcheck == (b.activeinput.needsfinalcheck || conditional(
            c,
            g,
            es[n - 1],
            on,
            facts,
            n - 1,
        )));
        if d.activeinput.needsfinalcheck && !c.activeinput.needsfinalcheck {
            if !conditional(c, g, es[n - 1], on, facts, n - 1) {
                let i = choose|i: int|
                    0 <= i < n - 1 && #[trigger] conditional(c, g, es[i], on, facts, i);
                assert(conditional(c, g, es[i], on, facts, i));
            }
        }
        if exists|i: int| 0 <= i < n && #[trigger] conditional(c, g, es[i], on, facts, i) {
            let i = choose|i: int|
                0 <= i < n && #[trigger] conditional(c, g, es[i], on, facts, i);
            if i < n - 1 {
                assert(conditional(c, g, es[i], on, facts, i));
            }
        }
    }
}

/// A pass over a call whose arguments are being recovered counts, and all trials
/// are checked once there were more passes than the model asks for. The arguments
/// are settled in the first pass after which that is so, but not in the first pass
/// over an indirect call. A call that is not recovering its arguments, or is no
/// call any more, is left alone.
pub proof fn law_pass_counts(
    c: CallView,
    g: GraphView,
    s: ScriptView,
    e: EvidenceView,
    set: PassSettings,
    facts: Map<(i32, u64), DeadView>,
)
    requires
        c.op.0 < g.ops.len(),
        0 <= c.activeinput.numpasses < i32::MAX,
    ensures
        ({
            let o = g.ops[c.op.0 as int];
            let a = c.activeinput;
            let going = c.isinputactive && !o.dead && (o.code == OpCode::Call || o.code
                == OpCode::CallInd);
            let (d, t, f, n) = c.input_pass(g, s, e, set, facts);
            let checked = a.isfullychecked || a.numpasses + 1 > a.maxpass;
            let settled = checked && (a.numpasses > 0 || o.code != OpCode::CallInd);
            &&& !going ==> d == c && t == s && f is None && n == 0
            &&& going ==> {
                &&& f is Some <==> settled
                &&& settled ==> !d.isinputactive
                &&& !settled ==> d.isinputactive && d.activeinput.numpasses == a.numpasses + 1
                    && d.activeinput.isfullychecked == checked
                &&& n == (if a.numpasses + 1 > a.maxpass {
                    0int
                } else {
                    1int
                }) + (if settled {
                    1int
                } else {
                    0int
                })
            }
        }),
{
    match e.trials {
        Some(v) => lemma_judging(c, g, s, s, v.len() as int, v, set.callee_dead_arg, facts),
        None => {},
    }
}

/// Looking into trials changes the trials of a call alone, and does so whatever
/// changes were made before.
proof fn lemma_judging(
    c: CallView,
    g: GraphView,
    s: ScriptView,
    t: ScriptView,
    n: int,
    es: Seq<Evidence>,
    on: bool,
    facts: Map<(i32, u64), DeadView>,
)
    ensures
        ({
            let d = c.trials_judged(g, s, n, es, on, facts).0;
            &&& d == c.trials_judged(g, t, n, es, on, facts).0
            &&& d == (CallView { activeinput: d.activeinput, ..c })
            &&& d.activeinput.numpasses == c.activeinput.numpasses
            &&& d.activeinput.maxpass == c.activeinput.maxpass
            &&& d.activeinput.isfullychecked == c.activeinput.isfullychecked
        }),
    decreases n,
{
    if n > 0 {
        lemma_judging(c, g, s, t, n - 1, es, on, facts);
    }
}

/// What becomes of a call does not depend on the changes made before.
proof fn lemma_own_pass(
    c: CallView,
    g: GraphView,
    s: ScriptView,
    t: ScriptView,
    e: EvidenceView,
    set: PassSettings,
    facts: Map<(i32, u64), DeadView>,
)
    ensures
        c.input_pass(g, s, e, set, facts).0 == c.input_pass(g, t, e, set, facts).0,
        c.input_pass(g, s, e, set, facts).3 == c.input_pass(g, t, e, set, facts).3,
{
    match e.trials {
        Some(v) => lemma_judging(c, g, s, t, v.len() as int, v, set.callee_dead_arg, facts),
        None => {},
    }
}

/// In a pass over several calls each call is treated by itself, by its own
/// evidence.
pub proof fn law_calls_passed_alone(
    cs: Seq<CallView>,
    n: int,
    g: GraphView,
    s: ScriptView,
    es: Seq<CallEvidence>,
    set: PassSettings,
    facts: Map<(i32, u64), DeadView>,
    i: int,
    t: ScriptView,
)
    requires
        0 <= n <= cs.len(),
        0 <= i < cs.len(),
    ensures
        ({
            let p = callpass::inputs_passed(cs, n, g, s, es, set, facts);
            &&& p.calls.len() == cs.len()
            &&& i >= n ==> p.calls[i] == cs[i]
            &&& i < n ==> p.calls[i] == cs[i].input_pass(g, t, es[i]@, set, facts).0
        }),
    decreases n,
{
    if n > 0 {
        law_calls_passed_alone(cs, n - 1, g, s, es, set, facts, i, t);
        let p = callpass::inputs_passed(cs, n - 1, g, s, es, set, facts);
        lemma_own_pass(cs[n - 1], g, p.script, t, es[n - 1]@, set, facts);
    }
}

proof fn lemma_storage(ts: Seq<ParamTrial>, n: int)
    requires
        0 <= n <= ts.len(),
    ensures
        ({
            let r = callsite::used_storage(ts, n);
            &&& r.len() == argued::used_count(ts, n)
            &&& forall|k: int|
                0 <= k < n && (#[trigger] ts[k]).flags.used ==> {
                    let i = argued::used_count(ts, k);
                    0 <= i < r.len() && r[i] == (ts[k].addr, ts[k].size)
                }
        }),
    decreases n,
{
    if n > 0 {
        lemma_storage(ts, n - 1);
        let b = callsite::used_storage(ts, n - 1);
        let r = callsite::used_storage(ts, n);
        assert forall|k: int| 0 <= k < n && (#[trigger] ts[k]).flags.used implies ({
            let i = argued::used_count(ts, k);
            0 <= i < r.len() && r[i] == (ts[k].addr, ts[k].size)
        }) by {
            let i = argued::used_count(ts, k);
            if k < n - 1 {
                assert(r[i] == b[i]);
            }
        }
    }
}

/// Where the arguments of a call are, once they are settled: at the storage of its
/// used trials, in their order.
pub proof fn law_argument_storage_kept(c: CallView, k: int)
    requires
        0 <= k < c.activeinput.trial.len(),
        c.activeinput.trial[k].flags.used,
    ensures
        ({
            let ts = c.activeinput.trial;
            let r = c.inputs_settled().final_input_storage;
            let i = argued::used_count(ts, k);
            &&& r.len() == argued::used_count(ts, ts.len() as int)
            &&& 0 <= i < r.len()
            &&& r[i] == (ts[k].addr, ts[k].size)
        }),
{
    lemma_storage(c.activeinput.trial, c.activeinput.trial.len() as int);
    assert(c.activeinput.trial[k].flags.used);
}

/// A call that gets no argument is to be looked at again.
pub proof fn law_bare_call_rescued(
    c: CallView,
    g: GraphView,
    inputs: Seq<VarnodeId>,
    extending: bool,
)
    ensures
        inputs.len() <= 1 <==> c.fixup(g, inputs, extending).rescue is Some,
        c.fixup(g, inputs, extending).rescue is Some ==> c.fixup(g, inputs, extending).rescue
            == Some(c.op),
        !extending ==> c.fixup(g, inputs, extending).extend is None,
{
}

/// What the value of a trial at a return makes of the trial: one that was checked
/// before, or that the return has no value for, stays; otherwise what was found out
/// about the value replaces it, and it is active where the value has a likely
/// origin and can only be a return value.
pub open spec fn seen_at_return(
    g: GraphView,
    op: OpId,
    t: ParamTrial,
    a: Ancestry,
    u: ParamTrial,
) -> bool {
    let given = op.0 < g.ops.len() && 0 <= t.slot < g.ops[op.0 as int].inputs.len();
    if t.flags.checked || !given {
        u == t
    } else {
        &&& u.addr == a.trial.addr && u.size == a.trial.size && u.slot == a.trial.slot
        &&& (a.realistic || a.solid) && a.only ==> u.flags.active && u.flags.checked
        &&& !((a.realistic || a.solid) && a.only) ==> u == a.trial
    }
}

/// How many of the first `n` trials are open.
pub open spec fn open_count(ts: Seq<ParamTrial>, n: int) -> int
    decreases n,
{
    if n <= 0 {
        0
    } else {
        open_count(ts, n - 1) + (if ts[n - 1].flags.checked {
            0int
        } else {
            1int
        })
    }
}

/// At a return each trial of the return value is judged by the value that the
/// return has for it, and by nothing else; the open ones are counted.
pub proof fn law_values_at_return(
    g: GraphView,
    op: OpId,
    ts: Seq<ParamTrial>,
    answers: Seq<Ancestry>,
    n: int,
    k: int,
)
    requires
        0 <= n <= ts.len(),
        0 <= k < ts.len(),
    ensures
        ({
            let (us, c) = recover::looked_into(g, op, ts, answers, n);
            &&& us.len() == ts.len()
            &&& c == open_count(ts, n)
            &&& k >= n ==> us[k] == ts[k]
            &&& k < n ==> seen_at_return(g, op, ts[k], answers[k], us[k])
        }),
    decreases n,
{
    if n > 0 {
        law_values_at_return(g, op, ts, answers, n - 1, k);
        law_values_at_return(g, op, ts, answers, n - 1, n - 1);
    }
}

} // verus!
