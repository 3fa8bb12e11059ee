//! What becomes of the input trials of a call once their values were looked
//! into, and of the values of those that are no arguments.
use crate::callsite;
use crate::callsite::Evidence;
use crate::callspec::CallView;
use crate::flow;
use crate::graph::{GraphView, OpId, Varnode, VarnodeId};
use crate::probe::DeadView;
use crate::recover::Ancestry;
use crate::script::{Edit, ScriptView};
use crate::space::SpaceType;
use crate::trial::ParamTrial;
use vstd::prelude::*;

verus! {

/// The trial is ruled out.
pub open spec fn is_out(t: ParamTrial) -> bool {
    t.flags.defnouse && t.flags.checked && !t.flags.active && !t.flags.used
}

/// The trial looks like an argument.
pub open spec fn is_in(t: ParamTrial) -> bool {
    t.flags.active && t.flags.checked
}

/// The trial was looked into and left undecided.
pub open spec fn is_undecided(t: ParamTrial) -> bool {
    t.flags.checked && !t.flags.active
}

/// The two trials are of the same storage, in the same slot.
pub open spec fn same_place(a: ParamTrial, b: ParamTrial) -> bool {
    a.addr == b.addr && a.size == b.size && a.slot == b.slot
}

/// The varnode that the call has for the trial, if the trial is still open.
pub open spec fn value_of(c: CallView, g: GraphView, t: ParamTrial) -> Option<Varnode> {
    if !t.flags.checked && c.op.0 < g.ops.len() && 0 <= t.slot
        < g.ops[c.op.0 as int].inputs.len() && g.ops[c.op.0 as int].inputs[t.slot as int].0
        < g.varnodes.len() {
        Some(g.varnodes[g.ops[c.op.0 as int].inputs[t.slot as int].0 as int])
    } else {
        None
    }
}

/// The callee takes a known number of bytes off the stack, more than a return
/// address: the model leaves the number open and the call has it.
pub open spec fn pops_known(c: CallView) -> bool {
    &&& c.proto.model is Some
    &&& c.proto.model_view().extrapop == 0x8000
    &&& c.proto.extrapop != 0x8000
    &&& c.proto.extrapop > 4
}

/// What must become of the trial `t` with the value `v`.
pub open spec fn verdict_right(
    c: CallView,
    t: ParamTrial,
    v: Varnode,
    e: Evidence,
    dead: bool,
    u: ParamTrial,
) -> bool {
    let stacked = v.addr.space matches Some(s) && s.type_ == SpaceType::Spacebase;
    let likely = e.ancestry.realistic || e.ancestry.solid;
    if stacked && (e.alias || e.outside) {
        is_out(u) && same_place(t, u)
    } else if stacked && pops_known(c) {
        let last = (t.addr.offset as i64) + t.size - 1;
        &&& same_place(t, u)
        &&& last < c.proto.extrapop ==> is_in(u) && u.flags.defnouse == t.flags.defnouse
        &&& last >= c.proto.extrapop ==> is_out(u)
    } else if !stacked && dead {
        is_out(u) && same_place(t, u)
    } else {
        &&& same_place(e.ancestry.trial, u)
        &&& likely && e.ancestry.only ==> is_in(u)
        &&& likely && !e.ancestry.only ==> is_undecided(u) && u.flags.defnouse
            == e.ancestry.trial.flags.defnouse
        &&& !likely && !stacked && v.input ==> is_undecided(u) && u.flags.defnouse
            == e.ancestry.trial.flags.defnouse
        &&& !likely && (stacked || !v.input) ==> is_out(u)
    }
}

/// The input trials of a call are judged each by its own value. A trial that is
/// not open, or without a value, stays as it is. On the stack: one that
/// something may point at, or outside of the caller's variables, is ruled out;
/// where the callee takes n bytes off the stack, a trial is active if its last
/// byte is below n, and ruled out if it reaches beyond; otherwise the origin of
/// the value decides. In a register: one that the callee overwrites is ruled
/// out, and otherwise the origin decides, in favour of leaving an input of the
/// caller undecided.
pub proof fn law_trials_judged(
    c: CallView,
    g: GraphView,
    s: ScriptView,
    n: int,
    es: Seq<Evidence>,
    on: bool,
    facts: Map<(i32, u64), DeadView>,
    i: int,
)
    requires
        0 <= i < c.activeinput.trial.len(),
        0 <= n <= c.activeinput.trial.len(),
    ensures
        ({
            let d = c.trials_judged(g, s, n, es, on, facts).0;
            let t = c.activeinput.trial[i];
            let u = d.activeinput.trial[i];
            &&& d.activeinput.trial.len() == c.activeinput.trial.len()
            &&& d == (CallView { activeinput: d.activeinput, ..c })
            &&& i >= n ==> u == t
            &&& i < n ==> match value_of(c, g, t) {
                None => u == t,
                Some(v) => verdict_right(c, t, v, es[i], c.trial_dead(on, facts, g, i), u),
            }
        }),
    decreases n,
{
    if n > 0 {
        law_trials_judged(c, g, s, n - 1, es, on, facts, i);
        law_trials_judged(c, g, s, n - 1, es, on, facts, n - 1);
        let (b, s1) = c.trials_judged(g, s, n - 1, es, on, facts);
        assert(b.activeinput.trial[n - 1] == c.activeinput.trial[n - 1]);
        assert(b.trial_dead(on, facts, g, n - 1) == c.trial_dead(on, facts, g, n - 1));
        assert(b.callee_pops() == c.callee_pops());
    }
}

/// The slot of the trial `i` of the call, once the changes are made, holds a
/// zero of the size of its value if the trial was open and is ruled out now,
/// and what it held before otherwise.
pub open spec fn value_given_up(
    c: CallView,
    g: GraphView,
    s: ScriptView,
    d: CallView,
    t: ScriptView,
    i: int,
) -> bool {
    let x = c.activeinput.trial[i];
    let before = flow::slots(g, s.edits, c.op)[x.slot as int];
    let after = flow::slots(g, t.edits, c.op)[x.slot as int];
    match value_of(c, g, x) {
        None => after == before,
        Some(v) => if d.activeinput.trial[i].flags.defnouse {
            &&& after is Some
            &&& (after->0).0 < t.next_vn
            &&& flow::maker(t.edits, after->0) == Some(
                Edit::NewConstant { vn: after->0, size: v.size, value: 0 },
            )
        } else {
            after == before
        },
    }
}

proof fn lemma_freed(g: GraphView, s: ScriptView, op: OpId, slot: i32, size: i32)
    requires
        flow::numbered(g, s, 0, 1),
        0 <= slot < flow::slots(g, s.edits, op).len(),
    ensures
        ({
            let t = s.new_constant(size, 0).set_input(op, s.vn(), slot as int);
            let r = flow::slots(g, t.edits, op);
            &&& r =~= flow::slots(g, s.edits, op).update(slot as int, Some(s.vn()))
            &&& flow::maker(t.edits, s.vn()) == Some(
                Edit::NewConstant { vn: s.vn(), size, value: 0 },
            )
            &&& forall|v: VarnodeId|
                v.0 < s.next_vn ==> #[trigger] flow::maker(t.edits, v) == flow::maker(s.edits, v)
            &&& t.next_vn == s.next_vn + 1
            &&& t.next_op == s.next_op
        }),
{
    broadcast use flow::group_flow;

}

/// The value of a trial that is ruled out is given up: the call reads a zero of
/// its size in its place. Every other input of the call stays.
pub proof fn law_values_given_up(
    c: CallView,
    g: GraphView,
    s: ScriptView,
    n: int,
    es: Seq<Evidence>,
    on: bool,
    facts: Map<(i32, u64), DeadView>,
)
    requires
        0 <= n <= c.activeinput.trial.len(),
        c.op.0 < g.ops.len(),
        flow::slots(g, s.edits, c.op).len() == g.ops[c.op.0 as int].inputs.len(),
        flow::numbered(g, s, 0, n),
        forall|i: int, j: int|
            0 <= i < j < c.activeinput.trial.len() ==> (#[trigger] c.activeinput.trial[i]).slot != (
            #[trigger] c.activeinput.trial[j]).slot,
    ensures
        ({
            let (d, t) = c.trials_judged(g, s, n, es, on, facts);
            let before = flow::slots(g, s.edits, c.op);
            let after = flow::slots(g, t.edits, c.op);
            &&& after.len() == before.len()
            &&& forall|i: int|
                0 <= i < n && 0 <= c.activeinput.trial[i].slot < before.len() ==> #[trigger]
                    value_given_up(c, g, s, d, t, i)
            &&& forall|k: int|
                0 <= k < before.len() && (forall|i: int|
                    0 <= i < n ==> (#[trigger] c.activeinput.trial[i]).slot != k)
                    ==> #[trigger] after[k] == before[k]
            &&& s.next_vn <= t.next_vn <= s.next_vn + n
            &&& t.next_op == s.next_op
        }),
    decreases n,
{
    if n > 0 {
        law_values_given_up(c, g, s, n - 1, es, on, facts);
        law_trials_judged(c, g, s, n - 1, es, on, facts, n - 1);
        let (b, s1) = c.trials_judged(g, s, n - 1, es, on, facts);
        let (d, t) = c.trials_judged(g, s, n, es, on, facts);
        let x = c.activeinput.trial[n - 1];
        let before = flow::slots(g, s.edits, c.op);
        let mid = flow::slots(g, s1.edits, c.op);
        let after = flow::slots(g, t.edits, c.op);
        assert(b.activeinput.trial[n - 1] == x);
        if value_of(c, g, x) is Some && d.activeinput.trial[n - 1].flags.defnouse {
            let v = value_of(c, g, x)->0;
            lemma_freed(g, s1, c.op, x.slot, v.size);
            assert(t == s1.new_constant(v.size, 0).set_input(c.op, s1.vn(), x.slot as int));
        } else {
            assert(t == s1);
        }
        assert forall|i: int| 0 <= i < n && 0 <= c.activeinput.trial[i].slot < before.len() implies
            #[trigger] value_given_up(c, g, s, d, t, i) by {
            law_trials_judged(c, g, s, n - 1, es, on, facts, i);
            law_trials_judged(c, g, s, n, es, on, facts, i);
            if i < n - 1 {
                assert(value_given_up(c, g, s, b, s1, i));
                assert(c.activeinput.trial[i].slot != c.activeinput.trial[n - 1].slot);
                assert(d.activeinput.trial[i] == b.activeinput.trial[i]);
                assert(after[c.activeinput.trial[i].slot as int]
                    == mid[c.activeinput.trial[i].slot as int]);
            } else if 0 <= x.slot < before.len() {
                assert(mid[x.slot as int] == before[x.slot as int]) by {
                    assert forall|j: int| 0 <= j < n - 1 implies (
                    #[trigger] c.activeinput.trial[j]).slot != x.slot by {
                        assert(c.activeinput.trial[j].slot != c.activeinput.trial[n - 1].slot);
                    }
                }
            }
        }
        assert forall|k: int|
            0 <= k < before.len() && (forall|i: int|
                0 <= i < n ==> (#[trigger] c.activeinput.trial[i]).slot != k) implies #[trigger]
        after[k] == before[k] by {
            assert(c.activeinput.trial[n - 1].slot != k);
            assert(mid[k] == before[k]);
        }
    }
}

/// Looking again into the trials that conditional execution may affect rules
/// out those whose value has no likely origin any more, and touches no other.
pub proof fn law_rechecked(ts: Seq<ParamTrial>, answers: Seq<Ancestry>, i: int)
    requires
        0 <= i < ts.len(),
    ensures
        ({
            let t = ts[i];
            let a = answers[i];
            let u = callsite::all_rechecked(ts, answers)[i];
            let open = t.flags.active && t.flags.condexe_effect;
            &&& !open ==> u == t
            &&& open && (a.realistic || a.solid) ==> u == a.trial
            &&& open && !(a.realistic || a.solid) ==> is_out(u) && same_place(a.trial, u)
        }),
{
}

} // verus!
