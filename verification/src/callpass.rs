//! One pass over the calls of a function: their arguments and the values that
//! they give back.
use crate::actions::{Action, ActionActiveParam, ActionActiveReturn};
use crate::active::ActiveView;
use crate::aritylive::{ExtendView, PendingExtend};
use crate::callresult;
use crate::callsite;
use crate::callsite::{Evidence, FixupView, PendingCallFixup};
use crate::callspec;
use crate::callspec::{CallView, FuncCallSpecs};
use crate::decide;
use crate::entrymap::EntryMap;
use crate::fillin;
use crate::graph::{Graph, GraphView, OpId, VarnodeId};
use crate::link;
use crate::merge;
use crate::opcode::OpCode;
use crate::paramlist::ParamListKind;
use crate::probe::{CalleeEntryDead, DeadView};
use crate::proto;
use crate::recover;
use crate::recover::Ancestry;
use crate::script::{Script, ScriptView};
use crate::space::Address;
use crate::trial::ParamTrial;
use vstd::prelude::*;

verus! {

impl CallView {
    /// The operation of the call is alive and still a call.
    pub open spec fn calling(self, g: GraphView) -> bool {
        g.op(self.op) matches Some(o) && !o.dead && o.is_call()
    }
}

fn is_calling(fc: &FuncCallSpecs, g: &Graph) -> (r: bool)
    ensures
        r == fc@.calling(g@),
{
    match g.get_op(fc.get_op()) {
        Some(o) => !o.dead && (o.code == OpCode::Call || o.code == OpCode::CallInd),
        None => false,
    }
}

/// A value that a call gives back in several pieces.
#[derive(Debug)]
pub struct SplitOutput {
    pub op: OpId,
    pub entry: Address,
    pub pieces: Vec<VarnodeId>,
}

/// A value in several pieces, in the abstract.
#[verifier::ext_equal]
pub struct SplitView {
    pub op: OpId,
    pub entry: Address,
    pub pieces: Seq<VarnodeId>,
}

impl View for SplitOutput {
    type V = SplitView;

    open spec fn view(&self) -> SplitView {
        SplitView { op: self.op, entry: self.entry, pieces: self.pieces@ }
    }
}

/// The views of a list.
pub open spec fn splits_view(s: Seq<SplitOutput>) -> Seq<SplitView> {
    Seq::new(s.len(), |i: int| s[i]@)
}

impl CallView {
    /// With the output trials that the model decided on, or as they were if it
    /// cannot.
    pub open spec fn outputs_derived(self) -> CallView {
        CallView {
            activeoutput: recover::outputs_decided(self.proto, self.activeoutput),
            ..self
        }
    }

    /// The call whose output trials are checked and decided on.
    pub open spec fn outputs_weighed(self, g: GraphView) -> CallView {
        self.outputs_checked(g).outputs_derived()
    }

    /// The value that the call gives back can be recovered.
    pub open spec fn output_recoverable(self, g: GraphView) -> bool {
        self.isoutputactive && self.calling(g) ==> {
            let l = self.proto.model_view().outs();
            &&& self.activeoutput.trial.len() <= i32::MAX
            &&& self.proto.has_outputs()
            &&& l.kind == ParamListKind::Standard && l.entry.len() > 0 ==> l.decidable()
            &&& fillin::tied(l, self.outputs_checked(g).activeoutput.trial)
            &&& self.outputs_weighed(g).activeoutput.trial.len() < i32::MAX
            &&& self.outputs_weighed(g).single_output_there(self.found_outputs(g).vns)
        }
    }

    /// The call and the changes once the value that it gives back is
    /// recovered, and the pieces of a value that is split.
    pub open spec fn output_recovered(self, g: GraphView, s: ScriptView) -> (
        CallView,
        ScriptView,
        Option<SplitView>,
    ) {
        if !self.isoutputactive || !self.calling(g) {
            (self, s, None)
        } else {
            let c = self.outputs_weighed(g);
            let vns = self.found_outputs(g).vns;
            (
                CallView { isoutputactive: false, ..c.outputs_settled() },
                c.output_built(g, s, vns),
                if c.outputs_settled().activeoutput.trial.len() > 1 {
                    Some(
                        SplitView {
                            op: self.op,
                            entry: self.entryaddress,
                            pieces: callresult::output_pieces(c.activeoutput.trial, vns, 0),
                        },
                    )
                } else {
                    None
                },
            )
        }
    }
}

/// The first `n` calls with the values that they give back recovered: the
/// calls, the changes, the split values, and how many calls there were.
#[verifier::ext_equal]
pub struct ReturnPass {
    pub calls: Seq<CallView>,
    pub script: ScriptView,
    pub splits: Seq<SplitView>,
    pub count: int,
}

/// The values that the first `n` calls give back, recovered.
pub open spec fn results_recovered(
    cs: Seq<CallView>,
    n: int,
    g: GraphView,
    s: ScriptView,
) -> ReturnPass
    decreases n,
{
    if n <= 0 || n > cs.len() {
        ReturnPass { calls: cs, script: s, splits: Seq::empty(), count: 0 }
    } else {
        let p = results_recovered(cs, n - 1, g, s);
        let c = cs[n - 1];
        let (c2, s2, split) = c.output_recovered(g, p.script);
        ReturnPass {
            calls: p.calls.update(n - 1, c2),
            script: s2,
            splits: match split {
                Some(x) => p.splits.push(x),
                None => p.splits,
            },
            count: if c.isoutputactive && c.calling(g) {
                p.count + 1
            } else {
                p.count
            },
        }
    }
}

impl ActionActiveReturn {
    /// Recover the value that one call gives back.
    pub fn recover(fc: &mut FuncCallSpecs, g: &Graph, s: &mut Script) -> (r: Option<SplitOutput>)
        requires
            g@.wf(),
            old(fc)@.isoutputactive,
            old(fc)@.calling(g@),
            old(fc)@.output_recoverable(g@),
        ensures
            ({
                let (c, s1, split) = old(fc)@.output_recovered(g@, old(s)@);
                &&& final(fc)@ == c
                &&& final(s)@ == s1
                &&& match r {
                    Some(x) => split == Some(x@),
                    None => split is None,
                }
            }),
    {
        let ghost c0 = fc@;
        let vns = callresult::check_output_trial_use(fc, g);
        assert(fc@ == c0.outputs_checked(g@));
        let _res = fc.derive_output_map_self();
        assert(fc@ == c0.outputs_weighed(g@));
        let pieces = callresult::build_output_from_trials(fc, g, s, &vns);
        fc.clear_active_output();
        match pieces {
            Some(p) => Some(SplitOutput { op: fc.op, entry: fc.entryaddress, pieces: p }),
            None => None,
        }
    }

    /// Recover the values that calls give back. The values in several pieces
    /// are passed back.
    pub fn apply(&mut self, calls: &mut Vec<FuncCallSpecs>, g: &Graph, s: &mut Script) -> (r: Vec<
        SplitOutput,
    >)
        requires
            g@.wf(),
            forall|i: int|
                0 <= i < old(calls)@.len() ==> (#[trigger] old(calls)@[i])@.output_recoverable(g@),
        ensures
            ({
                let p = results_recovered(
                    link::calls_view(old(calls)@),
                    old(calls)@.len() as int,
                    g@,
                    old(s)@,
                );
                &&& link::calls_view(final(calls)@) == p.calls
                &&& final(s)@ == p.script
                &&& splits_view(r@) == p.splits
                &&& final(self).info() == old(self).info().noted(p.count)
            }),
    {
        let ghost cs = link::calls_view(calls@);
        let ghost s0 = s@;
        let size: usize = calls.len();
        let mut r: Vec<SplitOutput> = Vec::new();
        let mut n: u128 = 0;
        let mut i: usize = 0;
        assert(splits_view(r@) =~= Seq::empty());
        while i < size
            invariant
                i <= size,
                size == calls@.len(),
                size == cs.len(),
                cs == link::calls_view(old(calls)@),
                old(calls)@.len() == size,
                s0 == old(s)@,
                g@.wf(),
                self.info() == old(self).info(),
                forall|k: int|
                    0 <= k < size ==> (#[trigger] old(calls)@[k])@.output_recoverable(g@),
                forall|k: int| i <= k < size ==> (#[trigger] calls@[k])@ == old(calls)@[k]@,
                ({
                    let p = results_recovered(cs, i as int, g@, s0);
                    &&& link::calls_view(calls@) == p.calls
                    &&& s@ == p.script
                    &&& splits_view(r@) == p.splits
                    &&& n == p.count
                }),
                n <= i,
            decreases size - i,
        {
            let ghost before = link::calls_view(calls@);
            let ghost r0 = r@;
            assert(calls@[i as int]@ == old(calls)@[i as int]@);
            assert(old(calls)@[i as int]@.output_recoverable(g@));
            assert(cs[i as int] == calls@[i as int]@);
            if calls[i].is_output_active() && is_calling(&calls[i], g) {
                let split = ActionActiveReturn::recover(&mut calls[i], g, s);
                match split {
                    Some(x) => {
                        r.push(x);
                        assert(splits_view(r@) =~= splits_view(r0).push(x@));
                    },
                    None => {},
                }
                n += 1;
            }
            assert(link::calls_view(calls@) =~= before.update(i as int, calls@[i as int]@));
            i += 1;
        }
        self.base.note(n);
        r
    }
}

/// What is found out about a call while its arguments are recovered: about the
/// values of its input trials (nothing where aliases cannot be told), about
/// those that conditional execution may affect, and the trials as another call
/// of the same callee has them, if they are taken from there.
#[derive(Debug)]
pub struct CallEvidence {
    pub trials: Option<Vec<Evidence>>,
    pub answers: Vec<Ancestry>,
    pub unified: Option<Vec<ParamTrial>>,
}

/// What is found out about a call, in the abstract.
#[verifier::ext_equal]
pub struct EvidenceView {
    pub trials: Option<Seq<Evidence>>,
    pub answers: Seq<Ancestry>,
    pub unified: Option<Seq<ParamTrial>>,
}

impl View for CallEvidence {
    type V = EvidenceView;

    open spec fn view(&self) -> EvidenceView {
        EvidenceView {
            trials: match self.trials {
                Some(v) => Some(v@),
                None => None,
            },
            answers: self.answers@,
            unified: match self.unified {
                Some(v) => Some(v@),
                None => None,
            },
        }
    }
}

impl CallView {
    /// The call and the changes after a pass over its input trials.
    pub open spec fn examined(
        self,
        g: GraphView,
        s: ScriptView,
        es: Option<Seq<Evidence>>,
        on: bool,
        facts: Map<(i32, u64), DeadView>,
    ) -> (CallView, ScriptView) {
        let (c, s1) = match es {
            Some(v) => if self.activeinput.isfullychecked {
                (self, s)
            } else {
                self.trials_judged(g, s, v.len() as int, v, on, facts)
            },
            None => (self, s),
        };
        (CallView { activeinput: recover::pass_finished(c.activeinput), ..c }, s1)
    }

    /// Can the arguments of the call be settled in this pass: those of an
    /// indirect call not in the first one.
    pub open spec fn trimmable(self, g: GraphView) -> bool {
        self.activeinput.numpasses > 0 || g.op(self.op)->0.code != OpCode::CallInd
    }

    /// With the effects of conditional execution taken in, if they are open.
    pub open spec fn finally_checked(self, answers: Seq<Ancestry>) -> CallView {
        if self.activeinput.needsfinalcheck {
            CallView {
                activeinput: ActiveView {
                    trial: callsite::all_rechecked(self.activeinput.trial, answers),
                    ..self.activeinput
                },
                ..self
            }
        } else {
            self
        }
    }

    /// With it noted whether variable arguments are on the stack.
    pub open spec fn with_split(self, vararg_stack_args: bool) -> CallView {
        CallView {
            activeinput: ActiveView {
                vararg_stack_split: vararg_stack_args && self.proto.flag(proto::DOTDOTDOT),
                ..self.activeinput
            },
            ..self
        }
    }

    /// With the model chosen and the input trials that it decided on, as far
    /// as it can.
    pub open spec fn inputs_derived(self) -> CallView {
        match callspec::resolved_proto(self.proto, self.activeinput) {
            Err(_) => self,
            Ok(p) => match decide::decided(p.model_view().ins(), self.activeinput) {
                Ok(a) => CallView { proto: p, activeinput: a, ..self },
                Err(_) => CallView { proto: p, ..self },
            },
        }
    }

    /// The model can be chosen and can decide on the input trials.
    pub open spec fn inputs_derivable(self) -> bool {
        &&& self.proto.model matches Some(m) ==> (m.merged matches Some(g) ==> merge::all_scorable(
            g.modellist@,
        ))
        &&& callspec::resolved_proto(self.proto, self.activeinput) matches Ok(p)
            ==> callspec::derivable(p, self.activeinput)
    }

    /// The call before the model is asked.
    pub open spec fn before_model(self, answers: Seq<Ancestry>, vararg_stack_args: bool) -> CallView {
        self.finally_checked(answers).with_split(vararg_stack_args)
    }

    /// The call with its input trials decided on.
    pub open spec fn inputs_decided(self, e: EvidenceView, vararg_stack_args: bool) -> CallView {
        self.before_model(e.answers, vararg_stack_args).inputs_derived()
    }

    /// The input trials can be decided on.
    pub open spec fn inputs_decidable(self, e: EvidenceView, vararg_stack_args: bool) -> bool {
        let before = self.before_model(e.answers, vararg_stack_args);
        &&& self.proto.wf()
        &&& self.activeinput.needsfinalcheck ==> e.answers.len() == self.activeinput.trial.len()
        &&& before.inputs_derivable()
        &&& before.inputs_derived().buildable(e.unified)
    }
}

/// The settings of a pass over the arguments of calls.
#[derive(Debug, Clone, Copy, PartialEq, Eq, Structural)]
pub struct PassSettings {
    /// The code of callees can veto arguments.
    pub callee_dead_arg: bool,
    /// Variable arguments are on the stack.
    pub vararg_stack_args: bool,
    /// Argument lists are compared with those of other calls.
    pub callee_arity: bool,
    /// The code of callees can extend argument lists.
    pub callee_arity_live: bool,
    /// The program is big endian.
    pub big_endian: bool,
}

impl CallView {
    /// Is the call one whose arguments are recovered.
    pub open spec fn examinable(self, g: GraphView) -> bool {
        self.isinputactive && self.calling(g)
    }

    /// Are the arguments of the call settled after the pass.
    pub open spec fn settles(
        self,
        g: GraphView,
        s: ScriptView,
        e: EvidenceView,
        set: PassSettings,
        facts: Map<(i32, u64), DeadView>,
    ) -> bool {
        self.trimmable(g) && self.examined(
            g,
            s,
            e.trials,
            set.callee_dead_arg,
            facts,
        ).0.activeinput.isfullychecked
    }

    /// What is found out fits the call.
    pub open spec fn evidence_fits(
        self,
        g: GraphView,
        e: EvidenceView,
        set: PassSettings,
        facts: Map<(i32, u64), DeadView>,
    ) -> bool {
        self.examinable(g) ==> {
            &&& e.trials matches Some(v) ==> v.len() == self.activeinput.trial.len()
            &&& forall|s: ScriptView|
                #![trigger self.examined(g, s, e.trials, set.callee_dead_arg, facts)]
                self.settles(g, s, e, set, facts) ==> self.examined(
                    g,
                    s,
                    e.trials,
                    set.callee_dead_arg,
                    facts,
                ).0.inputs_decidable(e, set.vararg_stack_args)
        }
    }

    /// The call and the changes after a pass, what is left to do for it, and
    /// how many changes were noted.
    pub open spec fn input_pass(
        self,
        g: GraphView,
        s: ScriptView,
        e: EvidenceView,
        set: PassSettings,
        facts: Map<(i32, u64), DeadView>,
    ) -> (CallView, ScriptView, Option<FixupView>, int) {
        if !self.examinable(g) {
            (self, s, None, 0)
        } else {
            let (c, s1) = self.examined(g, s, e.trials, set.callee_dead_arg, facts);
            let more = if c.activeinput.numpasses > c.activeinput.maxpass {
                0int
            } else {
                1int
            };
            if self.settles(g, s, e, set, facts) {
                let d = c.inputs_decided(e, set.vararg_stack_args).lined_up(e.unified);
                let (vns, s2) = d.final_inputs(g, s1, set.big_endian);
                (
                    CallView { isinputactive: false, ..d.inputs_settled() },
                    s2.set_all_input(d.op, vns),
                    Some(d.fixup(g, vns, set.callee_arity && set.callee_arity_live)),
                    more + 1,
                )
            } else {
                (c, s1, None, more)
            }
        }
    }
}

/// Finishes a pass over the input trials; says whether all are checked now.
fn finish_pass(fc: &mut FuncCallSpecs) -> (r: bool)
    ensures
        final(fc)@ == (CallView {
            activeinput: recover::pass_finished(old(fc)@.activeinput),
            ..old(fc)@
        }),
        r == final(fc)@.activeinput.isfullychecked,
{
    fc.activeinput.finish_pass();
    if fc.activeinput.get_num_passes() > fc.activeinput.get_max_pass() {
        fc.activeinput.mark_fully_checked();
    }
    fc.activeinput.is_fully_checked()
}

/// Takes in what is known before the model is asked.
fn prepare_inputs(fc: &mut FuncCallSpecs, answers: &Vec<Ancestry>, vararg_stack_args: bool)
    requires
        old(fc)@.activeinput.needsfinalcheck ==> answers.len() == old(
            fc,
        )@.activeinput.trial.len(),
    ensures
        final(fc)@ == old(fc)@.before_model(answers@, vararg_stack_args),
{
    if fc.activeinput.needs_final_check() {
        callsite::final_input_check(fc, answers);
    }
    assert(fc@ == old(fc)@.finally_checked(answers@));
    note_split(fc, vararg_stack_args);
}

/// Notes whether variable arguments are on the stack.
fn note_split(fc: &mut FuncCallSpecs, vararg_stack_args: bool)
    ensures
        final(fc)@ == old(fc)@.with_split(vararg_stack_args),
{
    let split = vararg_stack_args && fc.is_dotdotdot();
    fc.activeinput.set_vararg_stack_split(split);
}

/// Asks the model which input trials are arguments.
fn derive_inputs(fc: &mut FuncCallSpecs)
    requires
        old(fc)@.proto.wf(),
        old(fc)@.inputs_derivable(),
    ensures
        final(fc)@ == old(fc)@.inputs_derived(),
        final(fc)@.proto.wf(),
{
    let _res = fc.resolve_and_derive_input_map();
}

impl ActionActiveParam {
    /// A pass over the input trials of one call. Says whether its arguments
    /// can be settled now.
    pub fn examine(
        fc: &mut FuncCallSpecs,
        g: &Graph,
        s: &mut Script,
        es: &Option<Vec<Evidence>>,
        on: bool,
        facts: &EntryMap<CalleeEntryDead>,
    ) -> (r: bool)
        requires
            facts.wf(),
            old(fc)@.calling(g@),
            *es matches Some(v) ==> v@.len() == old(fc)@.activeinput.trial.len(),
        ensures
            (final(fc)@, final(s)@) == old(fc)@.examined(
                g@,
                old(s)@,
                match *es {
                    Some(v) => Some(v@),
                    None => None,
                },
                on,
                facts@,
            ),
            r == (old(fc)@.trimmable(g@) && final(fc)@.activeinput.isfullychecked),
    {
        let is_callind = match g.get_op(fc.get_op()) {
            Some(o) => o.code == OpCode::CallInd,
            None => false,
        };
        let trimmable = fc.activeinput.get_num_passes() > 0 || !is_callind;
        if !fc.activeinput.is_fully_checked() {
            match es {
                Some(v) => {
                    callsite::check_input_trial_use(fc, g, s, v, on, facts);
                },
                None => {},
            }
        }
        let full = finish_pass(fc);
        trimmable && full
    }

    /// Decide which input trials of a call are arguments.
    pub fn decide(fc: &mut FuncCallSpecs, e: &CallEvidence, vararg_stack_args: bool)
        requires
            old(fc)@.inputs_decidable(e@, vararg_stack_args),
        ensures
            final(fc)@ == old(fc)@.inputs_decided(e@, vararg_stack_args),
            final(fc)@.proto.wf(),
    {
        let ghost c0 = fc@;
        prepare_inputs(fc, &e.answers, vararg_stack_args);
        assert(fc@ == c0.before_model(e@.answers, vararg_stack_args));
        derive_inputs(fc);
    }

    /// A pass over one call whose arguments are recovered. The result holds
    /// what is left to do for it when its arguments are settled, and the
    /// number of changes.
    pub fn pass(
        fc: &mut FuncCallSpecs,
        g: &Graph,
        s: &mut Script,
        e: &CallEvidence,
        set: &PassSettings,
        facts: &EntryMap<CalleeEntryDead>,
    ) -> (r: (Option<PendingCallFixup>, u128))
        requires
            facts.wf(),
            old(fc)@.evidence_fits(g@, e@, *set, facts@),
        ensures
            ({
                let (c, s1, f, n) = old(fc)@.input_pass(g@, old(s)@, e@, *set, facts@);
                &&& final(fc)@ == c
                &&& final(s)@ == s1
                &&& match r.0 {
                    Some(x) => f == Some(x@),
                    None => f is None,
                }
                &&& r.1 == n
                &&& n <= 2
            }),
    {
        if !fc.is_input_active() || !is_calling(fc, g) {
            return (None, 0);
        }
        let ghost c0 = fc@;
        let ghost s0 = s@;
        let settle = ActionActiveParam::examine(fc, g, s, &e.trials, set.callee_dead_arg, facts);
        assert((fc@, s@) == c0.examined(g@, s0, e@.trials, set.callee_dead_arg, facts@));
        let mut n: u128 = 0;
        if fc.activeinput.get_num_passes() <= fc.activeinput.get_max_pass() {
            n = 1;
        }
        if !settle {
            return (None, n);
        }
        assert(c0.settles(g@, s0, e@, *set, facts@));
        ActionActiveParam::decide(fc, e, set.vararg_stack_args);
        let fixup = callsite::build_input_from_trials(
            fc,
            g,
            s,
            &e.unified,
            set.big_endian,
            set.callee_arity,
            set.callee_arity_live,
        );
        fc.clear_active_input();
        (Some(fixup), n + 1)
    }
}

/// The calls whose argument lists came out empty or short.
#[derive(Debug)]
pub struct Fixups {
    pub rescue: Vec<OpId>,
    pub extend: Vec<PendingExtend>,
}

/// The views of a list.
pub open spec fn extends_view(s: Seq<PendingExtend>) -> Seq<ExtendView> {
    Seq::new(s.len(), |i: int| s[i]@)
}

/// A pass over calls: the calls, the changes, the calls whose argument lists
/// came out empty or short, and the number of changes.
#[verifier::ext_equal]
pub struct InputPass {
    pub calls: Seq<CallView>,
    pub script: ScriptView,
    pub rescue: Seq<OpId>,
    pub extend: Seq<ExtendView>,
    pub count: int,
}

impl InputPass {
    /// With what is left to do for one more call.
    pub open spec fn noting(self, f: Option<FixupView>) -> InputPass {
        match f {
            None => self,
            Some(x) => InputPass {
                rescue: match x.rescue {
                    Some(op) => self.rescue.push(op),
                    None => self.rescue,
                },
                extend: match x.extend {
                    Some(p) => self.extend.push(p),
                    None => self.extend,
                },
                ..self
            },
        }
    }
}

/// A pass over the first `n` calls.
pub open spec fn inputs_passed(
    cs: Seq<CallView>,
    n: int,
    g: GraphView,
    s: ScriptView,
    es: Seq<CallEvidence>,
    set: PassSettings,
    facts: Map<(i32, u64), DeadView>,
) -> InputPass
    decreases n,
{
    if n <= 0 || n > cs.len() {
        InputPass { calls: cs, script: s, rescue: Seq::empty(), extend: Seq::empty(), count: 0 }
    } else {
        let p = inputs_passed(cs, n - 1, g, s, es, set, facts);
        let (c, s2, f, k) = cs[n - 1].input_pass(g, p.script, es[n - 1]@, set, facts);
        InputPass { calls: p.calls.update(n - 1, c), script: s2, count: p.count + k, ..p }.noting(f)
    }
}

/// Takes note of what is left to do for a call.
fn note_fixup(fix: &mut Fixups, f: Option<PendingCallFixup>)
    ensures
        final(fix).rescue@ == (match f {
            Some(x) => match x.rescue {
                Some(op) => old(fix).rescue@.push(op),
                None => old(fix).rescue@,
            },
            None => old(fix).rescue@,
        }),
        extends_view(final(fix).extend@) == (match f {
            Some(x) => match x.extend {
                Some(p) => extends_view(old(fix).extend@).push(p@),
                None => extends_view(old(fix).extend@),
            },
            None => extends_view(old(fix).extend@),
        }),
{
    let ghost e0 = fix.extend@;
    match f {
        Some(x) => {
            match x.rescue {
                Some(op) => {
                    fix.rescue.push(op);
                },
                None => {},
            }
            match x.extend {
                Some(p) => {
                    fix.extend.push(p);
                    assert(extends_view(fix.extend@) =~= extends_view(e0).push(p@));
                },
                None => {},
            }
        },
        None => {},
    }
}

impl ActionActiveParam {
    /// A pass over the calls whose arguments are recovered. The calls whose
    /// argument lists came out empty or short are passed back.
    ///
    /// What is found out about all calls is taken before the first is settled,
    /// so this is right only where none of it depends on an earlier call of the
    /// pass. Where it may (the origin of a value that goes through such a call,
    /// the trials of such a call of the same callee) it is taken call by call:
    /// `pass`, or `examine` and `decide`, is run on one call before the next is
    /// looked at.
    pub fn apply(
        &mut self,
        calls: &mut Vec<FuncCallSpecs>,
        g: &Graph,
        s: &mut Script,
        es: &Vec<CallEvidence>,
        set: &PassSettings,
        facts: &EntryMap<CalleeEntryDead>,
    ) -> (r: Fixups)
        requires
            facts.wf(),
            es.len() >= old(calls)@.len(),
            forall|i: int|
                0 <= i < old(calls)@.len() ==> (#[trigger] old(calls)@[i])@.evidence_fits(
                    g@,
                    es@[i]@,
                    *set,
                    facts@,
                ),
        ensures
            ({
                let p = inputs_passed(
                    link::calls_view(old(calls)@),
                    old(calls)@.len() as int,
                    g@,
                    old(s)@,
                    es@,
                    *set,
                    facts@,
                );
                &&& link::calls_view(final(calls)@) == p.calls
                &&& final(s)@ == p.script
                &&& r.rescue@ == p.rescue
                &&& extends_view(r.extend@) == p.extend
                &&& final(self).info() == old(self).info().noted(p.count)
            }),
    {
        let ghost cs = link::calls_view(calls@);
        let ghost s0 = s@;
        let size: usize = calls.len();
        let mut r = Fixups { rescue: Vec::new(), extend: Vec::new() };
        let mut n: u128 = 0;
        let mut i: usize = 0;
        assert(r.rescue@ =~= Seq::empty());
        assert(extends_view(r.extend@) =~= Seq::empty());
        while i < size
            invariant
                i <= size,
                size == calls@.len(),
                size == cs.len(),
                size <= es.len(),
                cs == link::calls_view(old(calls)@),
                old(calls)@.len() == size,
                s0 == old(s)@,
                facts.wf(),
                self.info() == old(self).info(),
                forall|k: int|
                    0 <= k < size ==> (#[trigger] old(calls)@[k])@.evidence_fits(
                        g@,
                        es@[k]@,
                        *set,
                        facts@,
                    ),
                forall|k: int| i <= k < size ==> (#[trigger] calls@[k])@ == old(calls)@[k]@,
                ({
                    let p = inputs_passed(cs, i as int, g@, s0, es@, *set, facts@);
                    &&& link::calls_view(calls@) == p.calls
                    &&& s@ == p.script
                    &&& r.rescue@ == p.rescue
                    &&& extends_view(r.extend@) == p.extend
                    &&& n == p.count
                }),
                n <= 2 * i,
            decreases size - i,
        {
            let ghost before = link::calls_view(calls@);
            assert(calls@[i as int]@ == old(calls)@[i as int]@);
            assert(old(calls)@[i as int]@.evidence_fits(g@, es@[i as int]@, *set, facts@));
            assert(cs[i as int] == calls@[i as int]@);
            let (f, k) = ActionActiveParam::pass(&mut calls[i], g, s, &es[i], set, facts);
            note_fixup(&mut r, f);
            n += k;
            assert(link::calls_view(calls@) =~= before.update(i as int, calls@[i as int]@));
            i += 1;
        }
        self.base.note(n);
        r
    }
}

/// The arguments of a call are settled at most once: afterwards it is passed
/// over.
pub proof fn law_settled_once(
    c: CallView,
    g: GraphView,
    s: ScriptView,
    e: EvidenceView,
    set: PassSettings,
    facts: Map<(i32, u64), DeadView>,
    g2: GraphView,
    s2: ScriptView,
    e2: EvidenceView,
    set2: PassSettings,
)
    requires
        c.input_pass(g, s, e, set, facts).2 is Some,
    ensures
        ({
            let d = c.input_pass(g, s, e, set, facts).0;
            d.input_pass(g2, s2, e2, set2, facts) == (d, s2, None::<FixupView>, 0int)
        }),
{
}

/// At most one thing is left to do for a call.
pub proof fn law_one_fixup(c: CallView, g: GraphView, inputs: Seq<VarnodeId>, extending: bool)
    ensures
        c.fixup(g, inputs, extending).rescue is None || c.fixup(g, inputs, extending).extend is None,
{
}

} // verus!
