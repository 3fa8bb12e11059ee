//! Recovery of the arguments and the return value of a call from the values
//! around it.
use crate::active;
use crate::active::{ActiveView, ParamActive};
use crate::aritylive;
use crate::aritylive::{ExtendView, PendingExtend};
use crate::callspec::{CallView, FuncCallSpecs};
use crate::deadarg;
use crate::entrymap::EntryMap;
use crate::graph::{Graph, GraphView, OpId, Varnode, VarnodeId};
use crate::model;
use crate::opcode::OpCode;
use crate::probe::{CalleeEntryDead, DeadView};
use crate::recover::Ancestry;
use crate::script::{Edit, Script, ScriptView};
use crate::space::{Address, SpaceType};
use crate::trial::ParamTrial;
use vstd::prelude::*;

verus! {

/// What is found out about the value of an input trial: whether something may
/// point at its stack location, whether that lies outside of the local
/// variables of the caller, and where the value comes from.
#[derive(Debug, Clone, Copy, PartialEq, Eq, Structural)]
pub struct Evidence {
    pub alias: bool,
    pub outside: bool,
    pub ancestry: Ancestry,
}

impl Varnode {
    /// On the stack.
    pub open spec fn stacked(self) -> bool {
        self.addr.space matches Some(s) && s.type_ == SpaceType::Spacebase
    }

    pub fn is_stacked(&self) -> (r: bool)
        ensures
            r == self.stacked(),
    {
        match self.addr.space {
            Some(s) => s.type_ == SpaceType::Spacebase,
            None => false,
        }
    }
}

impl CallView {
    /// How many bytes the callee takes off the stack, when it takes off its
    /// own parameters and more than a return address is known to go.
    pub open spec fn callee_pops(self) -> Option<i32> {
        if self.proto.model is Some && self.proto.model_view().extrapop == model::EXTRAPOP_UNKNOWN
            && self.proto.extrapop != model::EXTRAPOP_UNKNOWN && self.proto.extrapop > 4 {
            Some(self.proto.extrapop)
        } else {
            None
        }
    }
}

/// A trial on the stack after its value was looked into.
pub open spec fn stack_judged(t: ParamTrial, pops: Option<i32>, e: Evidence) -> ParamTrial {
    if e.alias || e.outside {
        t.with_no_use()
    } else {
        match pops {
            Some(n) => if (t.addr.offset as i64) + t.size - 1 < n {
                t.with_active()
            } else {
                t.with_no_use()
            },
            None => if !e.ancestry.favourable() {
                e.ancestry.trial.with_no_use()
            } else if e.ancestry.only {
                e.ancestry.trial.with_active()
            } else {
                e.ancestry.trial.with_inactive()
            },
        }
    }
}

/// A trial in a register after its value was looked into; `dead` says that the
/// callee does not read it, `input` that the value is an input of the caller.
pub open spec fn register_judged(t: ParamTrial, dead: bool, input: bool, e: Evidence) -> ParamTrial {
    if dead {
        t.with_no_use()
    } else if e.ancestry.favourable() {
        if e.ancestry.only {
            e.ancestry.trial.with_active()
        } else {
            e.ancestry.trial.with_inactive()
        }
    } else if input {
        e.ancestry.trial.with_inactive()
    } else {
        e.ancestry.trial.with_no_use()
    }
}

/// The varnode behind an input trial that is still open.
pub open spec fn open_trial(g: GraphView, op: OpId, t: ParamTrial) -> Option<Varnode> {
    if t.flags.checked {
        None
    } else {
        match g.input(op, t.slot as int) {
            Some(vn) => g.vn(vn),
            None => None,
        }
    }
}

/// The value of a trial that is no argument given up.
pub open spec fn freed(s: ScriptView, op: OpId, t: ParamTrial, slot: i32, size: i32) -> ScriptView {
    if t.flags.defnouse {
        s.new_constant(size, 0).set_input(op, s.vn(), slot as int)
    } else {
        s
    }
}

impl CallView {
    /// The call and the changes after the value of the `i`-th input trial was
    /// looked into; `dead` says that the callee does not read the register.
    pub open spec fn trial_judged(
        self,
        g: GraphView,
        s: ScriptView,
        i: int,
        e: Evidence,
        dead: bool,
    ) -> (CallView, ScriptView) {
        let t = self.activeinput.trial[i];
        match open_trial(g, self.op, t) {
            None => (self, s),
            Some(v) => {
                let j = if v.stacked() {
                    stack_judged(t, self.callee_pops(), e)
                } else {
                    register_judged(t, dead, v.input, e)
                };
                let check = !v.stacked() && !dead && e.ancestry.favourable() && e.ancestry.only
                    && j.flags.condexe_effect;
                let a = self.activeinput.with_trial(i, j);
                let b = if check {
                    ActiveView { needsfinalcheck: true, ..a }
                } else {
                    a
                };
                (CallView { activeinput: b, ..self }, freed(s, self.op, j, t.slot, v.size))
            },
        }
    }

    /// Does the code of the callee show that the `i`-th input trial is no
    /// argument.
    pub open spec fn trial_dead(
        self,
        on: bool,
        facts: Map<(i32, u64), DeadView>,
        g: GraphView,
        i: int,
    ) -> bool {
        let t = self.activeinput.trial[i];
        deadarg::dead_in_callee(on, self, facts, g, t.slot as int, t.addr, t.size as int)
    }

    /// The call and the changes after the first `n` input trials were looked
    /// into.
    pub open spec fn trials_judged(
        self,
        g: GraphView,
        s: ScriptView,
        n: int,
        es: Seq<Evidence>,
        on: bool,
        facts: Map<(i32, u64), DeadView>,
    ) -> (CallView, ScriptView)
        decreases n,
    {
        if n <= 0 {
            (self, s)
        } else {
            let (c, s1) = self.trials_judged(g, s, n - 1, es, on, facts);
            c.trial_judged(g, s1, n - 1, es[n - 1], c.trial_dead(on, facts, g, n - 1))
        }
    }

    /// The call is made by an operation that is alive.
    pub open spec fn alive(self, g: GraphView) -> bool {
        g.op(self.op) matches Some(o) && !o.dead
    }
}

fn pops_of(fc: &FuncCallSpecs) -> (r: Option<i32>)
    ensures
        r == fc@.callee_pops(),
{
    if fc.proto.has_model() && fc.get_model_extra_pop() == model::EXTRAPOP_UNKNOWN {
        let expop: i32 = fc.get_extra_pop();
        if expop != model::EXTRAPOP_UNKNOWN && expop > 4 {
            return Some(expop);
        }
    }
    None
}

fn judge_stack(t: &ParamTrial, pops: Option<i32>, e: &Evidence) -> (r: ParamTrial)
    ensures
        r == stack_judged(*t, pops, *e),
{
    let mut j = *t;
    if e.alias || e.outside {
        j.mark_no_use();
        return j;
    }
    match pops {
        Some(n) => {
            if (t.addr.offset as i64) as i128 + t.size as i128 - 1 < n as i128 {
                j.mark_active();
            } else {
                j.mark_no_use();
            }
        },
        None => {
            j = e.ancestry.trial;
            if !e.ancestry.is_favourable() {
                j.mark_no_use();
            } else if e.ancestry.only {
                j.mark_active();
            } else {
                j.mark_inactive();
            }
        },
    }
    j
}

fn judge_register(t: &ParamTrial, dead: bool, input: bool, e: &Evidence) -> (r: ParamTrial)
    ensures
        r == register_judged(*t, dead, input, *e),
{
    let mut j = *t;
    if dead {
        j.mark_no_use();
        return j;
    }
    j = e.ancestry.trial;
    if e.ancestry.is_favourable() {
        if e.ancestry.only {
            j.mark_active();
        } else {
            j.mark_inactive();
        }
    } else if input {
        j.mark_inactive();
    } else {
        j.mark_no_use();
    }
    j
}

/// Notes a trial that was looked into.
fn settle_trial(fc: &mut FuncCallSpecs, i: usize, j: ParamTrial, check: bool)
    requires
        i < old(fc)@.activeinput.trial.len(),
    ensures
        final(fc)@ == (CallView {
            activeinput: if check {
                ActiveView { needsfinalcheck: true, ..old(fc)@.activeinput.with_trial(i as int, j) }
            } else {
                old(fc)@.activeinput.with_trial(i as int, j)
            },
            ..old(fc)@
        }),
{
    fc.activeinput.put_trial(i, j);
    if check {
        fc.activeinput.mark_needs_final_check();
    }
}

/// Gives up the value of a trial that is no argument.
fn free_trial(s: &mut Script, op: OpId, j: &ParamTrial, slot: i32, size: i32)
    ensures
        final(s)@ == freed(old(s)@, op, *j, slot, size),
{
    if j.is_definitely_not_used() {
        let c = s.new_constant(size, 0);
        s.set_input(op, c, slot);
    }
}

/// Takes in what was found out about the value of the `i`-th input trial, if
/// the trial is still open. A trial that is no argument gives its value up.
/// With `on`, the code of the callee can show that a register is none.
pub fn judge_input_trial(
    fc: &mut FuncCallSpecs,
    g: &Graph,
    s: &mut Script,
    i: usize,
    e: &Evidence,
    on: bool,
    facts: &EntryMap<CalleeEntryDead>,
)
    requires
        facts.wf(),
        i < old(fc)@.activeinput.trial.len(),
    ensures
        (final(fc)@, final(s)@) == old(fc)@.trial_judged(
            g@,
            old(s)@,
            i as int,
            *e,
            old(fc)@.trial_dead(on, facts@, g@, i as int),
        ),
{
    let t = fc.activeinput.trial[i];
    assert(t == fc@.activeinput.trial[i as int]);
    if t.is_checked() {
        return;
    }
    let op = fc.get_op();
    let vn = match g.get_in(op, t.slot) {
        Some(v) => v,
        None => {
            return;
        },
    };
    let v = match g.get_vn(vn) {
        Some(v) => v,
        None => {
            return;
        },
    };
    assert(open_trial(g@, fc@.op, t) == Some(v));
    let dead = deadarg::trial_is_dead_in_callee(on, fc, facts, g, t.slot, &t.addr, t.size);
    let stacked = v.is_stacked();
    let j = if stacked {
        judge_stack(&t, pops_of(fc), e)
    } else {
        judge_register(&t, dead, v.input, e)
    };
    let check = !stacked && !dead && e.ancestry.is_favourable() && e.ancestry.only
        && j.has_cond_exe_effect();
    settle_trial(fc, i, j, check);
    free_trial(s, op, &j, t.slot, v.size);
}

/// Looking into trials keeps their number.
proof fn lemma_judged_len(
    c: CallView,
    g: GraphView,
    s: ScriptView,
    n: int,
    es: Seq<Evidence>,
    on: bool,
    facts: Map<(i32, u64), DeadView>,
)
    requires
        n <= c.activeinput.trial.len(),
    ensures
        c.trials_judged(g, s, n, es, on, facts).0.activeinput.trial.len()
            == c.activeinput.trial.len(),
        c.trials_judged(g, s, n, es, on, facts).0.op == c.op,
    decreases n,
{
    if n > 0 {
        lemma_judged_len(c, g, s, n - 1, es, on, facts);
    }
}

/// Looks into every open input trial of a call that is alive, in order, with
/// what was found out about their values.
pub fn check_input_trial_use(
    fc: &mut FuncCallSpecs,
    g: &Graph,
    s: &mut Script,
    es: &Vec<Evidence>,
    on: bool,
    facts: &EntryMap<CalleeEntryDead>,
)
    requires
        facts.wf(),
        es.len() == old(fc)@.activeinput.trial.len(),
    ensures
        (final(fc)@, final(s)@) == (if old(fc)@.alive(g@) {
            old(fc)@.trials_judged(g@, old(s)@, es@.len() as int, es@, on, facts@)
        } else {
            (old(fc)@, old(s)@)
        }),
{
    match g.get_op(fc.get_op()) {
        Some(o) => {
            if o.dead {
                return;
            }
        },
        None => {
            return;
        },
    }
    let mut i: usize = 0;
    while i < es.len()
        invariant
            i <= es.len(),
            facts.wf(),
            es.len() == old(fc)@.activeinput.trial.len(),
            (fc@, s@) == old(fc)@.trials_judged(g@, old(s)@, i as int, es@, on, facts@),
        decreases es.len() - i,
    {
        proof {
            lemma_judged_len(old(fc)@, g@, old(s)@, i as int, es@, on, facts@);
        }
        judge_input_trial(fc, g, s, i, &es[i], on, facts);
        i += 1;
    }
}

/// A trial after the effect of conditional execution on it was looked into.
pub open spec fn rechecked(t: ParamTrial, a: Ancestry) -> ParamTrial {
    if !t.flags.active || !t.flags.condexe_effect {
        t
    } else if a.favourable() {
        a.trial
    } else {
        a.trial.with_no_use()
    }
}

/// Trials after the effect of conditional execution on them was looked into.
pub open spec fn all_rechecked(ts: Seq<ParamTrial>, answers: Seq<Ancestry>) -> Seq<ParamTrial> {
    Seq::new(ts.len(), |i: int| rechecked(ts[i], answers[i]))
}

fn recheck(active: &mut ParamActive, answers: &Vec<Ancestry>)
    requires
        answers.len() == old(active)@.trial.len(),
    ensures
        final(active)@ == (ActiveView {
            trial: all_rechecked(old(active)@.trial, answers@),
            ..old(active)@
        }),
{
    let ghost ts = active@.trial;
    let mut i: usize = 0;
    while i < answers.len()
        invariant
            i <= answers.len(),
            answers.len() == ts.len(),
            ts == old(active)@.trial,
            active@.trial.len() == ts.len(),
            forall|k: int|
                0 <= k < i ==> #[trigger] active@.trial[k] == rechecked(ts[k], answers@[k]),
            forall|k: int| i <= k < ts.len() ==> #[trigger] active@.trial[k] == ts[k],
            active@ == (ActiveView { trial: active@.trial, ..old(active)@ }),
        decreases answers.len() - i,
    {
        let t = active.trial[i];
        assert(t == active@.trial[i as int]);
        let a = answers[i];
        if t.is_active() && t.has_cond_exe_effect() {
            let mut j = a.trial;
            if !a.is_favourable() {
                j.mark_no_use();
            }
            active.put_trial(i, j);
        }
        i += 1;
    }
    assert(active@.trial =~= all_rechecked(ts, answers@));
}

/// Takes in what was found out about the active input trials that conditional
/// execution may affect.
pub fn final_input_check(fc: &mut FuncCallSpecs, answers: &Vec<Ancestry>)
    requires
        answers.len() == old(fc)@.activeinput.trial.len(),
    ensures
        final(fc)@ == (CallView {
            activeinput: ActiveView {
                trial: all_rechecked(old(fc)@.activeinput.trial, answers@),
                ..old(fc)@.activeinput
            },
            ..old(fc)@
        }),
{
    recheck(&mut fc.activeinput, answers);
}

/// What is left to do for a call once all arguments of the pass are settled.
/// At most one of the two is set.
#[derive(Debug)]
pub struct PendingCallFixup {
    /// The argument list came out empty: the call that may be rescued.
    pub rescue: Option<OpId>,
    /// The argument list came out short: it may be extended.
    pub extend: Option<PendingExtend>,
}

/// What is left to do for a call, in the abstract.
#[verifier::ext_equal]
pub struct FixupView {
    pub rescue: Option<OpId>,
    pub extend: Option<ExtendView>,
}

impl View for PendingCallFixup {
    type V = FixupView;

    open spec fn view(&self) -> FixupView {
        FixupView {
            rescue: self.rescue,
            extend: match self.extend {
                Some(p) => Some(p@),
                None => None,
            },
        }
    }
}

impl Default for PendingCallFixup {
    /// Nothing left to do.
    fn default() -> (r: PendingCallFixup)
        ensures
            r@ == (FixupView { rescue: None, extend: None }),
    {
        PendingCallFixup { rescue: None, extend: None }
    }
}

impl CallView {
    /// Where the parameter of a trial is, seen from the caller.
    pub open spec fn caller_address(self, t: ParamTrial) -> Address {
        match t.addr.space {
            Some(sp) => if sp.type_ == SpaceType::Spacebase {
                Address {
                    space: Some(sp),
                    offset: sp.wrapped(
                        vstd::wrapping::u64_specs::wrapping_add(self.stackoffset, t.addr.offset),
                    ),
                }
            } else {
                t.addr
            },
            None => t.addr,
        }
    }
}

/// The low `size` bytes of `cur` as a value before `op`, and the changes.
pub open spec fn truncated(
    g: GraphView,
    s: ScriptView,
    op: OpId,
    cur: VarnodeId,
    v: Varnode,
    size: i32,
    big_endian: bool,
) -> (VarnodeId, ScriptView) {
    let newop = s.op();
    let at = if big_endian {
        v.addr.plus(v.size - size)
    } else {
        v.addr
    };
    let s1 = s.new_op(2, g.op(op)->0.addr);
    let out = s1.vn();
    let s2 = s1.new_varnode_out(size, at, newop).set_opcode(newop, OpCode::SubPiece).set_input(
        newop,
        cur,
        0,
    );
    (
        out,
        s2.new_constant(1, 0).set_input(newop, s2.vn(), 1).then_do(
            Edit::InsertBefore { op: newop, at: op },
        ),
    )
}

impl CallView {
    /// The varnode that a used trial passes, if it passes one, and the changes
    /// that it takes.
    pub open spec fn passed(
        self,
        g: GraphView,
        s: ScriptView,
        t: ParamTrial,
        big_endian: bool,
    ) -> (Option<VarnodeId>, ScriptView) {
        if t.addr.space is None {
            (None, s)
        } else if t.flags.unref {
            (Some(s.vn()), s.new_varnode(t.size, self.caller_address(t)))
        } else {
            match g.input(self.op, t.slot as int) {
                None => (None, s),
                Some(cur) => match g.vn(cur) {
                    Some(v) => if v.size > t.size {
                        let (out, s1) = truncated(g, s, self.op, cur, v, t.size, big_endian);
                        (Some(out), s1)
                    } else {
                        (Some(cur), s)
                    },
                    None => (Some(cur), s),
                },
            }
        }
    }

    /// The arguments from the first `n` trials behind those in `first`, and
    /// the changes; a stack range that passes one holds no local variable.
    pub open spec fn arguments(
        self,
        g: GraphView,
        s: ScriptView,
        first: Seq<VarnodeId>,
        n: int,
        big_endian: bool,
    ) -> (Seq<VarnodeId>, ScriptView)
        decreases n,
    {
        if n <= 0 || n > self.activeinput.trial.len() {
            (first, s)
        } else {
            let (vns, s1) = self.arguments(g, s, first, n - 1, big_endian);
            let t = self.activeinput.trial[n - 1];
            if !t.flags.used {
                (vns, s1)
            } else {
                match self.passed(g, s1, t, big_endian) {
                    (None, s2) => (vns, s2),
                    (Some(vn), s2) => (
                        vns.push(vn),
                        if t.addr.space->0.type_ == SpaceType::Spacebase {
                            s2.then_do(
                                Edit::NotMapped {
                                    space: t.addr.space->0,
                                    offset: self.caller_address(t).offset,
                                    size: t.size,
                                },
                            )
                        } else {
                            s2
                        },
                    ),
                }
            }
        }
    }

    /// The target of the call, as a list.
    pub open spec fn target_list(self, g: GraphView) -> Seq<VarnodeId> {
        match g.input(self.op, 0) {
            Some(v) => seq![v],
            None => Seq::empty(),
        }
    }

    /// The final inputs of the call, and the changes that they take.
    pub open spec fn final_inputs(self, g: GraphView, s: ScriptView, big_endian: bool) -> (
        Seq<VarnodeId>,
        ScriptView,
    ) {
        self.arguments(
            g,
            s,
            self.target_list(g),
            self.activeinput.trial.len() as int,
            big_endian,
        )
    }

    /// What is left to do for the call when it gets these inputs.
    pub open spec fn fixup(self, g: GraphView, inputs: Seq<VarnodeId>, extending: bool) -> FixupView {
        if inputs.len() < 2 {
            FixupView { rescue: Some(self.op), extend: None }
        } else {
            FixupView { rescue: None, extend: aritylive::captured(extending, self, g) }
        }
    }

    /// The call with its arguments settled: where they are is kept, unused
    /// trials are not.
    pub open spec fn inputs_settled(self) -> CallView {
        let ts = self.activeinput.trial;
        CallView {
            final_input_storage: used_storage(ts, ts.len() as int),
            activeinput: ActiveView {
                trial: active::used_trials(ts, ts.len() as int),
                ..self.activeinput
            },
            ..self
        }
    }
}

/// The storage of the used among the first `n` trials.
pub open spec fn used_storage(ts: Seq<ParamTrial>, n: int) -> Seq<(Address, i32)>
    decreases n,
{
    if n <= 0 || n > ts.len() {
        Seq::empty()
    } else {
        let before = used_storage(ts, n - 1);
        if ts[n - 1].flags.used {
            before.push((ts[n - 1].addr, ts[n - 1].size))
        } else {
            before
        }
    }
}

fn truncate(
    g: &Graph,
    s: &mut Script,
    op: OpId,
    cur: VarnodeId,
    v: &Varnode,
    size: i32,
    big_endian: bool,
) -> (r: VarnodeId)
    requires
        g@.op(op) is Some,
    ensures
        (r, final(s)@) == truncated(g@, old(s)@, op, cur, *v, size, big_endian),
{
    let opaddr = match g.get_op(op) {
        Some(o) => o.addr,
        None => Address::new_invalid(),
    };
    let newop = s.new_op(2, opaddr);
    let at = if big_endian {
        v.addr.advance(v.size as i64 - size as i64)
    } else {
        v.addr
    };
    let out = s.new_varnode_out(size, at, newop);
    s.set_opcode(newop, OpCode::SubPiece);
    s.set_input(newop, cur, 0);
    let zero = s.new_constant(1, 0);
    s.set_input(newop, zero, 1);
    s.push(Edit::InsertBefore { op: newop, at: op });
    out
}

fn caller_address_of(fc: &FuncCallSpecs, t: &ParamTrial) -> (r: Address)
    ensures
        r == fc@.caller_address(*t),
{
    match t.addr.space {
        Some(sp) => if sp.type_ == SpaceType::Spacebase {
            Address::new(sp, sp.wrap_offset(fc.stackoffset.wrapping_add(t.addr.offset)))
        } else {
            t.addr
        },
        None => t.addr,
    }
}

fn pass_trial(fc: &FuncCallSpecs, g: &Graph, s: &mut Script, t: &ParamTrial, big_endian: bool) -> (r:
    Option<VarnodeId>)
    ensures
        (r, final(s)@) == fc@.passed(g@, old(s)@, *t, big_endian),
{
    if t.addr.space.is_none() {
        return None;
    }
    if t.is_unref() {
        return Some(s.new_varnode(t.size, caller_address_of(fc, t)));
    }
    match g.get_in(fc.op, t.slot) {
        None => None,
        Some(cur) => match g.get_vn(cur) {
            Some(v) => if v.size > t.size {
                Some(truncate(g, s, fc.op, cur, &v, t.size, big_endian))
            } else {
                Some(cur)
            },
            None => Some(cur),
        },
    }
}

fn gather_arguments(fc: &FuncCallSpecs, g: &Graph, s: &mut Script, big_endian: bool) -> (r: Vec<
    VarnodeId,
>)
    ensures
        (r@, final(s)@) == fc@.final_inputs(g@, old(s)@, big_endian),
{
    let ghost first = fc@.target_list(g@);
    let mut vns: Vec<VarnodeId> = Vec::new();
    match g.get_in(fc.op, 0) {
        Some(v) => {
            vns.push(v);
        },
        None => {},
    }
    assert(vns@ =~= first);
    let mut i: usize = 0;
    while i < fc.activeinput.trial.len()
        invariant
            i <= fc.activeinput.trial.len(),
            (vns@, s@) == fc@.arguments(g@, old(s)@, first, i as int, big_endian),
        decreases fc.activeinput.trial.len() - i,
    {
        let t = fc.activeinput.trial[i];
        assert(t == fc@.activeinput.trial[i as int]);
        if t.is_used() {
            match pass_trial(fc, g, s, &t, big_endian) {
                Some(vn) => {
                    vns.push(vn);
                    match t.addr.space {
                        Some(sp) => {
                            if sp.type_ == SpaceType::Spacebase {
                                let at = caller_address_of(fc, &t);
                                s.push(
                                    Edit::NotMapped { space: sp, offset: at.offset, size: t.size },
                                );
                            }
                        },
                        None => {},
                    }
                },
                None => {},
            }
        }
        i += 1;
    }
    vns
}

fn storage_of_used(trials: &Vec<ParamTrial>) -> (r: Vec<(Address, i32)>)
    ensures
        r@ == used_storage(trials@, trials@.len() as int),
{
    let mut r: Vec<(Address, i32)> = Vec::new();
    assert(r@ =~= used_storage(trials@, 0));
    let mut i: usize = 0;
    while i < trials.len()
        invariant
            i <= trials.len(),
            r@ == used_storage(trials@, i as int),
        decreases trials.len() - i,
    {
        let t = trials[i];
        if t.is_used() {
            r.push((t.addr, t.size));
        }
        i += 1;
    }
    r
}

/// Puts the input trials of a variadic call with known parameters in order:
/// the fixed arguments first.
fn order_trials(fc: &mut FuncCallSpecs)
    requires
        old(fc)@.proto.wf(),
        old(fc)@.fixed_first() ==> old(fc)@.orderable(),
    ensures
        final(fc)@ == old(fc)@.ordered(),
{
    if fc.is_dotdotdot() && fc.is_input_locked() {
        let entries = fc.proto.input_param_entries();
        assert forall|i: int| 0 <= i < entries@.len() implies (
        #[trigger] entries@[i])@.group_set.len() > 0 by {
            assert(crate::entry::entries_view(entries@)[i] == entries@[i]@);
        }
        fc.activeinput.sort_fixed_position(entries.as_slice());
    }
}

impl CallView {
    /// A variadic call with known parameters.
    pub open spec fn fixed_first(self) -> bool {
        self.proto.flag(crate::proto::DOTDOTDOT) && self.proto.input_locked()
    }

    /// The trials name entries of the model.
    pub open spec fn orderable(self) -> bool {
        let l = self.proto.model_view().ins();
        &&& self.proto.model is Some
        &&& self.proto.model_view().input is Some
        &&& active::trials_ok(self.activeinput.trial, l.entry.len())
        &&& forall|i: int| 0 <= i < l.entry.len() ==> (#[trigger] l.entry[i]).group_set.len() > 0
    }

    /// The call with the fixed arguments first.
    pub open spec fn ordered(self) -> CallView {
        if self.fixed_first() {
            CallView {
                activeinput: ActiveView {
                    trial: active::sorted_trials(
                        true,
                        self.activeinput.trial,
                        self.activeinput.trial.len() as int,
                        self.proto.model_view().ins().entry,
                    ),
                    ..self.activeinput
                },
                ..self
            }
        } else {
            self
        }
    }
}

impl CallView {
    /// With the trials of another call.
    pub open spec fn with_unified(self, unified: Option<Seq<ParamTrial>>) -> CallView {
        match unified {
            Some(ts) => CallView {
                activeinput: ActiveView { trial: ts, ..self.activeinput },
                ..self
            },
            None => self,
        }
    }

    /// With its input trials in the order of the arguments, or those of
    /// another call in their place.
    pub open spec fn lined_up(self, unified: Option<Seq<ParamTrial>>) -> CallView {
        self.ordered().with_unified(unified)
    }

    /// The arguments can be built from the trials.
    pub open spec fn buildable(self, unified: Option<Seq<ParamTrial>>) -> bool {
        &&& self.fixed_first() ==> self.orderable()
        &&& self.lined_up(unified).activeinput.trial.len() < i32::MAX
    }
}

/// The trials of another call, if they are taken over.
pub open spec fn trials_view(unified: Option<Vec<ParamTrial>>) -> Option<Seq<ParamTrial>> {
    match unified {
        Some(v) => Some(v@),
        None => None,
    }
}

/// Takes the trials of another call over.
fn take_unified(fc: &mut FuncCallSpecs, unified: &Option<Vec<ParamTrial>>)
    ensures
        final(fc)@ == old(fc)@.with_unified(trials_view(*unified)),
{
    match unified {
        Some(ts) => {
            fc.activeinput.trial = copy_trials(ts);
        },
        None => {},
    }
}

fn copy_trials(ts: &Vec<ParamTrial>) -> (r: Vec<ParamTrial>)
    ensures
        r@ == ts@,
{
    let mut r: Vec<ParamTrial> = Vec::new();
    let mut i: usize = 0;
    while i < ts.len()
        invariant
            i <= ts.len(),
            r@ =~= ts@.take(i as int),
        decreases ts.len() - i,
    {
        r.push(ts[i]);
        i += 1;
    }
    assert(r@ =~= ts@);
    r
}

/// Gives a call its final inputs from the used trials, which stand in order.
/// A value that is wider than its parameter is cut to size.
fn build_arguments(
    fc: &mut FuncCallSpecs,
    g: &Graph,
    s: &mut Script,
    big_endian: bool,
    callee_arity: bool,
    callee_arity_live: bool,
) -> (r: PendingCallFixup)
    requires
        old(fc)@.proto.wf(),
        old(fc)@.activeinput.trial.len() < i32::MAX,
    ensures
        final(fc)@ == old(fc)@.inputs_settled(),
        ({
            let (vns, s1) = old(fc)@.final_inputs(g@, old(s)@, big_endian);
            &&& final(s)@ == s1.set_all_input(old(fc)@.op, vns)
            &&& r@ == old(fc)@.fixup(g@, vns, callee_arity && callee_arity_live)
        }),
{
    let vns = gather_arguments(fc, g, s, big_endian);
    let pending = if vns.len() < 2 {
        PendingCallFixup { rescue: Some(fc.op), extend: None }
    } else {
        PendingCallFixup {
            rescue: None,
            extend: aritylive::capture_partial_call(callee_arity, callee_arity_live, fc, g),
        }
    };
    s.set_all_input(fc.op, &vns);
    let storage = storage_of_used(&fc.activeinput.trial);
    fc.set_final_input_storage(storage);
    fc.activeinput.delete_unused_trials();
    pending
}

/// Gives a call its final inputs from the used trials, the fixed arguments of
/// a variadic call first. `unified` holds the trials of another call to the
/// same function where they are taken over.
pub fn build_input_from_trials(
    fc: &mut FuncCallSpecs,
    g: &Graph,
    s: &mut Script,
    unified: &Option<Vec<ParamTrial>>,
    big_endian: bool,
    callee_arity: bool,
    callee_arity_live: bool,
) -> (r: PendingCallFixup)
    requires
        old(fc)@.proto.wf(),
        old(fc)@.buildable(trials_view(*unified)),
    ensures
        ({
            let c = old(fc)@.lined_up(trials_view(*unified));
            let (vns, s1) = c.final_inputs(g@, old(s)@, big_endian);
            &&& final(fc)@ == c.inputs_settled()
            &&& final(s)@ == s1.set_all_input(old(fc)@.op, vns)
            &&& r@ == c.fixup(g@, vns, callee_arity && callee_arity_live)
        }),
{
    order_trials(fc);
    take_unified(fc, unified);
    build_arguments(fc, g, s, big_endian, callee_arity, callee_arity_live)
}

} // verus!
