//! Recovery of the parameters of a function from the values that it takes in.
use crate::actions::{
    Action, ActionInputPrototype, ActionParamDouble, ActionPrototypeWarnings, ActionRestrictLocal,
};
use crate::active;
use crate::active::{ActiveView, ParamActive};
use crate::callspec;
use crate::decide;
use crate::dtype::{Datatype, TypeMetatype};
use crate::graph::{Graph, GraphView, Varnode, VarnodeId};
use crate::merge;
use crate::pieces::ParameterPieces;
use crate::proto::{FuncProto, ProtoView};
use crate::recover;
use crate::script::{Edit, Script, ScriptView};
use crate::space::Address;
use crate::store;
use crate::store::{ParamView, StoreView};
use crate::trial::ParamTrial;
use crate::verdict;
use vstd::prelude::*;

verus! {

/// A value that a function takes in: its size, and its data-type if that is
/// known.
#[derive(Debug, Clone, Copy, PartialEq, Eq, Structural)]
pub struct InputValue {
    pub vn: VarnodeId,
    pub size: i32,
    pub type_: Option<Datatype>,
}

/// Is a varnode among the chosen ones.
pub open spec fn is_chosen(chosen: Seq<(Address, InputValue)>, vn: VarnodeId) -> bool {
    exists|k: int| 0 <= k < chosen.len() && (#[trigger] chosen[k]).1.vn == vn
}

/// The used among the first `n` trials with their values, each value once.
pub open spec fn chosen(trials: Seq<ParamTrial>, vals: Seq<InputValue>, n: int) -> Seq<
    (Address, InputValue),
>
    decreases n,
{
    if n <= 0 || n > trials.len() {
        Seq::empty()
    } else {
        let before = chosen(trials, vals, n - 1);
        let t = trials[n - 1];
        let v = vals[t.slot - 1];
        if !t.flags.used || is_chosen(before, v.vn) {
            before
        } else {
            before.push((t.addr, v))
        }
    }
}

/// The data-type of a parameter: that of its value, or with no more than the
/// size known, an unknown one.
pub open spec fn value_type(v: InputValue, typed: bool) -> Datatype {
    if typed {
        recover::type_or_unknown(v.type_)
    } else {
        store::unknown_of(v.size)
    }
}

/// Parameters without names.
pub open spec fn nameless(chosen: Seq<(Address, InputValue)>, typed: bool) -> Seq<
    Option<ParamView>,
> {
    Seq::new(
        chosen.len(),
        |i: int|
            Some(
                ParamView {
                    name: Seq::empty(),
                    addr: chosen[i].0,
                    type_: Some(value_type(chosen[i].1, typed)),
                    flags: 0,
                },
            ),
    )
}

/// Every used trial has a value.
pub open spec fn valued(trials: Seq<ParamTrial>, n: nat) -> bool {
    forall|i: int|
        0 <= i < trials.len() && (#[trigger] trials[i]).flags.used ==> 1 <= trials[i].slot <= n
}

impl ProtoView {
    /// With other inputs.
    pub open spec fn with_inputs(self, inputs: Seq<Option<ParamView>>) -> ProtoView {
        ProtoView { store: Some(StoreView { inparam: inputs, ..self.store->0 }), ..self }
    }

    /// With the inputs that the used trials give, unless the inputs are
    /// locked.
    pub open spec fn inputs_updated(
        self,
        trials: Seq<ParamTrial>,
        vals: Seq<InputValue>,
        typed: bool,
    ) -> ProtoView {
        if self.input_locked() {
            self
        } else {
            let p = self.with_inputs(
                nameless(chosen(trials, vals, trials.len() as int), typed),
            );
            if typed {
                p.with_this_marked()
            } else {
                p
            }
        }
    }
}

fn already_chosen(chosen: &Vec<VarnodeId>, vn: VarnodeId) -> (r: bool)
    ensures
        r == chosen@.contains(vn),
{
    let mut i: usize = 0;
    while i < chosen.len()
        invariant
            i <= chosen.len(),
            forall|k: int| 0 <= k < i ==> chosen@[k] != vn,
        decreases chosen.len() - i,
    {
        if chosen[i] == vn {
            return true;
        }
        i += 1;
    }
    false
}

/// Sets the inputs that the used trials give.
fn set_inputs(fp: &mut FuncProto, vals: &Vec<InputValue>, trials: &Vec<ParamTrial>, typed: bool)
    requires
        old(fp)@.store is Some,
        trials@.len() < i32::MAX,
        valued(trials@, vals@.len()),
    ensures
        final(fp)@ == old(fp)@.with_inputs(
            nameless(chosen(trials@, vals@, trials@.len() as int), typed),
        ),
        chosen(trials@, vals@, trials@.len() as int).len() < i32::MAX,
{
    fp.store_clear_all_inputs();
    let mut used: Vec<VarnodeId> = Vec::new();
    let mut count: i32 = 0;
    let mut i: usize = 0;
    assert(nameless(chosen(trials@, vals@, 0), typed) =~= Seq::empty());
    assert(fp@ =~= old(fp)@.with_inputs(nameless(chosen(trials@, vals@, 0), typed)));
    while i < trials.len()
        invariant
            i <= trials.len(),
            trials@.len() < i32::MAX,
            valued(trials@, vals@.len()),
            old(fp)@.store is Some,
            0 <= count <= i,
            count == chosen(trials@, vals@, i as int).len(),
            used@.len() == count,
            forall|k: int|
                0 <= k < count ==> #[trigger] used@[k] == chosen(trials@, vals@, i as int)[k].1.vn,
            fp@ == old(fp)@.with_inputs(nameless(chosen(trials@, vals@, i as int), typed)),
        decreases trials.len() - i,
    {
        let t = trials[i];
        let ghost before = chosen(trials@, vals@, i as int);
        if t.is_used() {
            assert(trials@[i as int].flags.used);
            let v = vals[(t.slot - 1) as usize];
            proof {
                if is_chosen(before, v.vn) {
                    let k = choose|k: int|
                        0 <= k < before.len() && (#[trigger] before[k]).1.vn == v.vn;
                    assert(used@[k] == v.vn);
                }
                if used@.contains(v.vn) {
                    let k = choose|k: int| 0 <= k < used@.len() && used@[k] == v.vn;
                    assert(before[k].1.vn == v.vn);
                }
            }
            if !already_chosen(&used, v.vn) {
                let ty = if typed {
                    match v.type_ {
                        Some(x) => x,
                        None => Datatype::new(1, TypeMetatype::Unknown),
                    }
                } else {
                    Datatype::new(v.size, TypeMetatype::Unknown)
                };
                let p = ParameterPieces { addr: t.addr, type_: Some(ty), flags: 0 };
                fp.store_set_input(count, "", &p);
                proof {
                    reveal_strlit("");
                    assert(""@ =~= Seq::<char>::empty());
                    let now = before.push((t.addr, v));
                    let a = nameless(before, typed);
                    assert(store::padded(a, count as int).update(
                        count as int,
                        Some(store::made_of(""@, p)),
                    ) =~= nameless(now, typed));
                }
                used.push(v.vn);
                count += 1;
            }
        }
        i += 1;
    }
}

/// Sets the parameters of a function from the used trials, with the types of
/// their values, unless they are locked.
pub fn update_input_types(fp: &mut FuncProto, triallist: &Vec<InputValue>, active: &ParamActive)
    requires
        old(fp)@.wf(),
        old(fp)@.store is Some,
        !old(fp)@.input_locked() ==> old(fp)@.model is Some,
        active@.trial.len() < i32::MAX,
        valued(active@.trial, triallist@.len()),
    ensures
        final(fp)@ == old(fp)@.inputs_updated(active@.trial, triallist@, true),
{
    if fp.is_input_locked() {
        return;
    }
    set_inputs(fp, triallist, &active.trial, true);
    fp.update_this_pointer();
}

/// Sets the parameters of a function from the used trials, of which only the
/// sizes are known, unless they are locked.
pub fn update_input_no_types(fp: &mut FuncProto, triallist: &Vec<InputValue>, active: &ParamActive)
    requires
        old(fp)@.wf(),
        old(fp)@.store is Some,
        active@.trial.len() < i32::MAX,
        valued(active@.trial, triallist@.len()),
    ensures
        final(fp)@ == old(fp)@.inputs_updated(active@.trial, triallist@, false),
{
    if fp.is_input_locked() {
        return;
    }
    set_inputs(fp, triallist, &active.trial, false);
}

/// Input trials with the values behind them, by slot.
#[derive(Debug)]
pub struct InputTrials {
    pub active: ParamActive,
    pub values: Vec<InputValue>,
}

/// Input trials in the abstract.
#[verifier::ext_equal]
pub struct TrialsView {
    pub active: ActiveView,
    pub values: Seq<InputValue>,
}

impl View for InputTrials {
    type V = TrialsView;

    open spec fn view(&self) -> TrialsView {
        TrialsView { active: self.active@, values: self.values@ }
    }
}

impl TrialsView {
    /// With a trial for a value, active if the function reads it.
    pub open spec fn taking(self, vn: VarnodeId, v: Varnode) -> TrialsView {
        let a = self.active.registered(v.addr, v.size);
        let k = self.active.trial.len() as int;
        TrialsView {
            active: if v.readers > 0 {
                a.with_trial(k, a.trial[k].with_active())
            } else {
                a
            },
            values: self.values.push(InputValue { vn, size: v.size, type_: v.type_ }),
        }
    }

    /// The `i`-th trial, which the function does not refer to, given a value:
    /// a new input of the function, unless another one is there already.
    pub open spec fn placed(self, s: ScriptView, i: int, taken: bool) -> (TrialsView, ScriptView) {
        let t = self.active.trial[i];
        if !t.flags.unref || !t.flags.used {
            (self, s)
        } else if taken {
            (TrialsView { active: self.active.with_trial(i, t.with_no_use()), ..self }, s)
        } else {
            (
                TrialsView {
                    active: self.active.with_trial(
                        i,
                        ParamTrial { slot: (self.values.len() + 1) as i32, ..t },
                    ),
                    values: self.values.push(
                        InputValue {
                            vn: s.vn(),
                            size: t.size,
                            type_: Some(store::unknown_of(t.size)),
                        },
                    ),
                },
                s.new_varnode(t.size, t.addr).then_do(Edit::SetInputVarnode { vn: s.vn() }),
            )
        }
    }

    /// The first `n` trials given values.
    pub open spec fn all_placed(self, s: ScriptView, n: int, taken: Seq<bool>) -> (
        TrialsView,
        ScriptView,
    )
        decreases n,
    {
        if n <= 0 {
            (self, s)
        } else {
            let (t, s1) = self.all_placed(s, n - 1, taken);
            t.placed(s1, n - 1, n - 1 < taken.len() && taken[n - 1])
        }
    }
}

impl ProtoView {
    /// Without inputs, unless they are locked.
    pub open spec fn inputs_cleared(self) -> ProtoView {
        if self.input_locked() {
            self
        } else {
            match self.store {
                Some(s) => ProtoView { store: Some(s.without_inputs()), ..self },
                None => self,
            }
        }
    }

    /// Can the inputs be recovered: there is a model and a place for them, and
    /// they are not locked.
    pub open spec fn inputs_open(self) -> bool {
        self.model is Some && self.store is Some && !self.input_locked()
    }

    /// Trials for the first `n` values that can be inputs.
    pub open spec fn gathered(
        self,
        g: GraphView,
        inputs: Seq<VarnodeId>,
        n: int,
        gap: bool,
    ) -> TrialsView
        decreases n,
    {
        if n <= 0 || n > inputs.len() {
            TrialsView {
                active: ActiveView { own_input_gap: gap, ..active::empty_active(false) },
                values: Seq::empty(),
            }
        } else {
            let t = self.gathered(g, inputs, n - 1, gap);
            match g.vn(inputs[n - 1]) {
                Some(v) => if self.input_possible(v.addr, v.size as int) {
                    t.taking(inputs[n - 1], v)
                } else {
                    t
                },
                None => t,
            }
        }
    }

    /// With the model that fits the trials, if one does.
    pub open spec fn resolved_for(self, a: ActiveView) -> ProtoView {
        match callspec::resolved_proto(self, a) {
            Ok(p) => p,
            Err(_) => self,
        }
    }

    /// The trials that the model decided on, or as they were if it cannot.
    pub open spec fn inputs_weighed(self, t: TrialsView) -> TrialsView {
        match decide::decided(self.model_view().ins(), t.active) {
            Ok(a) => TrialsView { active: a, ..t },
            Err(_) => t,
        }
    }

    /// The trials of a function whose inputs are open, decided on.
    pub open spec fn input_trials(
        self,
        g: GraphView,
        inputs: Seq<VarnodeId>,
        gap: bool,
    ) -> TrialsView {
        let t = self.gathered(g, inputs, inputs.len() as int, gap);
        self.resolved_for(t.active).inputs_weighed(t)
    }

    /// The prototype once the trials are decided on.
    pub open spec fn inputs_resolved(
        self,
        g: GraphView,
        inputs: Seq<VarnodeId>,
        gap: bool,
    ) -> ProtoView {
        self.resolved_for(self.gathered(g, inputs, inputs.len() as int, gap).active)
    }

    /// The model can be asked about the inputs.
    pub open spec fn inputs_askable(self, g: GraphView, inputs: Seq<VarnodeId>, gap: bool) -> bool {
        let p = self.inputs_resolved(g, inputs, gap);
        let l = p.model_view().ins();
        &&& self.has_inputs()
        &&& self.model matches Some(m) ==> (m.merged matches Some(g) ==> merge::all_scorable(
            g.modellist@,
        ))
        &&& p.has_inputs()
        &&& l.kind == crate::paramlist::ParamListKind::Standard && l.entry.len() > 0
            ==> l.decidable()
    }
}

/// Trials for the values that can be inputs.
fn gather(fp: &FuncProto, g: &Graph, inputs: &Vec<VarnodeId>, gap: bool) -> (r: InputTrials)
    requires
        fp@.wf(),
        fp@.has_inputs(),
        inputs@.len() < i32::MAX,
    ensures
        r@ == fp@.gathered(g@, inputs@, inputs@.len() as int, gap),
        forall|k: int| 0 <= k < r@.active.trial.len() ==> (#[trigger] r@.active.trial[k]).entry is None,
{
    let mut active = ParamActive::new(false);
    active.set_own_input_gap(gap);
    let mut values: Vec<InputValue> = Vec::new();
    assert(values@ =~= Seq::empty());
    let mut i: usize = 0;
    while i < inputs.len()
        invariant
            i <= inputs.len(),
            inputs@.len() < i32::MAX,
            fp@.wf(),
            fp@.has_inputs(),
            active@.trial.len() <= i,
            (TrialsView { active: active@, values: values@ }) == fp@.gathered(
                g@,
                inputs@,
                i as int,
                gap,
            ),
            forall|k: int| 0 <= k < active@.trial.len() ==> (#[trigger] active@.trial[k]).entry is None,
        decreases inputs.len() - i,
    {
        let vn = inputs[i];
        match g.get_vn(vn) {
            Some(v) => {
                if fp.possible_input_param(&v.addr, v.size) {
                    let slot: i32 = active.get_num_trials();
                    active.register_trial(&v.addr, v.size);
                    if v.readers > 0 {
                        let mut t = *active.get_trial(slot);
                        t.mark_active();
                        active.put_trial(slot as usize, t);
                    }
                    values.push(InputValue { vn, size: v.size, type_: v.type_ });
                }
            },
            None => {},
        }
        i += 1;
    }
    InputTrials { active, values }
}

impl ActionInputPrototype {
    /// Clear the inputs of a prototype, unless they are locked, and where they
    /// can be recovered, find which of the values that the function takes in
    /// are parameters.
    pub fn prepare(
        &mut self,
        fp: &mut FuncProto,
        g: &Graph,
        inputs: &Vec<VarnodeId>,
        gap: bool,
    ) -> (r: Option<InputTrials>)
        requires
            old(fp)@.wf(),
            inputs@.len() < i32::MAX,
            old(fp)@.inputs_cleared().inputs_open() ==> old(fp)@.inputs_cleared().inputs_askable(
                g@,
                inputs@,
                gap,
            ),
        ensures
            *final(self) == *old(self),
            final(fp)@.wf(),
            ({
                let p = old(fp)@.inputs_cleared();
                if p.inputs_open() {
                    &&& r matches Some(t) && t@ == p.input_trials(g@, inputs@, gap)
                    &&& final(fp)@ == p.inputs_resolved(g@, inputs@, gap)
                } else {
                    r is None && final(fp)@ == p
                }
            }),
    {
        fp.clear_unlocked_input();
        let ghost p = fp@;
        if !fp.has_model() || !fp.has_store() || fp.is_input_locked() {
            return None;
        }
        let mut t = gather(fp, g, inputs, gap);
        let _chosen = fp.resolve_model(&t.active);
        assert(fp@ == p.resolved_for(t@.active));
        let _derived = fp.derive_input_map(&mut t.active);
        Some(t)
    }

    /// Give the `i`-th trial a value if the function does not refer to it:
    /// a new input, unless `taken` says that another one is there.
    pub fn place(t: &mut InputTrials, s: &mut Script, i: usize, taken: bool)
        requires
            i < old(t)@.active.trial.len(),
            old(t)@.values.len() < i32::MAX,
        ensures
            (final(t)@, final(s)@) == old(t)@.placed(old(s)@, i as int, taken),
    {
        let trial = t.active.trial[i];
        assert(trial == t@.active.trial[i as int]);
        if !trial.is_unref() || !trial.is_used() {
            return;
        }
        if taken {
            let mut x = trial;
            x.mark_no_use();
            t.active.put_trial(i, x);
        } else {
            let vn = s.new_varnode(trial.size, trial.addr);
            s.push(Edit::SetInputVarnode { vn });
            let slot: i32 = t.values.len() as i32;
            t.values.push(
                InputValue {
                    vn,
                    size: trial.size,
                    type_: Some(Datatype::new(trial.size, TypeMetatype::Unknown)),
                },
            );
            let mut x = trial;
            x.set_slot(slot + 1);
            t.active.put_trial(i, x);
        }
    }

    /// Set the parameters from the trials; `typed` says whether the types of
    /// values are known.
    pub fn finish(fp: &mut FuncProto, t: &InputTrials, s: &mut Script, typed: bool)
        requires
            old(fp)@.wf(),
            old(fp)@.store is Some,
            old(fp)@.model is Some,
            t@.active.trial.len() < i32::MAX,
            valued(t@.active.trial, t@.values.len()),
        ensures
            final(fp)@ == old(fp)@.inputs_updated(t@.active.trial, t@.values, typed),
            final(s)@ == old(s)@.then_do(Edit::ClearDeadVarnodes),
    {
        if typed {
            update_input_types(fp, &t.values, &t.active);
        } else {
            update_input_no_types(fp, &t.values, &t.active);
        }
        s.push(Edit::ClearDeadVarnodes);
    }
}

/// Placing values keeps the number of trials, and adds at most one value each.
proof fn lemma_placed_len(t: TrialsView, s: ScriptView, n: int, taken: Seq<bool>)
    requires
        n <= t.active.trial.len(),
    ensures
        t.all_placed(s, n, taken).0.active.trial.len() == t.active.trial.len(),
        n >= 0 ==> t.all_placed(s, n, taken).0.values.len() <= t.values.len() + n,
        t.all_placed(s, n, taken).0.values.len() >= t.values.len(),
    decreases n,
{
    if n > 0 {
        lemma_placed_len(t, s, n - 1, taken);
    }
}

impl ProtoView {
    /// The trials of a function whose inputs are open, each with a value, and
    /// the changes.
    pub open spec fn input_values(
        self,
        g: GraphView,
        s: ScriptView,
        inputs: Seq<VarnodeId>,
        gap: bool,
        taken: Seq<bool>,
    ) -> (TrialsView, ScriptView) {
        let t = self.input_trials(g, inputs, gap);
        t.all_placed(s, t.active.trial.len() as int, taken)
    }

    /// The prototype with its inputs recovered, and the changes.
    pub open spec fn inputs_recovered(
        self,
        g: GraphView,
        s: ScriptView,
        inputs: Seq<VarnodeId>,
        gap: bool,
        taken: Seq<bool>,
        typed: bool,
    ) -> (ProtoView, ScriptView) {
        let p = self.inputs_cleared();
        if p.inputs_open() {
            let (t, s1) = p.input_values(g, s, inputs, gap, taken);
            (
                p.inputs_resolved(g, inputs, gap).inputs_updated(
                    t.active.trial,
                    t.values,
                    typed,
                ),
                s1.then_do(Edit::ClearDeadVarnodes),
            )
        } else {
            (p, s.then_do(Edit::ClearDeadVarnodes))
        }
    }
}

/// Each trial has the value at its slot, or stands for storage without one.
spec fn slotted(t: TrialsView) -> bool {
    forall|k: int|
        0 <= k < t.active.trial.len() ==> (#[trigger] t.active.trial[k]).flags.unref
            || 1 <= t.active.trial[k].slot <= t.values.len()
}

proof fn lemma_gathered_slots(
    p: ProtoView,
    g: GraphView,
    inputs: Seq<VarnodeId>,
    n: int,
    gap: bool,
)
    requires
        n <= inputs.len() < i32::MAX,
    ensures
        ({
            let t = p.gathered(g, inputs, n, gap);
            &&& t.values.len() == t.active.trial.len()
            &&& t.values.len() <= (if n < 0 {
                0
            } else {
                n
            })
            &&& t.active.slotbase == t.values.len() + 1
            &&& slotted(t)
        }),
    decreases n,
{
    if n > 0 {
        lemma_gathered_slots(p, g, inputs, n - 1, gap);
    }
}

proof fn lemma_weighed_slots(p: ProtoView, t: TrialsView)
    requires
        slotted(t),
    ensures
        slotted(p.inputs_weighed(t)),
{
    let l = p.model_view().ins();
    if decide::decided(l, t.active) is Ok {
        verdict::law_trials_accounted(l, t.active);
        reveal(verdict::all_come_from);
        let out = decide::decided(l, t.active)->Ok_0.trial;
        assert forall|k: int| 0 <= k < out.len() && !(#[trigger] out[k]).flags.unref implies 1
            <= out[k].slot <= t.values.len() by {
            assert(verdict::comes_from(true, t.active.trial, out[k]));
            let i = choose|i: int|
                0 <= i < t.active.trial.len() && verdict::moved(
                    true,
                    #[trigger] t.active.trial[i],
                    out[k],
                );
            assert(!t.active.trial[i].flags.unref);
        }
    }
}

proof fn lemma_placed_valued(t: TrialsView, s: ScriptView, n: int, taken: Seq<bool>)
    requires
        0 <= n <= t.active.trial.len(),
        slotted(t),
        t.values.len() + t.active.trial.len() < i32::MAX,
    ensures
        ({
            let u = t.all_placed(s, n, taken).0;
            &&& u.active.trial.len() == t.active.trial.len()
            &&& forall|k: int|
                0 <= k < n && (#[trigger] u.active.trial[k]).flags.used ==> 1
                    <= u.active.trial[k].slot <= u.values.len()
            &&& forall|k: int|
                n <= k < u.active.trial.len() ==> #[trigger] u.active.trial[k] == t.active.trial[k]
        }),
    decreases n,
{
    lemma_placed_len(t, s, n, taken);
    if n > 0 {
        lemma_placed_valued(t, s, n - 1, taken);
        lemma_placed_len(t, s, n - 1, taken);
    }
}

/// Every trial that becomes a parameter has a value: one that the function
/// takes in, or a new one put in its place.
pub proof fn law_parameters_valued(
    p: ProtoView,
    g: GraphView,
    s: ScriptView,
    inputs: Seq<VarnodeId>,
    gap: bool,
    taken: Seq<bool>,
)
    requires
        inputs.len() < i32::MAX,
        p.input_trials(g, inputs, gap).values.len() + p.input_trials(
            g,
            inputs,
            gap,
        ).active.trial.len() < i32::MAX,
    ensures
        valued(
            p.input_values(g, s, inputs, gap, taken).0.active.trial,
            p.input_values(g, s, inputs, gap, taken).0.values.len(),
        ),
{
    let t0 = p.gathered(g, inputs, inputs.len() as int, gap);
    let t = p.input_trials(g, inputs, gap);
    lemma_gathered_slots(p, g, inputs, inputs.len() as int, gap);
    lemma_weighed_slots(p.resolved_for(t0.active), t0);
    lemma_placed_valued(t, s, t.active.trial.len() as int, taken);
}

impl ActionInputPrototype {
    /// Recover the parameters of a function. `inputs` are the values that it
    /// takes in, `taken` says for each trial whether another input is there,
    /// `typed` whether the types of values are known.
    pub fn apply(
        &mut self,
        fp: &mut FuncProto,
        g: &Graph,
        s: &mut Script,
        inputs: &Vec<VarnodeId>,
        gap: bool,
        taken: &Vec<bool>,
        typed: bool,
    ) -> (r: i32)
        requires
            old(fp)@.wf(),
            inputs@.len() < i32::MAX,
            old(fp)@.inputs_cleared().inputs_open() ==> {
                let p = old(fp)@.inputs_cleared();
                let t = p.input_trials(g@, inputs@, gap);
                &&& p.inputs_askable(g@, inputs@, gap)
                &&& t.values.len() + t.active.trial.len() < i32::MAX
            },
        ensures
            r == 0,
            *final(self) == *old(self),
            (final(fp)@, final(s)@) == old(fp)@.inputs_recovered(
                g@,
                old(s)@,
                inputs@,
                gap,
                taken@,
                typed,
            ),
    {
        let ghost p = fp@.inputs_cleared();
        let ghost s0 = s@;
        match self.prepare(fp, g, inputs, gap) {
            None => {
                s.push(Edit::ClearDeadVarnodes);
            },
            Some(t) => {
                let mut t = t;
                let ghost t0 = t@;
                let n: usize = t.active.trial.len();
                let mut i: usize = 0;
                while i < n
                    invariant
                        i <= n,
                        n == t0.active.trial.len(),
                        t0.values.len() + n < i32::MAX,
                        t@.active.trial.len() == n,
                        (t@, s@) == t0.all_placed(s0, i as int, taken@),
                    decreases n - i,
                {
                    proof {
                        lemma_placed_len(t0, s0, i as int, taken@);
                        lemma_placed_len(t0, s0, i + 1, taken@);
                    }
                    let there = i < taken.len() && taken[i];
                    ActionInputPrototype::place(&mut t, s, i, there);
                    i += 1;
                }
                proof {
                    law_parameters_valued(p, g@, s0, inputs@, gap, taken@);
                }
                ActionInputPrototype::finish(fp, &t, s, typed);
            },
        }
        0
    }
}

impl ActionRestrictLocal {
    /// Find anew which ranges hold no local variable.
    pub fn apply(&mut self, s: &mut Script) -> (r: i32)
        ensures
            r == 0,
            *final(self) == *old(self),
            final(s)@ == old(s)@.then_do(Edit::RestrictLocal),
    {
        s.push(Edit::RestrictLocal);
        0
    }
}

impl ActionParamDouble {
    /// Leaves the arguments of calls as they are.
    pub fn apply(&mut self, s: &mut Script) -> (r: i32)
        ensures
            r == 0,
            *final(self) == *old(self),
            final(s)@ == old(s)@,
    {
        0
    }
}

impl ActionPrototypeWarnings {
    /// Has nothing to warn of.
    pub fn apply(&mut self, s: &mut Script) -> (r: i32)
        ensures
            r == 0,
            *final(self) == *old(self),
            final(s)@ == old(s)@,
    {
        0
    }
}

/// Every value is at most one parameter.
pub proof fn law_values_once(trials: Seq<ParamTrial>, vals: Seq<InputValue>, n: int, j: int, k: int)
    requires
        0 <= j < k < chosen(trials, vals, n).len(),
    ensures
        chosen(trials, vals, n)[j].1.vn != chosen(trials, vals, n)[k].1.vn,
    decreases n,
{
    let before = chosen(trials, vals, n - 1);
    if k < before.len() {
        law_values_once(trials, vals, n - 1, j, k);
        assert(chosen(trials, vals, n)[j] == before[j]);
        assert(chosen(trials, vals, n)[k] == before[k]);
    } else {
        assert(chosen(trials, vals, n)[j] == before[j]);
        assert(!is_chosen(before, chosen(trials, vals, n)[k].1.vn));
    }
}

/// Locked inputs stay as they are.
pub proof fn law_locked_inputs_stay(
    p: ProtoView,
    g: GraphView,
    s: ScriptView,
    inputs: Seq<VarnodeId>,
    gap: bool,
    taken: Seq<bool>,
    typed: bool,
)
    requires
        p.input_locked(),
    ensures
        p.inputs_recovered(g, s, inputs, gap, taken, typed) == (
            p,
            s.then_do(Edit::ClearDeadVarnodes),
        ),
{
}

} // verus!
