//! The decisions over mapped trials: which trials exclude each other, where a
//! run of unused slots ends the parameter list, and which trials are the
//! parameters or the return value.
use crate::active::{ActiveView, ParamActive};
use crate::dtype::TypeClass;
use crate::entry::EntryView;
use crate::fillin;
use crate::paramlist::{ListView, ParamListStandard};
use crate::space::SpaceType;
use crate::trial;
use crate::trial::ParamTrial;
use vstd::prelude::*;

verus! {

/// The trials with those from `i` on ruled out that share a group with the
/// trial `a`, up to the first open trial that does not.
pub open spec fn group_ruled_out(l: ListView, s: Seq<ParamTrial>, a: int, i: int) -> Seq<ParamTrial>
    decreases s.len() - i,
{
    if i < 0 || i >= s.len() {
        s
    } else if i == a || s[i].flags.defnouse {
        group_ruled_out(l, s, a, i + 1)
    } else {
        match (s[i].entry, s[a].entry) {
            (Some(x), Some(y)) => if l.entry[x as int].shares_group(l.entry[y as int]) {
                group_ruled_out(l, s.update(i, s[i].with_no_use()), a, i + 1)
            } else {
                s
            },
            _ => s,
        }
    }
}

/// How likely an inactive trial is to be a parameter.
pub open spec fn inactive_score(t: ParamTrial, e: EntryView, pref: TypeClass) -> int {
    (if t.flags.ancestor_realistic {
        if t.flags.ancestor_solid {
            10int
        } else {
            5int
        }
    } else {
        0int
    }) + (if e.type_ == pref {
        1int
    } else {
        0int
    })
}

/// The best of the open trials of `group` from `i` on, the first of several,
/// against the best so far; trials over several groups are passed over.
pub open spec fn best_inactive(
    l: ListView,
    s: Seq<ParamTrial>,
    group: int,
    pref: TypeClass,
    i: int,
    best: Option<int>,
    score: int,
) -> Option<int>
    decreases s.len() - i,
{
    if i < 0 || i >= s.len() {
        best
    } else if s[i].flags.defnouse {
        best_inactive(l, s, group, pref, i + 1, best, score)
    } else {
        match s[i].entry {
            None => best,
            Some(x) => {
                let e = l.entry[x as int];
                if e.group() != group {
                    best
                } else if e.group_set.len() > 1 {
                    best_inactive(l, s, group, pref, i + 1, best, score)
                } else if inactive_score(s[i], e, pref) > score {
                    best_inactive(
                        l,
                        s,
                        group,
                        pref,
                        i + 1,
                        Some(i),
                        inactive_score(s[i], e, pref),
                    )
                } else {
                    best_inactive(l, s, group, pref, i + 1, best, score)
                }
            },
        }
    }
}

/// The trials with all but the best inactive one of the group ruled out.
pub open spec fn best_kept(l: ListView, s: Seq<ParamTrial>, group: int, start: int) -> Seq<ParamTrial> {
    match best_inactive(l, s, group, TypeClass::General, start, None, -1) {
        Some(b) => group_ruled_out(l, s, b, start),
        None => s,
    }
}

/// Exclusion applied from trial `i` on: in each exclusive group an active
/// trial rules the others out, and of several inactive ones the best stays.
/// `group` is the current group, which starts at `start` and has `inactive`
/// inactive trials so far.
pub open spec fn exclusion_from(
    l: ListView,
    s: Seq<ParamTrial>,
    i: int,
    group: int,
    start: int,
    inactive: int,
) -> Seq<ParamTrial>
    decreases s.len() - i, 1int,
    via exclusion_from_decreases
{
    if i < 0 || i >= s.len() {
        if inactive > 1 {
            best_kept(l, s, group, start)
        } else {
            s
        }
    } else {
        match s[i].entry {
            Some(x) => {
                let e = l.entry[x as int];
                if s[i].flags.defnouse || !e.exclusion() {
                    exclusion_from(l, s, i + 1, group, start, inactive)
                } else {
                    let fresh = e.group() != group;
                    let s1 = if fresh && inactive > 1 {
                        best_kept(l, s, group, start)
                    } else {
                        s
                    };
                    let start1 = if fresh {
                        i
                    } else {
                        start
                    };
                    let inactive1 = if fresh {
                        0
                    } else {
                        inactive
                    };
                    if s[i].flags.active {
                        exclusion_from(
                            l,
                            group_ruled_out(l, s1, i, start1),
                            i + 1,
                            e.group(),
                            start1,
                            inactive1,
                        )
                    } else {
                        exclusion_from(l, s1, i + 1, e.group(), start1, inactive1 + 1)
                    }
                }
            },
            None => exclusion_from(l, s, i + 1, group, start, inactive),
        }
    }
}

#[via_fn]
proof fn exclusion_from_decreases(
    l: ListView,
    s: Seq<ParamTrial>,
    i: int,
    group: int,
    start: int,
    inactive: int,
) {
    lemma_ruled_out(l, s, i, start);
    lemma_ruled_out(l, s, i, i);
    lemma_best_kept(l, s, group, start);
    let s1 = best_kept(l, s, group, start);
    lemma_ruled_out(l, s1, i, i);
}

/// Ruling out keeps the number of trials and their entries.
pub(crate) proof fn lemma_ruled_out(l: ListView, s: Seq<ParamTrial>, a: int, i: int)
    ensures
        group_ruled_out(l, s, a, i).len() == s.len(),
        forall|k: int|
            0 <= k < s.len() ==> (#[trigger] group_ruled_out(l, s, a, i)[k]) == s[k]
                || group_ruled_out(l, s, a, i)[k] == s[k].with_no_use(),
    decreases s.len() - i,
{
    if 0 <= i < s.len() {
        if i == a || s[i].flags.defnouse {
            lemma_ruled_out(l, s, a, i + 1);
        } else {
            lemma_ruled_out(l, s.update(i, s[i].with_no_use()), a, i + 1);
        }
    }
}

pub(crate) proof fn lemma_best_kept(l: ListView, s: Seq<ParamTrial>, group: int, start: int)
    ensures
        best_kept(l, s, group, start).len() == s.len(),
        forall|k: int|
            0 <= k < s.len() ==> (#[trigger] best_kept(l, s, group, start)[k]) == s[k]
                || best_kept(l, s, group, start)[k] == s[k].with_no_use(),
{
    match best_inactive(l, s, group, TypeClass::General, start, None, -1) {
        Some(b) => lemma_ruled_out(l, s, b, start),
        None => {},
    }
}

/// Exclusion applied to all trials.
pub open spec fn exclusion(l: ListView, s: Seq<ParamTrial>) -> Seq<ParamTrial> {
    exclusion_from(l, s, 0, -1, -1, 0)
}

/// Where the sections start that begin from trial `i` on, `next` being the
/// boundary that ends the current one.
pub open spec fn section_starts(l: ListView, s: Seq<ParamTrial>, i: int, next: int) -> Seq<int>
    decreases s.len() - i,
{
    if i < 0 || i >= s.len() {
        seq![s.len() as int]
    } else {
        match s[i].entry {
            Some(x) => if l.entry[x as int].group() >= l.resource_start[next] {
                seq![i] + section_starts(l, s, i + 1, next + 1)
            } else {
                section_starts(l, s, i + 1, next)
            },
            None => section_starts(l, s, i + 1, next),
        }
    }
}

/// A run of trials scored together, and the group that it starts from.
#[derive(Debug, Clone, Copy, PartialEq, Eq, Structural)]
pub struct Section {
    pub start: usize,
    pub stop: usize,
    pub group: i32,
}

/// The trial lies on the stack.
pub open spec fn on_stack(t: ParamTrial) -> bool {
    t.addr.space matches Some(s) && s.type_ == SpaceType::Spacebase
}

pub fn is_on_stack(t: &ParamTrial) -> (r: bool)
    ensures
        r == on_stack(*t),
{
    match t.addr.space {
        Some(s) => s.type_ == SpaceType::Spacebase,
        None => false,
    }
}

/// The first trial from `i` on, before `stop`, that lies on the stack.
pub open spec fn first_on_stack(s: Seq<ParamTrial>, i: int, stop: int) -> int
    decreases stop - i,
{
    if i >= stop || i < 0 || i >= s.len() || on_stack(s[i]) {
        i
    } else {
        first_on_stack(s, i + 1, stop)
    }
}

/// Where the stack tail of a section starts, if it has both a register part
/// and a stack part.
pub open spec fn stack_cut(s: Seq<ParamTrial>, start: int, stop: int) -> Option<int> {
    let c = first_on_stack(s, start, stop);
    if start < c < stop {
        Some(c)
    } else {
        None
    }
}

/// The group of the slot that the trial ends in, 0 without an entry.
pub open spec fn slot_or_zero(l: ListView, t: ParamTrial) -> i32 {
    if t.entry is Some {
        t.group_slot(l.entry)
    } else {
        0
    }
}

/// The section from `start` to `stop`, its stack tail apart if `split`.
pub open spec fn cut_section(
    l: ListView,
    s: Seq<ParamTrial>,
    split: bool,
    start: int,
    stop: int,
    group: i32,
) -> Seq<Section> {
    match stack_cut(s, start, stop) {
        Some(c) => if split {
            seq![
                Section { start: start as usize, stop: c as usize, group },
                Section { start: c as usize, stop: stop as usize, group: slot_or_zero(l, s[c]) },
            ]
        } else {
            seq![Section { start: start as usize, stop: stop as usize, group }]
        },
        None => seq![Section { start: start as usize, stop: stop as usize, group }],
    }
}

/// The first `n` of the sections that start at `starts`.
pub open spec fn sections_of(
    l: ListView,
    s: Seq<ParamTrial>,
    split: bool,
    starts: Seq<int>,
    n: int,
) -> Seq<Section>
    decreases n,
{
    if n <= 0 {
        Seq::empty()
    } else {
        sections_of(l, s, split, starts, n - 1) + cut_section(
            l,
            s,
            split,
            starts[n - 1],
            starts[n],
            l.resource_start[n - 1],
        )
    }
}

/// All sections of the trials.
pub open spec fn sections(l: ListView, s: Seq<ParamTrial>, split: bool) -> Seq<Section> {
    let starts = seq![0int] + section_starts(l, s, 0, 1);
    sections_of(l, s, split, starts, starts.len() - 1)
}

/// The trials from `i` to `stop` once a group without any possible trial has
/// been seen: all behind it are inactive. `seen` tells whether one has been,
/// `group` is the current group, `none` whether all its trials so far are
/// ruled out.
pub open spec fn no_use_from(
    l: ListView,
    s: Seq<ParamTrial>,
    i: int,
    stop: int,
    seen: bool,
    group: int,
    none: bool,
) -> Seq<ParamTrial>
    decreases stop - i,
{
    if i >= stop || i < 0 || i >= s.len() {
        s
    } else {
        match s[i].entry {
            None => no_use_from(l, s, i + 1, stop, seen, group, none),
            Some(x) => {
                let e = l.entry[x as int];
                let same = e.group() <= group && e.exclusion();
                let seen1 = seen || (!same && none);
                let none1 = s[i].flags.defnouse && (none || !same);
                let group1 = if same {
                    group
                } else {
                    e.group()
                };
                let s1 = if seen1 {
                    s.update(i, s[i].with_inactive())
                } else {
                    s
                };
                no_use_from(l, s1, i + 1, stop, seen1, group1, none1)
            },
        }
    }
}

/// In a function's own input recovery, a register that its body reads is not
/// given up because registers before it are unused.
pub open spec fn protected(gap: bool, t: ParamTrial) -> bool {
    gap && t.flags.active && t.entry is Some && !on_stack(t)
}

/// A chain of unused slots, as it is being followed.
#[verifier::ext_equal]
pub struct ChainState {
    pub trials: Seq<ParamTrial>,
    pub seen: bool,
    pub length: int,
    pub last: int,
}

/// One trial of a section: an inactive trial lengthens the chain, by the slots
/// since the trial before it, an active one ends it. Once the chain is longer
/// than `maxchain`, or an unreferenced stack slot of a call is met, trials are
/// inactive. `last` is the last trial that counts as active.
pub open spec fn chain_step(
    l: ListView,
    a: ActiveView,
    maxchain: int,
    start: int,
    group: int,
    i: int,
    c: ChainState,
) -> ChainState {
    let t = c.trials[i];
    let keep = protected(a.own_input_gap, t);
    if t.flags.defnouse {
        c
    } else {
        let slots = if i == start {
            slot_or_zero(l, t) - group + 1
        } else {
            slot_or_zero(l, t) - slot_or_zero(l, c.trials[i - 1])
        };
        let length = if t.flags.active {
            0
        } else {
            c.length + slots
        };
        let seen = c.seen || (!t.flags.active && ((t.flags.unref && a.recoversubcall && on_stack(t))
            || length > maxchain));
        ChainState {
            trials: if seen && !keep {
                c.trials.update(i, t.with_inactive())
            } else {
                c.trials
            },
            seen,
            length,
            last: if t.flags.active && (!c.seen || keep) {
                i
            } else {
                c.last
            },
        }
    }
}

/// The chain followed from trial `i` to `stop`.
pub open spec fn chain_from(
    l: ListView,
    a: ActiveView,
    maxchain: int,
    start: int,
    group: int,
    i: int,
    stop: int,
    c: ChainState,
) -> ChainState
    decreases stop - i,
{
    if i >= stop {
        c
    } else {
        chain_from(
            l,
            a,
            maxchain,
            start,
            group,
            i + 1,
            stop,
            chain_step(l, a, maxchain, start, group, i, c),
        )
    }
}

/// The trials with the open ones from `i` to `last` active.
pub open spec fn activated(s: Seq<ParamTrial>, i: int, last: int) -> Seq<ParamTrial> {
    Seq::new(
        s.len(),
        |k: int|
            if i <= k <= last && !s[k].flags.defnouse && !s[k].flags.active {
                s[k].with_active()
            } else {
                s[k]
            },
    )
}

/// A section after the rule on chains: everything up to the last trial that
/// counts as active is active.
pub open spec fn chained(l: ListView, a: ActiveView, maxchain: int, sec: Section) -> ActiveView {
    let c = chain_from(
        l,
        a,
        maxchain,
        sec.start as int,
        sec.group as int,
        sec.start as int,
        sec.stop as int,
        ChainState { trials: a.trial, seen: false, length: 0, last: -1 },
    );
    ActiveView { trial: activated(c.trials, sec.start as int, c.last), ..a }
}

/// The first `n` sections after the rule on groups without a possible trial.
pub open spec fn no_use_sections(
    l: ListView,
    s: Seq<ParamTrial>,
    secs: Seq<Section>,
    n: int,
) -> Seq<ParamTrial>
    decreases n,
{
    if n <= 0 || n > secs.len() {
        s
    } else {
        no_use_from(
            l,
            no_use_sections(l, s, secs, n - 1),
            secs[n - 1].start as int,
            secs[n - 1].stop as int,
            false,
            -1,
            false,
        )
    }
}

/// The first `n` sections after the rule on chains.
pub open spec fn chain_sections(l: ListView, a: ActiveView, secs: Seq<Section>, n: int) -> ActiveView
    decreases n,
{
    if n <= 0 || n > secs.len() {
        a
    } else {
        chained(l, chain_sections(l, a, secs, n - 1), 2, secs[n - 1])
    }
}

/// The active trials used.
pub open spec fn active_used(s: Seq<ParamTrial>) -> Seq<ParamTrial> {
    s.map_values(
        |t: ParamTrial|
            if t.flags.active {
                t.with_used()
            } else {
                t
            },
    )
}

/// The trials of a standard input list decided.
pub open spec fn standard_fillin(l: ListView, a: ActiveView) -> ActiveView {
    let mapped = fillin::trial_map(l, a);
    let excluded = exclusion(l, mapped.trial);
    let secs = sections(l, excluded, a.vararg_stack_split);
    let bounded = ActiveView {
        trial: no_use_sections(l, excluded, secs, secs.len() as int),
        ..mapped
    };
    let chains = chain_sections(l, bounded, secs, secs.len() as int);
    ActiveView { trial: active_used(chains.trial), ..chains }
}

/// A chain of unused slots, without the trials that it runs over.
struct Chain {
    seen: bool,
    length: i128,
    last: Option<usize>,
}

impl Chain {
    spec fn with(self, s: Seq<ParamTrial>) -> ChainState {
        ChainState {
            trials: s,
            seen: self.seen,
            length: self.length as int,
            last: match self.last {
                Some(m) => m as int,
                None => -1,
            },
        }
    }
}

/// Following a chain depends on the state of the analysis, not on its trials.
proof fn lemma_chain_step_same(
    l: ListView,
    a: ActiveView,
    b: ActiveView,
    maxchain: int,
    start: int,
    group: int,
    i: int,
    c: ChainState,
)
    requires
        a.own_input_gap == b.own_input_gap,
        a.recoversubcall == b.recoversubcall,
    ensures
        chain_step(l, a, maxchain, start, group, i, c) == chain_step(
            l,
            b,
            maxchain,
            start,
            group,
            i,
            c,
        ),
{
}

impl ListView {
    /// The model can decide trials: the entries have been declared, and the
    /// sections are complete.
    pub open spec fn decidable(self) -> bool {
        self.mappable() && self.sections_ok()
    }
}

impl ParamListStandard {
    /// Rule out the trials from `trial_start` on that share a group with the
    /// trial `active_trial`.
    fn mark_group_no_use(&self, act: &mut ParamActive, active_trial: usize, trial_start: usize)
        requires
            self@.wf(),
            fillin::tied(self@, old(act)@.trial),
            active_trial < old(act)@.trial.len(),
        ensures
            final(act)@ == (ActiveView {
                trial: group_ruled_out(
                    self@,
                    old(act)@.trial,
                    active_trial as int,
                    trial_start as int,
                ),
                ..old(act)@
            }),
            fillin::tied(self@, final(act)@.trial),
    {
        let ghost l = self@;
        let ghost s0 = act@.trial;
        let ae = act.trial[active_trial].entry;
        assert(trial::entry_ok(s0[active_trial as int], l.entry.len()));
        let mut i: usize = trial_start;
        while i < act.trial.len()
            invariant
                l == self@,
                s0 == old(act)@.trial,
                self@.wf(),
                fillin::tied(l, act@.trial),
                act@.trial.len() == s0.len(),
                active_trial < s0.len(),
                act@.trial[active_trial as int] == s0[active_trial as int],
                ae == s0[active_trial as int].entry,
                trial::entry_ok(s0[active_trial as int], l.entry.len()),
                act@ == (ActiveView { trial: act@.trial, ..old(act)@ }),
                group_ruled_out(l, s0, active_trial as int, trial_start as int) == group_ruled_out(
                    l,
                    act@.trial,
                    active_trial as int,
                    i as int,
                ),
            decreases act.trial.len() - i,
        {
            let mut t = act.trial[i];
            assert(trial::entry_ok(act@.trial[i as int], l.entry.len()));
            if i != active_trial && !t.is_definitely_not_used() {
                match (t.entry, ae) {
                    (Some(x), Some(y)) => {
                        assert(l.entry[x as int] == self.entry@[x as int]@);
                        assert(l.entry[y as int] == self.entry@[y as int]@);
                        assert(l.entry[x as int].wf() && l.entry[y as int].wf());
                        if !self.entry[x].group_overlap(&self.entry[y]) {
                            return;
                        }
                    },
                    _ => return,
                }
                t.mark_no_use();
                act.trial.set(i, t);
            }
            i += 1;
        }
    }

    /// Of the inactive trials of `group` keep the best and rule out the others.
    fn mark_best_inactive(&self, act: &mut ParamActive, group: i32, group_start: usize)
        requires
            self@.wf(),
            fillin::tied(self@, old(act)@.trial),
        ensures
            final(act)@ == (ActiveView {
                trial: best_kept(self@, old(act)@.trial, group as int, group_start as int),
                ..old(act)@
            }),
            fillin::tied(self@, final(act)@.trial),
    {
        let ghost l = self@;
        let ghost s = act@.trial;
        let pref = TypeClass::General;
        let mut best: Option<usize> = None;
        let mut best_score: i32 = -1;
        let mut i: usize = group_start;
        let mut more = true;
        while more && i < act.trial.len()
            invariant
                l == self@,
                s == act@.trial,
                *act == *old(act),
                self@.wf(),
                fillin::tied(l, s),
                pref == TypeClass::General,
                best matches Some(b) ==> b < s.len(),
                ({
                    let b = match best {
                        Some(x) => Some(x as int),
                        None => None,
                    };
                    best_inactive(l, s, group as int, pref, group_start as int, None, -1) == (
                    if more {
                        best_inactive(l, s, group as int, pref, i as int, b, best_score as int)
                    } else {
                        b
                    })
                }),
            decreases act.trial.len() - i + (if more { 1int } else { 0int }),
        {
            let t = act.trial[i];
            assert(trial::entry_ok(s[i as int], l.entry.len()));
            if !t.is_definitely_not_used() {
                match t.entry {
                    None => {
                        more = false;
                    },
                    Some(x) => {
                        let e = &self.entry[x];
                        assert(l.entry[x as int] == e@);
                        assert(l.entry[x as int].wf());
                        if e.get_group() != group {
                            more = false;
                        } else if e.group_set.len() <= 1 {
                            let mut score: i32 = 0;
                            if t.has_ancestor_realistic() {
                                score += 5;
                                if t.has_ancestor_solid() {
                                    score += 5;
                                }
                            }
                            if e.type_ == pref {
                                score += 1;
                            }
                            if score > best_score {
                                best_score = score;
                                best = Some(i);
                            }
                        }
                    },
                }
            }
            if more {
                i += 1;
            }
        }
        if let Some(b) = best {
            self.mark_group_no_use(act, b, group_start);
        }
    }

    /// Apply exclusion to all trials.
    pub fn force_exclusion_group(&self, act: &mut ParamActive)
        requires
            self@.wf(),
            fillin::tied(self@, old(act)@.trial),
        ensures
            final(act)@ == (ActiveView {
                trial: exclusion(self@, old(act)@.trial),
                ..old(act)@
            }),
            fillin::tied(self@, final(act)@.trial),
            final(act)@.trial.len() == old(act)@.trial.len(),
    {
        let ghost l = self@;
        let ghost s0 = act@.trial;
        let mut cur_group: i32 = -1;
        let mut group_start: usize = 0;
        let mut inactive: usize = 0;
        let ghost mut start: int = -1;
        let mut i: usize = 0;
        while i < act.trial.len()
            invariant
                i <= act.trial.len(),
                l == self@,
                self@.wf(),
                fillin::tied(l, act@.trial),
                act@.trial.len() == s0.len(),
                inactive <= i,
                start == -1 ==> cur_group == -1 && inactive == 0,
                start != -1 ==> start == group_start && cur_group >= 0,
                act@ == (ActiveView { trial: act@.trial, ..old(act)@ }),
                exclusion(l, s0) == exclusion_from(
                    l,
                    act@.trial,
                    i as int,
                    cur_group as int,
                    start,
                    inactive as int,
                ),
            decreases act.trial.len() - i,
        {
            let t = act.trial[i];
            assert(trial::entry_ok(act@.trial[i as int], l.entry.len()));
            if let Some(x) = t.entry {
                let e = &self.entry[x];
                assert(l.entry[x as int] == e@);
                assert(l.entry[x as int].wf());
                if !t.is_definitely_not_used() && e.is_exclusion() {
                    let grp: i32 = e.get_group();
                    let ghost s = act@.trial;
                    if grp != cur_group {
                        if inactive > 1 {
                            self.mark_best_inactive(act, cur_group, group_start);
                            proof {
                                lemma_best_kept(l, s, cur_group as int, group_start as int);
                            }
                        }
                        cur_group = grp;
                        group_start = i;
                        inactive = 0;
                        proof {
                            start = i as int;
                        }
                    }
                    let ghost s1 = act@.trial;
                    if t.is_active() {
                        self.mark_group_no_use(act, i, group_start);
                        proof {
                            lemma_ruled_out(l, s1, i as int, group_start as int);
                        }
                    } else {
                        inactive += 1;
                    }
                }
            }
            i += 1;
        }
        if inactive > 1 {
            let ghost s = act@.trial;
            self.mark_best_inactive(act, cur_group, group_start);
            proof {
                lemma_best_kept(l, s, cur_group as int, group_start as int);
            }
        }
    }

    /// Where the sections of the trials start, and the number of trials.
    fn separate_sections(&self, act: &ParamActive) -> (r: Vec<usize>)
        requires
            self@.decidable(),
            fillin::tied(self@, act@.trial),
        ensures
            r@.len() >= 2,
            r@.len() <= self@.resource_start.len() + 1,
            r@.map_values(|x: usize| x as int) == seq![0int] + section_starts(
                self@,
                act@.trial,
                0,
                1,
            ),
            forall|k: int| 0 <= k < r@.len() ==> #[trigger] r@[k] <= act@.trial.len(),
    {
        let ghost l = self@;
        let ghost s = act@.trial;
        let mut starts: Vec<usize> = Vec::new();
        starts.push(0);
        let mut next: usize = 1;
        let mut i: usize = 0;
        assert(starts@.map_values(|x: usize| x as int) =~= seq![0int]);
        assert(starts@.map_values(|x: usize| x as int) + section_starts(l, s, 0, 1) =~= seq![0int]
            + section_starts(l, s, 0, 1));
        while i < act.trial.len()
            invariant
                i <= act.trial.len(),
                l == self@,
                s == act@.trial,
                self@.decidable(),
                fillin::tied(l, s),
                1 <= next < self.resource_start.len(),
                l.resource_start == self.resource_start@,
                starts@.len() == next,
                forall|k: int| 0 <= k < starts@.len() ==> #[trigger] starts@[k] <= s.len(),
                starts@.map_values(|x: usize| x as int) + section_starts(
                    l,
                    s,
                    i as int,
                    next as int,
                ) == seq![0int] + section_starts(l, s, 0, 1),
            decreases act.trial.len() - i,
        {
            let ghost before = starts@.map_values(|x: usize| x as int);
            let ghost rest = section_starts(l, s, i as int, next as int);
            assert(trial::entry_ok(s[i as int], l.entry.len()));
            if let Some(x) = act.trial[i].entry {
                let e = &self.entry[x];
                assert(l.entry[x as int] == e@);
                assert(l.entry[x as int].wf());
                assert(e@.group_set[0] <= e@.group_set.last());
                if e.get_group() >= self.resource_start[next] {
                    assert(next < self.resource_start.len() - 1);
                    next += 1;
                    starts.push(i);
                    assert(starts@.map_values(|x: usize| x as int) =~= before.push(i as int));
                    assert(before.push(i as int) + section_starts(l, s, i + 1, next as int)
                        =~= before + rest);
                }
            }
            i += 1;
        }
        let ghost before = starts@.map_values(|x: usize| x as int);
        starts.push(act.trial.len());
        assert(starts@.map_values(|x: usize| x as int) =~= before + seq![s.len() as int]);
        starts
    }

    /// The sections of the trials, stack tails apart at variadic calls.
    pub fn build_sections(&self, act: &ParamActive) -> (r: Vec<Section>)
        requires
            self@.decidable(),
            fillin::tied(self@, act@.trial),
        ensures
            r@ == sections(self@, act@.trial, act.vararg_stack_split),
            forall|k: int| 0 <= k < r@.len() ==> (#[trigger] r@[k]).stop <= act@.trial.len(),
    {
        let ghost l = self@;
        let ghost s = act@.trial;
        let starts = self.separate_sections(act);
        let ghost bounds = starts@.map_values(|x: usize| x as int);
        let mut out: Vec<Section> = Vec::new();
        let mut n: usize = 0;
        while n + 1 < starts.len()
            invariant
                n + 1 <= starts.len(),
                starts.len() <= l.resource_start.len() + 1,
                l == self@,
                s == act@.trial,
                self@.decidable(),
                fillin::tied(l, s),
                bounds == starts@.map_values(|x: usize| x as int),
                forall|k: int| 0 <= k < starts@.len() ==> #[trigger] starts@[k] <= s.len(),
                out@ == sections_of(l, s, act.vararg_stack_split, bounds, n as int),
                forall|k: int| 0 <= k < out@.len() ==> (#[trigger] out@[k]).stop <= s.len(),
            decreases starts.len() - n,
        {
            let start: usize = starts[n];
            let stop: usize = starts[n + 1];
            assert(bounds[n as int] == start && bounds[n + 1] == stop);
            let group: i32 = self.resource_start[n];
            let ghost before = out@;
            let mut done = false;
            if act.vararg_stack_split {
                if let Some(c) = self.stack_section_split(act, start, stop) {
                    out.push(Section { start, stop: c, group });
                    out.push(Section { start: c, stop, group: self.slot_group_or_zero(act, c) });
                    done = true;
                }
            }
            if !done {
                out.push(Section { start, stop, group });
            }
            assert(out@ =~= before + cut_section(
                l,
                s,
                act.vararg_stack_split,
                start as int,
                stop as int,
                group,
            ));
            n += 1;
        }
        out
    }

    /// Where the stack tail of a section starts.
    pub fn stack_section_split(&self, act: &ParamActive, start: usize, stop: usize) -> (r: Option<
        usize,
    >)
        requires
            stop <= act@.trial.len(),
        ensures
            match (r, stack_cut(act@.trial, start as int, stop as int)) {
                (Some(c), Some(k)) => c == k && start < c < stop,
                (None, None) => true,
                _ => false,
            },
    {
        let mut i: usize = start;
        while i < stop
            invariant
                start <= i,
                stop <= act@.trial.len(),
                i <= stop || start > stop,
                first_on_stack(act@.trial, start as int, stop as int) == first_on_stack(
                    act@.trial,
                    i as int,
                    stop as int,
                ),
            decreases stop - i,
        {
            if is_on_stack(&act.trial[i]) {
                if i > start {
                    return Some(i);
                } else {
                    return None;
                }
            }
            i += 1;
        }
        None
    }

    fn slot_group_or_zero(&self, act: &ParamActive, i: usize) -> (r: i32)
        requires
            self@.wf(),
            fillin::tied(self@, act@.trial),
            i < act@.trial.len(),
        ensures
            r == slot_or_zero(self@, act@.trial[i as int]),
    {
        let t = act.trial[i];
        assert(trial::entry_ok(act@.trial[i as int], self@.entry.len()));
        match t.entry {
            Some(x) => {
                assert(self@.entry[x as int] == self.entry@[x as int]@);
                assert(self@.entry[x as int].wf());
                t.slot_group(self.entry.as_slice())
            },
            None => 0,
        }
    }

    /// Make every trial of a section inactive that follows a group in which no
    /// trial is possible.
    pub fn force_no_use(&self, act: &mut ParamActive, start: usize, stop: usize)
        requires
            self@.wf(),
            fillin::tied(self@, old(act)@.trial),
            stop <= old(act)@.trial.len(),
        ensures
            final(act)@ == (ActiveView {
                trial: no_use_from(
                    self@,
                    old(act)@.trial,
                    start as int,
                    stop as int,
                    false,
                    -1,
                    false,
                ),
                ..old(act)@
            }),
            fillin::tied(self@, final(act)@.trial),
            final(act)@.trial.len() == old(act)@.trial.len(),
    {
        let ghost l = self@;
        let ghost s0 = act@.trial;
        let mut seen = false;
        let mut curgroup: i32 = -1;
        let mut alldefnouse = false;
        let mut i: usize = start;
        while i < stop
            invariant
                l == self@,
                self@.wf(),
                fillin::tied(l, act@.trial),
                act@.trial.len() == s0.len(),
                stop <= s0.len(),
                act@ == (ActiveView { trial: act@.trial, ..old(act)@ }),
                no_use_from(l, s0, start as int, stop as int, false, -1, false) == no_use_from(
                    l,
                    act@.trial,
                    i as int,
                    stop as int,
                    seen,
                    curgroup as int,
                    alldefnouse,
                ),
            decreases stop - i,
        {
            let mut t = act.trial[i];
            assert(trial::entry_ok(act@.trial[i as int], l.entry.len()));
            if let Some(x) = t.entry {
                let e = &self.entry[x];
                assert(l.entry[x as int] == e@);
                assert(l.entry[x as int].wf());
                let defnouse = t.is_definitely_not_used();
                let grp: i32 = e.get_group();
                if grp <= curgroup && e.is_exclusion() {
                    if !defnouse {
                        alldefnouse = false;
                    }
                } else {
                    if alldefnouse {
                        seen = true;
                    }
                    alldefnouse = defnouse;
                    curgroup = grp;
                }
                if seen {
                    t.mark_inactive();
                    act.trial.set(i, t);
                }
            }
            i += 1;
        }
    }

    /// Follow a chain over the trial at `i`.
    fn follow_chain(
        &self,
        act: &mut ParamActive,
        maxchain: i32,
        start: usize,
        group: i32,
        i: usize,
        c: &mut Chain,
    )
        requires
            self@.wf(),
            fillin::tied(self@, old(act)@.trial),
            start <= i < old(act)@.trial.len(),
            -0x4000_0000_0000_0000_0000_0000_0000 <= old(c).length
                <= 0x4000_0000_0000_0000_0000_0000_0000,
        ensures
            final(c).with(final(act)@.trial) == chain_step(
                self@,
                old(act)@,
                maxchain as int,
                start as int,
                group as int,
                i as int,
                old(c).with(old(act)@.trial),
            ),
            final(act)@ == (ActiveView { trial: final(act)@.trial, ..old(act)@ }),
            fillin::tied(self@, final(act)@.trial),
            final(act)@.trial.len() == old(act)@.trial.len(),
            old(c).length - 0x4_0000_0000 <= final(c).length <= old(c).length + 0x4_0000_0000
                || final(c).length == 0,
            final(c).last == old(c).last || final(c).last == Some(i),
    {
        let mut t = act.trial[i];
        assert(trial::entry_ok(act@.trial[i as int], self@.entry.len()));
        if t.is_definitely_not_used() {
            return;
        }
        let keep = act.own_input_gap && t.is_active() && t.entry.is_some() && !is_on_stack(&t);
        if !t.is_active() {
            let here: i128 = self.slot_group_or_zero(act, i) as i128;
            let slots: i128 = if i == start {
                here - group as i128 + 1
            } else {
                here - self.slot_group_or_zero(act, i - 1) as i128
            };
            c.length = c.length + slots;
            if (t.is_unref() && act.recoversubcall && is_on_stack(&t)) || c.length
                > maxchain as i128 {
                c.seen = true;
            }
        } else {
            c.length = 0;
            if !c.seen || keep {
                c.last = Some(i);
            }
        }
        if c.seen && !keep {
            t.mark_inactive();
            act.trial.set(i, t);
        }
    }

    /// Apply the rule on chains of unused slots to a section.
    pub fn force_inactive_chain(&self, act: &mut ParamActive, maxchain: i32, sec: Section)
        requires
            self@.wf(),
            fillin::tied(self@, old(act)@.trial),
            sec.stop <= old(act)@.trial.len(),
        ensures
            final(act)@ == chained(self@, old(act)@, maxchain as int, sec),
            fillin::tied(self@, final(act)@.trial),
            final(act)@.trial.len() == old(act)@.trial.len(),
    {
        let ghost l = self@;
        let ghost a = act@;
        let start: usize = sec.start;
        let mut c = Chain { seen: false, length: 0, last: None };
        let mut i: usize = start;
        let ghost c0 = c.with(a.trial);
        assert(act.trial.len() <= usize::MAX);
        while i < sec.stop
            invariant
                l == self@,
                self@.wf(),
                start == sec.start,
                start <= i,
                fillin::tied(l, act@.trial),
                act@.trial.len() == a.trial.len(),
                sec.stop <= a.trial.len(),
                a.trial.len() <= usize::MAX,
                act@ == (ActiveView { trial: act@.trial, ..a }),
                -0x4_0000_0000 * (i - start) <= c.length <= 0x4_0000_0000 * (i - start),
                c.last matches Some(m) ==> start <= m < sec.stop,
                chain_from(
                    l,
                    a,
                    maxchain as int,
                    start as int,
                    sec.group as int,
                    start as int,
                    sec.stop as int,
                    c0,
                ) == chain_from(
                    l,
                    a,
                    maxchain as int,
                    start as int,
                    sec.group as int,
                    i as int,
                    sec.stop as int,
                    c.with(act@.trial),
                ),
            decreases sec.stop - i,
        {
            let ghost now = act@;
            let ghost before = c.with(act@.trial);
            self.follow_chain(act, maxchain, start, sec.group, i, &mut c);
            proof {
                lemma_chain_step_same(
                    l,
                    now,
                    a,
                    maxchain as int,
                    start as int,
                    sec.group as int,
                    i as int,
                    before,
                );
            }
            i += 1;
        }
        let ghost s1 = act@.trial;
        if let Some(m) = c.last {
            let mut k: usize = start;
            while k <= m
                invariant
                    start <= k <= m + 1,
                    m < sec.stop <= s1.len(),
                    fillin::tied(l, act@.trial),
                    act@.trial.len() == s1.len(),
                    act@ == (ActiveView { trial: act@.trial, ..a }),
                    forall|j: int|
                        0 <= j < s1.len() ==> #[trigger] act@.trial[j] == (if start <= j < k
                            && !s1[j].flags.defnouse && !s1[j].flags.active {
                            s1[j].with_active()
                        } else {
                            s1[j]
                        }),
                decreases m + 1 - k,
            {
                let mut t = act.trial[k];
                assert(trial::entry_ok(act@.trial[k as int], l.entry.len()));
                if !t.is_definitely_not_used() && !t.is_active() {
                    t.mark_active();
                    act.trial.set(k, t);
                }
                k += 1;
            }
        }
        assert(act@.trial =~= activated(s1, start as int, c.with(s1).last));
    }

    /// Make the active trials used.
    pub fn use_active(&self, act: &mut ParamActive)
        ensures
            final(act)@ == (ActiveView { trial: active_used(old(act)@.trial), ..old(act)@ }),
    {
        let ghost s = act@.trial;
        let mut i: usize = 0;
        while i < act.trial.len()
            invariant
                i <= act.trial.len(),
                act@.trial.len() == s.len(),
                act@ == (ActiveView { trial: act@.trial, ..old(act)@ }),
                forall|k: int|
                    0 <= k < s.len() ==> #[trigger] act@.trial[k] == (if k < i
                        && s[k].flags.active {
                        s[k].with_used()
                    } else {
                        s[k]
                    }),
            decreases act.trial.len() - i,
        {
            let mut t = act.trial[i];
            if t.is_active() {
                t.mark_used();
                act.trial.set(i, t);
            }
            i += 1;
        }
        assert(act@.trial =~= active_used(s));
    }
}

} // verus!
