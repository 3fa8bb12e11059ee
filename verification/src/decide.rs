//! The verdict over a set of trials under each kind of parameter list.
use crate::active;
use crate::active::{ActiveView, ParamActive};
use crate::chains;
use crate::dtype;
use crate::entry::EntryView;
use crate::error::FspecError;
use crate::fillin;
use crate::paramlist::{ListView, ParamListKind, ParamListStandard};
use crate::rules::{AssignAction, ModelRule};
use crate::trial;
use crate::trial::ParamTrial;
use vstd::prelude::*;

verus! {

/// A trial under a list without order: used if it is active in some entry.
pub open spec fn register_verdict(l: ListView, t: ParamTrial) -> ParamTrial {
    match l.found(t.addr, t.size as int, true) {
        Some(e) => {
            let u = ParamTrial { entry: Some(e), offset: 0, ..t };
            if t.flags.active {
                u.with_used()
            } else {
                u
            }
        },
        None => t.with_no_use(),
    }
}

/// The trials of an unordered input list decided.
pub open spec fn register_fillin(l: ListView, a: ActiveView) -> ActiveView {
    fillin::in_formal_order(
        l,
        ActiveView { trial: a.trial.map_values(|t: ParamTrial| register_verdict(l, t)), ..a },
    )
}

/// The trial held against the entry at `ci`.
pub open spec fn tag_against(l: ListView, ci: int, t: ParamTrial) -> ParamTrial {
    let r = l.entry[ci].justified(t.addr, t.size as int);
    if t.flags.active && r >= 0 {
        ParamTrial { entry: Some(ci as usize), offset: r as i32, ..t }
    } else {
        ParamTrial { entry: None, offset: 0, ..t }
    }
}

/// Some active trial lies in the entry at `ci`.
pub open spec fn some_match(l: ListView, ci: int, s: Seq<ParamTrial>) -> bool {
    exists|k: int|
        0 <= k < s.len() && (#[trigger] s[k]).flags.active && l.entry[ci].justified(
            s[k].addr,
            s[k].size as int,
        ) >= 0
}

/// How many trials in front, and how many bytes of entry `e` from its least
/// significant end on, the trials cover without a gap, counted from trial `k`
/// with `off` bytes covered.
pub open spec fn cover_from(e: EntryView, s: Seq<ParamTrial>, k: int, off: int) -> (int, int)
    decreases s.len() - k,
{
    if k < 0 || k >= s.len() {
        (k, off)
    } else if s[k].entry is None {
        cover_from(e, s, k + 1, off)
    } else if off != s[k].offset {
        (k, off)
    } else if ((off == 0 && e.flags.extracheck_low) || (off != 0 && e.flags.extracheck_high)) && (
    s[k].flags.rem_formed || s[k].flags.indcreate_formed) {
        (k, off)
    } else {
        cover_from(e, s, k + 1, off + s[k].size)
    }
}

/// The trials cover enough of `e`, and all of them count.
pub open spec fn covered(e: EntryView, s: Seq<ParamTrial>) -> bool {
    let (k, off) = cover_from(e, s, 0, 0);
    k == s.len() && off >= e.minsize
}

/// The search for the entry that holds a return value.
#[verifier::ext_equal]
pub struct Search {
    pub trials: Seq<ParamTrial>,
    pub best: Option<usize>,
    pub cover: int,
    pub rank: int,
}

/// Entries that are not the first of their class are left out of a search for
/// first entries only.
pub open spec fn passed_over(e: EntryView, first_only: bool) -> bool {
    first_only && !e.flags.first_storage && e.exclusion() && e.group_set.len() == 1
}

/// The search taken on to the entry at `i`: it becomes the best if the active
/// trials cover it and it ranks lower, or is covered more, than the best.
pub open spec fn search_step(l: ListView, c: Search, first_only: bool, i: int) -> Search {
    let e = l.entry[i];
    if passed_over(e, first_only) {
        c
    } else {
        let tagged = c.trials.map_values(|t: ParamTrial| tag_against(l, i, t));
        if !some_match(l, i, c.trials) {
            Search { trials: tagged, ..c }
        } else {
            let sorted = active::sorted_trials(false, tagged, tagged.len() as int, l.entry);
            let off = cover_from(e, sorted, 0, 0).1;
            if covered(e, sorted) && (dtype::class_rank(e.type_) < c.rank || off > c.cover) {
                Search {
                    trials: sorted,
                    best: Some(i as usize),
                    cover: off,
                    rank: dtype::class_rank(e.type_),
                }
            } else {
                Search { trials: sorted, ..c }
            }
        }
    }
}

/// The search over the first `n` entries.
pub open spec fn search(l: ListView, s: Seq<ParamTrial>, first_only: bool, n: int) -> Search
    decreases n,
{
    if n <= 0 || n > l.entry.len() {
        Search { trials: s, best: None, cover: 0, rank: dtype::class_rank(dtype::TypeClass::Ptr) }
    } else {
        search_step(l, search(l, s, first_only, n - 1), first_only, n - 1)
    }
}

/// A trial once the entry of the return value is known.
pub open spec fn return_verdict(l: ListView, be: int, t: ParamTrial) -> ParamTrial {
    let r = l.entry[be].justified(t.addr, t.size as int);
    if t.flags.active && r >= 0 {
        ParamTrial { entry: Some(be as usize), offset: r as i32, ..t.with_used() }
    } else {
        ParamTrial { entry: None, offset: 0, ..t.with_no_use() }
    }
}

/// The trials of a return value decided by searching the entries.
pub open spec fn fallback_fillin(l: ListView, a: ActiveView, first_only: bool) -> ActiveView {
    let c = search(l, a.trial, first_only, l.entry.len() as int);
    match c.best {
        None => ActiveView {
            trial: c.trials.map_values(|t: ParamTrial| t.with_no_use()),
            ..a
        },
        Some(be) => fillin::in_formal_order(
            l,
            ActiveView {
                trial: c.trials.map_values(|t: ParamTrial| return_verdict(l, be as int, t)),
                ..a
            },
        ),
    }
}

/// A trial of a return value tied to its entry, for the rules to look at.
pub open spec fn tag_output(l: ListView, t: ParamTrial) -> ParamTrial {
    let u = ParamTrial { entry: None, offset: 0, ..t };
    if !t.flags.active {
        u
    } else {
        match l.found(t.addr, t.size as int, false) {
            None => u.with_no_use(),
            Some(e) => if (t.flags.rem_formed || t.flags.indcreate_formed)
                && !l.entry[e as int].flags.first_storage {
                u.with_no_use()
            } else {
                ParamTrial {
                    entry: Some(e),
                    offset: l.entry[e as int].justified(t.addr, t.size as int) as i32,
                    ..t
                }
            },
        }
    }
}

/// The rule recognises the trials as its return value: exactly one of them is
/// tied to an entry, the rule's stack resource.
pub open spec fn rule_recognises(rule: ModelRule, s: Seq<ParamTrial>) -> bool {
    rule.action matches AssignAction::GotoStack { stack_entry } && s.len() > 0
        && s[0].entry is Some && s[0].entry == stack_entry && (s.len() == 1 || s[1].entry is None)
}

/// The verdict once a rule has recognised the trials.
pub open spec fn recognised(t: ParamTrial) -> ParamTrial {
    if t.flags.active {
        t.with_used()
    } else {
        ParamTrial { entry: None, offset: 0, ..t.with_no_use() }
    }
}

/// The trials of a return value decided.
pub open spec fn output_fillin(l: ListView, a: ActiveView) -> ActiveView {
    if a.trial.len() == 0 {
        a
    } else if l.use_fillin_fallback {
        fallback_fillin(l, a, false)
    } else {
        let tagged = fillin::in_formal_order(
            l,
            ActiveView { trial: a.trial.map_values(|t: ParamTrial| tag_output(l, t)), ..a },
        );
        if exists|k: int|
            0 <= k < l.model_rules.len() && rule_recognises(
                #[trigger] l.model_rules[k],
                tagged.trial,
            ) {
            ActiveView { trial: tagged.trial.map_values(|t: ParamTrial| recognised(t)), ..tagged }
        } else {
            fallback_fillin(l, tagged, true)
        }
    }
}

/// Deciding the trials under the list.
pub open spec fn decided(l: ListView, a: ActiveView) -> Result<ActiveView, FspecError> {
    match l.kind {
        ParamListKind::Merged => Err(FspecError::UnresolvedModel),
        ParamListKind::Standard => if a.trial.len() == 0 {
            Ok(a)
        } else if l.entry.len() == 0 {
            Err(FspecError::NoEntries)
        } else {
            Ok(chains::standard_fillin(l, a))
        },
        ParamListKind::Register => if a.trial.len() == 0 {
            Ok(a)
        } else {
            Ok(register_fillin(l, a))
        },
        _ => Ok(output_fillin(l, a)),
    }
}

/// The best entry found so far, how much of it is covered, and its rank.
struct Found {
    best: Option<usize>,
    cover: i128,
    rank: i32,
}

impl Found {
    spec fn with(self, s: Seq<ParamTrial>) -> Search {
        Search { trials: s, best: self.best, cover: self.cover as int, rank: self.rank as int }
    }
}

impl ParamListStandard {
    /// Decide which trials are parameters (or the return value) under this
    /// list. A merged list cannot decide; neither can one without entries.
    pub fn fillin_map(&self, act: &mut ParamActive) -> (r: Result<(), FspecError>)
        requires
            self@.wf(),
            self.kind == ParamListKind::Standard && self@.entry.len() > 0 ==> self@.decidable(),
            fillin::tied(self@, old(act)@.trial),
        ensures
            match r {
                Ok(_) => decided(self@, old(act)@) == Ok::<ActiveView, FspecError>(final(act)@),
                Err(e) => decided(self@, old(act)@) == Err::<ActiveView, FspecError>(e)
                    && final(act)@ == old(act)@,
            },
            fillin::tied(self@, final(act)@.trial),
    {
        match self.kind {
            ParamListKind::Merged => Err(FspecError::UnresolvedModel),
            ParamListKind::Standard => {
                if act.trial.len() == 0 {
                    return Ok(());
                }
                if self.entry.len() == 0 {
                    return Err(FspecError::NoEntries);
                }
                self.fillin_map_standard(act);
                Ok(())
            },
            ParamListKind::Register => {
                if act.trial.len() == 0 {
                    return Ok(());
                }
                self.fillin_map_register(act);
                Ok(())
            },
            ParamListKind::StandardOut | ParamListKind::RegisterOut => {
                self.fillin_map_standard_out(act);
                Ok(())
            },
        }
    }

    fn fillin_map_standard(&self, act: &mut ParamActive)
        requires
            self@.decidable(),
            fillin::tied(self@, old(act)@.trial),
        ensures
            final(act)@ == chains::standard_fillin(self@, old(act)@),
            fillin::tied(self@, final(act)@.trial),
    {
        let ghost l = self@;
        let ghost a = act@;
        self.build_trial_map(act);
        proof {
            lemma_trial_map_flags(l, a);
        }
        self.force_exclusion_group(act);
        let ghost excluded = act@.trial;
        let secs = self.build_sections(act);
        let ghost mapped = fillin::trial_map(l, a);
        let mut i: usize = 0;
        while i < secs.len()
            invariant
                i <= secs.len(),
                l == self@,
                self@.decidable(),
                fillin::tied(l, act@.trial),
                act@.trial.len() == excluded.len(),
                forall|k: int| 0 <= k < secs@.len() ==> (#[trigger] secs@[k]).stop
                    <= excluded.len(),
                act@ == (ActiveView {
                    trial: chains::no_use_sections(l, excluded, secs@, i as int),
                    ..mapped
                }),
            decreases secs.len() - i,
        {
            assert(secs@[i as int].stop <= excluded.len());
            self.force_no_use(act, secs[i].start, secs[i].stop);
            i += 1;
        }
        let ghost bounded = act@;
        i = 0;
        while i < secs.len()
            invariant
                i <= secs.len(),
                l == self@,
                self@.decidable(),
                fillin::tied(l, act@.trial),
                act@.trial.len() == excluded.len(),
                forall|k: int| 0 <= k < secs@.len() ==> (#[trigger] secs@[k]).stop
                    <= excluded.len(),
                act@ == chains::chain_sections(l, bounded, secs@, i as int),
            decreases secs.len() - i,
        {
            assert(secs@[i as int].stop <= excluded.len());
            self.force_inactive_chain(act, 2, secs[i]);
            i += 1;
        }
        let ghost s = act@.trial;
        self.use_active(act);
        proof {
            assert forall|k: int| 0 <= k < act@.trial.len() implies trial::entry_ok(
                #[trigger] act@.trial[k],
                l.entry.len(),
            ) by {
                assert(trial::entry_ok(s[k], l.entry.len()));
            }
        }
    }

    fn fillin_map_register(&self, act: &mut ParamActive)
        requires
            self@.wf(),
            fillin::tied(self@, old(act)@.trial),
        ensures
            final(act)@ == register_fillin(self@, old(act)@),
            fillin::tied(self@, final(act)@.trial),
    {
        let ghost l = self@;
        let ghost s = act@.trial;
        let mut out: Vec<ParamTrial> = Vec::new();
        let mut i: usize = 0;
        while i < act.trial.len()
            invariant
                i <= act.trial.len(),
                *act == *old(act),
                s == act@.trial,
                l == self@,
                self@.wf(),
                fillin::tied(l, s),
                out@.len() == i,
                forall|k: int| 0 <= k < i ==> #[trigger] out@[k] == register_verdict(l, s[k]),
                fillin::tied(l, out@),
            decreases act.trial.len() - i,
        {
            let mut t = act.trial[i];
            assert(trial::entry_ok(s[i as int], l.entry.len()));
            match self.find_entry(&t.addr, t.size, true) {
                None => t.mark_no_use(),
                Some(e) => {
                    t.set_entry(Some(e), 0);
                    if t.is_active() {
                        t.mark_used();
                    }
                },
            }
            out.push(t);
            i += 1;
        }
        assert(out@ =~= s.map_values(|t: ParamTrial| register_verdict(l, t)));
        act.trial = out;
        self.sort_in_order(act);
    }

    fn sort_in_order(&self, act: &mut ParamActive)
        requires
            self@.wf(),
            fillin::tied(self@, old(act)@.trial),
        ensures
            final(act)@ == fillin::in_formal_order(self@, old(act)@),
            fillin::tied(self@, final(act)@.trial),
    {
        let ghost a = act@;
        proof {
            assert forall|i: int| 0 <= i < self.entry@.len() implies (
            #[trigger] self.entry@[i])@.group_set.len() > 0 by {
                assert(self@.entry[i].wf());
            }
        }
        act.sort_trials(self.entry.as_slice());
        proof {
            fillin::lemma_sorted_tied(self@, a.trial, a.trial.len() as int);
        }
    }

    fn fillin_map_standard_out(&self, act: &mut ParamActive)
        requires
            self@.wf(),
            fillin::tied(self@, old(act)@.trial),
        ensures
            final(act)@ == output_fillin(self@, old(act)@),
            fillin::tied(self@, final(act)@.trial),
    {
        if act.trial.len() == 0 {
            return;
        }
        if self.use_fillin_fallback {
            self.fillin_map_fallback(act, false);
            return;
        }
        let ghost l = self@;
        let ghost a = act@;
        let ghost s = act@.trial;
        let mut out: Vec<ParamTrial> = Vec::new();
        let mut i: usize = 0;
        while i < act.trial.len()
            invariant
                i <= act.trial.len(),
                act@ == a,
                s == act@.trial,
                l == self@,
                self@.wf(),
                out@.len() == i,
                forall|k: int| 0 <= k < i ==> #[trigger] out@[k] == tag_output(l, s[k]),
                fillin::tied(l, out@),
            decreases act.trial.len() - i,
        {
            let mut t = act.trial[i];
            t.set_entry(None, 0);
            if t.is_active() {
                match self.find_entry(&t.addr, t.size, false) {
                    None => t.mark_no_use(),
                    Some(e) => {
                        let x = &self.entry[e];
                        assert(l.entry[e as int] == x@);
                        assert(l.entry[e as int].wf());
                        let off: i32 = x.justified_contain(&t.addr, t.size);
                        if (t.is_rem_formed() || t.is_ind_create_formed())
                            && !x.is_first_in_class() {
                            t.mark_no_use();
                        } else {
                            t.set_entry(Some(e), off);
                        }
                    },
                }
            }
            out.push(t);
            i += 1;
        }
        assert(out@ =~= s.map_values(|t: ParamTrial| tag_output(l, t)));
        act.trial = out;
        self.sort_in_order(act);
        let ghost tagged = act@;
        let mut k: usize = 0;
        while k < self.model_rules.len()
            invariant
                k <= self.model_rules.len(),
                l == self@,
                act@ == tagged,
                self@.wf(),
                fillin::tied(l, act@.trial),
                a.trial.len() > 0,
                a == old(act)@,
                !l.use_fillin_fallback,
                tagged == fillin::in_formal_order(
                    l,
                    ActiveView { trial: a.trial.map_values(|t: ParamTrial| tag_output(l, t)), ..a },
                ),
                forall|m: int|
                    0 <= m < k ==> !rule_recognises(#[trigger] l.model_rules[m], tagged.trial),
            decreases self.model_rules.len() - k,
        {
            if self.rule_output_map(k, act) {
                assert(rule_recognises(l.model_rules[k as int], tagged.trial));
                self.accept_recognised(act);
                return;
            }
            k += 1;
        }
        self.fillin_map_fallback(act, true);
    }

    fn rule_output_map(&self, k: usize, act: &ParamActive) -> (r: bool)
        requires
            k < self@.model_rules.len(),
        ensures
            r == rule_recognises(self@.model_rules[k as int], act@.trial),
    {
        match self.model_rules[k].action {
            AssignAction::GotoStack { stack_entry } => {
                if act.trial.len() == 0 {
                    return false;
                }
                let same = match (act.trial[0].entry, stack_entry) {
                    (Some(x), Some(y)) => x == y,
                    _ => false,
                };
                same && (act.trial.len() == 1 || act.trial[1].entry.is_none())
            },
            AssignAction::ConvertToPointer { space } => false,
        }
    }

    fn accept_recognised(&self, act: &mut ParamActive)
        requires
            fillin::tied(self@, old(act)@.trial),
        ensures
            final(act)@ == (ActiveView {
                trial: old(act)@.trial.map_values(|t: ParamTrial| recognised(t)),
                ..old(act)@
            }),
            fillin::tied(self@, final(act)@.trial),
    {
        let ghost s = act@.trial;
        let mut out: Vec<ParamTrial> = Vec::new();
        let mut i: usize = 0;
        while i < act.trial.len()
            invariant
                i <= act.trial.len(),
                act@ == old(act)@,
                s == act@.trial,
                fillin::tied(self@, s),
                out@.len() == i,
                forall|k: int| 0 <= k < i ==> #[trigger] out@[k] == recognised(s[k]),
                fillin::tied(self@, out@),
            decreases act.trial.len() - i,
        {
            let mut t = act.trial[i];
            assert(trial::entry_ok(s[i as int], self@.entry.len()));
            if t.is_active() {
                t.mark_used();
            } else {
                t.mark_no_use();
                t.set_entry(None, 0);
            }
            out.push(t);
            i += 1;
        }
        assert(out@ =~= s.map_values(|t: ParamTrial| recognised(t)));
        act.trial = out;
    }

    /// Hold every trial against the entry at `ci`; was one of them in it.
    fn tag_all_against(&self, act: &mut ParamActive, ci: usize) -> (r: bool)
        requires
            self@.wf(),
            ci < self@.entry.len(),
        ensures
            r == some_match(self@, ci as int, old(act)@.trial),
            final(act)@ == (ActiveView {
                trial: old(act)@.trial.map_values(|t: ParamTrial| tag_against(self@, ci as int, t)),
                ..old(act)@
            }),
            fillin::tied(self@, final(act)@.trial),
    {
        let ghost l = self@;
        let ghost s = act@.trial;
        let e = &self.entry[ci];
        assert(l.entry[ci as int] == e@);
        assert(l.entry[ci as int].wf());
        let mut any = false;
        let mut out: Vec<ParamTrial> = Vec::new();
        let mut j: usize = 0;
        while j < act.trial.len()
            invariant
                j <= act.trial.len(),
                act@ == old(act)@,
                s == act@.trial,
                l == self@,
                ci < l.entry.len(),
                e@ == l.entry[ci as int],
                e@.wf(),
                out@.len() == j,
                forall|k: int|
                    0 <= k < j ==> #[trigger] out@[k] == tag_against(l, ci as int, s[k]),
                fillin::tied(l, out@),
                any == exists|k: int|
                    0 <= k < j && (#[trigger] s[k]).flags.active && e@.justified(
                        s[k].addr,
                        s[k].size as int,
                    ) >= 0,
            decreases act.trial.len() - j,
        {
            let mut t = act.trial[j];
            let ghost any0 = any;
            let r: i32 = e.justified_contain(&t.addr, t.size);
            if t.is_active() && r >= 0 {
                t.set_entry(Some(ci), r);
                any = true;
                assert(s[j as int].flags.active);
            } else {
                t.set_entry(None, 0);
            }
            out.push(t);
            j += 1;
        }
        assert(out@ =~= s.map_values(|t: ParamTrial| tag_against(l, ci as int, t)));
        act.trial = out;
        any
    }

    /// How many trials, and how many bytes of the entry, are covered in front.
    fn measure_cover(&self, act: &ParamActive, ci: usize) -> (r: (usize, i128))
        requires
            self@.wf(),
            ci < self@.entry.len(),
        ensures
            (r.0 as int, r.1 as int) == cover_from(self@.entry[ci as int], act@.trial, 0, 0),
    {
        let e = &self.entry[ci];
        assert(self@.entry[ci as int] == e@);
        let ghost s = act@.trial;
        let mut off: i128 = 0;
        let mut k: usize = 0;
        assert(act.trial.len() <= usize::MAX);
        while k < act.trial.len()
            invariant
                k <= act.trial.len() <= usize::MAX,
                s == act@.trial,
                e@ == self@.entry[ci as int],
                -0x8000_0000 * k <= off <= 0x8000_0000 * k,
                cover_from(e@, s, 0, 0) == cover_from(e@, s, k as int, off as int),
            decreases act.trial.len() - k,
        {
            let t = act.trial[k];
            if t.entry.is_some() {
                if off != t.offset as i128 {
                    return (k, off);
                }
                if (off == 0 && e.is_param_check_low()) || (off != 0 && e.is_param_check_high()) {
                    if t.is_rem_formed() || t.is_ind_create_formed() {
                        return (k, off);
                    }
                }
                off += t.size as i128;
            }
            k += 1;
        }
        (k, off)
    }

    /// Take the search on to the entry at `ci`.
    fn search_entry(&self, act: &mut ParamActive, first_only: bool, ci: usize, found: &mut Found)
        requires
            self@.wf(),
            ci < self@.entry.len(),
            fillin::tied(self@, old(act)@.trial),
        ensures
            final(found).with(final(act)@.trial) == search_step(
                self@,
                old(found).with(old(act)@.trial),
                first_only,
                ci as int,
            ),
            final(act)@ == (ActiveView { trial: final(act)@.trial, ..old(act)@ }),
            fillin::tied(self@, final(act)@.trial),
            final(found).best == old(found).best || final(found).best == Some(ci),
    {
        let e = &self.entry[ci];
        assert(self@.entry[ci as int] == e@);
        if first_only && !e.is_first_in_class() && e.is_exclusion() && e.group_set.len() == 1 {
            return;
        }
        if self.tag_all_against(act, ci) {
            self.sort_in_order(act);
            let (k, off) = self.measure_cover(act, ci);
            if k == act.trial.len() && off >= e.minsize as i128 && (dtype::rank_of(e.type_)
                < found.rank || off > found.cover) {
                *found = Found { best: Some(ci), cover: off, rank: dtype::rank_of(e.type_) };
            }
        }
    }

    /// Decide the trials of a return value by searching for the entry that
    /// they cover best.
    fn fillin_map_fallback(&self, act: &mut ParamActive, first_only: bool)
        requires
            self@.wf(),
            fillin::tied(self@, old(act)@.trial),
        ensures
            final(act)@ == fallback_fillin(self@, old(act)@, first_only),
            fillin::tied(self@, final(act)@.trial),
    {
        let ghost l = self@;
        let ghost a = act@;
        let mut found = Found { best: None, cover: 0, rank: dtype::rank_of(dtype::TypeClass::Ptr) };
        let mut ci: usize = 0;
        while ci < self.entry.len()
            invariant
                ci <= self.entry.len(),
                l == self@,
                self@.wf(),
                fillin::tied(l, act@.trial),
                act@ == (ActiveView { trial: act@.trial, ..a }),
                found.best matches Some(b) ==> b < l.entry.len(),
                search(l, a.trial, first_only, ci as int) == found.with(act@.trial),
            decreases self.entry.len() - ci,
        {
            self.search_entry(act, first_only, ci, &mut found);
            ci += 1;
        }
        let best: Option<usize> = found.best;
        match best {
            None => {
                let ghost s = act@.trial;
                let mut out: Vec<ParamTrial> = Vec::new();
                let mut i: usize = 0;
                while i < act.trial.len()
                    invariant
                        i <= act.trial.len(),
                        s == act@.trial,
                        act@ == (ActiveView { trial: s, ..a }),
                        fillin::tied(l, s),
                        fillin::tied(l, out@),
                        out@.len() == i,
                        forall|k: int| 0 <= k < i ==> #[trigger] out@[k] == s[k].with_no_use(),
                    decreases act.trial.len() - i,
                {
                    let mut t = act.trial[i];
                    assert(trial::entry_ok(s[i as int], l.entry.len()));
                    t.mark_no_use();
                    out.push(t);
                    i += 1;
                }
                assert(out@ =~= s.map_values(|t: ParamTrial| t.with_no_use()));
                act.trial = out;
            },
            Some(be) => {
                let ghost s = act@.trial;
                let e = &self.entry[be];
                assert(l.entry[be as int] == e@);
                assert(l.entry[be as int].wf());
                let mut out: Vec<ParamTrial> = Vec::new();
                let mut i: usize = 0;
                while i < act.trial.len()
                    invariant
                        i <= act.trial.len(),
                        s == act@.trial,
                        act@ == (ActiveView { trial: s, ..a }),
                        be < l.entry.len(),
                        e@ == l.entry[be as int],
                        e@.wf(),
                        fillin::tied(l, out@),
                        out@.len() == i,
                        forall|k: int|
                            0 <= k < i ==> #[trigger] out@[k] == return_verdict(
                                l,
                                be as int,
                                s[k],
                            ),
                    decreases act.trial.len() - i,
                {
                    let mut t = act.trial[i];
                    let r: i32 = e.justified_contain(&t.addr, t.size);
                    if t.is_active() && r >= 0 {
                        t.mark_used();
                        t.set_entry(Some(be), r);
                    } else {
                        t.mark_no_use();
                        t.set_entry(None, 0);
                    }
                    out.push(t);
                    i += 1;
                }
                assert(out@ =~= s.map_values(|t: ParamTrial| return_verdict(l, be as int, t)));
                act.trial = out;
                self.sort_in_order(act);
            },
        }
    }
}

/// Mapping trials leaves the state of the analysis alone, but for the trials
/// and the next slot.
proof fn lemma_trial_map_flags(l: ListView, a: ActiveView)
    ensures
        fillin::trial_map(l, a) == (ActiveView {
            trial: fillin::trial_map(l, a).trial,
            slotbase: fillin::trial_map(l, a).slotbase,
            ..a
        }),
{
    let tagged = ActiveView { trial: fillin::tag_trials(l, a.trial), ..a };
    lemma_fill_groups_flags(l, tagged, a.trial, fillin::groups_seen(
        l,
        a.trial,
        a.trial.len() as int,
    ));
}

proof fn lemma_fill_groups_flags(l: ListView, a: ActiveView, s: Seq<ParamTrial>, n: int)
    ensures
        fillin::fill_groups(l, a, s, n) == (ActiveView {
            trial: fillin::fill_groups(l, a, s, n).trial,
            slotbase: fillin::fill_groups(l, a, s, n).slotbase,
            ..a
        }),
    decreases n,
{
    if n > 0 {
        lemma_fill_groups_flags(l, a, s, n - 1);
        let rest = fillin::fill_groups(l, a, s, n - 1);
        match fillin::group_hit(l, s, s.len() as int, n - 1) {
            Some(c) => {
                lemma_fill_slots_flags(
                    l,
                    rest,
                    rest.trial,
                    c,
                    fillin::slots_seen(l, rest.trial, rest.trial.len() as int, c),
                );
            },
            None => {},
        }
    }
}

proof fn lemma_fill_slots_flags(l: ListView, a: ActiveView, s: Seq<ParamTrial>, c: usize, n: int)
    ensures
        fillin::fill_slots(l, a, s, c, n) == (ActiveView {
            trial: fillin::fill_slots(l, a, s, c, n).trial,
            slotbase: fillin::fill_slots(l, a, s, c, n).slotbase,
            ..a
        }),
    decreases n,
{
    if n > 0 {
        lemma_fill_slots_flags(l, a, s, c, n - 1);
    }
}

} // verus!
