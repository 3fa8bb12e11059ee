//! Deriving a formal prototype from trials: every trial is tied to an entry of
//! the model, holes between trials are filled, and the rules of the model
//! decide which trials are parameters.
use crate::active;
use crate::active::{ActiveView, ParamActive};
use crate::dtype::TypeClass;
use crate::entry::EntryView;
use crate::paramlist;
use crate::paramlist::{ListView, ParamListStandard};
use crate::space::Address;
use crate::trial;
use crate::trial::ParamTrial;
use vstd::prelude::*;

verus! {

/// The trial tied to the entry that holds it, or else ruled out.
pub open spec fn tag_trial(l: ListView, t: ParamTrial) -> ParamTrial {
    match l.found(t.addr, t.size as int, true) {
        Some(e) => ParamTrial { entry: Some(e), offset: 0, ..t },
        None => t.with_no_use(),
    }
}

/// All trials tagged.
pub open spec fn tag_trials(l: ListView, s: Seq<ParamTrial>) -> Seq<ParamTrial> {
    s.map_values(|t: ParamTrial| tag_trial(l, t))
}

/// How many of the first `n` trials are active in an entry of the float class
/// (or, if `float` is false, of another class).
pub open spec fn active_count(l: ListView, s: Seq<ParamTrial>, n: int, float: bool) -> int
    decreases n,
{
    if n <= 0 || n > s.len() {
        0
    } else {
        let rest = active_count(l, s, n - 1, float);
        match l.found(s[n - 1].addr, s[n - 1].size as int, true) {
            Some(e) => if s[n - 1].flags.active && (l.entry[e as int].type_ == TypeClass::Float)
                == float {
                rest + 1
            } else {
                rest
            },
            None => rest,
        }
    }
}

/// The class to prefer for unreferenced trials.
pub open spec fn preferred_class(l: ListView, s: Seq<ParamTrial>) -> TypeClass {
    if active_count(l, s, s.len() as int, true) > active_count(l, s, s.len() as int, false) {
        TypeClass::Float
    } else {
        TypeClass::General
    }
}

/// The entry through which the first of the first `n` trials falls into group
/// `g`.
pub open spec fn group_hit(l: ListView, s: Seq<ParamTrial>, n: int, g: int) -> Option<usize>
    decreases n,
{
    if n <= 0 || n > s.len() {
        None
    } else {
        let rest = group_hit(l, s, n - 1, g);
        match (rest, l.found(s[n - 1].addr, s[n - 1].size as int, true)) {
            (Some(e), _) => rest,
            (None, Some(e)) => if l.entry[e as int].group() == g {
                Some(e)
            } else {
                None
            },
            (None, None) => None,
        }
    }
}

/// One more than the highest group that the first `n` trials fall into.
pub open spec fn groups_seen(l: ListView, s: Seq<ParamTrial>, n: int) -> int
    decreases n,
{
    if n <= 0 || n > s.len() {
        0
    } else {
        let rest = groups_seen(l, s, n - 1);
        match l.found(s[n - 1].addr, s[n - 1].size as int, true) {
            Some(e) => if l.entry[e as int].group() + 1 > rest {
                l.entry[e as int].group() + 1
            } else {
                rest
            },
            None => rest,
        }
    }
}

/// The collection with an unreferenced trial for entry `c` added.
pub open spec fn with_unref(a: ActiveView, c: usize, addr: Address, sz: i32) -> ActiveView {
    ActiveView {
        trial: a.trial.push(
            ParamTrial {
                entry: Some(c),
                offset: 0,
                ..active::registered_trial(addr, sz, a.slotbase).with_unref()
            },
        ),
        slotbase: (a.slotbase + 1) as i32,
        ..a
    }
}

/// Lowest slot of the resource `e` that the trial occupies.
pub open spec fn low_slot(e: EntryView, t: ParamTrial) -> int {
    let a = (e.slot_at(t.addr, 0) as i32) - e.group();
    let b = (e.slot_at(t.addr, ((t.size - 1) as i32) as int) as i32) - e.group();
    if b < a {
        b
    } else {
        a
    }
}

/// Highest slot of the resource `e` that the trial occupies.
pub open spec fn high_slot(e: EntryView, t: ParamTrial) -> int {
    let a = (e.slot_at(t.addr, 0) as i32) - e.group();
    let b = (e.slot_at(t.addr, ((t.size - 1) as i32) as int) as i32) - e.group();
    if b < a {
        a
    } else {
        b
    }
}

/// One of the first `n` trials occupies slot `j` of the resource at `c`.
pub open spec fn slot_taken(l: ListView, s: Seq<ParamTrial>, n: int, c: usize, j: int) -> bool {
    exists|k: int|
        0 <= k < n && (#[trigger] s[k]).entry == Some(c) && low_slot(l.entry[c as int], s[k]) <= j
            <= high_slot(l.entry[c as int], s[k])
}

/// One more than the highest slot of the resource at `c` that the first `n`
/// trials occupy.
pub open spec fn slots_seen(l: ListView, s: Seq<ParamTrial>, n: int, c: usize) -> int
    decreases n,
{
    if n <= 0 || n > s.len() {
        0
    } else {
        let rest = slots_seen(l, s, n - 1, c);
        let h = high_slot(l.entry[c as int], s[n - 1]) + 1;
        if s[n - 1].entry == Some(c) && h > rest {
            h
        } else {
            rest
        }
    }
}

/// The collection with an unreferenced trial added for each of the first `n`
/// slots of the resource at `c` that no trial of `s` occupies.
pub open spec fn fill_slots(
    l: ListView,
    a: ActiveView,
    s: Seq<ParamTrial>,
    c: usize,
    n: int,
) -> ActiveView
    decreases n,
{
    if n <= 0 {
        a
    } else {
        let rest = fill_slots(l, a, s, c, n - 1);
        if slot_taken(l, s, s.len() as int, c, n - 1) {
            rest
        } else {
            let e = l.entry[c as int];
            with_unref(
                rest,
                c,
                e.plain_addr((n - 1) as i32, e.alignment as int, 1, !e.left_justified()),
                e.alignment,
            )
        }
    }
}

/// The collection with group `g` completed: an unreferenced trial if no trial
/// fell into it, else one for each hole of a resource.
pub open spec fn fill_group(
    l: ListView,
    a: ActiveView,
    hit: Option<usize>,
    pref: TypeClass,
    g: int,
) -> ActiveView {
    match hit {
        None => match paramlist::best_unref(l.entry, l.entry.len() as int, g, pref) {
            Some(c) => {
                let e = l.entry[c];
                let sz = if e.exclusion() {
                    e.size
                } else {
                    e.alignment
                };
                with_unref(
                    a,
                    c as usize,
                    e.plain_addr(0, sz as int, 1, !e.left_justified()),
                    sz,
                )
            },
            None => a,
        },
        Some(c) => if l.entry[c as int].exclusion() {
            a
        } else {
            fill_slots(l, a, a.trial, c, slots_seen(l, a.trial, a.trial.len() as int, c))
        },
    }
}

/// The collection with the first `n` groups completed, for the trials `s`
/// that it started from.
pub open spec fn fill_groups(l: ListView, a: ActiveView, s: Seq<ParamTrial>, n: int) -> ActiveView
    decreases n,
{
    if n <= 0 {
        a
    } else {
        let rest = fill_groups(l, a, s, n - 1);
        fill_group(
            l,
            rest,
            group_hit(l, s, s.len() as int, n - 1),
            preferred_class(l, s),
            n - 1,
        )
    }
}

/// The collection with its trials put in formal order.
pub open spec fn in_formal_order(l: ListView, a: ActiveView) -> ActiveView {
    ActiveView {
        trial: active::sorted_trials(false, a.trial, a.trial.len() as int, l.entry),
        ..a
    }
}

/// The trials tied to entries, completed and in formal order.
pub open spec fn trial_map(l: ListView, a: ActiveView) -> ActiveView {
    let tagged = ActiveView { trial: tag_trials(l, a.trial), ..a };
    in_formal_order(
        l,
        fill_groups(l, tagged, a.trial, groups_seen(l, a.trial, a.trial.len() as int)),
    )
}

impl ListView {
    /// Trials can be mapped under the list.
    pub open spec fn mappable(self) -> bool {
        self.wf() && self.groups_ok()
    }
}

/// The entries that trials name are entries of the list.
pub open spec fn tied(l: ListView, s: Seq<ParamTrial>) -> bool {
    active::trials_ok(s, l.entry.len())
}

impl ParamListStandard {
    /// Tie every trial to the entry that holds it.
    fn tag_all(&self, act: &mut ParamActive)
        requires
            self@.wf(),
        ensures
            final(act)@ == (ActiveView {
                trial: tag_trials(self@, old(act)@.trial),
                ..old(act)@
            }),
            tied(self@, old(act)@.trial) ==> tied(self@, final(act)@.trial),
    {
        let ghost s = act@.trial;
        let mut out: Vec<ParamTrial> = Vec::new();
        let mut i: usize = 0;
        while i < act.trial.len()
            invariant
                i <= act.trial.len(),
                *act == *old(act),
                s == act@.trial,
                self@.wf(),
                out@.len() == i,
                forall|k: int| 0 <= k < i ==> #[trigger] out@[k] == tag_trial(self@, s[k]),
                tied(self@, s) ==> tied(self@, out@),
            decreases act.trial.len() - i,
        {
            let mut t = act.trial[i];
            assert(trial::entry_ok(s[i as int], self@.entry.len()) || !tied(self@, s));
            match self.find_entry(&t.addr, t.size, true) {
                None => t.mark_no_use(),
                Some(e) => t.set_entry(Some(e), 0),
            }
            out.push(t);
            i += 1;
        }
        assert(out@ =~= tag_trials(self@, s));
        act.trial = out;
    }

    /// The first entry hit in each group, by group, and the class to prefer for
    /// unreferenced trials.
    fn survey(&self, trials: &Vec<ParamTrial>) -> (r: (Vec<Option<usize>>, TypeClass))
        requires
            self@.wf(),
        ensures
            r.0@.len() == groups_seen(self@, trials@, trials@.len() as int),
            forall|g: int|
                0 <= g < r.0@.len() ==> #[trigger] r.0@[g] == group_hit(
                    self@,
                    trials@,
                    trials@.len() as int,
                    g,
                ),
            forall|g: int|
                0 <= g < r.0@.len() ==> ((#[trigger] r.0@[g]) matches Some(c) ==> c
                    < self@.entry.len()),
            r.1 == preferred_class(self@, trials@),
            r.0@.len() <= i32::MAX + 1,
    {
        let ghost l = self@;
        let mut hitlist: Vec<Option<usize>> = Vec::new();
        let mut float_count: usize = 0;
        let mut int_count: usize = 0;
        let mut i: usize = 0;
        while i < trials.len()
            invariant
                i <= trials.len(),
                l == self@,
                self@.wf(),
                float_count == active_count(l, trials@, i as int, true),
                int_count == active_count(l, trials@, i as int, false),
                0 <= float_count <= i,
                0 <= int_count <= i,
                hitlist@.len() == groups_seen(l, trials@, i as int),
                hitlist@.len() <= i32::MAX + 1,
                forall|g: int|
                    0 <= g < hitlist@.len() ==> #[trigger] hitlist@[g] == group_hit(
                        l,
                        trials@,
                        i as int,
                        g,
                    ),
                forall|g: int|
                    g >= hitlist@.len() ==> #[trigger] group_hit(l, trials@, i as int, g) is None,
                forall|g: int|
                    0 <= g < hitlist@.len() ==> ((#[trigger] hitlist@[g]) matches Some(c) ==> c
                        < l.entry.len()),
            decreases trials.len() - i,
        {
            let t = trials[i];
            match self.find_entry(&t.addr, t.size, true) {
                None => {
                    assert forall|g: int| #[trigger]
                        group_hit(l, trials@, i + 1, g) == group_hit(l, trials@, i as int, g) by {}
                },
                Some(e) => {
                    let x = &self.entry[e];
                    assert(l.entry[e as int] == x@);
                    if t.is_active() {
                        if x.type_ == TypeClass::Float {
                            float_count += 1;
                        } else {
                            int_count += 1;
                        }
                    }
                    let grp: i32 = x.get_group();
                    let ghost before = hitlist@;
                    while hitlist.len() <= grp as usize
                        invariant
                            grp >= 0,
                            before.len() <= hitlist@.len(),
                            hitlist@.len() <= (if before.len() > grp + 1 {
                                before.len() as int
                            } else {
                                grp + 1
                            }),
                            hitlist@.subrange(0, before.len() as int) == before,
                            forall|g: int|
                                before.len() <= g < hitlist@.len() ==> #[trigger] hitlist@[g]
                                    is None,
                        decreases grp + 1 - hitlist@.len(),
                    {
                        hitlist.push(None);
                        assert(hitlist@.subrange(0, before.len() as int) =~= before);
                    }
                    assert forall|g: int| 0 <= g < hitlist@.len() implies #[trigger] hitlist@[g]
                        == group_hit(l, trials@, i as int, g) by {
                        if g < before.len() {
                            assert(hitlist@.subrange(0, before.len() as int)[g] == before[g]);
                        }
                    }
                    let ghost filled = hitlist@;
                    if hitlist[grp as usize].is_none() {
                        hitlist.set(grp as usize, Some(e));
                    }
                    assert forall|g: int| #[trigger]
                        group_hit(l, trials@, i + 1, g) == (if group_hit(l, trials@, i as int, g)
                            is None && g == grp {
                            Some(e)
                        } else {
                            group_hit(l, trials@, i as int, g)
                        }) by {}
                    assert forall|g: int| 0 <= g < hitlist@.len() implies #[trigger] hitlist@[g]
                        == group_hit(l, trials@, i + 1, g) by {
                        assert(filled[g] == group_hit(l, trials@, i as int, g));
                    }
                    assert forall|g: int| 0 <= g < hitlist@.len() implies (
                    (#[trigger] hitlist@[g]) matches Some(c) ==> c < l.entry.len()) by {
                        if g < before.len() {
                            assert(hitlist@.subrange(0, before.len() as int)[g] == hitlist@[g]);
                            assert(filled[g] == before[g]);
                        } else {
                            assert(filled[g] is None);
                        }
                    }
                },
            }
            i += 1;
        }
        let pref = if float_count > int_count {
            TypeClass::Float
        } else {
            TypeClass::General
        };
        (hitlist, pref)
    }

    /// Add an unreferenced trial for the entry at `c`.
    fn add_unref(&self, act: &mut ParamActive, c: usize, addr: &Address, sz: i32)
        requires
            c < self@.entry.len(),
        ensures
            final(act)@ == with_unref(old(act)@, c, *addr, sz),
            tied(self@, old(act)@.trial) ==> tied(self@, final(act)@.trial),
    {
        act.register_trial(addr, sz);
        let last: usize = act.trial.len() - 1;
        let mut t = act.trial[last];
        t.mark_unref();
        t.set_entry(Some(c), 0);
        let ghost before = act@.trial;
        act.trial.set(last, t);
        assert(act@.trial =~= with_unref(old(act)@, c, *addr, sz).trial);
    }

    /// Which slots of the resource at `c` are occupied, up to the highest one.
    fn occupied_slots(&self, trials: &Vec<ParamTrial>, c: usize) -> (r: Vec<bool>)
        requires
            self@.wf(),
            c < self@.entry.len(),
        ensures
            r@.len() == slots_seen(self@, trials@, trials@.len() as int, c),
            forall|j: int|
                0 <= j < r@.len() ==> #[trigger] r@[j] == slot_taken(
                    self@,
                    trials@,
                    trials@.len() as int,
                    c,
                    j,
                ),
            r@.len() <= 0x2_0000_0000,
    {
        let ghost l = self@;
        let ghost e = l.entry[c as int];
        let ce = &self.entry[c];
        assert(e == ce@);
        assert(e.wf());
        let mut taken: Vec<bool> = Vec::new();
        let mut k: usize = 0;
        while k < trials.len()
            invariant
                k <= trials.len(),
                l == self@,
                c < l.entry.len(),
                e == l.entry[c as int],
                e == ce@,
                e.wf(),
                taken@.len() == slots_seen(l, trials@, k as int, c),
                taken@.len() <= 0x2_0000_0000,
                forall|j: int|
                    0 <= j < taken@.len() ==> #[trigger] taken@[j] == slot_taken(
                        l,
                        trials@,
                        k as int,
                        c,
                        j,
                    ),
                forall|j: int|
                    j >= taken@.len() ==> !(#[trigger] slot_taken(l, trials@, k as int, c, j)),
            decreases trials.len() - k,
        {
            let t = trials[k];
            let ghost before = taken@;
            let mine = match t.entry {
                Some(x) => x == c,
                None => false,
            };
            if mine {
                let grp: i64 = ce.get_group() as i64;
                let first: i64 = ce.get_slot(&t.addr, 0) as i64 - grp;
                let second: i64 = ce.get_slot(&t.addr, (t.size as i64 - 1) as i32) as i64 - grp;
                let lo: i64 = if second < first {
                    second
                } else {
                    first
                };
                let hi: i64 = if second < first {
                    first
                } else {
                    second
                };
                assert(lo == low_slot(e, t) && hi == high_slot(e, t));
                self.mark_slots(&mut taken, lo, hi);
                proof {
                    lemma_slot_taken_step(l, trials@, k as int, c);
                }
            } else {
                proof {
                    lemma_slot_taken_step(l, trials@, k as int, c);
                }
            }
            k += 1;
        }
        taken
    }

    /// Mark the slots from `lo` to `hi`, lengthening the list as needed.
    fn mark_slots(&self, taken: &mut Vec<bool>, lo: i64, hi: i64)
        requires
            -0x2_0000_0000 <= lo <= hi < 0x2_0000_0000,
            old(taken)@.len() <= 0x2_0000_0000,
        ensures
            final(taken)@.len() == (if hi + 1 > old(taken)@.len() {
                hi + 1
            } else {
                old(taken)@.len() as int
            }),
            forall|j: int|
                0 <= j < final(taken)@.len() ==> #[trigger] final(taken)@[j] == ((j < old(
                    taken,
                )@.len() && old(taken)@[j]) || lo <= j <= hi),
    {
        let ghost before = taken@;
        let mut n: i64 = taken.len() as i64;
        while n <= hi
            invariant
                n == taken@.len(),
                before.len() <= n,
                n <= (if hi + 1 > before.len() {
                    hi + 1
                } else {
                    before.len() as int
                }),
                hi < 0x2_0000_0000,
                before.len() <= 0x2_0000_0000,
                forall|j: int|
                    0 <= j < n ==> #[trigger] taken@[j] == (j < before.len() && before[j]),
            decreases hi + 1 - n,
        {
            taken.push(false);
            n += 1;
        }
        let mut s: i64 = if lo < 0 {
            0
        } else {
            lo
        };
        while s <= hi
            invariant
                0 <= s,
                lo <= s,
                n == taken@.len(),
                hi < n || s > hi,
                hi < 0x2_0000_0000,
                forall|j: int|
                    0 <= j < n ==> #[trigger] taken@[j] == ((j < before.len() && before[j]) || (lo
                        <= j < s && j <= hi)),
            decreases hi + 1 - s,
        {
            taken.set(s as usize, true);
            s += 1;
        }
    }

    /// Tie the trials to entries, complete them with unreferenced ones and put
    /// them in formal order.
    pub fn build_trial_map(&self, act: &mut ParamActive)
        requires
            self@.mappable(),
            tied(self@, old(act)@.trial),
        ensures
            final(act)@ == trial_map(self@, old(act)@),
            tied(self@, final(act)@.trial),
    {
        let ghost l = self@;
        let ghost s = act@.trial;
        let ghost tagged = ActiveView { trial: tag_trials(l, s), ..act@ };
        let (hitlist, pref) = self.survey(&act.trial);
        self.tag_all(act);
        let mut g: usize = 0;
        while g < hitlist.len()
            invariant
                g <= hitlist.len(),
                l == self@,
                self@.mappable(),
                hitlist@.len() == groups_seen(l, s, s.len() as int),
                hitlist@.len() <= i32::MAX + 1,
                forall|k: int|
                    0 <= k < hitlist@.len() ==> #[trigger] hitlist@[k] == group_hit(
                        l,
                        s,
                        s.len() as int,
                        k,
                    ),
                forall|k: int|
                    0 <= k < hitlist@.len() ==> ((#[trigger] hitlist@[k]) matches Some(c) ==> c
                        < l.entry.len()),
                pref == preferred_class(l, s),
                act@ == fill_groups(l, tagged, s, g as int),
                tied(l, act@.trial),
            decreases hitlist.len() - g,
        {
            let hit = hitlist[g];
            self.complete_group(act, hit, pref, g as i32);
            g += 1;
        }
        let ghost a = act@;
        proof {
            assert forall|i: int| 0 <= i < self.entry@.len() implies (
            #[trigger] self.entry@[i])@.group_set.len() > 0 by {
                assert(self@.entry[i].wf());
            }
        }
        act.sort_trials(self.entry.as_slice());
        proof {
            lemma_sorted_tied(l, a.trial, a.trial.len() as int);
        }
    }

    /// Complete group `g`, into which a trial first fell through `hit`.
    fn complete_group(&self, act: &mut ParamActive, hit: Option<usize>, pref: TypeClass, g: i32)
        requires
            self@.mappable(),
            tied(self@, old(act)@.trial),
            hit matches Some(c) ==> c < self@.entry.len(),
        ensures
            final(act)@ == fill_group(self@, old(act)@, hit, pref, g as int),
            tied(self@, final(act)@.trial),
    {
        let ghost l = self@;
        match hit {
            None => {
                let c: usize = match self.select_unreference_entry(g, pref) {
                    Some(c) => c,
                    None => return,
                };
                let ce = &self.entry[c];
                assert(l.entry[c as int] == ce@);
                assert(l.entry[c as int].wf());
                let sz: i32 = if ce.is_exclusion() {
                    ce.size
                } else {
                    ce.alignment
                };
                let addr = ce.plain_addr_by_slot(0, sz, 1);
                self.add_unref(act, c, &addr, sz);
            },
            Some(c) => {
                let ce = &self.entry[c];
                assert(l.entry[c as int] == ce@);
                assert(l.entry[c as int].wf());
                if !ce.is_exclusion() {
                    let ghost a = act@;
                    let taken = self.occupied_slots(&act.trial, c);
                    let mut j: usize = 0;
                    while j < taken.len()
                        invariant
                            j <= taken.len(),
                            l == self@,
                            c < l.entry.len(),
                            ce@ == l.entry[c as int],
                            ce@.wf(),
                            taken@.len() == slots_seen(l, a.trial, a.trial.len() as int, c),
                            taken@.len() <= 0x2_0000_0000,
                            forall|k: int|
                                0 <= k < taken@.len() ==> #[trigger] taken@[k] == slot_taken(
                                    l,
                                    a.trial,
                                    a.trial.len() as int,
                                    c,
                                    k,
                                ),
                            act@ == fill_slots(l, a, a.trial, c, j as int),
                            tied(l, act@.trial),
                        decreases taken.len() - j,
                    {
                        if !taken[j] {
                            let align: i32 = ce.alignment;
                            let addr = ce.plain_addr_by_slot(j as i32, align, 1);
                            self.add_unref(act, c, &addr, align);
                        }
                        j += 1;
                    }
                }
            },
        }
    }
}

proof fn lemma_slot_taken_step(l: ListView, s: Seq<ParamTrial>, k: int, c: usize)
    requires
        0 <= k < s.len(),
    ensures
        forall|j: int| #[trigger]
            slot_taken(l, s, k + 1, c, j) == (slot_taken(l, s, k, c, j) || (s[k].entry == Some(c)
                && low_slot(l.entry[c as int], s[k]) <= j <= high_slot(l.entry[c as int], s[k]))),
{
    assert forall|j: int| #[trigger]
        slot_taken(l, s, k + 1, c, j) == (slot_taken(l, s, k, c, j) || (s[k].entry == Some(c)
            && low_slot(l.entry[c as int], s[k]) <= j <= high_slot(l.entry[c as int], s[k]))) by {
        if slot_taken(l, s, k, c, j) {
            let w = choose|w: int|
                0 <= w < k && (#[trigger] s[w]).entry == Some(c) && low_slot(
                    l.entry[c as int],
                    s[w],
                ) <= j <= high_slot(l.entry[c as int], s[w]);
            assert(s[w].entry == Some(c));
        }
        if s[k].entry == Some(c) && low_slot(l.entry[c as int], s[k]) <= j <= high_slot(
            l.entry[c as int],
            s[k],
        ) {
            assert(s[k].entry == Some(c));
        }
    }
}

/// Sorting keeps trials tied to entries of the list.
pub(crate) proof fn lemma_sorted_tied(l: ListView, s: Seq<ParamTrial>, n: int)
    requires
        0 <= n <= s.len(),
        tied(l, s),
    ensures
        tied(l, active::sorted_trials(false, s, n, l.entry)),
    decreases n,
{
    if n > 0 {
        lemma_sorted_tied(l, s, n - 1);
        active::law_sort_keeps_trials(false, s, n - 1, l.entry);
        let rest = active::sorted_trials(false, s, n - 1, l.entry);
        let p = active::insert_position(false, rest, rest.len() as int, s[n - 1], l.entry);
        active::lemma_insert_position_bound(false, rest, rest.len() as int, s[n - 1], l.entry);
        let out = rest.insert(p, s[n - 1]);
        assert forall|i: int| 0 <= i < out.len() implies trial::entry_ok(
            #[trigger] out[i],
            l.entry.len(),
        ) by {
            if i < p {
                assert(out[i] == rest[i]);
            } else if i == p {
                assert(out[i] == s[n - 1]);
            } else {
                assert(out[i] == rest[i - 1]);
            }
        }
    }
}

} // verus!
