//! How far the parameters of a function run: a gap of unused slots ends them,
//! and so does a group in which nothing is possible.
use crate::active::ActiveView;
use crate::chains;
use crate::chains::{ChainState, Section};
use crate::fillin;
use crate::paramlist::ListView;
use crate::space::SpaceType;
use crate::trial::ParamTrial;
use vstd::prelude::*;

verus! {

/// The last active trial before the `j`-th, -1 if there is none.
pub open spec fn active_before(s: Seq<ParamTrial>, j: int) -> int
    decreases j,
{
    if j <= 0 {
        -1
    } else if s[j - 1].flags.active {
        j - 1
    } else {
        active_before(s, j - 1)
    }
}

/// How many slots there are behind the last active trial before the `j`-th, or
/// from the first slot on if there is none, up to that of the `j`-th.
pub open spec fn slots_behind(l: ListView, s: Seq<ParamTrial>, first: int, j: int) -> int {
    let p = active_before(s, j);
    s[j].group_slot(l.entry) - (if p < 0 {
        first - 1
    } else {
        s[p].group_slot(l.entry) as int
    })
}

/// The parameters end at the `j`-th trial: it is not active, and more than two
/// slots are unused up to it, or, at a call, it is a slot of the stack that
/// nothing refers to.
pub open spec fn ends_at(l: ListView, s: Seq<ParamTrial>, first: int, subcall: bool, j: int) -> bool {
    &&& !s[j].flags.active
    &&& slots_behind(l, s, first, j) > 2 || (subcall && s[j].flags.unref && (s[j].addr.space
        matches Some(sp) && sp.type_ == SpaceType::Spacebase))
}

/// The parameters end at the `j`-th trial or before it.
pub open spec fn ended(l: ListView, s: Seq<ParamTrial>, first: int, subcall: bool, j: int) -> bool {
    exists|i: int| 0 <= i <= j && #[trigger] ends_at(l, s, first, subcall, i)
}

/// All trials belong to the first section of the list, which is scored as one.
pub open spec fn one_section(l: ListView, s: Seq<ParamTrial>) -> bool {
    &&& l.resource_start.len() >= 2
    &&& s.len() <= usize::MAX
    &&& forall|k: int|
        0 <= k < s.len() && (#[trigger] s[k]).entry is Some ==> l.entry[s[k].entry->0 as int].group()
            < l.resource_start[1]
}

/// No trial is ruled out, and each has an entry.
pub open spec fn all_open(s: Seq<ParamTrial>) -> bool {
    forall|k: int|
        0 <= k < s.len() ==> !(#[trigger] s[k]).flags.defnouse && s[k].entry is Some
}

proof fn lemma_one_start(l: ListView, s: Seq<ParamTrial>, i: int)
    requires
        one_section(l, s),
        0 <= i <= s.len(),
    ensures
        chains::section_starts(l, s, i, 1) =~= seq![s.len() as int],
    decreases s.len() - i,
{
    if i < s.len() {
        lemma_one_start(l, s, i + 1);
    }
}

proof fn lemma_one_section(l: ListView, s: Seq<ParamTrial>)
    requires
        one_section(l, s),
    ensures
        chains::sections(l, s, false) =~= seq![
            Section { start: 0, stop: s.len() as usize, group: l.resource_start[0] },
        ],
{
    lemma_one_start(l, s, 0);
    let starts = seq![0int] + chains::section_starts(l, s, 0, 1);
    assert(starts =~= seq![0int, s.len() as int]);
    reveal_with_fuel(chains::sections_of, 2);
}

proof fn lemma_possible(l: ListView, s: Seq<ParamTrial>, i: int, stop: int, group: int)
    requires
        all_open(s),
        0 <= i,
    ensures
        chains::no_use_from(l, s, i, stop, false, group, false) == s,
    decreases stop - i,
{
    if i < stop && i < s.len() {
        let e = l.entry[s[i].entry->0 as int];
        let group1 = if e.group() <= group && e.exclusion() {
            group
        } else {
            e.group()
        };
        lemma_possible(l, s, i + 1, stop, group1);
    }
}

/// The last trial before the `i`-th that is active and not behind the end.
spec fn last_kept(l: ListView, s: Seq<ParamTrial>, first: int, subcall: bool, i: int) -> int
    decreases i,
{
    if i <= 0 {
        -1
    } else if s[i - 1].flags.active && !ended(l, s, first, subcall, i - 1) {
        i - 1
    } else {
        last_kept(l, s, first, subcall, i - 1)
    }
}

proof fn lemma_last_kept(l: ListView, s: Seq<ParamTrial>, first: int, subcall: bool, i: int, q: int)
    requires
        0 <= q < i,
    ensures
        last_kept(l, s, first, subcall, i) < i,
        s[q].flags.active && !ended(l, s, first, subcall, q) ==> q <= last_kept(
            l,
            s,
            first,
            subcall,
            i,
        ),
        last_kept(l, s, first, subcall, i) >= 0 ==> s[last_kept(
            l,
            s,
            first,
            subcall,
            i,
        )].flags.active && !ended(l, s, first, subcall, last_kept(l, s, first, subcall, i)),
    decreases i,
{
    reveal_with_fuel(last_kept, 2);
    if q < i - 1 {
        lemma_last_kept(l, s, first, subcall, i - 1, q);
    } else if i > 1 {
        lemma_last_kept(l, s, first, subcall, i - 1, i - 2);
    }
}

/// How the chain stands in front of the `i`-th trial of `s`.
spec fn followed(
    l: ListView,
    s: Seq<ParamTrial>,
    first: int,
    subcall: bool,
    i: int,
    c: ChainState,
) -> bool {
    &&& c.trials.len() == s.len()
    &&& forall|k: int| i <= k < s.len() ==> #[trigger] c.trials[k] == s[k]
    &&& forall|k: int|
        0 <= k < i ==> #[trigger] c.trials[k] == (if ended(l, s, first, subcall, k) {
            s[k].with_inactive()
        } else {
            s[k]
        })
    &&& c.seen == ended(l, s, first, subcall, i - 1)
    &&& c.length == (if i == 0 {
        0
    } else {
        s[i - 1].group_slot(l.entry) - (if active_before(s, i) < 0 {
            first - 1
        } else {
            s[active_before(s, i)].group_slot(l.entry) as int
        })
    })
    &&& c.last == last_kept(l, s, first, subcall, i)
}

proof fn lemma_followed(
    l: ListView,
    s: Seq<ParamTrial>,
    a: ActiveView,
    first: int,
    i: int,
    c: ChainState,
)
    requires
        all_open(s),
        0 <= i <= s.len(),
        !a.own_input_gap,
        followed(l, s, first, a.recoversubcall, i, c),
    ensures
        followed(
            l,
            s,
            first,
            a.recoversubcall,
            s.len() as int,
            chains::chain_from(l, a, 2, 0, first, i, s.len() as int, c),
        ),
    decreases s.len() - i,
{
    if i < s.len() {
        let d = chains::chain_step(l, a, 2, 0, first, i, c);
        let sub = a.recoversubcall;
        let t = s[i];
        assert(c.trials[i] == t);
        if i > 0 {
            assert(c.trials[i - 1].entry == s[i - 1].entry);
            assert(c.trials[i - 1].group_slot(l.entry) == s[i - 1].group_slot(l.entry));
        }
        assert(d.seen == ended(l, s, first, sub, i)) by {
            if ended(l, s, first, sub, i) {
                let j = choose|j: int| 0 <= j <= i && #[trigger] ends_at(l, s, first, sub, j);
                if j < i {
                    assert(ended(l, s, first, sub, i - 1));
                } else {
                    assert(ends_at(l, s, first, sub, i));
                }
            } else {
                assert(!ends_at(l, s, first, sub, i));
                if ended(l, s, first, sub, i - 1) {
                    let j = choose|j: int|
                        0 <= j <= i - 1 && #[trigger] ends_at(l, s, first, sub, j);
                    assert(ended(l, s, first, sub, i));
                }
            }
        }
        if t.flags.active {
            assert(ended(l, s, first, sub, i) == ended(l, s, first, sub, i - 1)) by {
                assert(!ends_at(l, s, first, sub, i));
            }
        }
        assert(active_before(s, i + 1) == (if t.flags.active {
            i
        } else {
            active_before(s, i)
        }));
        assert(d.length == (if t.flags.active {
            0
        } else {
            slots_behind(l, s, first, i)
        }));
        assert(d.last == last_kept(l, s, first, sub, i + 1));
        assert(followed(l, s, first, sub, i + 1, d));
        lemma_followed(l, s, a, first, i + 1, d);
    }
}

/// Of trials that are all possible, in one section, the parameters are those up
/// to the last active one in front of the end: where more than two slots in a
/// row are unused, or at a call a slot of the stack that nothing refers to, the
/// list of parameters ends, and what lies behind is none. What lies between two
/// parameters is one too.
pub proof fn law_gap_ends_parameters(l: ListView, a: ActiveView, k: int)
    requires
        !a.vararg_stack_split,
        !fillin::trial_map(l, a).own_input_gap,
        one_section(l, chains::exclusion(l, fillin::trial_map(l, a).trial)),
        all_open(chains::exclusion(l, fillin::trial_map(l, a).trial)),
        0 <= k < chains::exclusion(l, fillin::trial_map(l, a).trial).len(),
    ensures
        ({
            let m = fillin::trial_map(l, a);
            let s = chains::exclusion(l, m.trial);
            let first = l.resource_start[0] as int;
            let r = chains::standard_fillin(l, a).trial;
            &&& r.len() == s.len()
            &&& ended(l, s, first, m.recoversubcall, k) ==> !r[k].flags.active
            &&& r[k].flags.active == (exists|q: int|
                k <= q < s.len() && #[trigger] s[q].flags.active && !ended(
                    l,
                    s,
                    first,
                    m.recoversubcall,
                    q,
                ))
            &&& r[k].flags.active ==> r[k].flags.used
            &&& r[k].addr == s[k].addr && r[k].size == s[k].size && r[k].slot == s[k].slot
        }),
{
    let m = fillin::trial_map(l, a);
    let s = chains::exclusion(l, m.trial);
    let first = l.resource_start[0] as int;
    let sub = m.recoversubcall;
    lemma_one_section(l, s);
    let sec = Section { start: 0, stop: s.len() as usize, group: l.resource_start[0] };
    let secs = chains::sections(l, s, false);
    assert(secs =~= seq![sec]);
    lemma_possible(l, s, 0, s.len() as int, -1);
    reveal_with_fuel(chains::no_use_sections, 2);
    reveal_with_fuel(chains::chain_sections, 2);
    let b = ActiveView { trial: s, ..m };
    assert(chains::no_use_sections(l, s, secs, 1) == s);
    let c0 = ChainState { trials: s, seen: false, length: 0, last: -1 };
    assert(followed(l, s, first, sub, 0, c0)) by {
        assert(!ended(l, s, first, sub, -1));
    }
    lemma_followed(l, s, b, first, 0, c0);
    let c = chains::chain_from(l, b, 2, 0, first, 0, s.len() as int, c0);
    let r = chains::standard_fillin(l, a).trial;
    assert(r =~= chains::active_used(chains::activated(c.trials, 0, c.last)));
    assert forall|q: int|
        k <= q < s.len() && #[trigger] s[q].flags.active && !ended(
            l,
            s,
            first,
            sub,
            q,
        ) implies k <= c.last by {
        lemma_last_kept(l, s, first, sub, s.len() as int, q);
    }
    lemma_last_kept(l, s, first, sub, s.len() as int, k);
    if k <= c.last {
        assert(s[c.last].flags.active && !ended(l, s, first, sub, c.last));
        if ended(l, s, first, sub, k) {
            let j = choose|j: int| 0 <= j <= k && #[trigger] ends_at(l, s, first, sub, j);
            assert(ended(l, s, first, sub, c.last));
        }
    }
    assert(c.trials[k] == (if ended(l, s, first, sub, k) {
        s[k].with_inactive()
    } else {
        s[k]
    }));
}

/// The group of the entry of a trial.
pub open spec fn group_at(l: ListView, t: ParamTrial) -> int {
    l.entry[t.entry->0 as int].group()
}

/// The trials with an entry are ordered by group, come before those without
/// one, and exclude others of their group; one without an entry is ruled out,
/// and none is ruled out and active at once.
pub open spec fn grouped(l: ListView, s: Seq<ParamTrial>) -> bool {
    &&& forall|k: int|
        0 <= k < s.len() ==> ((#[trigger] s[k]).entry is Some ==> l.entry[s[k].entry->0 as int].exclusion())
            && (s[k].entry is None ==> s[k].flags.defnouse) && (s[k].flags.defnouse
            ==> !s[k].flags.active)
    &&& forall|i: int, j: int|
        0 <= i < j < s.len() && (#[trigger] s[j]).entry is Some ==> (#[trigger] s[i]).entry is Some
            && group_at(l, s[i]) <= group_at(l, s[j])
}

/// Trials fall into group `g`, and all that do from the `i`-th on are ruled out.
pub open spec fn none_possible(l: ListView, s: Seq<ParamTrial>, g: int, i: int) -> bool {
    forall|k: int|
        i <= k < s.len() && (#[trigger] s[k]).entry is Some && group_at(l, s[k]) == g
            ==> s[k].flags.defnouse
}

/// Some trial from the `i`-th on falls into group `g`.
pub open spec fn met(l: ListView, s: Seq<ParamTrial>, g: int, i: int) -> bool {
    exists|j: int|
        i <= j < s.len() && (#[trigger] s[j]).entry is Some && group_at(l, s[j]) == g
}

proof fn lemma_given_up(
    l: ListView,
    s: Seq<ParamTrial>,
    g: int,
    i: int,
    seen: bool,
    group: int,
    none: bool,
)
    requires
        grouped(l, s),
        0 <= i <= s.len(),
        none_possible(l, s, g, i),
        seen || (group == g && none) || (group < g && met(l, s, g, i)),
        forall|k: int|
            i <= k < s.len() && (#[trigger] s[k]).entry is Some ==> group_at(l, s[k]) >= group,
    ensures
        ({
            let r = chains::no_use_from(l, s, i, s.len() as int, seen, group, none);
            &&& r.len() == s.len()
            &&& forall|k: int|
                0 <= k < s.len() ==> (#[trigger] r[k]).entry == s[k].entry && r[k].flags.defnouse
                    == s[k].flags.defnouse && r[k].addr == s[k].addr && (r[k].flags.active
                    ==> s[k].flags.active)
            &&& forall|k: int|
                i <= k < s.len() && s[k].entry is Some && group_at(l, s[k]) > g ==> !(
                #[trigger] r[k]).flags.active
        }),
    decreases s.len() - i,
{
    if i < s.len() && s[i].entry is Some {
        let e = l.entry[s[i].entry->0 as int];
        let same = e.group() <= group && e.exclusion();
        let seen1 = seen || (!same && none);
        let none1 = s[i].flags.defnouse && (none || !same);
        let group1 = if same {
            group
        } else {
            e.group()
        };
        let s1 = if seen1 {
            s.update(i, s[i].with_inactive())
        } else {
            s
        };
        assert(grouped(l, s1)) by {
            assert forall|a: int, b: int|
                0 <= a < b < s1.len() && (#[trigger] s1[b]).entry is Some implies (
            #[trigger] s1[a]).entry is Some && group_at(l, s1[a]) <= group_at(l, s1[b]) by {
                assert(s1[a].entry == s[a].entry && s1[b].entry == s[b].entry);
                assert(s[b].entry is Some);
                assert(s[a].entry is Some);
            }
            assert forall|k: int| 0 <= k < s1.len() implies ((#[trigger] s1[k]).entry is Some
                ==> l.entry[s1[k].entry->0 as int].exclusion()) && (s1[k].entry is None
                ==> s1[k].flags.defnouse) && (s1[k].flags.defnouse ==> !s1[k].flags.active) by {
                assert(s1[k].entry == s[k].entry);
            }
        }
        assert(none_possible(l, s1, g, i + 1)) by {
            assert forall|k: int|
                i + 1 <= k < s1.len() && (#[trigger] s1[k]).entry is Some && group_at(l, s1[k])
                    == g implies s1[k].flags.defnouse by {
                assert(s1[k] == s[k]);
            }
        }
        assert forall|k: int|
            i + 1 <= k < s1.len() && (#[trigger] s1[k]).entry is Some implies group_at(l, s1[k])
            >= group1 by {
            assert(s1[k] == s[k]);
            assert(s[i].entry is Some);
        }
        assert(!seen1 ==> (group1 == g && none1) || (group1 < g && met(l, s1, g, i + 1))) by {
            if !seen1 && !(group1 == g && none1) {
                if group < g {
                    let j = choose|j: int|
                        i <= j < s.len() && (#[trigger] s[j]).entry is Some && group_at(l, s[j])
                            == g;
                    if j == i {
                        assert(s[i].flags.defnouse);
                    } else {
                        assert(group_at(l, s[i]) <= group_at(l, s[j]));
                        assert(s1[j] == s[j]);
                        if group_at(l, s[i]) == g {
                            assert(s[i].flags.defnouse);
                        }
                    }
                }
            }
        }
        lemma_given_up(l, s1, g, i + 1, seen1, group1, none1);
        let r = chains::no_use_from(l, s, i, s.len() as int, seen, group, none);
        assert(r == chains::no_use_from(l, s1, i + 1, s.len() as int, seen1, group1, none1));
        assert forall|k: int|
            i <= k < s.len() && s[k].entry is Some && group_at(l, s[k]) > g implies !(
        #[trigger] r[k]).flags.active by {
            if k == i {
                assert(seen1);
                assert(!s1[i].flags.active);
            } else {
                assert(s1[k] == s[k]);
            }
        }
        assert forall|k: int| 0 <= k < s.len() implies (#[trigger] r[k]).entry == s[k].entry
            && r[k].flags.defnouse == s[k].flags.defnouse && r[k].addr == s[k].addr && (
        r[k].flags.active ==> s[k].flags.active) by {
            assert(r[k].entry == s1[k].entry);
        }
    } else if i < s.len() {
        assert forall|j: int| i <= j < s.len() implies (#[trigger] s[j]).entry is None by {
            if s[j].entry is Some && i < j {
                assert(s[i].entry is Some);
            }
        }
        if !seen && group < g {
            let j = choose|j: int|
                i <= j < s.len() && (#[trigger] s[j]).entry is Some && group_at(l, s[j]) == g;
            assert(s[j].entry is None);
        }
        lemma_given_up_rest(l, s, g, i + 1, seen, group, none);
    }
}

proof fn lemma_given_up_rest(
    l: ListView,
    s: Seq<ParamTrial>,
    g: int,
    i: int,
    seen: bool,
    group: int,
    none: bool,
)
    requires
        0 <= i <= s.len(),
        forall|j: int| i <= j < s.len() ==> (#[trigger] s[j]).entry is None,
    ensures
        chains::no_use_from(l, s, i, s.len() as int, seen, group, none) == s,
    decreases s.len() - i,
{
    if i < s.len() {
        assert(s[i].entry is None);
        lemma_given_up_rest(l, s, g, i + 1, seen, group, none);
    }
}

/// Trials that are not active stay so when a chain is followed, and it does not
/// count them.
proof fn lemma_quiet(
    l: ListView,
    a: ActiveView,
    maxchain: int,
    group: int,
    i: int,
    stop: int,
    c: ChainState,
    k: int,
)
    requires
        0 <= i,
        0 <= k,
        stop <= c.trials.len(),
        c.last < k,
        forall|j: int| k <= j < c.trials.len() ==> !(#[trigger] c.trials[j]).flags.active,
    ensures
        ({
            let d = chains::chain_from(l, a, maxchain, 0, group, i, stop, c);
            &&& d.last < k
            &&& d.trials.len() == c.trials.len()
            &&& forall|j: int| k <= j < d.trials.len() ==> !(#[trigger] d.trials[j]).flags.active
        }),
    decreases stop - i,
{
    if i < stop {
        lemma_quiet(
            l,
            a,
            maxchain,
            group,
            i + 1,
            stop,
            chains::chain_step(l, a, maxchain, 0, group, i, c),
            k,
        );
    }
}

/// A group of the section in which every trial is ruled out ends the list of
/// parameters: none of a later group is one.
pub proof fn law_impossible_group_ends(l: ListView, a: ActiveView, g: int, k: int)
    requires
        !a.vararg_stack_split,
        one_section(l, chains::exclusion(l, fillin::trial_map(l, a).trial)),
        grouped(l, chains::exclusion(l, fillin::trial_map(l, a).trial)),
        g >= 0,
        met(l, chains::exclusion(l, fillin::trial_map(l, a).trial), g, 0),
        none_possible(l, chains::exclusion(l, fillin::trial_map(l, a).trial), g, 0),
        0 <= k < chains::exclusion(l, fillin::trial_map(l, a).trial).len(),
        chains::exclusion(l, fillin::trial_map(l, a).trial)[k].entry is Some,
        group_at(l, chains::exclusion(l, fillin::trial_map(l, a).trial)[k]) > g,
        forall|j: int|
            0 <= j < l.entry.len() ==> (#[trigger] l.entry[j]).group() >= 0,
        forall|j: int|
            0 <= j < chains::exclusion(l, fillin::trial_map(l, a).trial).len() && (
            #[trigger] chains::exclusion(l, fillin::trial_map(l, a).trial)[j]).entry is Some
                ==> chains::exclusion(l, fillin::trial_map(l, a).trial)[j].entry->0 < l.entry.len(),
    ensures
        k < chains::standard_fillin(l, a).trial.len(),
        !chains::standard_fillin(l, a).trial[k].flags.active,
{
    let m = fillin::trial_map(l, a);
    let s = chains::exclusion(l, m.trial);
    lemma_one_section(l, s);
    let sec = Section { start: 0, stop: s.len() as usize, group: l.resource_start[0] };
    let secs = chains::sections(l, s, false);
    assert(secs =~= seq![sec]);
    reveal_with_fuel(chains::no_use_sections, 2);
    reveal_with_fuel(chains::chain_sections, 2);
    assert forall|j: int| 0 <= j < s.len() && (#[trigger] s[j]).entry is Some implies group_at(
        l,
        s[j],
    ) >= -1 by {
        assert(l.entry[s[j].entry->0 as int].group() >= 0);
    }
    lemma_given_up(l, s, g, 0, false, -1, false);
    let t = chains::no_use_from(l, s, 0, s.len() as int, false, -1, false);
    assert(chains::no_use_sections(l, s, secs, 1) == t);
    assert forall|j: int| k <= j < t.len() implies !(#[trigger] t[j]).flags.active by {
        if s[j].entry is Some {
            if k < j {
                assert(s[k].entry is Some);
                assert(group_at(l, s[k]) <= group_at(l, s[j]));
            }
        } else {
            assert(s[j].flags.defnouse);
        }
    }
    let b = ActiveView { trial: t, ..m };
    let c0 = ChainState { trials: t, seen: false, length: 0, last: -1 };
    lemma_quiet(l, b, 2, l.resource_start[0] as int, 0, s.len() as int, c0, k);
}

/// The trial is active, in a register, and tied to an entry.
pub open spec fn read_register(t: ParamTrial) -> bool {
    t.flags.active && t.entry is Some && !(t.addr.space matches Some(sp) && sp.type_
        == SpaceType::Spacebase)
}

proof fn lemma_register_stays(
    l: ListView,
    a: ActiveView,
    first: int,
    i: int,
    c: ChainState,
    k: int,
)
    requires
        a.own_input_gap,
        0 <= i <= c.trials.len(),
        0 <= k < c.trials.len(),
        read_register(c.trials[k]),
        !c.trials[k].flags.defnouse,
        k < i ==> c.last >= k,
        c.last < i,
    ensures
        ({
            let d = chains::chain_from(l, a, 2, 0, first, i, c.trials.len() as int, c);
            &&& d.trials.len() == c.trials.len()
            &&& d.trials[k] == c.trials[k]
            &&& d.last >= k
        }),
    decreases c.trials.len() - i,
{
    if i < c.trials.len() {
        let d = chains::chain_step(l, a, 2, 0, first, i, c);
        lemma_register_stays(l, a, first, i + 1, d, k);
    }
}

/// In the recovery of a function's own inputs, a register that the function reads
/// is a parameter whatever gap lies in front of it, and so is everything possible
/// before it.
pub proof fn law_own_register_kept(l: ListView, a: ActiveView, k: int, j: int)
    requires
        !a.vararg_stack_split,
        fillin::trial_map(l, a).own_input_gap,
        one_section(l, chains::exclusion(l, fillin::trial_map(l, a).trial)),
        all_open(chains::exclusion(l, fillin::trial_map(l, a).trial)),
        0 <= j <= k < chains::exclusion(l, fillin::trial_map(l, a).trial).len(),
        read_register(chains::exclusion(l, fillin::trial_map(l, a).trial)[k]),
    ensures
        ({
            let r = chains::standard_fillin(l, a).trial;
            r[k].flags.active && r[k].flags.used && r[j].flags.active && r[j].flags.used
        }),
{
    let m = fillin::trial_map(l, a);
    let s = chains::exclusion(l, m.trial);
    let first = l.resource_start[0] as int;
    lemma_one_section(l, s);
    let sec = Section { start: 0, stop: s.len() as usize, group: l.resource_start[0] };
    let secs = chains::sections(l, s, false);
    assert(secs =~= seq![sec]);
    lemma_possible(l, s, 0, s.len() as int, -1);
    reveal_with_fuel(chains::no_use_sections, 2);
    reveal_with_fuel(chains::chain_sections, 2);
    let b = ActiveView { trial: s, ..m };
    let c0 = ChainState { trials: s, seen: false, length: 0, last: -1 };
    assert(s[k].entry is Some && !s[k].flags.defnouse);
    lemma_register_stays(l, b, first, 0, c0, k);
    lemma_open_stays(l, b, first, 0, c0, j);
    let c = chains::chain_from(l, b, 2, 0, first, 0, s.len() as int, c0);
    let r = chains::standard_fillin(l, a).trial;
    assert(r =~= chains::active_used(chains::activated(c.trials, 0, c.last)));
    assert(!s[j].flags.defnouse);
}

/// Following a chain rules nothing out.
proof fn lemma_open_stays(
    l: ListView,
    a: ActiveView,
    first: int,
    i: int,
    c: ChainState,
    j: int,
)
    requires
        0 <= i <= c.trials.len(),
        0 <= j < c.trials.len(),
        !c.trials[j].flags.defnouse,
    ensures
        ({
            let d = chains::chain_from(l, a, 2, 0, first, i, c.trials.len() as int, c);
            d.trials.len() == c.trials.len() && !d.trials[j].flags.defnouse
        }),
    decreases c.trials.len() - i,
{
    if i < c.trials.len() {
        lemma_open_stays(l, a, first, i + 1, chains::chain_step(l, a, 2, 0, first, i, c), j);
    }
}

} // verus!
