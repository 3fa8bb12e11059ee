//! What holds of the trials once a list has decided on them.
use crate::active;
use crate::active::ActiveView;
use crate::chains;
use crate::chains::{ChainState, Section};
use crate::decide;
use crate::entry::EntryView;
use crate::fillin;
use crate::paramlist::{ListView, ParamListKind};
use crate::trial::{ParamTrial, TrialFlags};
use vstd::prelude::*;

verus! {

/// The trial is no parameter, and nothing says otherwise.
pub open spec fn ruled_out(t: ParamTrial) -> bool {
    t.flags.defnouse && !t.flags.used && !t.flags.active
}

/// Nothing says that a trial which is definitely not used is used after all.
pub open spec fn sound(t: ParamTrial) -> bool {
    t.flags.defnouse ==> ruled_out(t)
}

/// What may become of a trial: it can be tied to an entry and judged, keeps
/// its storage and its slot, and once ruled out stays so. It becomes a
/// parameter only if it is active, and only if `done`.
pub open spec fn moved(done: bool, a: ParamTrial, b: ParamTrial) -> bool {
    &&& b == (ParamTrial {
        entry: b.entry,
        offset: b.offset,
        flags: TrialFlags {
            checked: b.flags.checked,
            used: b.flags.used,
            defnouse: b.flags.defnouse,
            active: b.flags.active,
            ..a.flags
        },
        ..a
    })
    &&& ruled_out(a) ==> ruled_out(b)
    &&& sound(a) ==> sound(b)
    &&& b.flags.used ==> a.flags.used || (done && b.flags.active)
}

/// A trial for storage that nothing refers to, put in to complete the list.
pub open spec fn filled_in(done: bool, t: ParamTrial) -> bool {
    t.flags.unref && t.slot == -1 && sound(t) && (t.flags.used ==> done && t.flags.active)
}

/// Some trial of `from` has become `t`.
pub open spec fn comes_from(done: bool, from: Seq<ParamTrial>, t: ParamTrial) -> bool {
    exists|i: int| 0 <= i < from.len() && moved(done, #[trigger] from[i], t)
}

/// The trial `t` has become one of `to`.
pub open spec fn goes_to(done: bool, t: ParamTrial, to: Seq<ParamTrial>) -> bool {
    exists|k: int| 0 <= k < to.len() && moved(done, t, #[trigger] to[k])
}

/// Every trial of `to` comes from one of `from` or, with `fill`, was filled in.
#[verifier::opaque]
pub open spec fn all_come_from(
    done: bool,
    fill: bool,
    from: Seq<ParamTrial>,
    to: Seq<ParamTrial>,
) -> bool {
    forall|k: int|
        0 <= k < to.len() ==> comes_from(done, from, #[trigger] to[k]) || (fill && filled_in(
            done,
            to[k],
        ))
}

/// Every trial of `from` has become one of `to`.
#[verifier::opaque]
pub open spec fn all_go_to(done: bool, from: Seq<ParamTrial>, to: Seq<ParamTrial>) -> bool {
    forall|i: int| 0 <= i < from.len() ==> goes_to(done, #[trigger] from[i], to)
}

/// Every trial of `to` comes from one of `from` or, with `fill`, was filled in,
/// and every trial of `from` is still there.
pub open spec fn grown(
    done: bool,
    fill: bool,
    from: Seq<ParamTrial>,
    to: Seq<ParamTrial>,
) -> bool {
    all_come_from(done, fill, from, to) && all_go_to(done, from, to)
}

proof fn lemma_moved_chain(done: bool, a: ParamTrial, b: ParamTrial, c: ParamTrial)
    requires
        moved(false, a, b),
        moved(done, b, c),
    ensures
        moved(done, a, c),
{
}

proof fn lemma_comes_chain(
    done: bool,
    fill: bool,
    a: Seq<ParamTrial>,
    b: Seq<ParamTrial>,
    j: int,
    t: ParamTrial,
)
    requires
        0 <= j < b.len(),
        comes_from(false, a, b[j]) || (fill && filled_in(false, b[j])),
        moved(done, b[j], t),
    ensures
        comes_from(done, a, t) || (fill && filled_in(done, t)),
{
    if comes_from(false, a, b[j]) {
        let i = choose|i: int| 0 <= i < a.len() && moved(false, #[trigger] a[i], b[j]);
        lemma_moved_chain(done, a[i], b[j], t);
    }
}

proof fn lemma_goes_chain(
    done: bool,
    t: ParamTrial,
    b: Seq<ParamTrial>,
    j: int,
    c: Seq<ParamTrial>,
)
    requires
        0 <= j < b.len(),
        moved(false, t, b[j]),
        goes_to(done, b[j], c),
    ensures
        goes_to(done, t, c),
{
    let k = choose|k: int| 0 <= k < c.len() && moved(done, b[j], #[trigger] c[k]);
    lemma_moved_chain(done, t, b[j], c[k]);
}

proof fn lemma_grown_chain(
    done: bool,
    fill: bool,
    a: Seq<ParamTrial>,
    b: Seq<ParamTrial>,
    c: Seq<ParamTrial>,
)
    requires
        grown(false, fill, a, b),
        grown(done, fill, b, c),
    ensures
        grown(done, fill, a, c),
{
    assert(all_come_from(done, fill, a, c)) by {
        reveal(all_come_from);
        assert forall|k: int| 0 <= k < c.len() implies comes_from(done, a, #[trigger] c[k]) || (
        fill && filled_in(done, c[k])) by {
            if comes_from(done, b, c[k]) {
                let j = choose|j: int| 0 <= j < b.len() && moved(done, #[trigger] b[j], c[k]);
                lemma_comes_chain(done, fill, a, b, j, c[k]);
            }
        }
    }
    assert(all_go_to(done, a, c)) by {
        reveal(all_go_to);
        assert forall|i: int| 0 <= i < a.len() implies goes_to(done, #[trigger] a[i], c) by {
            assert(goes_to(false, a[i], b));
            let j = choose|j: int| 0 <= j < b.len() && moved(false, a[i], #[trigger] b[j]);
            assert(goes_to(done, b[j], c));
            lemma_goes_chain(done, a[i], b, j, c);
        }
    }
}

proof fn lemma_grown_in_place(done: bool, fill: bool, a: Seq<ParamTrial>, b: Seq<ParamTrial>)
    requires
        a.len() == b.len(),
        forall|k: int| 0 <= k < a.len() ==> moved(done, a[k], #[trigger] b[k]),
    ensures
        grown(done, fill, a, b),
{
    reveal(all_come_from);
    reveal(all_go_to);
    assert forall|k: int| 0 <= k < b.len() implies comes_from(done, a, #[trigger] b[k]) by {
        assert(moved(done, a[k], b[k]));
    }
    assert forall|k: int| 0 <= k < a.len() implies goes_to(done, #[trigger] a[k], b) by {
        assert(moved(done, a[k], b[k]));
    }
}

/// Sorting brings the same trials into another order.
pub(crate) proof fn lemma_sorted_same(s: Seq<ParamTrial>, entries: Seq<EntryView>)
    ensures
        ({
            let t = active::sorted_trials(false, s, s.len() as int, entries);
            &&& t.len() == s.len()
            &&& forall|k: int| 0 <= k < t.len() ==> s.contains(#[trigger] t[k])
            &&& forall|k: int| 0 <= k < s.len() ==> t.contains(#[trigger] s[k])
        }),
{
    let n = s.len() as int;
    let t = active::sorted_trials(false, s, n, entries);
    active::law_sort_keeps_trials(false, s, n, entries);
    assert(s.subrange(0, n) =~= s);
    assert forall|k: int| 0 <= k < t.len() implies s.contains(#[trigger] t[k]) by {
        t.to_multiset_ensures();
        s.to_multiset_ensures();
        assert(t.contains(t[k]));
        assert(s.to_multiset().count(t[k]) > 0);
    }
    assert forall|k: int| 0 <= k < s.len() implies t.contains(#[trigger] s[k]) by {
        t.to_multiset_ensures();
        s.to_multiset_ensures();
        assert(s.contains(s[k]));
        assert(t.to_multiset().count(s[k]) > 0);
    }
}

proof fn lemma_grown_sorted(fill: bool, s: Seq<ParamTrial>, entries: Seq<EntryView>)
    ensures
        grown(false, fill, s, active::sorted_trials(false, s, s.len() as int, entries)),
{
    reveal(all_come_from);
    reveal(all_go_to);
    let t = active::sorted_trials(false, s, s.len() as int, entries);
    lemma_sorted_same(s, entries);
    assert forall|k: int| 0 <= k < t.len() implies comes_from(false, s, #[trigger] t[k]) by {
        let i = s.index_of(t[k]);
        assert(s.contains(t[k]));
        assert(moved(false, s[i], t[k]));
    }
    assert forall|k: int| 0 <= k < s.len() implies goes_to(false, #[trigger] s[k], t) by {
        let i = t.index_of(s[k]);
        assert(t.contains(s[k]));
        assert(moved(false, s[k], t[i]));
    }
}

proof fn lemma_grown_filled(a: ActiveView, c: usize, addr: crate::space::Address, sz: i32)
    ensures
        grown(false, true, a.trial, fillin::with_unref(a, c, addr, sz).trial),
{
    reveal(all_come_from);
    reveal(all_go_to);
    let b = fillin::with_unref(a, c, addr, sz).trial;
    assert forall|k: int| 0 <= k < b.len() implies comes_from(false, a.trial, #[trigger] b[k])
        || filled_in(false, b[k]) by {
        if k < a.trial.len() {
            assert(moved(false, a.trial[k], b[k]));
        }
    }
    assert forall|k: int| 0 <= k < a.trial.len() implies goes_to(
        false,
        #[trigger] a.trial[k],
        b,
    ) by {
        assert(moved(false, a.trial[k], b[k]));
    }
}

proof fn lemma_grown_same(fill: bool, s: Seq<ParamTrial>)
    ensures
        grown(false, fill, s, s),
{
    lemma_grown_in_place(false, fill, s, s);
}

proof fn lemma_grown_slots(l: ListView, a: ActiveView, s: Seq<ParamTrial>, c: usize, n: int)
    ensures
        grown(false, true, a.trial, fillin::fill_slots(l, a, s, c, n).trial),
    decreases n,
{
    if n <= 0 {
        lemma_grown_same(true, a.trial);
    } else {
        lemma_grown_slots(l, a, s, c, n - 1);
        let rest = fillin::fill_slots(l, a, s, c, n - 1);
        if !fillin::slot_taken(l, s, s.len() as int, c, n - 1) {
            let e = l.entry[c as int];
            let addr = e.plain_addr((n - 1) as i32, e.alignment as int, 1, !e.left_justified());
            lemma_grown_filled(rest, c, addr, e.alignment);
            lemma_grown_chain(
                false,
                true,
                a.trial,
                rest.trial,
                fillin::with_unref(rest, c, addr, e.alignment).trial,
            );
        }
    }
}

proof fn lemma_grown_groups(l: ListView, a: ActiveView, s: Seq<ParamTrial>, n: int)
    ensures
        grown(false, true, a.trial, fillin::fill_groups(l, a, s, n).trial),
    decreases n,
{
    if n <= 0 {
        lemma_grown_same(true, a.trial);
    } else {
        lemma_grown_groups(l, a, s, n - 1);
        let rest = fillin::fill_groups(l, a, s, n - 1);
        let hit = fillin::group_hit(l, s, s.len() as int, n - 1);
        let pref = fillin::preferred_class(l, s);
        let out = fillin::fill_group(l, rest, hit, pref, n - 1);
        lemma_grown_same(true, rest.trial);
        match hit {
            None => match crate::paramlist::best_unref(
                l.entry,
                l.entry.len() as int,
                n - 1,
                pref,
            ) {
                Some(c) => {
                    let e = l.entry[c];
                    let sz = if e.exclusion() {
                        e.size
                    } else {
                        e.alignment
                    };
                    let addr = e.plain_addr(0, sz as int, 1, !e.left_justified());
                    lemma_grown_filled(rest, c as usize, addr, sz);
                },
                None => {},
            },
            Some(c) => {
                let m = fillin::slots_seen(l, rest.trial, rest.trial.len() as int, c);
                lemma_grown_slots(l, rest, rest.trial, c, m);
            },
        }
        lemma_grown_chain(false, true, a.trial, rest.trial, out.trial);
    }
}

pub(crate) proof fn lemma_grown_map(l: ListView, a: ActiveView)
    ensures
        grown(false, true, a.trial, fillin::trial_map(l, a).trial),
{
    let tagged = ActiveView { trial: fillin::tag_trials(l, a.trial), ..a };
    lemma_grown_in_place(false, true, a.trial, tagged.trial);
    let n = fillin::groups_seen(l, a.trial, a.trial.len() as int);
    let filled = fillin::fill_groups(l, tagged, a.trial, n);
    lemma_grown_groups(l, tagged, a.trial, n);
    lemma_grown_sorted(true, filled.trial, l.entry);
    lemma_grown_chain(false, true, a.trial, tagged.trial, filled.trial);
    lemma_grown_chain(false, true, a.trial, filled.trial, fillin::trial_map(l, a).trial);
}

/// Trials judged where they stand, with the entries that they are tied to.
pub open spec fn moved_in_place(done: bool, a: Seq<ParamTrial>, b: Seq<ParamTrial>) -> bool {
    a.len() == b.len() && forall|k: int|
        0 <= k < a.len() ==> moved(done, a[k], #[trigger] b[k]) && b[k].entry == a[k].entry
}

proof fn lemma_in_place_chain(
    done: bool,
    a: Seq<ParamTrial>,
    b: Seq<ParamTrial>,
    c: Seq<ParamTrial>,
)
    requires
        moved_in_place(false, a, b),
        moved_in_place(done, b, c),
    ensures
        moved_in_place(done, a, c),
{
    assert forall|k: int| 0 <= k < a.len() implies moved(done, a[k], #[trigger] c[k])
        && c[k].entry == a[k].entry by {
        assert(moved(false, a[k], b[k]));
        assert(moved(done, b[k], c[k]));
    }
}

pub(crate) proof fn lemma_exclusion_in_place(
    l: ListView,
    s: Seq<ParamTrial>,
    i: int,
    group: int,
    start: int,
    inactive: int,
)
    ensures
        moved_in_place(false, s, chains::exclusion_from(l, s, i, group, start, inactive)),
    decreases s.len() - i,
{
    chains::lemma_best_kept(l, s, group, start);
    if 0 <= i < s.len() {
        match s[i].entry {
            Some(x) => {
                let e = l.entry[x as int];
                if s[i].flags.defnouse || !e.exclusion() {
                    lemma_exclusion_in_place(l, s, i + 1, group, start, inactive);
                } else {
                    let fresh = e.group() != group;
                    let s1 = if fresh && inactive > 1 {
                        chains::best_kept(l, s, group, start)
                    } else {
                        s
                    };
                    let start1 = if fresh {
                        i
                    } else {
                        start
                    };
                    let inactive1 = if fresh {
                        0
                    } else {
                        inactive
                    };
                    assert(moved_in_place(false, s, s1));
                    chains::lemma_ruled_out(l, s1, i, start1);
                    if s[i].flags.active {
                        let s2 = chains::group_ruled_out(l, s1, i, start1);
                        lemma_exclusion_in_place(l, s2, i + 1, e.group(), start1, inactive1);
                        lemma_in_place_chain(false, s, s1, s2);
                        lemma_in_place_chain(
                            false,
                            s,
                            s2,
                            chains::exclusion_from(l, s, i, group, start, inactive),
                        );
                    } else {
                        lemma_exclusion_in_place(l, s1, i + 1, e.group(), start1, inactive1 + 1);
                        lemma_in_place_chain(
                            false,
                            s,
                            s1,
                            chains::exclusion_from(l, s, i, group, start, inactive),
                        );
                    }
                }
            },
            None => lemma_exclusion_in_place(l, s, i + 1, group, start, inactive),
        }
    }
}

proof fn lemma_no_use_in_place(
    l: ListView,
    s: Seq<ParamTrial>,
    i: int,
    stop: int,
    seen: bool,
    group: int,
    none: bool,
)
    ensures
        moved_in_place(false, s, chains::no_use_from(l, s, i, stop, seen, group, none)),
    decreases stop - i,
{
    if i < stop && 0 <= i < s.len() {
        match s[i].entry {
            None => lemma_no_use_in_place(l, s, i + 1, stop, seen, group, none),
            Some(x) => {
                let e = l.entry[x as int];
                let same = e.group() <= group && e.exclusion();
                let seen1 = seen || (!same && none);
                let none1 = s[i].flags.defnouse && (none || !same);
                let group1 = if same {
                    group
                } else {
                    e.group()
                };
                let s1 = if seen1 {
                    s.update(i, s[i].with_inactive())
                } else {
                    s
                };
                lemma_no_use_in_place(l, s1, i + 1, stop, seen1, group1, none1);
                lemma_in_place_chain(
                    false,
                    s,
                    s1,
                    chains::no_use_from(l, s, i, stop, seen, group, none),
                );
            },
        }
    }
}

proof fn lemma_no_use_sections_in_place(
    l: ListView,
    s: Seq<ParamTrial>,
    secs: Seq<Section>,
    n: int,
)
    ensures
        moved_in_place(false, s, chains::no_use_sections(l, s, secs, n)),
    decreases n,
{
    if 0 < n <= secs.len() {
        lemma_no_use_sections_in_place(l, s, secs, n - 1);
        let rest = chains::no_use_sections(l, s, secs, n - 1);
        lemma_no_use_in_place(
            l,
            rest,
            secs[n - 1].start as int,
            secs[n - 1].stop as int,
            false,
            -1,
            false,
        );
        lemma_in_place_chain(false, s, rest, chains::no_use_sections(l, s, secs, n));
    }
}

proof fn lemma_chain_in_place(
    l: ListView,
    a: ActiveView,
    maxchain: int,
    start: int,
    group: int,
    i: int,
    stop: int,
    c: ChainState,
)
    requires
        0 <= i,
        stop <= c.trials.len(),
    ensures
        moved_in_place(
            false,
            c.trials,
            chains::chain_from(l, a, maxchain, start, group, i, stop, c).trials,
        ),
    decreases stop - i,
{
    if i < stop {
        let d = chains::chain_step(l, a, maxchain, start, group, i, c);
        lemma_chain_in_place(l, a, maxchain, start, group, i + 1, stop, d);
        lemma_in_place_chain(
            false,
            c.trials,
            d.trials,
            chains::chain_from(l, a, maxchain, start, group, i, stop, c).trials,
        );
    }
}

/// The sections lie within the trials.
pub open spec fn sections_within(secs: Seq<Section>, n: nat) -> bool {
    forall|k: int| 0 <= k < secs.len() ==> (#[trigger] secs[k]).stop <= n
}

proof fn lemma_chain_sections_in_place(l: ListView, a: ActiveView, secs: Seq<Section>, n: int)
    requires
        sections_within(secs, a.trial.len()),
    ensures
        moved_in_place(false, a.trial, chains::chain_sections(l, a, secs, n).trial),
    decreases n,
{
    if 0 < n <= secs.len() {
        lemma_chain_sections_in_place(l, a, secs, n - 1);
        let rest = chains::chain_sections(l, a, secs, n - 1);
        let sec = secs[n - 1];
        let c0 = ChainState { trials: rest.trial, seen: false, length: 0, last: -1 };
        lemma_chain_in_place(
            l,
            rest,
            2,
            sec.start as int,
            sec.group as int,
            sec.start as int,
            sec.stop as int,
            c0,
        );
        let c = chains::chain_from(
            l,
            rest,
            2,
            sec.start as int,
            sec.group as int,
            sec.start as int,
            sec.stop as int,
            c0,
        );
        let out = chains::chain_sections(l, a, secs, n);
        assert(moved_in_place(false, c.trials, out.trial));
        lemma_in_place_chain(false, rest.trial, c.trials, out.trial);
        lemma_in_place_chain(false, a.trial, rest.trial, out.trial);
    }
}

proof fn lemma_starts_within(l: ListView, s: Seq<ParamTrial>, i: int, next: int)
    requires
        0 <= i,
    ensures
        chains::section_starts(l, s, i, next).len() >= 1,
        forall|k: int|
            0 <= k < chains::section_starts(l, s, i, next).len() ==> 0 <= #[trigger]
            chains::section_starts(l, s, i, next)[k] <= s.len(),
    decreases s.len() - i,
{
    if i < s.len() {
        lemma_starts_within(l, s, i + 1, next + 1);
        lemma_starts_within(l, s, i + 1, next);
    }
}

proof fn lemma_first_on_stack(s: Seq<ParamTrial>, i: int, stop: int)
    requires
        i <= stop,
    ensures
        i <= chains::first_on_stack(s, i, stop) <= stop,
    decreases stop - i,
{
    if !(i >= stop || i < 0 || i >= s.len() || chains::on_stack(s[i])) {
        lemma_first_on_stack(s, i + 1, stop);
    }
}

proof fn lemma_sections_of_within(
    l: ListView,
    s: Seq<ParamTrial>,
    split: bool,
    starts: Seq<int>,
    n: int,
)
    requires
        0 <= n < starts.len(),
        forall|k: int| 0 <= k < starts.len() ==> 0 <= #[trigger] starts[k] <= s.len(),
    ensures
        sections_within(chains::sections_of(l, s, split, starts, n), s.len()),
    decreases n,
{
    if n > 0 {
        lemma_sections_of_within(l, s, split, starts, n - 1);
        let before = chains::sections_of(l, s, split, starts, n - 1);
        let cut = chains::cut_section(
            l,
            s,
            split,
            starts[n - 1],
            starts[n],
            l.resource_start[n - 1],
        );
        let all = before + cut;
        assert forall|k: int| 0 <= k < all.len() implies (#[trigger] all[k]).stop <= s.len() by {
            if k < before.len() {
                assert(all[k] == before[k]);
            } else {
                assert(all[k] == cut[k - before.len()]);
                assert(0 <= starts[n] <= s.len());
            }
        }
    }
}

proof fn lemma_sections_within(l: ListView, s: Seq<ParamTrial>, split: bool)
    ensures
        sections_within(chains::sections(l, s, split), s.len()),
{
    lemma_starts_within(l, s, 0, 1);
    let starts = seq![0int] + chains::section_starts(l, s, 0, 1);
    assert forall|k: int| 0 <= k < starts.len() implies 0 <= #[trigger] starts[k] <= s.len() by {
        if k > 0 {
            assert(starts[k] == chains::section_starts(l, s, 0, 1)[k - 1]);
        }
    }
    lemma_sections_of_within(l, s, split, starts, starts.len() - 1);
}

/// The decision of a standard list changes mapped trials where they stand.
pub(crate) proof fn lemma_standard_in_place(l: ListView, a: ActiveView)
    ensures
        moved_in_place(
            true,
            fillin::trial_map(l, a).trial,
            chains::standard_fillin(l, a).trial,
        ),
        moved_in_place(
            true,
            chains::exclusion(l, fillin::trial_map(l, a).trial),
            chains::standard_fillin(l, a).trial,
        ),
{
    let mapped = fillin::trial_map(l, a);
    let excluded = chains::exclusion(l, mapped.trial);
    let secs = chains::sections(l, excluded, a.vararg_stack_split);
    let n = secs.len() as int;
    let bounded = ActiveView {
        trial: chains::no_use_sections(l, excluded, secs, n),
        ..mapped
    };
    let chained = chains::chain_sections(l, bounded, secs, n);
    let out = chains::active_used(chained.trial);
    lemma_exclusion_in_place(l, mapped.trial, 0, -1, -1, 0);
    lemma_sections_within(l, excluded, a.vararg_stack_split);
    lemma_no_use_sections_in_place(l, excluded, secs, n);
    lemma_chain_sections_in_place(l, bounded, secs, n);
    assert(moved_in_place(true, chained.trial, out));
    lemma_in_place_chain(false, excluded, bounded.trial, chained.trial);
    lemma_in_place_chain(true, excluded, chained.trial, out);
    lemma_in_place_chain(true, mapped.trial, excluded, out);
}

proof fn lemma_grown_search(l: ListView, s: Seq<ParamTrial>, first_only: bool, n: int)
    ensures
        grown(false, false, s, decide::search(l, s, first_only, n).trials),
    decreases n,
{
    if n <= 0 || n > l.entry.len() {
        lemma_grown_same(false, s);
    } else {
        lemma_grown_search(l, s, first_only, n - 1);
        let c = decide::search(l, s, first_only, n - 1);
        let i = n - 1;
        if !decide::passed_over(l.entry[i], first_only) {
            let tagged = c.trials.map_values(|t: ParamTrial| decide::tag_against(l, i, t));
            lemma_grown_in_place(false, false, c.trials, tagged);
            lemma_grown_chain(false, false, s, c.trials, tagged);
            lemma_grown_sorted(false, tagged, l.entry);
            lemma_grown_chain(
                false,
                false,
                s,
                tagged,
                active::sorted_trials(false, tagged, tagged.len() as int, l.entry),
            );
        }
    }
}

/// Sorting leaves what is true of all trials true of all trials.
proof fn lemma_grown_sorted_after(
    done: bool,
    fill: bool,
    a: Seq<ParamTrial>,
    b: Seq<ParamTrial>,
    entries: Seq<EntryView>,
)
    requires
        grown(done, fill, a, b),
    ensures
        grown(done, fill, a, active::sorted_trials(false, b, b.len() as int, entries)),
{
    reveal(all_come_from);
    reveal(all_go_to);
    let c = active::sorted_trials(false, b, b.len() as int, entries);
    lemma_sorted_same(b, entries);
    assert forall|k: int| 0 <= k < c.len() implies comes_from(done, a, #[trigger] c[k])
        || (fill && filled_in(done, c[k])) by {
        let j = b.index_of(c[k]);
        assert(b.contains(c[k]));
        assert(b[j] == c[k]);
    }
    assert forall|i: int| 0 <= i < a.len() implies goes_to(done, #[trigger] a[i], c) by {
        assert(goes_to(done, a[i], b));
        let j = choose|j: int| 0 <= j < b.len() && moved(done, a[i], #[trigger] b[j]);
        let k = c.index_of(b[j]);
        assert(c.contains(b[j]));
        assert(moved(done, a[i], c[k]));
    }
}

proof fn lemma_grown_fallback(l: ListView, a: ActiveView, first_only: bool)
    ensures
        grown(true, false, a.trial, decide::fallback_fillin(l, a, first_only).trial),
{
    let c = decide::search(l, a.trial, first_only, l.entry.len() as int);
    lemma_grown_search(l, a.trial, first_only, l.entry.len() as int);
    match c.best {
        None => {
            let out = c.trials.map_values(|t: ParamTrial| t.with_no_use());
            lemma_grown_in_place(true, false, c.trials, out);
            lemma_grown_chain(true, false, a.trial, c.trials, out);
        },
        Some(be) => {
            let out = c.trials.map_values(
                |t: ParamTrial| decide::return_verdict(l, be as int, t),
            );
            lemma_grown_in_place(true, false, c.trials, out);
            lemma_grown_chain(true, false, a.trial, c.trials, out);
            lemma_grown_sorted_after(true, false, a.trial, out, l.entry);
        },
    }
}

proof fn lemma_grown_output(l: ListView, a: ActiveView)
    ensures
        grown(true, false, a.trial, decide::output_fillin(l, a).trial),
{
    if a.trial.len() == 0 {
        lemma_grown_in_place(true, false, a.trial, a.trial);
    } else if l.use_fillin_fallback {
        lemma_grown_fallback(l, a, false);
    } else {
        let tags = a.trial.map_values(|t: ParamTrial| decide::tag_output(l, t));
        let tagged = fillin::in_formal_order(l, ActiveView { trial: tags, ..a });
        lemma_grown_in_place(false, false, a.trial, tags);
        lemma_grown_sorted_after(false, false, a.trial, tags, l.entry);
        lemma_grown_fallback(l, tagged, true);
        let searched = decide::fallback_fillin(l, tagged, true).trial;
        lemma_grown_chain(true, false, a.trial, tagged.trial, searched);
        let out = tagged.trial.map_values(|t: ParamTrial| decide::recognised(t));
        lemma_grown_in_place(true, false, tagged.trial, out);
        lemma_grown_chain(true, false, a.trial, tagged.trial, out);
    }
}

/// Deciding on trials accounts for every one of them: none is lost, none gets
/// other storage or another slot, and what is new, which only an ordered list
/// of inputs adds, stands for storage without a reference. A trial that was
/// ruled out stays ruled out, and one that becomes a parameter is active.
pub proof fn law_trials_accounted(l: ListView, a: ActiveView)
    requires
        decide::decided(l, a) is Ok,
    ensures
        grown(
            true,
            l.kind == ParamListKind::Standard,
            a.trial,
            decide::decided(l, a)->Ok_0.trial,
        ),
{
    lemma_grown_in_place(true, l.kind == ParamListKind::Standard, a.trial, a.trial);
    match l.kind {
        ParamListKind::Merged => {},
        ParamListKind::Standard => {
            lemma_grown_map(l, a);
            lemma_standard_in_place(l, a);
            let mapped = fillin::trial_map(l, a).trial;
            let out = chains::standard_fillin(l, a).trial;
            lemma_grown_in_place(true, true, mapped, out);
            lemma_grown_chain(true, true, a.trial, mapped, out);
        },
        ParamListKind::Register => {
            let out = a.trial.map_values(|t: ParamTrial| decide::register_verdict(l, t));
            lemma_grown_in_place(true, false, a.trial, out);
            lemma_grown_sorted_after(true, false, a.trial, out, l.entry);
        },
        _ => lemma_grown_output(l, a),
    }
}

/// Every active trial is a parameter.
pub open spec fn active_are_used(s: Seq<ParamTrial>) -> bool {
    forall|k: int| 0 <= k < s.len() ==> ((#[trigger] s[k]).flags.active ==> s[k].flags.used)
}

proof fn lemma_sorted_used(s: Seq<ParamTrial>, entries: Seq<EntryView>)
    requires
        active_are_used(s),
    ensures
        active_are_used(active::sorted_trials(false, s, s.len() as int, entries)),
{
    let t = active::sorted_trials(false, s, s.len() as int, entries);
    lemma_sorted_same(s, entries);
    assert forall|k: int| 0 <= k < t.len() && (#[trigger] t[k]).flags.active implies
        t[k].flags.used by {
        let j = s.index_of(t[k]);
        assert(s.contains(t[k]));
        assert(s[j] == t[k]);
    }
}

/// Once trials are decided on, the active ones are the parameters.
pub proof fn law_active_are_used(l: ListView, a: ActiveView)
    requires
        decide::decided(l, a) is Ok,
    ensures
        active_are_used(decide::decided(l, a)->Ok_0.trial),
        none_used(a.trial) ==> used_are_active(decide::decided(l, a)->Ok_0.trial),
{
    let out = decide::decided(l, a)->Ok_0.trial;
    law_trials_accounted(l, a);
    match l.kind {
        ParamListKind::Register => {
            lemma_sorted_used(
                a.trial.map_values(|t: ParamTrial| decide::register_verdict(l, t)),
                l.entry,
            );
        },
        ParamListKind::Standard | ParamListKind::Merged => {},
        _ => {
            lemma_fallback_decides(l, a, false);
            let tags = a.trial.map_values(|t: ParamTrial| decide::tag_output(l, t));
            let tagged = fillin::in_formal_order(l, ActiveView { trial: tags, ..a });
            lemma_fallback_decides(l, tagged, true);
        },
    }
    if none_used(a.trial) {
        lemma_used_active(l.kind == ParamListKind::Standard, a.trial, out);
    }
}

/// No trial is a parameter.
pub open spec fn none_used(s: Seq<ParamTrial>) -> bool {
    forall|k: int| 0 <= k < s.len() ==> !(#[trigger] s[k]).flags.used
}

/// The parameters are exactly the active trials.
pub open spec fn used_are_active(s: Seq<ParamTrial>) -> bool {
    forall|k: int| 0 <= k < s.len() ==> (#[trigger] s[k]).flags.used == s[k].flags.active
}

proof fn lemma_used_active(fill: bool, a: Seq<ParamTrial>, out: Seq<ParamTrial>)
    requires
        grown(true, fill, a, out),
        none_used(a),
        active_are_used(out),
    ensures
        used_are_active(out),
{
    reveal(all_come_from);
    assert forall|k: int| 0 <= k < out.len() implies (#[trigger] out[k]).flags.used
        == out[k].flags.active by {
        if comes_from(true, a, out[k]) {
            let i = choose|i: int| 0 <= i < a.len() && moved(true, #[trigger] a[i], out[k]);
            assert(!a[i].flags.used);
        }
    }
}

/// Every trial is an active parameter or ruled out.
pub open spec fn all_decided(s: Seq<ParamTrial>) -> bool {
    forall|k: int|
        0 <= k < s.len() ==> ruled_out(#[trigger] s[k]) || (s[k].flags.used && s[k].flags.active)
}

proof fn lemma_fallback_decides(l: ListView, a: ActiveView, first_only: bool)
    ensures
        all_decided(decide::fallback_fillin(l, a, first_only).trial),
        exists|be: usize| #[trigger]
            one_entry(l, decide::fallback_fillin(l, a, first_only).trial, be),
{
    let c = decide::search(l, a.trial, first_only, l.entry.len() as int);
    match c.best {
        None => {
            assert(one_entry(l, decide::fallback_fillin(l, a, first_only).trial, 0));
        },
        Some(be) => {
            let out = c.trials.map_values(
                |t: ParamTrial| decide::return_verdict(l, be as int, t),
            );
            lemma_sorted_same(out, l.entry);
            let t = active::sorted_trials(false, out, out.len() as int, l.entry);
            assert forall|k: int| 0 <= k < t.len() implies ruled_out(#[trigger] t[k]) || (
            t[k].flags.used && t[k].flags.active && t[k].entry == Some(be)
                && l.entry[be as int].justified(t[k].addr, t[k].size as int) >= 0) by {
                let j = out.index_of(t[k]);
                assert(out.contains(t[k]));
                assert(out[j] == t[k]);
            }
            assert(one_entry(l, t, be));
        },
    }
}

/// The parameters all lie in the entry at `be`.
pub open spec fn one_entry(l: ListView, s: Seq<ParamTrial>, be: usize) -> bool {
    forall|k: int|
        0 <= k < s.len() && (#[trigger] s[k]).flags.used ==> s[k].entry == Some(be)
            && l.entry[be as int].justified(s[k].addr, s[k].size as int) >= 0
}

/// The list is one of return values.
pub open spec fn of_outputs(l: ListView) -> bool {
    l.kind != ParamListKind::Merged && l.kind != ParamListKind::Standard && l.kind
        != ParamListKind::Register
}

/// A list of return values leaves no trial open: each is part of the return
/// value or ruled out. Decided by searching the entries, all parts lie in one
/// entry.
pub proof fn law_return_trials_decided(l: ListView, a: ActiveView)
    requires
        of_outputs(l),
    ensures
        all_decided(decide::output_fillin(l, a).trial),
        l.use_fillin_fallback && a.trial.len() > 0 ==> exists|be: usize| #[trigger]
            one_entry(l, decide::output_fillin(l, a).trial, be),
{
    lemma_fallback_decides(l, a, false);
    let tags = a.trial.map_values(|t: ParamTrial| decide::tag_output(l, t));
    let tagged = fillin::in_formal_order(l, ActiveView { trial: tags, ..a });
    lemma_fallback_decides(l, tagged, true);
}

/// No trial of the section is ruled out and active at once.
pub open spec fn consistent(s: Seq<ParamTrial>, start: int, stop: int) -> bool {
    forall|k: int| start <= k < stop ==> ((#[trigger] s[k]).flags.defnouse ==> !s[k].flags.active)
}

/// Behind `last`, and before `i`, nothing is active.
pub open spec fn quiet_between(s: Seq<ParamTrial>, last: int, start: int, i: int) -> bool {
    forall|k: int| start <= k < i && last < k ==> !(#[trigger] s[k]).flags.active
}

proof fn lemma_chain_quiet(
    l: ListView,
    a: ActiveView,
    maxchain: int,
    start: int,
    group: int,
    i: int,
    stop: int,
    c: ChainState,
)
    requires
        0 <= start <= i,
        stop <= c.trials.len(),
        consistent(c.trials, start, stop),
        c.last < i,
        quiet_between(c.trials, c.last, start, i),
    ensures
        ({
            let d = chains::chain_from(l, a, maxchain, start, group, i, stop, c);
            &&& consistent(d.trials, start, stop)
            &&& quiet_between(d.trials, d.last, start, stop)
            &&& d.trials.len() == c.trials.len()
        }),
    decreases stop - i,
{
    if i < stop {
        let d = chains::chain_step(l, a, maxchain, start, group, i, c);
        lemma_chain_quiet(l, a, maxchain, start, group, i + 1, stop, d);
    }
}

/// The parameters of a section have no gap: up to the last trial that counts
/// as active every trial is active unless it is ruled out, and none behind it
/// is.
pub proof fn law_no_gap(l: ListView, a: ActiveView, maxchain: int, sec: Section)
    requires
        sec.stop <= a.trial.len(),
        consistent(a.trial, sec.start as int, sec.stop as int),
    ensures
        exists|last: int| #[trigger]
            closed_at(chains::chained(l, a, maxchain, sec).trial, sec, last),
{
    let c = chains::chain_from(
        l,
        a,
        maxchain,
        sec.start as int,
        sec.group as int,
        sec.start as int,
        sec.stop as int,
        ChainState { trials: a.trial, seen: false, length: 0, last: -1 },
    );
    lemma_chain_quiet(
        l,
        a,
        maxchain,
        sec.start as int,
        sec.group as int,
        sec.start as int,
        sec.stop as int,
        ChainState { trials: a.trial, seen: false, length: 0, last: -1 },
    );
    assert(closed_at(chains::chained(l, a, maxchain, sec).trial, sec, c.last));
}

/// The active trials of the section are those up to `last` that are not ruled
/// out.
pub open spec fn closed_at(s: Seq<ParamTrial>, sec: Section, last: int) -> bool {
    forall|k: int|
        sec.start <= k < sec.stop ==> (#[trigger] s[k]).flags.active == (k <= last
            && !s[k].flags.defnouse)
}

} // verus!
