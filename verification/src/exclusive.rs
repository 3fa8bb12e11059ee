//! Of the trials that exclude each other, at most one becomes a parameter.
use crate::active;
use crate::active::ActiveView;
use crate::chains;
use crate::dtype::TypeClass;
use crate::entry::EntryView;
use crate::fillin;
use crate::paramlist;
use crate::paramlist::ListView;
use crate::trial::ParamTrial;
use crate::verdict;
use vstd::prelude::*;

verus! {

/// Every entry belongs to one group.
pub open spec fn single_groups(l: ListView) -> bool {
    l.wf() && forall|k: int|
        0 <= k < l.entry.len() ==> (#[trigger] l.entry[k]).group_set.len() == 1
}

/// Trials that name entries of the list, those without an entry being ruled
/// out.
pub open spec fn mapped(l: ListView, s: Seq<ParamTrial>) -> bool {
    &&& fillin::tied(l, s)
    &&& forall|k: int| 0 <= k < s.len() ==> ((#[trigger] s[k]).entry is None ==> s[k].flags.defnouse)
}

/// The group of the entry that the trial is tied to.
pub open spec fn group_of(l: ListView, t: ParamTrial) -> int {
    l.entry[t.entry->0 as int].group()
}

/// The group of `a` does not come after that of `b`; a trial without an entry
/// comes last.
pub open spec fn not_after(l: ListView, a: ParamTrial, b: ParamTrial) -> bool {
    b.entry is Some ==> a.entry is Some && group_of(l, a) <= group_of(l, b)
}

/// The trials are ordered by group.
pub open spec fn by_group(l: ListView, s: Seq<ParamTrial>) -> bool {
    forall|i: int, j: int|
        0 <= i < j < s.len() ==> not_after(l, #[trigger] s[i], #[trigger] s[j])
}

/// The trial is tied to an entry of group `g` and not ruled out.
pub open spec fn open_in(l: ListView, t: ParamTrial, g: int) -> bool {
    t.entry is Some && !t.flags.defnouse && group_of(l, t) == g
}

/// The trial is not ruled out, and its entry excludes others.
pub open spec fn open_exclusive(l: ListView, t: ParamTrial) -> bool {
    t.entry is Some && !t.flags.defnouse && l.entry[t.entry->0 as int].exclusion()
}

/// The trials from `start` on that are not ruled out are of group `g` or of a
/// later one.
pub open spec fn from_group(l: ListView, s: Seq<ParamTrial>, start: int, g: int) -> bool {
    forall|k: int|
        start <= k < s.len() && !(#[trigger] s[k]).flags.defnouse ==> group_of(l, s[k]) >= g
}

/// The same trials, some of them ruled out.
pub open spec fn thinned(s: Seq<ParamTrial>, r: Seq<ParamTrial>) -> bool {
    r.len() == s.len() && forall|k: int|
        0 <= k < s.len() ==> #[trigger] r[k] == s[k] || r[k] == s[k].with_no_use()
}

pub(crate) proof fn lemma_thinned_keeps(l: ListView, s: Seq<ParamTrial>, r: Seq<ParamTrial>)
    requires
        mapped(l, s),
        by_group(l, s),
        thinned(s, r),
    ensures
        mapped(l, r),
        by_group(l, r),
{
    assert forall|k: int| 0 <= k < r.len() implies crate::trial::entry_ok(
        #[trigger] r[k],
        l.entry.len(),
    ) by {
        assert(crate::trial::entry_ok(s[k], l.entry.len()));
    }
    assert forall|i: int, j: int| 0 <= i < j < r.len() implies not_after(
        l,
        #[trigger] r[i],
        #[trigger] r[j],
    ) by {
        assert(not_after(l, s[i], s[j]));
    }
}

/// Entries of one group each share a group when it is the same.
proof fn lemma_shares(l: ListView, x: usize, y: usize)
    requires
        single_groups(l),
        x < l.entry.len(),
        y < l.entry.len(),
    ensures
        l.entry[x as int].shares_group(l.entry[y as int]) == (l.entry[x as int].group()
            == l.entry[y as int].group()),
{
    let a = l.entry[x as int];
    let b = l.entry[y as int];
    assert(a.group_set.len() == 1 && b.group_set.len() == 1);
    if a.group() == b.group() {
        assert(a.group_set[0] == b.group_set[0]);
    }
}

/// Ruling out the rest of a group leaves one trial of it.
pub(crate) proof fn lemma_group_thinned(l: ListView, s: Seq<ParamTrial>, a: int, i: int, g: int)
    requires
        single_groups(l),
        mapped(l, s),
        by_group(l, s),
        0 <= i <= s.len(),
        0 <= a < s.len(),
        s[a].entry is Some,
        group_of(l, s[a]) == g,
        from_group(l, s, i, g),
    ensures
        ({
            let r = chains::group_ruled_out(l, s, a, i);
            &&& thinned(s, r)
            &&& r[a] == s[a]
            &&& forall|k: int|
                i <= k < s.len() && k != a ==> !open_in(l, #[trigger] r[k], g)
            &&& forall|k: int|
                0 <= k < s.len() && !open_in(l, s[k], g) ==> #[trigger] r[k] == s[k]
        }),
    decreases s.len() - i,
{
    if i < s.len() {
        assert(crate::trial::entry_ok(s[i], l.entry.len()));
        assert(crate::trial::entry_ok(s[a], l.entry.len()));
        if i == a || s[i].flags.defnouse {
            lemma_group_thinned(l, s, a, i + 1, g);
        } else {
            let x = s[i].entry->0;
            lemma_shares(l, x, s[a].entry->0);
            if group_of(l, s[i]) == g {
                let s1 = s.update(i, s[i].with_no_use());
                lemma_thinned_keeps(l, s, s1);
                lemma_group_thinned(l, s1, a, i + 1, g);
            } else {
                assert forall|k: int| i <= k < s.len() implies !open_in(l, #[trigger] s[k], g) by {
                    if k > i {
                        assert(not_after(l, s[i], s[k]));
                    }
                }
            }
        }
    }
}

proof fn lemma_best_found(
    l: ListView,
    s: Seq<ParamTrial>,
    g: int,
    pref: TypeClass,
    i: int,
    best: Option<int>,
    score: int,
)
    requires
        single_groups(l),
        mapped(l, s),
        by_group(l, s),
        0 <= i <= s.len(),
        from_group(l, s, i, g),
        best is None ==> score == -1,
        best matches Some(b) ==> 0 <= b < s.len() && open_in(l, s[b], g),
    ensures
        ({
            let r = chains::best_inactive(l, s, g, pref, i, best, score);
            &&& r matches Some(b) ==> 0 <= b < s.len() && open_in(l, s[b], g)
            &&& r is None ==> forall|k: int|
                i <= k < s.len() ==> !open_in(l, #[trigger] s[k], g)
            &&& best is Some ==> r is Some
        }),
    decreases s.len() - i,
{
    if i < s.len() {
        if s[i].flags.defnouse {
            lemma_best_found(l, s, g, pref, i + 1, best, score);
        } else {
            assert(crate::trial::entry_ok(s[i], l.entry.len()));
            let e = l.entry[s[i].entry->0 as int];
            assert(e.group_set.len() == 1);
            if e.group() != g {
                assert forall|k: int| i <= k < s.len() implies !open_in(l, #[trigger] s[k], g) by {
                    if k > i {
                        assert(not_after(l, s[i], s[k]));
                    }
                }
            } else {
                let sc = chains::inactive_score(s[i], e, pref);
                if sc > score {
                    lemma_best_found(l, s, g, pref, i + 1, Some(i), sc);
                } else {
                    lemma_best_found(l, s, g, pref, i + 1, best, score);
                }
            }
        }
    }
}

/// At most one trial from `start` on is open in group `g`.
pub open spec fn one_open_in(l: ListView, s: Seq<ParamTrial>, start: int, g: int) -> bool {
    forall|a: int, b: int|
        start <= a < b < s.len() ==> !(open_in(l, #[trigger] s[a], g) && open_in(
            l,
            #[trigger] s[b],
            g,
        ))
}

pub(crate) proof fn lemma_best_kept_one(l: ListView, s: Seq<ParamTrial>, g: int, start: int)
    requires
        single_groups(l),
        mapped(l, s),
        by_group(l, s),
        0 <= start <= s.len(),
        from_group(l, s, start, g),
    ensures
        ({
            let r = chains::best_kept(l, s, g, start);
            &&& thinned(s, r)
            &&& one_open_in(l, r, start, g)
            &&& forall|k: int|
                0 <= k < s.len() && !open_in(l, s[k], g) ==> #[trigger] r[k] == s[k]
        }),
{
    lemma_best_found(l, s, g, TypeClass::General, start, None, -1);
    match chains::best_inactive(l, s, g, TypeClass::General, start, None, -1) {
        Some(b) => lemma_group_thinned(l, s, b, start, g),
        None => {},
    }
}

/// No two trials before `i` that exclude others are open in one group, the
/// group `g` left out.
pub open spec fn settled(l: ListView, s: Seq<ParamTrial>, i: int, g: int) -> bool {
    forall|a: int, b: int|
        0 <= a < b < i && open_exclusive(l, #[trigger] s[a]) && open_exclusive(l, #[trigger] s[b])
            && group_of(l, s[a]) == group_of(l, s[b]) ==> group_of(l, s[a]) == g
}

/// No two trials before `i` that exclude others are open in one group.
pub open spec fn one_per_group(l: ListView, s: Seq<ParamTrial>, i: int) -> bool {
    forall|a: int, b: int|
        0 <= a < b < i && open_exclusive(l, #[trigger] s[a]) && open_exclusive(l, #[trigger] s[b])
            ==> group_of(l, s[a]) != group_of(l, s[b])
}

/// How far the current group is settled: an active trial has ruled the others
/// out, or there are as many open trials as inactive ones were counted.
pub open spec fn counted(
    l: ListView,
    s: Seq<ParamTrial>,
    i: int,
    g: int,
    start: int,
    inactive: int,
) -> bool {
    ||| one_open_in(l, s, start, g)
    ||| {
        &&& inactive == 0 ==> forall|k: int|
            start <= k < i ==> !(open_exclusive(l, #[trigger] s[k]) && group_of(l, s[k]) == g)
        &&& inactive == 1 ==> forall|a: int, b: int|
            start <= a < b < i ==> !(open_exclusive(l, #[trigger] s[a]) && group_of(l, s[a]) == g
                && open_exclusive(l, #[trigger] s[b]) && group_of(l, s[b]) == g)
    }
}

/// The state of the walk at trial `i`.
pub open spec fn walking(
    l: ListView,
    s: Seq<ParamTrial>,
    i: int,
    g: int,
    start: int,
    inactive: int,
) -> bool {
    &&& mapped(l, s)
    &&& by_group(l, s)
    &&& 0 <= i <= s.len()
    &&& inactive >= 0
    &&& settled(l, s, i, g)
    &&& forall|k: int|
        0 <= k < i && open_exclusive(l, #[trigger] s[k]) ==> group_of(l, s[k]) <= g
    &&& if g == -1 {
        start == -1 && inactive == 0
    } else {
        &&& 0 <= start < i
        &&& s[start].entry is Some
        &&& group_of(l, s[start]) == g
        &&& counted(l, s, i, g, start, inactive)
        &&& forall|k: int|
            0 <= k < start && open_exclusive(l, #[trigger] s[k]) ==> group_of(l, s[k]) < g
    }
}

pub(crate) proof fn lemma_from_start(l: ListView, s: Seq<ParamTrial>, start: int, g: int)
    requires
        mapped(l, s),
        by_group(l, s),
        0 <= start < s.len(),
        s[start].entry is Some,
        group_of(l, s[start]) == g,
    ensures
        from_group(l, s, start, g),
{
    assert forall|k: int| start <= k < s.len() && !(#[trigger] s[k]).flags.defnouse implies
        group_of(l, s[k]) >= g by {
        if k > start {
            assert(not_after(l, s[start], s[k]));
        }
    }
}

/// The current group closed: at most one of its trials is left.
pub open spec fn closed(l: ListView, s: Seq<ParamTrial>, g: int, start: int, inactive: int) -> Seq<
    ParamTrial,
> {
    if inactive > 1 {
        chains::best_kept(l, s, g, start)
    } else {
        s
    }
}

pub(crate) proof fn lemma_closed(
    l: ListView,
    s: Seq<ParamTrial>,
    i: int,
    g: int,
    start: int,
    inactive: int,
)
    requires
        single_groups(l),
        walking(l, s, i, g, start, inactive),
    ensures
        ({
            let r = closed(l, s, g, start, inactive);
            &&& thinned(s, r)
            &&& one_per_group(l, r, i)
            &&& mapped(l, r)
            &&& by_group(l, r)
            &&& forall|k: int| i <= k < s.len() && !open_in(l, s[k], g) ==> #[trigger] r[k] == s[k]
        }),
{
    let r = closed(l, s, g, start, inactive);
    if g != -1 {
        lemma_from_start(l, s, start, g);
        if inactive > 1 {
            lemma_best_kept_one(l, s, g, start);
        }
    }
    lemma_thinned_keeps(l, s, r);
    assert forall|a: int, b: int|
        0 <= a < b < i && open_exclusive(l, #[trigger] r[a]) && open_exclusive(
            l,
            #[trigger] r[b],
        ) implies group_of(l, r[a]) != group_of(l, r[b]) by {
        assert(open_exclusive(l, s[a]) && open_exclusive(l, s[b]));
        if group_of(l, s[a]) == group_of(l, s[b]) {
            assert(group_of(l, s[a]) == g);
            if g != -1 {
                assert(a >= start);
                assert(open_in(l, r[a], g) && open_in(l, r[b], g));
            } else {
                assert(crate::trial::entry_ok(s[a], l.entry.len()));
                assert(l.entry[s[a].entry->0 as int].group_set[0] >= 0);
            }
        }
    }
}

/// A trial that takes no part in exclusion is passed over.
pub(crate) proof fn lemma_passed(
    l: ListView,
    s: Seq<ParamTrial>,
    i: int,
    g: int,
    start: int,
    inactive: int,
)
    requires
        walking(l, s, i, g, start, inactive),
        i < s.len(),
        !open_exclusive(l, s[i]),
    ensures
        walking(l, s, i + 1, g, start, inactive),
{
}

/// The walk at a trial of another group than before, once that is closed.
pub(crate) proof fn lemma_next_group(l: ListView, s: Seq<ParamTrial>, i: int, g: int, start: int, inactive: int)
    requires
        single_groups(l),
        walking(l, s, i, g, start, inactive),
        i < s.len(),
        open_exclusive(l, s[i]),
        group_of(l, s[i]) != g,
    ensures
        ({
            let r = closed(l, s, g, start, inactive);
            let h = group_of(l, s[i]);
            &&& r.len() == s.len()
            &&& r[i] == s[i]
            &&& h >= 0
            &&& mapped(l, r)
            &&& by_group(l, r)
            &&& one_per_group(l, r, i)
            &&& forall|k: int|
                0 <= k < i && open_exclusive(l, #[trigger] r[k]) ==> group_of(l, r[k]) < h
        }),
{
    lemma_closed(l, s, i, g, start, inactive);
    let r = closed(l, s, g, start, inactive);
    let h = group_of(l, s[i]);
    assert(crate::trial::entry_ok(s[i], l.entry.len()));
    assert(l.entry[s[i].entry->0 as int].group_set[0] >= 0);
    if g != -1 {
        assert(not_after(l, s[start], s[i]));
    }
    assert forall|k: int| 0 <= k < i && open_exclusive(l, #[trigger] r[k]) implies group_of(
        l,
        r[k],
    ) < h by {
        assert(open_exclusive(l, s[k]));
        assert(group_of(l, s[k]) <= g);
    }
}

/// An active trial rules out the rest of its group.
pub(crate) proof fn lemma_active_alone(l: ListView, s: Seq<ParamTrial>, i: int, g: int, start: int, inactive: int)
    requires
        single_groups(l),
        mapped(l, s),
        by_group(l, s),
        0 <= start <= i < s.len(),
        inactive >= 0,
        g >= 0,
        s[start].entry is Some,
        group_of(l, s[start]) == g,
        open_exclusive(l, s[i]),
        group_of(l, s[i]) == g,
        settled(l, s, i, g),
        forall|k: int| 0 <= k < i && open_exclusive(l, #[trigger] s[k]) ==> group_of(l, s[k]) <= g,
        forall|k: int|
            0 <= k < start && open_exclusive(l, #[trigger] s[k]) ==> group_of(l, s[k]) < g,
    ensures
        chains::group_ruled_out(l, s, i, start).len() == s.len(),
        walking(l, chains::group_ruled_out(l, s, i, start), i + 1, g, start, inactive),
{
    lemma_from_start(l, s, start, g);
    lemma_group_thinned(l, s, i, start, g);
    let r = chains::group_ruled_out(l, s, i, start);
    lemma_thinned_keeps(l, s, r);
    assert forall|k: int| 0 <= k < s.len() && open_exclusive(l, #[trigger] r[k]) implies
        open_exclusive(l, s[k]) && group_of(l, s[k]) == group_of(l, r[k]) by {}
    assert(one_open_in(l, r, start, g));
    assert forall|a: int, b: int|
        0 <= a < b < i + 1 && open_exclusive(l, #[trigger] r[a]) && open_exclusive(
            l,
            #[trigger] r[b],
        ) && group_of(l, r[a]) == group_of(l, r[b]) implies group_of(l, r[a]) == g by {
        assert(open_exclusive(l, s[a]) && open_exclusive(l, s[b]));
    }
}

proof fn lemma_exclusion(
    l: ListView,
    s: Seq<ParamTrial>,
    i: int,
    g: int,
    start: int,
    inactive: int,
)
    requires
        single_groups(l),
        walking(l, s, i, g, start, inactive),
    ensures
        ({
            let r = chains::exclusion_from(l, s, i, g, start, inactive);
            r.len() == s.len() && one_per_group(l, r, s.len() as int)
        }),
    decreases s.len() - i,
{
    if i >= s.len() {
        lemma_closed(l, s, i, g, start, inactive);
    } else if !open_exclusive(l, s[i]) {
        lemma_passed(l, s, i, g, start, inactive);
        lemma_exclusion(l, s, i + 1, g, start, inactive);
    } else {
        let h = group_of(l, s[i]);
        let fresh = h != g;
        let s1 = if fresh {
            closed(l, s, g, start, inactive)
        } else {
            s
        };
        let start1 = if fresh {
            i
        } else {
            start
        };
        let inactive1 = if fresh {
            0
        } else {
            inactive
        };
        if fresh {
            lemma_next_group(l, s, i, g, start, inactive);
        } else {
            assert(crate::trial::entry_ok(s[i], l.entry.len()));
            assert(l.entry[s[i].entry->0 as int].group_set[0] >= 0);
        }
        if s[i].flags.active {
            lemma_active_alone(l, s1, i, h, start1, inactive1);
            lemma_exclusion(
                l,
                chains::group_ruled_out(l, s1, i, start1),
                i + 1,
                h,
                start1,
                inactive1,
            );
        } else {
            assert(walking(l, s1, i + 1, h, start1, inactive1 + 1));
            lemma_exclusion(l, s1, i + 1, h, start1, inactive1 + 1);
        }
    }
}

/// Of the trials of a group that exclude each other, at most one is left that
/// is not ruled out.
pub proof fn law_exclusion(l: ListView, s: Seq<ParamTrial>)
    requires
        single_groups(l),
        mapped(l, s),
        by_group(l, s),
    ensures
        chains::exclusion(l, s).len() == s.len(),
        one_per_group(l, chains::exclusion(l, s), s.len() as int),
{
    lemma_exclusion(l, s, 0, -1, -1, 0);
}

proof fn lemma_found(l: ListView, k: int, t: ParamTrial)
    requires
        l.wf(),
        0 <= k,
    ensures
        l.find_from(k, t.addr, t.size as int, true) matches Some(e) ==> e < l.entry.len(),
    decreases l.resolver.len() - k,
{
    if k < l.resolver.len() {
        lemma_found(l, k + 1, t);
    }
}

proof fn lemma_hit(l: ListView, s: Seq<ParamTrial>, n: int, g: int)
    requires
        l.wf(),
    ensures
        fillin::group_hit(l, s, n, g) matches Some(e) ==> e < l.entry.len(),
    decreases n,
{
    if 0 < n <= s.len() {
        lemma_hit(l, s, n - 1, g);
        lemma_found(l, 0, s[n - 1]);
    }
}

proof fn lemma_best_unref(s: Seq<EntryView>, n: int, g: int, pref: TypeClass)
    ensures
        paramlist::best_unref(s, n, g, pref) matches Some(c) ==> 0 <= c < s.len(),
    decreases n,
{
    if 0 < n <= s.len() {
        lemma_best_unref(s, n - 1, g, pref);
    }
}

proof fn lemma_slots_mapped(l: ListView, a: ActiveView, s: Seq<ParamTrial>, c: usize, n: int)
    requires
        mapped(l, a.trial),
        c < l.entry.len(),
    ensures
        mapped(l, fillin::fill_slots(l, a, s, c, n).trial),
    decreases n,
{
    if n > 0 {
        lemma_slots_mapped(l, a, s, c, n - 1);
    }
}

proof fn lemma_groups_mapped(l: ListView, a: ActiveView, s: Seq<ParamTrial>, n: int)
    requires
        l.wf(),
        l.entry.len() <= usize::MAX,
        mapped(l, a.trial),
    ensures
        mapped(l, fillin::fill_groups(l, a, s, n).trial),
    decreases n,
{
    if n > 0 {
        lemma_groups_mapped(l, a, s, n - 1);
        let rest = fillin::fill_groups(l, a, s, n - 1);
        lemma_hit(l, s, s.len() as int, n - 1);
        lemma_best_unref(
            l.entry,
            l.entry.len() as int,
            n - 1,
            fillin::preferred_class(l, s),
        );
        match fillin::group_hit(l, s, s.len() as int, n - 1) {
            Some(c) => lemma_slots_mapped(
                l,
                rest,
                rest.trial,
                c,
                fillin::slots_seen(l, rest.trial, rest.trial.len() as int, c),
            ),
            None => {},
        }
    }
}

/// Formal order is an order by group.
pub(crate) proof fn lemma_sorted_by_group(l: ListView, s: Seq<ParamTrial>, n: int)
    requires
        0 <= n <= s.len(),
    ensures
        active::sorted_trials(false, s, n, l.entry).len() == n,
        by_group(l, active::sorted_trials(false, s, n, l.entry)),
    decreases n,
{
    if n > 0 {
        lemma_sorted_by_group(l, s, n - 1);
        let rest = active::sorted_trials(false, s, n - 1, l.entry);
        let x = s[n - 1];
        let p = active::insert_position(false, rest, rest.len() as int, x, l.entry);
        active::lemma_insert_position_bound(false, rest, rest.len() as int, x, l.entry);
        let out = rest.insert(p, x);
        assert forall|i: int, j: int| 0 <= i < j < out.len() implies not_after(
            l,
            #[trigger] out[i],
            #[trigger] out[j],
        ) by {
            if j == p {
                assert(out[i] == rest[i]);
                if i < p - 1 {
                    assert(not_after(l, rest[i], rest[p - 1]));
                }
            } else if i == p {
                assert(out[j] == rest[j - 1]);
            } else {
                let ii = if i > p {
                    i - 1
                } else {
                    i
                };
                let jj = if j > p {
                    j - 1
                } else {
                    j
                };
                assert(out[i] == rest[ii] && out[j] == rest[jj]);
                assert(not_after(l, rest[ii], rest[jj]));
            }
        }
    }
}

/// Mapped trials name entries of the list and are ordered by group.
pub(crate) proof fn lemma_map_ready(l: ListView, a: ActiveView)
    requires
        l.wf(),
        l.entry.len() <= usize::MAX,
        fillin::tied(l, a.trial),
    ensures
        mapped(l, fillin::trial_map(l, a).trial),
        by_group(l, fillin::trial_map(l, a).trial),
{
    let tagged = ActiveView { trial: fillin::tag_trials(l, a.trial), ..a };
    assert forall|k: int| 0 <= k < tagged.trial.len() implies crate::trial::entry_ok(
        #[trigger] tagged.trial[k],
        l.entry.len(),
    ) && (tagged.trial[k].entry is None ==> tagged.trial[k].flags.defnouse) by {
        assert(crate::trial::entry_ok(a.trial[k], l.entry.len()));
        lemma_found(l, 0, a.trial[k]);
    }
    let n = fillin::groups_seen(l, a.trial, a.trial.len() as int);
    let filled = fillin::fill_groups(l, tagged, a.trial, n).trial;
    lemma_groups_mapped(l, tagged, a.trial, n);
    lemma_sorted_by_group(l, filled, filled.len() as int);
    fillin::lemma_sorted_tied(l, filled, filled.len() as int);
    verdict::lemma_sorted_same(filled, l.entry);
    let out = fillin::trial_map(l, a).trial;
    assert forall|k: int| 0 <= k < out.len() && (#[trigger] out[k]).entry is None implies
        out[k].flags.defnouse by {
        let j = filled.index_of(out[k]);
        assert(filled.contains(out[k]));
        assert(filled[j] == out[k]);
    }
}

/// Of the trials of a group that exclude each other, at most one becomes a
/// parameter.
pub proof fn law_one_parameter_per_group(l: ListView, a: ActiveView, i: int, j: int)
    requires
        single_groups(l),
        l.entry.len() <= usize::MAX,
        fillin::tied(l, a.trial),
        forall|k: int| 0 <= k < a.trial.len() ==> verdict::sound(#[trigger] a.trial[k]),
        0 <= i < j < chains::standard_fillin(l, a).trial.len(),
        chains::standard_fillin(l, a).trial[i].flags.used,
        chains::standard_fillin(l, a).trial[j].flags.used,
    ensures
        ({
            let s = chains::standard_fillin(l, a).trial;
            s[i].entry is Some && s[j].entry is Some && group_of(l, s[i]) == group_of(l, s[j])
                ==> !l.entry[s[i].entry->0 as int].exclusion()
                || !l.entry[s[j].entry->0 as int].exclusion()
        }),
{
    let m = fillin::trial_map(l, a).trial;
    let x = chains::exclusion(l, m);
    let s = chains::standard_fillin(l, a).trial;
    lemma_map_ready(l, a);
    law_exclusion(l, m);
    verdict::lemma_grown_map(l, a);
    verdict::lemma_standard_in_place(l, a);
    verdict::lemma_exclusion_in_place(l, m, 0, -1, -1, 0);
    assert forall|k: int| 0 <= k < m.len() implies verdict::sound(#[trigger] m[k]) by {
        reveal(verdict::all_come_from);
        if verdict::comes_from(false, a.trial, m[k]) {
            let w = choose|w: int|
                0 <= w < a.trial.len() && verdict::moved(false, #[trigger] a.trial[w], m[k]);
            assert(verdict::sound(a.trial[w]));
        }
    }
    assert forall|k: int| 0 <= k < x.len() && s[k].flags.used implies !(
    #[trigger] x[k]).flags.defnouse by {
        assert(verdict::sound(m[k]));
        assert(verdict::moved(false, m[k], x[k]));
        assert(verdict::moved(true, x[k], s[k]));
    }
    assert(s[i].entry == x[i].entry && s[j].entry == x[j].entry);
    if s[i].entry is Some && s[j].entry is Some && group_of(l, s[i]) == group_of(l, s[j])
        && l.entry[s[i].entry->0 as int].exclusion() {
        assert(open_exclusive(l, x[i]));
        if l.entry[s[j].entry->0 as int].exclusion() {
            assert(open_exclusive(l, x[j]));
        }
    }
}

} // verus!
