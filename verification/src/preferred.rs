//! Which of the trials that exclude each other stays.
use crate::chains;
use crate::dtype::TypeClass;
use crate::exclusive;
use crate::paramlist::ListView;
use crate::trial::ParamTrial;
use vstd::prelude::*;

verus! {

/// How much is known of where the value of the trial comes from.
pub open spec fn known(t: ParamTrial) -> int {
    if !t.flags.ancestor_realistic {
        0
    } else if !t.flags.ancestor_solid {
        1
    } else {
        2
    }
}

/// The trial is tied to an entry for general values.
pub open spec fn general(l: ListView, t: ParamTrial) -> bool {
    l.entry[t.entry->0 as int].type_ == TypeClass::General
}

/// The `a`-th trial is to be preferred to the `b`-th: it is active and the other
/// is not, or more is known of where its value comes from, or of two alike it
/// alone is for general values, or of two alike in that too it comes first. Of
/// two active ones the first is preferred.
pub open spec fn beats(l: ListView, s: Seq<ParamTrial>, a: int, b: int) -> bool {
    if s[a].flags.active != s[b].flags.active {
        s[a].flags.active
    } else if s[a].flags.active {
        a < b
    } else if known(s[a]) != known(s[b]) {
        known(s[a]) > known(s[b])
    } else if general(l, s[a]) != general(l, s[b]) {
        general(l, s[a])
    } else {
        a < b
    }
}

/// The trial is not ruled out, and no other of its group is preferred to it.
pub open spec fn best_of_group(l: ListView, s: Seq<ParamTrial>, t: int) -> bool {
    &&& 0 <= t < s.len()
    &&& exclusive::open_exclusive(l, s[t])
    &&& forall|k: int|
        0 <= k < s.len() && k != t && exclusive::open_in(
            l,
            #[trigger] s[k],
            exclusive::group_of(l, s[t]),
        ) ==> !beats(l, s, k, t)
}

/// Everything in the group excludes the rest of it.
pub open spec fn group_excludes(l: ListView, g: int) -> bool {
    forall|k: int| 0 <= k < l.entry.len() && (#[trigger] l.entry[k]).group() == g ==> l.entry[k].exclusion()
}

proof fn lemma_thinned_best(l: ListView, s: Seq<ParamTrial>, r: Seq<ParamTrial>, t: int)
    requires
        best_of_group(l, s, t),
        exclusive::thinned(s, r),
        r[t] == s[t],
    ensures
        best_of_group(l, r, t),
{
    let g = exclusive::group_of(l, s[t]);
    assert forall|k: int|
        0 <= k < r.len() && k != t && exclusive::open_in(l, #[trigger] r[k], g) implies !beats(
        l,
        r,
        k,
        t,
    ) by {
        assert(r[k] == s[k]);
        assert(exclusive::open_in(l, s[k], g));
    }
}

proof fn lemma_scores(l: ListView, s: Seq<ParamTrial>, a: int, b: int)
    requires
        s[a].entry is Some,
        s[b].entry is Some,
        !s[a].flags.active,
        !s[b].flags.active,
        a != b,
    ensures
        ({
            let x = chains::inactive_score(
                s[a],
                l.entry[s[a].entry->0 as int],
                TypeClass::General,
            );
            let y = chains::inactive_score(
                s[b],
                l.entry[s[b].entry->0 as int],
                TypeClass::General,
            );
            beats(l, s, a, b) == (x > y || (x == y && a < b))
        }),
{
}

proof fn lemma_best_found(
    l: ListView,
    s: Seq<ParamTrial>,
    t: int,
    i: int,
    best: Option<int>,
    score: int,
)
    requires
        exclusive::single_groups(l),
        exclusive::mapped(l, s),
        exclusive::by_group(l, s),
        best_of_group(l, s, t),
        0 <= i <= s.len(),
        exclusive::from_group(l, s, i, exclusive::group_of(l, s[t])),
        s[t].flags.active ==> forall|k: int|
            i <= k < s.len() && k != t ==> !exclusive::open_in(
                l,
                #[trigger] s[k],
                exclusive::group_of(l, s[t]),
            ),
        ({
            let sc = chains::inactive_score(
                s[t],
                l.entry[s[t].entry->0 as int],
                TypeClass::General,
            );
            ||| t >= i && score < sc
            ||| best == Some(t) && score == sc && t < i
        }),
    ensures
        chains::best_inactive(
            l,
            s,
            exclusive::group_of(l, s[t]),
            TypeClass::General,
            i,
            best,
            score,
        ) == Some(t),
    decreases s.len() - i,
{
    let g = exclusive::group_of(l, s[t]);
    if i < s.len() {
        assert(crate::trial::entry_ok(s[i], l.entry.len()));
        assert(crate::trial::entry_ok(s[t], l.entry.len()));
        if s[i].flags.defnouse {
            lemma_best_found(l, s, t, i + 1, best, score);
        } else {
            let e = l.entry[s[i].entry->0 as int];
            assert(e.group_set.len() == 1);
            if e.group() != g {
                if t > i {
                    assert(exclusive::not_after(l, s[i], s[t]));
                }
            } else {
                assert(exclusive::open_in(l, s[i], g));
                let sc = chains::inactive_score(s[i], e, TypeClass::General);
                if i != t {
                    assert(!beats(l, s, i, t));
                    if !s[t].flags.active {
                        lemma_scores(l, s, i, t);
                    }
                }
                if sc > score {
                    lemma_best_found(l, s, t, i + 1, Some(i), sc);
                } else {
                    lemma_best_found(l, s, t, i + 1, best, score);
                }
            }
        }
    }
}

/// Closing the current group leaves the preferred trial.
proof fn lemma_closed_keeps(
    l: ListView,
    s: Seq<ParamTrial>,
    i: int,
    g: int,
    start: int,
    inactive: int,
    t: int,
)
    requires
        exclusive::single_groups(l),
        exclusive::walking(l, s, i, g, start, inactive),
        best_of_group(l, s, t),
        s[t].flags.active && t < i ==> alone(l, s, t),
        exclusive::group_of(l, s[t]) == g ==> t < i,
    ensures
        exclusive::closed(l, s, g, start, inactive)[t] == s[t],
{
    exclusive::lemma_closed(l, s, i, g, start, inactive);
    if exclusive::group_of(l, s[t]) == g && inactive > 1 {
        assert(crate::trial::entry_ok(s[t], l.entry.len()));
        assert(l.entry[s[t].entry->0 as int].group_set[0] >= 0);
        assert(g != -1);
        exclusive::lemma_from_start(l, s, start, g);
        assert(t >= start);
        lemma_best_found(l, s, t, start, None, -1);
        exclusive::lemma_group_thinned(l, s, t, start, g);
    } else if inactive > 1 && g != -1 {
        assert(!exclusive::open_in(l, s[t], g));
        exclusive::lemma_from_start(l, s, start, g);
        lemma_outside(l, s, g, start, t);
    }
}

proof fn lemma_outside(l: ListView, s: Seq<ParamTrial>, g: int, start: int, t: int)
    requires
        exclusive::single_groups(l),
        exclusive::mapped(l, s),
        exclusive::by_group(l, s),
        0 <= start <= s.len(),
        exclusive::from_group(l, s, start, g),
        0 <= t < s.len(),
        !exclusive::open_in(l, s[t], g),
    ensures
        chains::best_kept(l, s, g, start)[t] == s[t],
{
    exclusive::lemma_best_kept_one(l, s, g, start);
}

/// No other trial of the group of `t` is left.
pub open spec fn alone(l: ListView, s: Seq<ParamTrial>, t: int) -> bool {
    forall|k: int|
        0 <= k < s.len() && k != t ==> !exclusive::open_in(
            l,
            #[trigger] s[k],
            exclusive::group_of(l, s[t]),
        )
}

proof fn lemma_stays(
    l: ListView,
    s: Seq<ParamTrial>,
    i: int,
    g: int,
    start: int,
    inactive: int,
    t: int,
)
    requires
        exclusive::single_groups(l),
        exclusive::walking(l, s, i, g, start, inactive),
        best_of_group(l, s, t),
        group_excludes(l, exclusive::group_of(l, s[t])),
        s[t].flags.active && t < i ==> alone(l, s, t),
        exclusive::group_of(l, s[t]) < g ==> t < i,
    ensures
        chains::exclusion_from(l, s, i, g, start, inactive)[t] == s[t],
    decreases s.len() - i,
{
    let gt = exclusive::group_of(l, s[t]);
    assert(crate::trial::entry_ok(s[t], l.entry.len()));
    if i >= s.len() {
        lemma_closed_keeps(l, s, i, g, start, inactive, t);
    } else if !exclusive::open_exclusive(l, s[i]) {
        exclusive::lemma_passed(l, s, i, g, start, inactive);
        lemma_stays(l, s, i + 1, g, start, inactive, t);
    } else {
        assert(crate::trial::entry_ok(s[i], l.entry.len()));
        let h = exclusive::group_of(l, s[i]);
        let fresh = h != g;
        let s1 = if fresh {
            exclusive::closed(l, s, g, start, inactive)
        } else {
            s
        };
        let start1 = if fresh {
            i
        } else {
            start
        };
        let inactive1 = if fresh {
            0
        } else {
            inactive
        };
        assert(l.entry[s[i].entry->0 as int].group_set[0] >= 0);
        if fresh {
            if gt == g && t >= i {
                if t > i {
                    assert(exclusive::not_after(l, s[i], s[t]));
                }
                assert(exclusive::not_after(l, s[start], s[i]));
            }
            exclusive::lemma_next_group(l, s, i, g, start, inactive);
            exclusive::lemma_closed(l, s, i, g, start, inactive);
            lemma_closed_keeps(l, s, i, g, start, inactive, t);
            lemma_thinned_best(l, s, s1, t);
            assert(s1[t] == s[t]);
            if s[t].flags.active && t < i {
                assert forall|k: int| 0 <= k < s1.len() && k != t implies !exclusive::open_in(
                    l,
                    #[trigger] s1[k],
                    gt,
                ) by {
                    assert(!exclusive::open_in(l, s[k], gt));
                }
            }
        }
        if t < i && gt != h {
        } else if t > i && gt < h {
            assert(exclusive::not_after(l, s[i], s[t]));
        }
        if s[i].flags.active {
            exclusive::lemma_active_alone(l, s1, i, h, start1, inactive1);
            exclusive::lemma_from_start(l, s1, start1, h);
            exclusive::lemma_group_thinned(l, s1, i, start1, h);
            let r = chains::group_ruled_out(l, s1, i, start1);
            if i != t && gt == h {
                assert(exclusive::open_in(l, s1[i], gt));
                if t < i {
                    assert(false);
                } else {
                    assert(beats(l, s1, i, t));
                    assert(false);
                }
            }
            assert(r[t] == s1[t]);
            lemma_thinned_best(l, s1, r, t);
            if s[t].flags.active && t < i + 1 {
                assert forall|k: int| 0 <= k < r.len() && k != t implies !exclusive::open_in(
                    l,
                    #[trigger] r[k],
                    gt,
                ) by {
                    if t == i {
                        if k < start1 && exclusive::open_in(l, r[k], gt) {
                            assert(crate::trial::entry_ok(s1[k], l.entry.len()));
                            assert(exclusive::open_exclusive(l, s1[k]));
                        }
                    } else {
                        assert(!exclusive::open_in(l, s1[k], gt));
                    }
                }
            }
            lemma_stays(l, r, i + 1, h, start1, inactive1, t);
        } else {
            assert(exclusive::walking(l, s1, i + 1, h, start1, inactive1 + 1));
            lemma_stays(l, s1, i + 1, h, start1, inactive1 + 1, t);
        }
    }
}

/// Of the trials of a group that exclude each other the preferred one stays, and
/// the rest is ruled out.
pub proof fn law_preferred_stays(l: ListView, s: Seq<ParamTrial>, t: int)
    requires
        exclusive::single_groups(l),
        exclusive::mapped(l, s),
        exclusive::by_group(l, s),
        best_of_group(l, s, t),
        group_excludes(l, exclusive::group_of(l, s[t])),
    ensures
        chains::exclusion(l, s)[t] == s[t],
        forall|k: int|
            0 <= k < s.len() && k != t && exclusive::open_in(
                l,
                s[k],
                exclusive::group_of(l, s[t]),
            ) ==> (#[trigger] chains::exclusion(l, s)[k]).flags.defnouse,
{
    assert(crate::trial::entry_ok(s[t], l.entry.len()));
    assert(l.entry[s[t].entry->0 as int].group_set[0] >= 0);
    lemma_stays(l, s, 0, -1, -1, 0, t);
    exclusive::law_exclusion(l, s);
    let r = chains::exclusion(l, s);
    crate::verdict::lemma_exclusion_in_place(l, s, 0, -1, -1, 0);
    assert forall|k: int|
        0 <= k < s.len() && k != t && exclusive::open_in(
            l,
            s[k],
            exclusive::group_of(l, s[t]),
        ) implies (#[trigger] r[k]).flags.defnouse by {
        assert(crate::trial::entry_ok(s[k], l.entry.len()));
        assert(crate::verdict::moved(false, s[k], r[k]));
        if !r[k].flags.defnouse {
            assert(exclusive::open_exclusive(l, r[k]));
            assert(exclusive::open_exclusive(l, r[t]));
        }
    }
}

} // verus!
