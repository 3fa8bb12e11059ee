//! A return value is taken from the entry that its parts cover best.
use crate::active;
use crate::active::ActiveView;
use crate::decide;
use crate::dtype;
use crate::entry::EntryView;
use crate::paramlist::ListView;
use crate::trial::ParamTrial;
use crate::verdict;
use vstd::prelude::*;

verus! {

/// The trial is active and lies in the entry at `i`.
pub open spec fn lies_in(l: ListView, i: int, t: ParamTrial) -> bool {
    t.flags.active && l.entry[i].justified(t.addr, t.size as int) >= 0
}

/// How far from the least significant end of the entry at `i` it starts.
pub open spec fn start_of(l: ListView, i: int, t: ParamTrial) -> int {
    l.entry[i].justified(t.addr, t.size as int)
}

/// The active trials in the entry at `i` reach `off` bytes into it.
pub open spec fn reaches(l: ListView, i: int, s: Seq<ParamTrial>, off: int) -> bool {
    &&& exists|k: int|
        0 <= k < s.len() && lies_in(l, i, #[trigger] s[k]) && start_of(l, i, s[k]) + s[k].size
            == off
    &&& forall|k: int|
        0 <= k < s.len() && lies_in(l, i, #[trigger] s[k]) ==> start_of(l, i, s[k]) + s[k].size
            <= off
}

/// No two active trials in the entry at `i` have a byte in common.
pub open spec fn parts_apart(l: ListView, i: int, s: Seq<ParamTrial>) -> bool {
    forall|j: int, k: int|
        0 <= j < k < s.len() && lies_in(l, i, #[trigger] s[j]) && lies_in(l, i, #[trigger] s[k])
            ==> apart_in(l, i, s[j], s[k])
}

pub open spec fn apart_in(l: ListView, i: int, a: ParamTrial, b: ParamTrial) -> bool {
    start_of(l, i, a) + a.size <= start_of(l, i, b) || start_of(l, i, b) + b.size <= start_of(
        l,
        i,
        a,
    )
}

/// Each active trial in the entry at `i` starts at its least significant end or
/// where another one ends.
pub open spec fn parts_follow(l: ListView, i: int, s: Seq<ParamTrial>) -> bool {
    forall|k: int|
        0 <= k < s.len() && lies_in(l, i, #[trigger] s[k]) ==> start_of(l, i, s[k]) == 0 || exists|
            j: int,
        |
            0 <= j < s.len() && lies_in(l, i, #[trigger] s[j]) && start_of(l, i, s[j]) + s[j].size
                == start_of(l, i, s[k])
}

/// The active trials in the entry need no extra check.
pub open spec fn parts_clean(l: ListView, i: int, s: Seq<ParamTrial>) -> bool {
    forall|k: int|
        0 <= k < s.len() && lies_in(l, i, #[trigger] s[k]) ==> !s[k].flags.rem_formed
            && !s[k].flags.indcreate_formed
}

/// All trials have bytes.
pub open spec fn have_bytes(s: Seq<ParamTrial>) -> bool {
    forall|k: int| 0 <= k < s.len() ==> (#[trigger] s[k]).size > 0
}

/// The two are the same but for the entry that they are tied to.
spec fn same(a: ParamTrial, b: ParamTrial) -> bool {
    a.addr == b.addr && a.size == b.size && a.flags == b.flags
}

spec fn has_same(t: ParamTrial, s: Seq<ParamTrial>) -> bool {
    exists|j: int| 0 <= j < s.len() && same(t, #[trigger] s[j])
}

#[verifier::opaque]
spec fn all_in(s: Seq<ParamTrial>, t: Seq<ParamTrial>) -> bool {
    forall|i: int| 0 <= i < s.len() ==> #[trigger] has_same(s[i], t)
}

proof fn lemma_in(s: Seq<ParamTrial>, t: Seq<ParamTrial>, i: int) -> (j: int)
    requires
        all_in(s, t),
        0 <= i < s.len(),
    ensures
        0 <= j < t.len(),
        same(s[i], t[j]),
{
    reveal(all_in);
    assert(has_same(s[i], t));
    choose|j: int| 0 <= j < t.len() && same(s[i], #[trigger] t[j])
}

proof fn lemma_in_chain(s: Seq<ParamTrial>, t: Seq<ParamTrial>, u: Seq<ParamTrial>)
    requires
        all_in(s, t),
        all_in(t, u),
    ensures
        all_in(s, u),
{
    assert forall|i: int| 0 <= i < s.len() implies #[trigger] has_same(s[i], u) by {
        let j = lemma_in(s, t, i);
        let k = lemma_in(t, u, j);
        assert(same(s[i], u[k]));
    }
    reveal(all_in);
}

proof fn lemma_in_place(s: Seq<ParamTrial>, t: Seq<ParamTrial>)
    requires
        s.len() == t.len(),
        forall|i: int| 0 <= i < s.len() ==> same(#[trigger] s[i], t[i]),
    ensures
        all_in(s, t),
        all_in(t, s),
{
    assert forall|i: int| 0 <= i < s.len() implies #[trigger] has_same(s[i], t) by {
        assert(same(s[i], t[i]));
    }
    assert forall|i: int| 0 <= i < t.len() implies #[trigger] has_same(t[i], s) by {
        assert(same(s[i], t[i]));
        assert(same(t[i], s[i]));
    }
    reveal(all_in);
}

proof fn lemma_in_sorted(s: Seq<ParamTrial>, entries: Seq<EntryView>)
    ensures
        all_in(s, active::sorted_trials(false, s, s.len() as int, entries)),
        all_in(active::sorted_trials(false, s, s.len() as int, entries), s),
{
    let t = active::sorted_trials(false, s, s.len() as int, entries);
    assert forall|i: int| 0 <= i < s.len() implies #[trigger] has_same(s[i], t) by {
        verdict::lemma_sorted_same(s, entries);
        assert(t.contains(s[i]));
        let j = t.index_of(s[i]);
        assert(same(s[i], t[j]));
    }
    assert forall|i: int| 0 <= i < t.len() implies #[trigger] has_same(t[i], s) by {
        verdict::lemma_sorted_same(s, entries);
        assert(s.contains(t[i]));
        let j = s.index_of(t[i]);
        assert(same(t[i], s[j]));
    }
    reveal(all_in);
}

/// What is apart stays apart when it is sorted.
proof fn lemma_apart_sorted(
    l: ListView,
    i: int,
    s: Seq<ParamTrial>,
    n: int,
    entries: Seq<EntryView>,
)
    requires
        parts_apart(l, i, s),
        0 <= n <= s.len(),
    ensures
        ({
            let t = active::sorted_trials(false, s, n, entries);
            &&& t.len() == n
            &&& parts_apart(l, i, t)
            &&& forall|k: int|
                #![trigger t[k]]
                0 <= k < n ==> exists|m: int| 0 <= m < n && #[trigger] s[m] == t[k]
        }),
    decreases n,
{
    if n > 0 {
        lemma_apart_sorted(l, i, s, n - 1, entries);
        let rest = active::sorted_trials(false, s, n - 1, entries);
        let x = s[n - 1];
        let p = active::insert_position(false, rest, rest.len() as int, x, entries);
        active::lemma_insert_position_bound(false, rest, rest.len() as int, x, entries);
        let t = rest.insert(p, x);
        assert forall|j: int, k: int|
            0 <= j < k < t.len() && lies_in(l, i, #[trigger] t[j]) && lies_in(l, i, #[trigger] t[k])
            implies apart_in(l, i, t[j], t[k]) by {
            let jj = if j > p {
                j - 1
            } else {
                j
            };
            let kk = if k > p {
                k - 1
            } else {
                k
            };
            if j == p {
                assert(t[k] == rest[kk]);
                let m = choose|m: int| 0 <= m < n - 1 && #[trigger] s[m] == rest[kk];
                assert(apart_in(l, i, s[m], s[n - 1]));
            } else if k == p {
                assert(t[j] == rest[jj]);
                let m = choose|m: int| 0 <= m < n - 1 && #[trigger] s[m] == rest[jj];
                assert(apart_in(l, i, s[m], s[n - 1]));
            } else {
                assert(t[j] == rest[jj] && t[k] == rest[kk]);
            }
        }
        assert forall|k: int| #![trigger t[k]] 0 <= k < n implies exists|m: int|
            0 <= m < n && #[trigger] s[m] == t[k] by {
            if k == p {
                assert(s[n - 1] == t[k]);
            } else {
                let kk = if k > p {
                    k - 1
                } else {
                    k
                };
                assert(t[k] == rest[kk]);
                let m = choose|m: int| 0 <= m < n - 1 && #[trigger] s[m] == rest[kk];
                assert(s[m] == t[k]);
            }
        }
    }
}

/// What holds of the trials of a search holds of them throughout.
spec fn carried(l: ListView, i: int, s: Seq<ParamTrial>, t: Seq<ParamTrial>) -> bool {
    &&& all_in(s, t)
    &&& all_in(t, s)
    &&& parts_apart(l, i, s) ==> parts_apart(l, i, t)
}

proof fn lemma_tagged(l: ListView, i: int, m: int, s: Seq<ParamTrial>)
    ensures
        carried(l, i, s, s.map_values(|t: ParamTrial| decide::tag_against(l, m, t))),
{
    let t = s.map_values(|t: ParamTrial| decide::tag_against(l, m, t));
    assert forall|k: int| 0 <= k < s.len() implies same(#[trigger] s[k], t[k]) by {}
    lemma_in_place(s, t);
    if parts_apart(l, i, s) {
        assert forall|j: int, k: int|
            0 <= j < k < t.len() && lies_in(l, i, #[trigger] t[j]) && lies_in(l, i, #[trigger] t[k])
            implies apart_in(l, i, t[j], t[k]) by {
            assert(lies_in(l, i, s[j]) && lies_in(l, i, s[k]));
            assert(apart_in(l, i, s[j], s[k]));
        }
    }
}

proof fn lemma_carried_chain(
    l: ListView,
    i: int,
    s: Seq<ParamTrial>,
    t: Seq<ParamTrial>,
    u: Seq<ParamTrial>,
)
    requires
        carried(l, i, s, t),
        carried(l, i, t, u),
    ensures
        carried(l, i, s, u),
{
    lemma_in_chain(s, t, u);
    lemma_in_chain(u, t, s);
}

proof fn lemma_carried_sorted(l: ListView, i: int, s: Seq<ParamTrial>, entries: Seq<EntryView>)
    ensures
        carried(l, i, s, active::sorted_trials(false, s, s.len() as int, entries)),
{
    lemma_in_sorted(s, entries);
    if parts_apart(l, i, s) {
        lemma_apart_sorted(l, i, s, s.len() as int, entries);
    }
}

/// The trials held against the entry at `m`, in order.
spec fn held(l: ListView, m: int, s: Seq<ParamTrial>) -> Seq<ParamTrial> {
    let tagged = s.map_values(|t: ParamTrial| decide::tag_against(l, m, t));
    active::sorted_trials(false, tagged, tagged.len() as int, l.entry)
}

proof fn lemma_carried_held(l: ListView, i: int, m: int, s: Seq<ParamTrial>)
    ensures
        carried(l, i, s, held(l, m, s)),
{
    let tagged = s.map_values(|t: ParamTrial| decide::tag_against(l, m, t));
    lemma_tagged(l, i, m, s);
    lemma_carried_sorted(l, i, tagged, l.entry);
    lemma_carried_chain(l, i, s, tagged, held(l, m, s));
}

proof fn lemma_carried_search(l: ListView, i: int, s: Seq<ParamTrial>, first_only: bool, n: int)
    requires
        0 <= n <= l.entry.len(),
    ensures
        carried(l, i, s, decide::search(l, s, first_only, n).trials),
    decreases n,
{
    if n == 0 {
        lemma_in_place(s, s);
    } else {
        lemma_carried_search(l, i, s, first_only, n - 1);
        let c = decide::search(l, s, first_only, n - 1);
        let tagged = c.trials.map_values(|t: ParamTrial| decide::tag_against(l, n - 1, t));
        let r = decide::search(l, s, first_only, n).trials;
        if !decide::passed_over(l.entry[n - 1], first_only) {
            lemma_tagged(l, i, n - 1, c.trials);
            lemma_carried_held(l, i, n - 1, c.trials);
            lemma_carried_chain(l, i, s, c.trials, tagged);
            lemma_carried_chain(l, i, s, c.trials, held(l, n - 1, c.trials));
            assert(r == tagged || r == held(l, n - 1, c.trials));
        }
    }
}

/// What is held is tied to the entry exactly where it lies in it.
proof fn lemma_held_tied(l: ListView, m: int, s: Seq<ParamTrial>)
    ensures
        ({
            let h = held(l, m, s);
            &&& h.len() == s.len()
            &&& forall|k: int|
                0 <= k < h.len() ==> ((#[trigger] h[k]).entry is Some) == lies_in(l, m, h[k])
            &&& forall|k: int|
                0 <= k < h.len() && lies_in(l, m, #[trigger] h[k]) ==> h[k].offset == start_of(
                    l,
                    m,
                    h[k],
                ) as i32
        }),
{
    let tagged = s.map_values(|t: ParamTrial| decide::tag_against(l, m, t));
    let h = held(l, m, s);
    verdict::lemma_sorted_same(tagged, l.entry);
    assert forall|k: int| 0 <= k < h.len() implies ((#[trigger] h[k]).entry is Some) == lies_in(
        l,
        m,
        h[k],
    ) && (lies_in(l, m, h[k]) ==> h[k].offset == start_of(l, m, h[k]) as i32) by {
        assert(tagged.contains(h[k]));
        let j = tagged.index_of(h[k]);
        assert(tagged[j] == decide::tag_against(l, m, s[j]));
    }
}

/// Tied to the entry at `m`, in the order of their offsets, the others behind.
spec fn by_offset(m: int, s: Seq<ParamTrial>) -> bool {
    &&& forall|k: int|
        0 <= k < s.len() ==> ((#[trigger] s[k]).entry matches Some(x) ==> x == m as usize)
    &&& forall|j: int, k: int|
        0 <= j < k < s.len() && (#[trigger] s[k]).entry is Some ==> (#[trigger] s[j]).entry is Some
            && s[j].offset <= s[k].offset
}

proof fn lemma_by_offset(l: ListView, m: int, s: Seq<ParamTrial>, n: int)
    requires
        0 <= m < l.entry.len() <= usize::MAX,
        l.entry[m].alignment == 0,
        0 <= n <= s.len(),
        forall|k: int|
            0 <= k < s.len() ==> ((#[trigger] s[k]).entry matches Some(x) ==> x == m as usize),
    ensures
        by_offset(m, active::sorted_trials(false, s, n, l.entry)),
        active::sorted_trials(false, s, n, l.entry).len() == n,
    decreases n,
{
    if n > 0 {
        lemma_by_offset(l, m, s, n - 1);
        let rest = active::sorted_trials(false, s, n - 1, l.entry);
        let x = s[n - 1];
        lemma_position(l, m, rest, rest.len() as int, x);
        let p = active::insert_position(false, rest, rest.len() as int, x, l.entry);
        let t = rest.insert(p, x);
        assert forall|k: int| 0 <= k < t.len() implies ((#[trigger] t[k]).entry matches Some(y)
            ==> y == m as usize) by {
            if k == p {
                assert(s[n - 1] == x);
            } else if k < p {
                assert(t[k] == rest[k]);
            } else {
                assert(t[k] == rest[k - 1]);
            }
        }
        assert forall|j: int, k: int|
            0 <= j < k < t.len() && (#[trigger] t[k]).entry is Some implies (
        #[trigger] t[j]).entry is Some && t[j].offset <= t[k].offset by {
            let jj = if j > p {
                j - 1
            } else {
                j
            };
            let kk = if k > p {
                k - 1
            } else {
                k
            };
            if j == p {
                assert(t[k] == rest[kk]);
            } else if k == p {
                assert(t[j] == rest[jj]);
            } else {
                assert(t[j] == rest[jj] && t[k] == rest[kk]);
            }
        }
    }
}

proof fn lemma_position(l: ListView, m: int, s: Seq<ParamTrial>, n: int, x: ParamTrial)
    requires
        0 <= m < l.entry.len() <= usize::MAX,
        l.entry[m].alignment == 0,
        0 <= n <= s.len(),
        by_offset(m, s),
        x.entry matches Some(y) ==> y == m as usize,
    ensures
        ({
            let p = active::insert_position(false, s, n, x, l.entry);
            &&& 0 <= p <= n
            &&& forall|k: int|
                0 <= k < p ==> x.entry is Some ==> (#[trigger] s[k]).entry is Some && s[k].offset
                    <= x.offset
            &&& forall|k: int|
                p <= k < n && (#[trigger] s[k]).entry is Some ==> x.entry is Some && x.offset
                    <= s[k].offset
        }),
    decreases n,
{
    if n > 0 {
        let y = s[n - 1];
        if active::less_by(false, x, y, l.entry) {
            lemma_position(l, m, s, n - 1, x);
        } else {
            assert(x.entry is Some ==> y.entry is Some && y.offset <= x.offset);
            assert forall|k: int| 0 <= k < n && x.entry is Some implies (#[trigger] s[k]).entry
                is Some && s[k].offset <= x.offset by {
                assert(k < n - 1 ==> s[k].offset <= s[n - 1].offset);
            }
        }
    }
}

/// What is in the entry at `i` of one list of trials is in it of the other.
proof fn lemma_moved_over(l: ListView, i: int, s: Seq<ParamTrial>, t: Seq<ParamTrial>)
    requires
        carried(l, i, s, t),
    ensures
        parts_follow(l, i, s) ==> parts_follow(l, i, t),
        parts_clean(l, i, s) ==> parts_clean(l, i, t),
        have_bytes(s) ==> have_bytes(t),
        forall|off: int| #[trigger] reaches(l, i, s, off) == reaches(l, i, t, off),
{
    if parts_follow(l, i, s) {
        assert forall|k: int| 0 <= k < t.len() && lies_in(l, i, #[trigger] t[k]) implies start_of(
            l,
            i,
            t[k],
        ) == 0 || exists|j: int|
            0 <= j < t.len() && lies_in(l, i, #[trigger] t[j]) && start_of(l, i, t[j]) + t[j].size
                == start_of(l, i, t[k]) by {
            let a = lemma_in(t, s, k);
            assert(lies_in(l, i, s[a]));
            if start_of(l, i, s[a]) != 0 {
                let b = choose|b: int|
                    0 <= b < s.len() && lies_in(l, i, #[trigger] s[b]) && start_of(l, i, s[b])
                        + s[b].size == start_of(l, i, s[a]);
                let j = lemma_in(s, t, b);
                assert(lies_in(l, i, t[j]));
            }
        }
    }
    if parts_clean(l, i, s) {
        assert forall|k: int| 0 <= k < t.len() && lies_in(l, i, #[trigger] t[k]) implies
            !t[k].flags.rem_formed && !t[k].flags.indcreate_formed by {
            let a = lemma_in(t, s, k);
            assert(lies_in(l, i, s[a]));
        }
    }
    if have_bytes(s) {
        assert forall|k: int| 0 <= k < t.len() implies (#[trigger] t[k]).size > 0 by {
            let a = lemma_in(t, s, k);
            assert(s[a].size > 0);
        }
    }
    assert forall|off: int| #[trigger] reaches(l, i, s, off) == reaches(l, i, t, off) by {
        if reaches(l, i, s, off) {
            lemma_reaches_over(l, i, s, t, off);
        }
        if reaches(l, i, t, off) {
            lemma_reaches_over(l, i, t, s, off);
        }
    }
}

proof fn lemma_reaches_over(
    l: ListView,
    i: int,
    s: Seq<ParamTrial>,
    t: Seq<ParamTrial>,
    off: int,
)
    requires
        all_in(s, t),
        all_in(t, s),
        reaches(l, i, s, off),
    ensures
        reaches(l, i, t, off),
{
    let a = choose|a: int|
        0 <= a < s.len() && lies_in(l, i, #[trigger] s[a]) && start_of(l, i, s[a]) + s[a].size
            == off;
    let b = lemma_in(s, t, a);
    assert(lies_in(l, i, t[b]));
    assert forall|k: int| 0 <= k < t.len() && lies_in(l, i, #[trigger] t[k]) implies start_of(
        l,
        i,
        t[k],
    ) + t[k].size <= off by {
        let j = lemma_in(t, s, k);
        assert(lies_in(l, i, s[j]));
    }
}

/// Parts that follow each other cover the entry: the count goes through all of
/// them.
proof fn lemma_counts_on(l: ListView, i: int, h: Seq<ParamTrial>, k: int, off: int)
    requires
        0 <= k <= h.len(),
        by_offset(i, h),
        have_bytes(h),
        parts_apart(l, i, h),
        parts_follow(l, i, h),
        parts_clean(l, i, h),
        forall|j: int| 0 <= j < h.len() ==> ((#[trigger] h[j]).entry is Some) == lies_in(l, i, h[j]),
        forall|j: int|
            0 <= j < h.len() && lies_in(l, i, #[trigger] h[j]) ==> h[j].offset == start_of(
                l,
                i,
                h[j],
            ),
        off >= 0,
        forall|j: int|
            0 <= j < k && (#[trigger] h[j]).entry is Some ==> h[j].offset + h[j].size <= off,
        off == 0 || exists|j: int|
            0 <= j < k && (#[trigger] h[j]).entry is Some && h[j].offset + h[j].size == off,
    ensures
        decide::cover_from(l.entry[i], h, k, off).0 == h.len(),
    decreases h.len() - k,
{
    if k < h.len() {
        if h[k].entry is None {
            lemma_counts_on(l, i, h, k + 1, off);
        } else {
            let t = h[k];
            assert(lies_in(l, i, h[k]));
            assert(h[k].size > 0);
            if off > 0 {
                let j = choose|j: int|
                    0 <= j < k && (#[trigger] h[j]).entry is Some && h[j].offset + h[j].size == off;
                assert(lies_in(l, i, h[j]));
                assert(h[j].offset <= h[k].offset);
                assert(apart_in(l, i, h[j], h[k]));
                assert(h[k].size > 0 && h[j].size > 0);
            }
            assert(t.offset >= off);
            if t.offset > 0 {
                let q = choose|q: int|
                    0 <= q < h.len() && lies_in(l, i, #[trigger] h[q]) && start_of(l, i, h[q])
                        + h[q].size == start_of(l, i, h[k]);
                assert(h[q].entry is Some && h[q].size > 0);
                if q > k {
                    assert(h[k].offset <= h[q].offset);
                }
                assert(q < k);
                assert(h[q].offset + h[q].size <= off);
            }
            assert(t.offset == off);
            assert(h[k].entry is Some && h[k].offset + h[k].size == off + t.size);
            assert(!h[k].flags.rem_formed && !h[k].flags.indcreate_formed);
            lemma_counts_on(l, i, h, k + 1, off + t.size);
        }
    }
}

/// Where the count goes through, it says how far the parts reach.
proof fn lemma_count_reaches(l: ListView, i: int, h: Seq<ParamTrial>, k: int, off: int)
    requires
        0 <= k <= h.len(),
        have_bytes(h),
        decide::cover_from(l.entry[i], h, k, off).0 == h.len(),
        forall|j: int| 0 <= j < h.len() ==> ((#[trigger] h[j]).entry is Some) == lies_in(l, i, h[j]),
    ensures
        ({
            let end = decide::cover_from(l.entry[i], h, k, off).1;
            &&& end >= off
            &&& forall|j: int|
                k <= j < h.len() && (#[trigger] h[j]).entry is Some ==> h[j].offset + h[j].size
                    <= end
            &&& end == off || exists|j: int|
                k <= j < h.len() && (#[trigger] h[j]).entry is Some && h[j].offset + h[j].size == end
            &&& (exists|j: int| k <= j < h.len() && (#[trigger] h[j]).entry is Some) ==> end > off
        }),
    decreases h.len() - k,
{
    if k < h.len() {
        assert(h[k].size > 0);
        if h[k].entry is None {
            lemma_count_reaches(l, i, h, k + 1, off);
        } else {
            lemma_count_reaches(l, i, h, k + 1, off + h[k].size);
            assert(h[k].entry is Some && h[k].offset == off);
        }
    }
}

/// The entry at `m` counts in the search: it is not passed over, and the trials
/// that lie in it cover it.
spec fn counts(l: ListView, s: Seq<ParamTrial>, first_only: bool, m: int) -> bool {
    let t = decide::search(l, s, first_only, m).trials;
    &&& !decide::passed_over(l.entry[m], first_only)
    &&& decide::some_match(l, m, t)
    &&& decide::covered(l.entry[m], held(l, m, t))
}

spec fn count(l: ListView, s: Seq<ParamTrial>, first_only: bool, m: int) -> int {
    decide::cover_from(
        l.entry[m],
        held(l, m, decide::search(l, s, first_only, m).trials),
        0,
        0,
    ).1
}

/// Offsets in the entry stay within their range.
pub open spec fn offsets_fit(l: ListView, m: int, s: Seq<ParamTrial>) -> bool {
    forall|k: int|
        0 <= k < s.len() && lies_in(l, m, #[trigger] s[k]) ==> start_of(l, m, s[k]) <= i32::MAX
}

proof fn lemma_fit_over(l: ListView, m: int, s: Seq<ParamTrial>, t: Seq<ParamTrial>)
    requires
        all_in(t, s),
        offsets_fit(l, m, s),
    ensures
        offsets_fit(l, m, t),
{
    assert forall|k: int| 0 <= k < t.len() && lies_in(l, m, #[trigger] t[k]) implies start_of(
        l,
        m,
        t[k],
    ) <= i32::MAX by {
        let j = lemma_in(t, s, k);
        assert(lies_in(l, m, s[j]));
    }
}

/// What counts in the search reaches as far as it is counted.
proof fn lemma_counts_reach(l: ListView, s: Seq<ParamTrial>, first_only: bool, m: int)
    requires
        0 <= m < l.entry.len() <= usize::MAX,
        have_bytes(s),
        offsets_fit(l, m, s),
        counts(l, s, first_only, m),
    ensures
        reaches(l, m, s, count(l, s, first_only, m)),
        count(l, s, first_only, m) > 0,
        count(l, s, first_only, m) >= l.entry[m].minsize,
{
    let t = decide::search(l, s, first_only, m).trials;
    let h = held(l, m, t);
    let off = count(l, s, first_only, m);
    lemma_carried_search(l, m, s, first_only, m);
    lemma_carried_held(l, m, m, t);
    lemma_carried_chain(l, m, s, t, h);
    lemma_moved_over(l, m, s, h);
    lemma_held_tied(l, m, t);
    lemma_fit_over(l, m, s, h);
    lemma_count_reaches(l, m, h, 0, 0);
    let a = choose|a: int|
        0 <= a < t.len() && (#[trigger] t[a]).flags.active && l.entry[m].justified(
            t[a].addr,
            t[a].size as int,
        ) >= 0;
    lemma_moved_over(l, m, t, h);
    let b = lemma_in(t, h, a);
    assert(lies_in(l, m, h[b]));
    assert(h[b].entry is Some);
    assert(off > 0);
    let j = choose|j: int|
        0 <= j < h.len() && (#[trigger] h[j]).entry is Some && h[j].offset + h[j].size == off;
    assert(lies_in(l, m, h[j]));
    assert(reaches(l, m, h, off)) by {
        assert(start_of(l, m, h[j]) + h[j].size == off);
        assert forall|k: int| 0 <= k < h.len() && lies_in(l, m, #[trigger] h[k]) implies start_of(
            l,
            m,
            h[k],
        ) + h[k].size <= off by {
            assert(h[k].entry is Some);
        }
    }
    assert(reaches(l, m, s, off) == reaches(l, m, h, off));
}

/// An exclusive entry whose parts follow each other counts.
proof fn lemma_tiled_counts(
    l: ListView,
    s: Seq<ParamTrial>,
    first_only: bool,
    i: int,
    off: int,
)
    requires
        0 <= i < l.entry.len() <= usize::MAX,
        l.entry[i].alignment == 0,
        have_bytes(s),
        offsets_fit(l, i, s),
        !decide::passed_over(l.entry[i], first_only),
        parts_apart(l, i, s),
        parts_follow(l, i, s),
        parts_clean(l, i, s),
        reaches(l, i, s, off),
        off >= l.entry[i].minsize,
    ensures
        counts(l, s, first_only, i),
        count(l, s, first_only, i) == off,
{
    let t = decide::search(l, s, first_only, i).trials;
    let h = held(l, i, t);
    let tagged = t.map_values(|t: ParamTrial| decide::tag_against(l, i, t));
    lemma_carried_search(l, i, s, first_only, i);
    lemma_carried_held(l, i, i, t);
    lemma_carried_chain(l, i, s, t, h);
    lemma_moved_over(l, i, s, h);
    lemma_held_tied(l, i, t);
    lemma_fit_over(l, i, s, h);
    lemma_by_offset(l, i, tagged, tagged.len() as int);
    lemma_counts_on(l, i, h, 0, 0);
    lemma_count_reaches(l, i, h, 0, 0);
    assert(reaches(l, i, s, off) == reaches(l, i, h, off));
    let a = choose|a: int|
        0 <= a < h.len() && lies_in(l, i, #[trigger] h[a]) && start_of(l, i, h[a]) + h[a].size
            == off;
    assert(h[a].entry is Some);
    let b = lemma_in(h, t, a);
    assert(t[b].flags.active && l.entry[i].justified(t[b].addr, t[b].size as int) >= 0);
    let end = decide::cover_from(l.entry[i], h, 0, 0).1;
    assert(end >= off);
    let c = choose|c: int|
        0 <= c < h.len() && (#[trigger] h[c]).entry is Some && h[c].offset + h[c].size == end;
    assert(lies_in(l, i, h[c]));
}

/// The best entry of a search counts, and comes before every entry of its class
/// that counts as much, if all that count are of the class `r`.
proof fn lemma_best(l: ListView, s: Seq<ParamTrial>, first_only: bool, n: int, r: int)
    requires
        0 <= n <= l.entry.len() <= usize::MAX,
        forall|m: int|
            0 <= m < n && #[trigger] counts(l, s, first_only, m) ==> dtype::class_rank(
                l.entry[m].type_,
            ) == r && count(l, s, first_only, m) > 0,
    ensures
        ({
            let c = decide::search(l, s, first_only, n);
            &&& c.best matches Some(b) ==> b < n && counts(l, s, first_only, b as int) && c.cover
                == count(l, s, first_only, b as int) && c.rank == r
            &&& c.best is None ==> c.cover == 0 && c.rank == 2
            &&& forall|m: int|
                0 <= m < n && #[trigger] counts(l, s, first_only, m) ==> c.best is Some && count(
                    l,
                    s,
                    first_only,
                    m,
                ) <= c.cover && (m < c.best->0 ==> count(l, s, first_only, m) < c.cover)
        }),
    decreases n,
{
    if n > 0 {
        lemma_best(l, s, first_only, n - 1, r);
        let c = decide::search(l, s, first_only, n - 1);
        let d = decide::search(l, s, first_only, n);
        let m = n - 1;
        if counts(l, s, first_only, m) {
            assert(dtype::class_rank(l.entry[m].type_) == r);
        } else {
            assert(d.best == c.best && d.cover == c.cover && d.rank == c.rank);
        }
        assert forall|k: int| 0 <= k < n && #[trigger] counts(l, s, first_only, k) implies d.best
            is Some && count(l, s, first_only, k) <= d.cover && (k < d.best->0 ==> count(
            l,
            s,
            first_only,
            k,
        ) < d.cover) by {
            if k < n - 1 {
                assert(counts(l, s, first_only, k));
            }
        }
    }
}

/// The trial of the result is the part `t` of the return value.
pub open spec fn used_as(l: ListView, be: int, t: ParamTrial, r: ParamTrial) -> bool {
    &&& r.addr == t.addr
    &&& r.size == t.size
    &&& r.flags.used
    &&& r.entry == Some(be as usize)
    &&& r.offset == start_of(l, be, t) as i32
}

/// The return value is exactly the active trials that lie in the entry at `be`.
pub open spec fn value_in(l: ListView, be: int, s: Seq<ParamTrial>, r: Seq<ParamTrial>) -> bool {
    &&& forall|k: int|
        0 <= k < s.len() && lies_in(l, be, #[trigger] s[k]) ==> exists|j: int|
            0 <= j < r.len() && used_as(l, be, s[k], #[trigger] r[j])
    &&& forall|j: int|
        0 <= j < r.len() && (#[trigger] r[j]).flags.used ==> exists|k: int|
            0 <= k < s.len() && lies_in(l, be, #[trigger] s[k]) && used_as(l, be, s[k], r[j])
}

proof fn lemma_value(l: ListView, a: ActiveView, first_only: bool)
    requires
        l.entry.len() <= usize::MAX,
        decide::search(l, a.trial, first_only, l.entry.len() as int).best is Some,
    ensures
        value_in(
            l,
            decide::search(l, a.trial, first_only, l.entry.len() as int).best->0 as int,
            a.trial,
            decide::fallback_fillin(l, a, first_only).trial,
        ),
{
    let n = l.entry.len() as int;
    let s = a.trial;
    let c = decide::search(l, s, first_only, n);
    let be = c.best->0 as int;
    let out = c.trials.map_values(|t: ParamTrial| decide::return_verdict(l, be, t));
    let r = active::sorted_trials(false, out, out.len() as int, l.entry);
    lemma_carried_search(l, be, s, first_only, n);
    verdict::lemma_sorted_same(out, l.entry);
    assert forall|k: int| 0 <= k < s.len() && lies_in(l, be, #[trigger] s[k]) implies exists|j: int|
        0 <= j < r.len() && used_as(l, be, s[k], #[trigger] r[j]) by {
        let m = lemma_in(s, c.trials, k);
        assert(r.contains(out[m]));
        let j = r.index_of(out[m]);
        assert(used_as(l, be, s[k], r[j]));
    }
    assert forall|j: int| 0 <= j < r.len() && (#[trigger] r[j]).flags.used implies exists|k: int|
        0 <= k < s.len() && lies_in(l, be, #[trigger] s[k]) && used_as(l, be, s[k], r[j]) by {
        assert(out.contains(r[j]));
        let m = out.index_of(r[j]);
        assert(out[m] == decide::return_verdict(l, be, c.trials[m]));
        let k = lemma_in(c.trials, s, m);
        assert(lies_in(l, be, s[k]) && used_as(l, be, s[k], r[j]));
    }
}

/// The entries that a search looks at: with `first_only`, a lone register that
/// is not the first of its class is left out.
pub open spec fn looked_at(e: EntryView, first_only: bool) -> bool {
    !first_only || e.flags.first_storage || e.alignment != 0 || e.group_set.len() != 1
}

/// All entries that are looked at and hold an active trial are of one class.
pub open spec fn one_class(
    l: ListView,
    s: Seq<ParamTrial>,
    first_only: bool,
    c: dtype::TypeClass,
) -> bool {
    forall|m: int, k: int|
        0 <= m < l.entry.len() && 0 <= k < s.len() && looked_at(l.entry[m], first_only) && lies_in(
            l,
            m,
            #[trigger] s[k],
        ) ==> (#[trigger] l.entry[m]).type_ == c
}

/// A return value found by searching the entries is all that is active in the
/// entry that is covered best. If the active trials in an exclusive entry
/// follow each other from its least significant end on without a gap or an
/// overlap, and reach its least size, then the return value is taken from an
/// entry in which the active trials reach at least as far, and from one in
/// front of it if they reach as far there; provided that the entries with
/// active trials are of one class. Where entries of several classes hold active
/// trials, an entry of a lower class takes the place of one that is covered
/// better.
pub proof fn law_best_covered(l: ListView, a: ActiveView, first_only: bool, i: int, off: int)
    requires
        0 <= i < l.entry.len() <= usize::MAX,
        l.entry[i].alignment == 0,
        looked_at(l.entry[i], first_only),
        have_bytes(a.trial),
        forall|m: int| 0 <= m < l.entry.len() ==> #[trigger] offsets_fit(l, m, a.trial),
        one_class(l, a.trial, first_only, l.entry[i].type_),
        parts_apart(l, i, a.trial),
        parts_follow(l, i, a.trial),
        parts_clean(l, i, a.trial),
        reaches(l, i, a.trial, off),
        off >= l.entry[i].minsize,
    ensures
        exists|be: int, end: int|
            0 <= be < l.entry.len() && #[trigger] reaches(l, be, a.trial, end) && end >= off && (end
                == off ==> be <= i) && l.entry[be].type_ == l.entry[i].type_ && looked_at(
                l.entry[be],
                first_only,
            ) && value_in(l, be, a.trial, decide::fallback_fillin(l, a, first_only).trial),
{
    let n = l.entry.len() as int;
    let s = a.trial;
    let r = dtype::class_rank(l.entry[i].type_);
    lemma_tiled_counts(l, s, first_only, i, off);
    assert forall|m: int| 0 <= m < n && #[trigger] counts(l, s, first_only, m) implies
        l.entry[m].type_ == l.entry[i].type_ && count(l, s, first_only, m) > 0 by {
        assert(offsets_fit(l, m, s));
        lemma_counts_reach(l, s, first_only, m);
        let k = choose|k: int|
            0 <= k < s.len() && lies_in(l, m, #[trigger] s[k]) && start_of(l, m, s[k]) + s[k].size
                == count(l, s, first_only, m);
        assert(lies_in(l, m, s[k]));
        assert(l.entry[m].type_ == l.entry[i].type_);
    }
    lemma_best(l, s, first_only, n, r);
    let c = decide::search(l, s, first_only, n);
    assert(counts(l, s, first_only, i));
    let be = c.best->0 as int;
    assert(counts(l, s, first_only, be));
    assert(offsets_fit(l, be, s));
    lemma_counts_reach(l, s, first_only, be);
    lemma_value(l, a, first_only);
    assert(reaches(l, be, s, count(l, s, first_only, be)));
}

/// A list of return values without rules decides by that search.
pub proof fn law_outputs_by_search(l: ListView, a: ActiveView)
    requires
        l.use_fillin_fallback,
        a.trial.len() > 0,
        verdict::of_outputs(l),
    ensures
        decide::decided(l, a) == Ok::<ActiveView, crate::error::FspecError>(
            decide::fallback_fillin(l, a, false),
        ),
{
}

/// No return value is found where no entry holds an active trial.
pub proof fn law_no_part_no_value(l: ListView, a: ActiveView, first_only: bool)
    requires
        l.entry.len() <= usize::MAX,
        forall|m: int, k: int|
            0 <= m < l.entry.len() && 0 <= k < a.trial.len() ==> !#[trigger] lies_in(
                l,
                m,
                a.trial[k],
            ),
    ensures
        verdict::none_used(decide::fallback_fillin(l, a, first_only).trial),
{
    let n = l.entry.len() as int;
    let s = a.trial;
    let c = decide::search(l, s, first_only, n);
    if c.best is Some {
        let be = c.best->0 as int;
        lemma_value(l, a, first_only);
        let r = decide::fallback_fillin(l, a, first_only).trial;
        lemma_best_in_range(l, s, first_only, n);
        assert forall|j: int| 0 <= j < r.len() implies !(#[trigger] r[j]).flags.used by {
            if r[j].flags.used {
                let k = choose|k: int|
                    0 <= k < s.len() && lies_in(l, be, #[trigger] s[k]) && used_as(
                        l,
                        be,
                        s[k],
                        r[j],
                    );
                assert(lies_in(l, be, s[k]));
            }
        }
    }
}

proof fn lemma_best_in_range(l: ListView, s: Seq<ParamTrial>, first_only: bool, n: int)
    requires
        0 <= n <= l.entry.len() <= usize::MAX,
    ensures
        decide::search(l, s, first_only, n).best matches Some(b) ==> b < n,
    decreases n,
{
    if n > 0 {
        lemma_best_in_range(l, s, first_only, n - 1);
    }
}

/// The order of the classes, the one that is taken first in front.
pub open spec fn class_place(c: dtype::TypeClass) -> int {
    match c {
        dtype::TypeClass::General => 0,
        dtype::TypeClass::Float => 1,
        dtype::TypeClass::Ptr => 2,
        dtype::TypeClass::HiddenRet => 3,
        dtype::TypeClass::Vector => 4,
        dtype::TypeClass::Class1 => 5,
        dtype::TypeClass::Class2 => 6,
        dtype::TypeClass::Class3 => 7,
        dtype::TypeClass::Class4 => 8,
    }
}

proof fn lemma_place(a: dtype::TypeClass, b: dtype::TypeClass)
    ensures
        (dtype::class_rank(a) < dtype::class_rank(b)) == (class_place(a) < class_place(b)),
{
}

/// What counts behind the best entry is neither of an earlier class nor covered
/// better.
proof fn lemma_best_later(l: ListView, s: Seq<ParamTrial>, first_only: bool, n: int)
    requires
        0 <= n <= l.entry.len() <= usize::MAX,
        forall|m: int|
            0 <= m < n && #[trigger] counts(l, s, first_only, m) ==> count(l, s, first_only, m) > 0,
    ensures
        ({
            let c = decide::search(l, s, first_only, n);
            &&& c.best matches Some(b) ==> b < n && counts(l, s, first_only, b as int) && c.cover
                == count(l, s, first_only, b as int) && c.rank == dtype::class_rank(
                l.entry[b as int].type_,
            )
            &&& c.best is None ==> c.cover == 0 && c.rank == 2
            &&& forall|m: int|
                0 <= m < n && #[trigger] counts(l, s, first_only, m) ==> c.best is Some && (m
                    > c.best->0 ==> count(l, s, first_only, m) <= c.cover && dtype::class_rank(
                    l.entry[m].type_,
                ) >= c.rank)
            &&& forall|i: int|
                0 <= i < n && #[trigger] counts(l, s, first_only, i) && (forall|m: int|
                    0 <= m < c.best->0 && m != i ==> !#[trigger] counts(l, s, first_only, m)) && i
                    < c.best->0 ==> count(l, s, first_only, i) < c.cover || c.rank
                    < dtype::class_rank(l.entry[i].type_)
        }),
    decreases n,
{
    if n > 0 {
        lemma_best_later(l, s, first_only, n - 1);
        let c = decide::search(l, s, first_only, n - 1);
        let d = decide::search(l, s, first_only, n);
        let m = n - 1;
        if !counts(l, s, first_only, m) {
            assert(d.best == c.best && d.cover == c.cover && d.rank == c.rank);
        }
        assert forall|k: int| 0 <= k < n && #[trigger] counts(l, s, first_only, k) implies d.best
            is Some && (k > d.best->0 ==> count(l, s, first_only, k) <= d.cover
            && dtype::class_rank(l.entry[k].type_) >= d.rank) by {
            if k < n - 1 {
                assert(counts(l, s, first_only, k));
            }
        }
        assert forall|i: int|
            0 <= i < n && #[trigger] counts(l, s, first_only, i) && (forall|m: int|
                0 <= m < d.best->0 && m != i ==> !#[trigger] counts(l, s, first_only, m)) && i
                < d.best->0 implies count(l, s, first_only, i) < d.cover || d.rank
            < dtype::class_rank(l.entry[i].type_) by {
            if d.best == c.best && d.best->0 != m {
            } else {
                assert(c.best is Some);
                assert(counts(l, s, first_only, c.best->0 as int));
                assert(c.best->0 == i);
            }
        }
    }
}

/// How the classes weigh in a search over entries of several. Of two entries
/// whose parts cover them, the later one is taken only if it is of an earlier
/// class or covered better: no entry behind the one that the return value is
/// taken from is of an earlier class, or covered better; and if just one entry
/// in front of it holds active trials, it is of an earlier class than that, or
/// covered better.
pub proof fn law_classes_weighed(l: ListView, a: ActiveView, first_only: bool, i: int, off: int)
    requires
        0 <= i < l.entry.len() <= usize::MAX,
        l.entry[i].alignment == 0,
        looked_at(l.entry[i], first_only),
        have_bytes(a.trial),
        forall|m: int| 0 <= m < l.entry.len() ==> #[trigger] offsets_fit(l, m, a.trial),
        parts_apart(l, i, a.trial),
        parts_follow(l, i, a.trial),
        parts_clean(l, i, a.trial),
        reaches(l, i, a.trial, off),
        off >= l.entry[i].minsize,
    ensures
        exists|be: int, end: int|
            0 <= be < l.entry.len() && #[trigger] reaches(l, be, a.trial, end) && value_in(
                l,
                be,
                a.trial,
                decide::fallback_fillin(l, a, first_only).trial,
            ) && (i > be ==> off <= end && class_place(l.entry[be].type_) <= class_place(
                l.entry[i].type_,
            )) && (i < be && (forall|m: int, k: int|
                0 <= m < be && m != i && 0 <= k < a.trial.len() ==> !#[trigger] lies_in(
                    l,
                    m,
                    a.trial[k],
                )) ==> off < end || class_place(l.entry[be].type_) < class_place(
                l.entry[i].type_,
            )),
{
    let n = l.entry.len() as int;
    let s = a.trial;
    lemma_tiled_counts(l, s, first_only, i, off);
    assert forall|m: int| 0 <= m < n && #[trigger] counts(l, s, first_only, m) implies count(
        l,
        s,
        first_only,
        m,
    ) > 0 && reaches(l, m, s, count(l, s, first_only, m)) by {
        assert(offsets_fit(l, m, s));
        lemma_counts_reach(l, s, first_only, m);
    }
    lemma_best_later(l, s, first_only, n);
    let c = decide::search(l, s, first_only, n);
    assert(counts(l, s, first_only, i));
    let be = c.best->0 as int;
    assert(counts(l, s, first_only, be));
    lemma_value(l, a, first_only);
    lemma_place(l.entry[be].type_, l.entry[i].type_);
    lemma_place(l.entry[i].type_, l.entry[be].type_);
    let end = count(l, s, first_only, be);
    assert(reaches(l, be, s, end));
    if i < be && (forall|m: int, k: int|
        0 <= m < be && m != i && 0 <= k < s.len() ==> !#[trigger] lies_in(l, m, s[k])) {
        assert forall|m: int| 0 <= m < be && m != i implies !#[trigger] counts(
            l,
            s,
            first_only,
            m,
        ) by {
            if counts(l, s, first_only, m) {
                assert(reaches(l, m, s, count(l, s, first_only, m)));
                let k = choose|k: int|
                    0 <= k < s.len() && lies_in(l, m, #[trigger] s[k]) && start_of(l, m, s[k])
                        + s[k].size == count(l, s, first_only, m);
                assert(lies_in(l, m, s[k]));
            }
        }
    }
}

} // verus!
