//! What trials are tied to, and what is put in for those that are missing.
use crate::active::ActiveView;
use crate::arranged;
use crate::dtype::TypeClass;
use crate::entry::EntryView;
use crate::fillin;
use crate::held;
use crate::paramlist;
use crate::paramlist::ListView;
use crate::storage;
use crate::trial::ParamTrial;
use crate::verdict;
use vstd::prelude::*;

verus! {

/// The second list starts with the first.
spec fn starts_with(s: Seq<ParamTrial>, p: Seq<ParamTrial>) -> bool {
    p.len() <= s.len() && forall|k: int| 0 <= k < p.len() ==> #[trigger] s[k] == p[k]
}

proof fn lemma_slots_grow(l: ListView, a: ActiveView, s: Seq<ParamTrial>, c: usize, n: int)
    ensures
        starts_with(fillin::fill_slots(l, a, s, c, n).trial, a.trial),
    decreases n,
{
    if n > 0 {
        lemma_slots_grow(l, a, s, c, n - 1);
    }
}

proof fn lemma_group_grows(
    l: ListView,
    a: ActiveView,
    hit: Option<usize>,
    pref: TypeClass,
    g: int,
)
    ensures
        starts_with(fillin::fill_group(l, a, hit, pref, g).trial, a.trial),
{
    if hit is Some && !l.entry[hit->0 as int].exclusion() {
        let n = fillin::slots_seen(l, a.trial, a.trial.len() as int, hit->0);
        lemma_slots_grow(l, a, a.trial, hit->0, n);
    }
}

proof fn lemma_groups_grow(l: ListView, a: ActiveView, s: Seq<ParamTrial>, m: int, n: int)
    requires
        0 <= m <= n,
    ensures
        starts_with(fillin::fill_groups(l, a, s, n).trial, fillin::fill_groups(l, a, s, m).trial),
    decreases n,
{
    if m < n {
        lemma_groups_grow(l, a, s, m, n - 1);
        lemma_group_grows(
            l,
            fillin::fill_groups(l, a, s, n - 1),
            fillin::group_hit(l, s, s.len() as int, n - 1),
            fillin::preferred_class(l, s),
            n - 1,
        );
    }
}

/// The trial was tied to the first entry that can hold it in place, or ruled
/// out where none can.
pub open spec fn well_tied(l: ListView, t: ParamTrial, u: ParamTrial) -> bool {
    &&& u.addr == t.addr && u.size == t.size && u.slot == t.slot
    &&& if exists|i: int|
        0 <= i < l.entry.len() && held::can_hold(
            #[trigger] l.entry[i],
            t.addr,
            t.size as int,
            true,
        ) {
        &&& u.flags == t.flags
        &&& u.entry is Some
        &&& u.entry->0 < l.entry.len()
        &&& held::can_hold(l.entry[u.entry->0 as int], t.addr, t.size as int, true)
        &&& forall|i: int|
            0 <= i < u.entry->0 ==> !held::can_hold(
                #[trigger] l.entry[i],
                t.addr,
                t.size as int,
                true,
            )
    } else {
        u.flags.defnouse && !u.flags.active
    }
}

/// The collection of trials that a list puts in formal order.
spec fn whole(l: ListView, a: ActiveView) -> Seq<ParamTrial> {
    let tagged = ActiveView { trial: fillin::tag_trials(l, a.trial), ..a };
    fillin::fill_groups(
        l,
        tagged,
        a.trial,
        fillin::groups_seen(l, a.trial, a.trial.len() as int),
    ).trial
}

proof fn lemma_kept_in_order(l: ListView, a: ActiveView, t: ParamTrial)
    requires
        whole(l, a).contains(t),
    ensures
        fillin::trial_map(l, a).trial.contains(t),
{
    verdict::lemma_sorted_same(whole(l, a), l.entry);
    let k = choose|k: int| 0 <= k < whole(l, a).len() && whole(l, a)[k] == t;
    assert(whole(l, a)[k] == t);
}

proof fn lemma_seen_nonnegative(l: ListView, s: Seq<ParamTrial>, n: int)
    ensures
        fillin::groups_seen(l, s, n) >= 0,
    decreases n,
{
    if 0 < n <= s.len() {
        lemma_seen_nonnegative(l, s, n - 1);
    }
}

/// Every trial is tied to the first entry of the model that can hold it where
/// the convention puts values, and ruled out if there is none.
pub proof fn law_trials_tied(l: ListView, a: ActiveView, k: int)
    requires
        held::plain_list(l),
        0 <= k < a.trial.len(),
        storage::range_in_space(a.trial[k].addr, a.trial[k].size as int),
    ensures
        exists|u: ParamTrial|
            fillin::trial_map(l, a).trial.contains(u) && #[trigger] well_tied(l, a.trial[k], u),
{
    let t = a.trial[k];
    let u = fillin::tag_trial(l, t);
    held::law_found_in_first_holder(l, t.addr, t.size as int, true);
    assert(well_tied(l, t, u));
    let tagged = ActiveView { trial: fillin::tag_trials(l, a.trial), ..a };
    let n = fillin::groups_seen(l, a.trial, a.trial.len() as int);
    lemma_seen_nonnegative(l, a.trial, a.trial.len() as int);
    lemma_groups_grow(l, tagged, a.trial, 0, n);
    assert(fillin::fill_groups(l, tagged, a.trial, 0).trial[k] == u);
    assert(whole(l, a)[k] == u);
    lemma_kept_in_order(l, a, u);
}

/// The trial falls into group `g`.
pub open spec fn falls_into(l: ListView, t: ParamTrial, g: int) -> bool {
    l.found(t.addr, t.size as int, true) matches Some(e) && l.entry[e as int].group() == g
}

proof fn lemma_no_hit(l: ListView, s: Seq<ParamTrial>, n: int, g: int)
    requires
        0 <= n <= s.len(),
        forall|k: int| 0 <= k < s.len() ==> !falls_into(l, #[trigger] s[k], g),
    ensures
        fillin::group_hit(l, s, n, g) is None,
    decreases n,
{
    if n > 0 {
        lemma_no_hit(l, s, n - 1, g);
        assert(!falls_into(l, s[n - 1], g));
    }
}

proof fn lemma_seen(l: ListView, s: Seq<ParamTrial>, n: int, k: int, g: int)
    requires
        0 <= k < n <= s.len(),
        falls_into(l, s[k], g),
    ensures
        g < fillin::groups_seen(l, s, n),
    decreases n,
{
    if k < n - 1 {
        lemma_seen(l, s, n - 1, k, g);
    }
}

/// How many of the first `n` trials are active in an entry for floating-point
/// values, or for others.
pub open spec fn actives(l: ListView, s: Seq<ParamTrial>, n: int, float: bool) -> int
    decreases n,
{
    if n <= 0 {
        0
    } else {
        let e = l.found(s[n - 1].addr, s[n - 1].size as int, true);
        let counts = s[n - 1].flags.active && e is Some && (l.entry[e->0 as int].type_
            == TypeClass::Float) == float;
        actives(l, s, n - 1, float) + if counts {
            1int
        } else {
            0int
        }
    }
}

/// The class that most of the active trials have.
pub open spec fn most_active(l: ListView, s: Seq<ParamTrial>) -> TypeClass {
    if actives(l, s, s.len() as int, true) > actives(l, s, s.len() as int, false) {
        TypeClass::Float
    } else {
        TypeClass::General
    }
}

proof fn lemma_actives(l: ListView, s: Seq<ParamTrial>, n: int, float: bool)
    requires
        0 <= n <= s.len(),
    ensures
        fillin::active_count(l, s, n, float) == actives(l, s, n, float),
    decreases n,
{
    if n > 0 {
        lemma_actives(l, s, n - 1, float);
    }
}

/// The entry at `c` is the one that stands in for group `g`: the first of the
/// group for values of the class `pref`, or the first of the group if it has
/// none for them.
pub open spec fn stands_in(l: ListView, g: int, pref: TypeClass, c: int) -> bool {
    &&& 0 <= c < l.entry.len()
    &&& l.entry[c].group() == g
    &&& if l.entry[c].type_ == pref {
        forall|i: int|
            0 <= i < c && (#[trigger] l.entry[i]).group() == g ==> l.entry[i].type_ != pref
    } else {
        &&& forall|i: int|
            0 <= i < l.entry.len() && (#[trigger] l.entry[i]).group() == g ==> l.entry[i].type_
                != pref
        &&& forall|i: int| 0 <= i < c ==> (#[trigger] l.entry[i]).group() != g
    }
}

proof fn lemma_stands_in(l: ListView, n: int, g: int, pref: TypeClass)
    requires
        0 <= n <= l.entry.len(),
    ensures
        ({
            let r = paramlist::best_unref(l.entry, n, g, pref);
            match r {
                None => forall|i: int| 0 <= i < n ==> (#[trigger] l.entry[i]).group() != g,
                Some(c) => {
                    &&& 0 <= c < n
                    &&& l.entry[c].group() == g
                    &&& l.entry[c].type_ == pref ==> forall|i: int|
                        0 <= i < c && (#[trigger] l.entry[i]).group() == g ==> l.entry[i].type_
                            != pref
                    &&& l.entry[c].type_ != pref ==> (forall|i: int|
                        0 <= i < n && (#[trigger] l.entry[i]).group() == g ==> l.entry[i].type_
                            != pref) && (forall|i: int|
                        0 <= i < c ==> (#[trigger] l.entry[i]).group() != g)
                },
            }
        }),
    decreases n,
{
    if n > 0 {
        lemma_stands_in(l, n - 1, g, pref);
    }
}

/// The trial stands for the first slot of an entry to which nothing refers.
pub open spec fn put_in(e: EntryView, c: int, t: ParamTrial) -> bool {
    &&& t.entry == Some(c as usize)
    &&& t.flags.unref
    &&& !t.flags.active && !t.flags.used && !t.flags.defnouse
    &&& t.size == (if e.alignment == 0 {
        e.size
    } else {
        e.alignment
    })
    &&& t.addr.space == e.spaceid
    &&& t.addr.offset == (if e.alignment == 0 || !e.flags.reverse_stack {
        e.addressbase as int
    } else {
        e.addressbase + (e.numslots - 1) * e.alignment
    })
}

proof fn lemma_one_slot(e: EntryView, slot: i32, right: bool)
    requires
        storage::one_range(e),
        e.alignment > 0,
        e.minsize <= e.alignment,
        0 <= slot < e.numslots,
        e.numslots < i32::MAX,
    ensures
        ({
            let a = e.plain_addr(slot, e.alignment as int, 1, right);
            let first = if e.flags.reverse_stack {
                e.numslots - slot - 1
            } else {
                slot as int
            };
            a.space == e.spaceid && a.offset == e.addressbase + first * e.alignment
        }),
{
    let al = e.alignment as int;
    vstd::arithmetic::div_mod::lemma_fundamental_div_mod_converse(al, al, 1, 0);
    assert(e.slots_for(al) == 1);
    assert(e.aligned_slot(slot, 1) == slot);
    storage::lemma_placed(e, slot, al, 1, right);
}

proof fn lemma_put_in(l: ListView, a: ActiveView, c: int)
    requires
        0 <= c < l.entry.len() <= usize::MAX,
        storage::one_range(l.entry[c]),
        l.entry[c].alignment == 0 ==> l.entry[c].minsize <= l.entry[c].size,
        l.entry[c].alignment > 0 ==> l.entry[c].minsize <= l.entry[c].alignment
            && 0 < l.entry[c].numslots < i32::MAX,
    ensures
        ({
            let e = l.entry[c];
            let sz = if e.exclusion() {
                e.size
            } else {
                e.alignment
            };
            let at = e.plain_addr(0, sz as int, 1, !e.left_justified());
            put_in(e, c, fillin::with_unref(a, c as usize, at, sz).trial.last())
        }),
{
    let e = l.entry[c];
    if e.alignment > 0 {
        lemma_one_slot(e, 0, !e.left_justified());
    }
}

/// A group of the model into which no trial falls, in front of one into which a
/// trial does, gets a trial to which nothing refers. It stands for an entry of
/// the class that most of the active trials have.
pub proof fn law_missing_group_filled(l: ListView, a: ActiveView, g: int, h: int, k: int)
    requires
        held::plain_list(l),
        0 <= g < h,
        0 <= k < a.trial.len(),
        falls_into(l, a.trial[k], h),
        forall|j: int| 0 <= j < a.trial.len() ==> !falls_into(l, #[trigger] a.trial[j], g),
        exists|i: int| 0 <= i < l.entry.len() && (#[trigger] l.entry[i]).group() == g,
        forall|i: int|
            0 <= i < l.entry.len() ==> (if (#[trigger] l.entry[i]).alignment == 0 {
                l.entry[i].minsize <= l.entry[i].size
            } else {
                l.entry[i].minsize <= l.entry[i].alignment && 0 < l.entry[i].numslots < i32::MAX
            }),
    ensures
        exists|c: int, t: ParamTrial|
            #[trigger] stands_in(l, g, most_active(l, a.trial), c) && fillin::trial_map(
                l,
                a,
            ).trial.contains(t) && #[trigger] put_in(l.entry[c], c, t),
{
    let n = a.trial.len() as int;
    lemma_actives(l, a.trial, n, true);
    lemma_actives(l, a.trial, n, false);
    let pref = fillin::preferred_class(l, a.trial);
    let tagged = ActiveView { trial: fillin::tag_trials(l, a.trial), ..a };
    let top = fillin::groups_seen(l, a.trial, n);
    lemma_seen(l, a.trial, n, k, h);
    lemma_no_hit(l, a.trial, n, g);
    lemma_stands_in(l, l.entry.len() as int, g, pref);
    let c = paramlist::best_unref(l.entry, l.entry.len() as int, g, pref)->0;
    assert(pref == most_active(l, a.trial));
    assert(stands_in(l, g, most_active(l, a.trial), c));
    assert(storage::one_range(l.entry[c]));
    let before = fillin::fill_groups(l, tagged, a.trial, g);
    lemma_put_in(l, before, c);
    let after = fillin::fill_groups(l, tagged, a.trial, g + 1);
    let t = after.trial.last();
    assert(put_in(l.entry[c], c, t));
    lemma_groups_grow(l, tagged, a.trial, g + 1, top);
    assert(whole(l, a)[after.trial.len() - 1] == t);
    lemma_kept_in_order(l, a, t);
}

/// Where the `j`-th slot that the entry hands out lies, counted from its start.
pub open spec fn slot_place(e: EntryView, j: int) -> int {
    if e.flags.reverse_stack {
        e.numslots - 1 - j
    } else {
        j
    }
}

/// The trial is tied to the entry at `c` and has a byte in its `j`-th slot.
pub open spec fn in_slot(l: ListView, c: usize, t: ParamTrial, j: int) -> bool {
    let e = l.entry[c as int];
    let p = slot_place(e, j);
    &&& t.entry == Some(c)
    &&& t.addr.offset < e.addressbase + (p + 1) * e.alignment
    &&& e.addressbase + p * e.alignment < t.addr.offset + t.size
}

/// The trial lies in the entry.
spec fn inside(e: EntryView, t: ParamTrial) -> bool {
    t.size > 0 && e.addressbase <= t.addr.offset && t.addr.offset + t.size <= e.addressbase + e.size
}

proof fn lemma_between(al: int, x: int, y: int)
    requires
        al > 0,
        x <= y,
    ensures
        x * al <= y * al,
{
    assert(x * al <= y * al) by (nonlinear_arith)
        requires
            al > 0,
            x <= y,
    ;
}

/// The slots that a trial occupies, in bytes.
proof fn lemma_occupied(l: ListView, c: usize, t: ParamTrial, j: int)
    requires
        storage::one_range(l.entry[c as int]),
        l.entry[c as int].alignment > 0,
        l.entry[c as int].group_set[0] >= 0,
        l.entry[c as int].group_set[0] + l.entry[c as int].size <= i32::MAX,
        inside(l.entry[c as int], t),
        t.entry == Some(c),
    ensures
        (fillin::low_slot(l.entry[c as int], t) <= j <= fillin::high_slot(l.entry[c as int], t))
            == in_slot(l, c, t, j),
{
    let e = l.entry[c as int];
    let al = e.alignment as int;
    arranged::law_slot_of_byte(e, t.addr, 0);
    arranged::law_slot_of_byte(e, t.addr, t.size - 1);
    let f = slot_place(e, e.slot_at(t.addr, 0) - e.group_set[0]);
    let m = slot_place(e, e.slot_at(t.addr, t.size - 1) - e.group_set[0]);
    let p = slot_place(e, j);
    let first = t.addr.offset - e.addressbase;
    let last = first + t.size - 1;
    assert(f * al <= first < (f + 1) * al);
    assert(m * al <= last < (m + 1) * al);
    assert(f <= m) by {
        if m + 1 <= f {
            lemma_between(al, m + 1, f);
        }
    }
    assert(0 <= f) by {
        if f + 1 <= 0 {
            lemma_between(al, f + 1, 0);
        }
    }
    assert(m <= e.size) by (nonlinear_arith)
        requires
            m * al <= last,
            last < e.size,
            al >= 1,
            e.size > 0,
    ;
    assert(0 <= e.numslots <= e.size) by (nonlinear_arith)
        requires
            e.numslots == e.size as int / al,
            al >= 1,
            e.size > 0,
    ;
    if f <= p <= m {
        lemma_between(al, f + 1, p + 1);
        lemma_between(al, p, m);
    }
    if p < f {
        lemma_between(al, p + 1, f);
    }
    if p > m {
        lemma_between(al, m + 1, p);
    }
}

/// What was put in for the first groups is tied to entries of those groups.
proof fn lemma_put_in_groups(l: ListView, a: ActiveView, s: Seq<ParamTrial>, n: int)
    requires
        0 <= n,
        l.entry.len() <= usize::MAX,
    ensures
        ({
            let r = fillin::fill_groups(l, a, s, n).trial;
            &&& starts_with(r, a.trial)
            &&& forall|k: int|
                a.trial.len() <= k < r.len() ==> (#[trigger] r[k]).entry is Some
                    && l.entry[r[k].entry->0 as int].group() < n
        }),
    decreases n,
{
    if n > 0 {
        lemma_put_in_groups(l, a, s, n - 1);
        let b = fillin::fill_groups(l, a, s, n - 1);
        let hit = fillin::group_hit(l, s, s.len() as int, n - 1);
        let pref = fillin::preferred_class(l, s);
        lemma_group_grows(l, b, hit, pref, n - 1);
        lemma_hit_group(l, s, s.len() as int, n - 1);
        match hit {
            None => {
                lemma_stands_in(l, l.entry.len() as int, n - 1, pref);
            },
            Some(c) => {
                let m = fillin::slots_seen(l, b.trial, b.trial.len() as int, c);
                lemma_slots_tied(l, b, b.trial, c, m);
            },
        }
    }
}

proof fn lemma_hit_group(l: ListView, s: Seq<ParamTrial>, n: int, g: int)
    ensures
        fillin::group_hit(l, s, n, g) matches Some(e) ==> l.entry[e as int].group() == g
            && exists|k: int|
            0 <= k < n && k < s.len() && l.found(
                (#[trigger] s[k]).addr,
                s[k].size as int,
                true,
            ) == Some(e),
    decreases n,
{
    if 0 < n <= s.len() {
        lemma_hit_group(l, s, n - 1, g);
        if fillin::group_hit(l, s, n - 1, g) is Some {
            let e = fillin::group_hit(l, s, n - 1, g)->0;
            let k = choose|k: int|
                0 <= k < n - 1 && k < s.len() && l.found(
                    (#[trigger] s[k]).addr,
                    s[k].size as int,
                    true,
                ) == Some(e);
            assert(l.found(s[k].addr, s[k].size as int, true) == Some(e));
        } else if fillin::group_hit(l, s, n, g) is Some {
            assert(l.found(s[n - 1].addr, s[n - 1].size as int, true) == Some(
                fillin::group_hit(l, s, n, g)->0,
            ));
        }
    }
}

proof fn lemma_slots_tied(l: ListView, a: ActiveView, s: Seq<ParamTrial>, c: usize, n: int)
    ensures
        ({
            let r = fillin::fill_slots(l, a, s, c, n).trial;
            &&& starts_with(r, a.trial)
            &&& forall|k: int| a.trial.len() <= k < r.len() ==> (#[trigger] r[k]).entry == Some(c)
        }),
    decreases n,
{
    if n > 0 {
        lemma_slots_tied(l, a, s, c, n - 1);
    }
}

/// A trial put in for the `j`-th slot is among those that were put in.
proof fn lemma_slot_filled(
    l: ListView,
    a: ActiveView,
    s: Seq<ParamTrial>,
    c: usize,
    n: int,
    j: int,
)
    requires
        0 <= j < n,
        !fillin::slot_taken(l, s, s.len() as int, c, j),
        storage::one_range(l.entry[c as int]),
        l.entry[c as int].alignment > 0,
        l.entry[c as int].minsize <= l.entry[c as int].alignment,
        n <= l.entry[c as int].numslots < i32::MAX,
    ensures
        exists|k: int|
            0 <= k < fillin::fill_slots(l, a, s, c, n).trial.len() && stands_for_slot(
                l,
                c,
                #[trigger] fillin::fill_slots(l, a, s, c, n).trial[k],
                j,
            ),
    decreases n,
{
    let r = fillin::fill_slots(l, a, s, c, n).trial;
    if j < n - 1 {
        lemma_slot_filled(l, a, s, c, n - 1, j);
        let b = fillin::fill_slots(l, a, s, c, n - 1).trial;
        let k = choose|k: int| 0 <= k < b.len() && stands_for_slot(l, c, #[trigger] b[k], j);
        assert(r[k] == b[k]);
    } else {
        let e = l.entry[c as int];
        lemma_one_slot(e, j as i32, !e.left_justified());
        assert(stands_for_slot(l, c, r[r.len() - 1], j));
    }
}

/// The trial stands for the `j`-th slot of the entry at `c`, to which nothing
/// refers.
pub open spec fn stands_for_slot(l: ListView, c: usize, t: ParamTrial, j: int) -> bool {
    let e = l.entry[c as int];
    &&& t.entry == Some(c)
    &&& t.flags.unref && !t.flags.active && !t.flags.used && !t.flags.defnouse
    &&& t.addr.space == e.spaceid
    &&& t.addr.offset == e.addressbase + slot_place(e, j) * e.alignment
    &&& t.size == e.alignment
}

proof fn lemma_seen_slot(l: ListView, s: Seq<ParamTrial>, n: int, c: usize, k: int)
    requires
        0 <= k < n <= s.len(),
        s[k].entry == Some(c),
    ensures
        fillin::high_slot(l.entry[c as int], s[k]) < fillin::slots_seen(l, s, n, c),
    decreases n,
{
    if k < n - 1 {
        lemma_seen_slot(l, s, n - 1, c, k);
    }
}

proof fn lemma_seen_bound(l: ListView, s: Seq<ParamTrial>, n: int, c: usize, top: int)
    requires
        0 <= n <= s.len(),
        0 <= top,
        forall|k: int|
            0 <= k < n && (#[trigger] s[k]).entry == Some(c) ==> fillin::high_slot(
                l.entry[c as int],
                s[k],
            ) < top,
    ensures
        fillin::slots_seen(l, s, n, c) <= top,
    decreases n,
{
    if n > 0 {
        lemma_seen_bound(l, s, n - 1, c, top);
        assert(s[n - 1].entry == Some(c) ==> fillin::high_slot(l.entry[c as int], s[n - 1]) < top);
    }
}

/// A divided entry whose slots all have bytes, alone in its group.
pub open spec fn own_resource(l: ListView, c: usize) -> bool {
    let e = l.entry[c as int];
    &&& c < l.entry.len()
    &&& e.alignment > 0
    &&& e.minsize <= e.alignment
    &&& 0 < e.numslots < i32::MAX
    &&& e.size == e.numslots * e.alignment
    &&& e.group_set[0] + e.size <= i32::MAX
    &&& forall|i: int|
        0 <= i < l.entry.len() && i != c ==> (#[trigger] l.entry[i]).group_set[0] != e.group_set[0]
}

/// No slot of a divided entry is left out in front of one that a trial is in: some
/// trial is in it, or one to which nothing refers is put in for it.
pub proof fn law_slots_filled(l: ListView, a: ActiveView, c: usize, k: int, h: int, j: int)
    requires
        held::plain_list(l),
        own_resource(l, c),
        forall|i: int|
            0 <= i < a.trial.len() ==> storage::range_in_space(
                (#[trigger] a.trial[i]).addr,
                a.trial[i].size as int,
            ) && (a.trial[i].entry is None),
        0 <= k < a.trial.len(),
        l.found(a.trial[k].addr, a.trial[k].size as int, true) == Some(c),
        in_slot(l, c, ParamTrial { entry: Some(c), ..a.trial[k] }, h),
        0 <= j <= h < l.entry[c as int].numslots,
    ensures
        exists|u: ParamTrial|
            #[trigger] fillin::trial_map(l, a).trial.contains(u) && (in_slot(l, c, u, j)
                || stands_for_slot(l, c, u, j)),
{
    let e = l.entry[c as int];
    let g = e.group();
    let s = a.trial;
    let tagged = ActiveView { trial: fillin::tag_trials(l, s), ..a };
    let top = fillin::groups_seen(l, s, s.len() as int);
    assert(storage::one_range(e) && e.wf() && e.group_set[0] >= 0);
    assert(falls_into(l, s[k], g));
    lemma_seen(l, s, s.len() as int, k, g);
    let hit = fillin::group_hit(l, s, s.len() as int, g);
    if hit is None {
        lemma_hit_none(l, s, s.len() as int, g, k);
    }
    lemma_hit_group(l, s, s.len() as int, g);
    let w = choose|w: int|
        0 <= w < s.len() && l.found((#[trigger] s[w]).addr, s[w].size as int, true) == Some(hit->0);
    held::law_found_in_first_holder(l, s[w].addr, s[w].size as int, true);
    assert(hit == Some(c)) by {
        if hit->0 != c {
            assert(l.entry[hit->0 as int].group_set[0] != e.group_set[0]);
        }
    }
    lemma_put_in_groups(l, tagged, s, g);
    let b = fillin::fill_groups(l, tagged, s, g);
    let after = fillin::fill_groups(l, tagged, s, g + 1);
    let n = fillin::slots_seen(l, b.trial, b.trial.len() as int, c);
    assert(after == fillin::fill_slots(l, b, b.trial, c, n));
    assert forall|i: int| 0 <= i < b.trial.len() && (#[trigger] b.trial[i]).entry == Some(c) implies
        inside(e, b.trial[i]) && fillin::high_slot(e, b.trial[i]) < e.numslots by {
        if i < tagged.trial.len() {
            assert(b.trial[i] == tagged.trial[i]);
            assert(tagged.trial[i] == fillin::tag_trial(l, s[i]));
            held::law_found_in_first_holder(l, s[i].addr, s[i].size as int, true);
            assert(inside(e, b.trial[i]));
            let hs = fillin::high_slot(e, b.trial[i]);
            lemma_occupied(l, c, b.trial[i], hs);
            assert(fillin::low_slot(e, b.trial[i]) <= hs);
            if hs >= e.numslots {
                lemma_beyond(e, b.trial[i], hs);
            }
        }
    }
    lemma_seen_bound(l, b.trial, b.trial.len() as int, c, e.numslots as int);
    assert(b.trial[k] == tagged.trial[k]);
    let t = ParamTrial { entry: Some(c), offset: 0, ..s[k] };
    assert(tagged.trial[k] == t);
    lemma_occupied(l, c, t, h);
    assert(in_slot(l, c, t, h));
    lemma_seen_slot(l, b.trial, b.trial.len() as int, c, k);
    assert(j < n);
    if fillin::slot_taken(l, b.trial, b.trial.len() as int, c, j) {
        let i = choose|i: int|
            0 <= i < b.trial.len() && (#[trigger] b.trial[i]).entry == Some(c) && fillin::low_slot(
                e,
                b.trial[i],
            ) <= j <= fillin::high_slot(e, b.trial[i]);
        let u = b.trial[i];
        lemma_occupied(l, c, u, j);
        lemma_groups_grow(l, tagged, s, g, top);
        assert(whole(l, a)[i] == u);
        lemma_kept_in_order(l, a, u);
    } else {
        lemma_slot_filled(l, b, b.trial, c, n, j);
        let i = choose|i: int|
            0 <= i < after.trial.len() && stands_for_slot(l, c, #[trigger] after.trial[i], j);
        let u = after.trial[i];
        lemma_groups_grow(l, tagged, s, g + 1, top);
        assert(whole(l, a)[i] == u);
        lemma_kept_in_order(l, a, u);
    }
}

proof fn lemma_hit_none(l: ListView, s: Seq<ParamTrial>, n: int, g: int, k: int)
    requires
        0 <= k < n <= s.len(),
        falls_into(l, s[k], g),
    ensures
        fillin::group_hit(l, s, n, g) is Some,
    decreases n,
{
    if k < n - 1 {
        lemma_hit_none(l, s, n - 1, g, k);
    }
}

/// What lies in the entry is in none of the slots behind the last.
proof fn lemma_beyond(e: EntryView, t: ParamTrial, j: int)
    requires
        e.alignment > 0,
        e.size == e.numslots * e.alignment,
        inside(e, t),
        j >= e.numslots,
    ensures
        ({
            let p = slot_place(e, j);
            !(t.addr.offset < e.addressbase + (p + 1) * e.alignment && e.addressbase + p
                * e.alignment < t.addr.offset + t.size)
        }),
{
    let al = e.alignment as int;
    let p = slot_place(e, j);
    if e.flags.reverse_stack {
        lemma_between(al, p + 1, 0);
    } else {
        lemma_between(al, e.numslots as int, p);
    }
}

} // verus!
