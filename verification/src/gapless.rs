//! The parts of a return value cover its entry without a gap.
use crate::active;
use crate::active::ActiveView;
use crate::decide;
use crate::entry::EntryView;
use crate::fillin;
use crate::paramlist::ListView;
use crate::trial::ParamTrial;
use crate::verdict;
use vstd::prelude::*;

verus! {

/// Some part of the return value ends `off` bytes into its entry.
pub open spec fn part_ends_at(s: Seq<ParamTrial>, off: int) -> bool {
    exists|j: int|
        0 <= j < s.len() && (#[trigger] s[j]).flags.used && s[j].offset + s[j].size == off
}

/// Each part of the return value starts at the least significant end of entry
/// `e` or where another part ends, and the parts reach as far as the entry
/// asks for.
pub open spec fn without_gap(e: EntryView, s: Seq<ParamTrial>) -> bool {
    &&& forall|k: int|
        0 <= k < s.len() && (#[trigger] s[k]).flags.used ==> s[k].offset == 0 || part_ends_at(
            s,
            s[k].offset as int,
        )
    &&& exists|off: int| #[trigger] part_ends_at(s, off) && off >= e.minsize
}

/// There is no return value, or its parts lie in one entry and cover it
/// without a gap.
pub open spec fn covers_one(l: ListView, s: Seq<ParamTrial>) -> bool {
    verdict::none_used(s) || exists|be: usize|
        be < l.entry.len() && #[trigger] verdict::one_entry(l, s, be) && without_gap(
            l.entry[be as int],
            s,
        )
}

/// The trials are decided by searching the entries: no rule takes them.
pub open spec fn searched(l: ListView, a: ActiveView) -> bool {
    l.use_fillin_fallback || forall|k: int|
        0 <= k < l.model_rules.len() ==> !decide::rule_recognises(
            #[trigger] l.model_rules[k],
            fillin::in_formal_order(
                l,
                ActiveView {
                    trial: a.trial.map_values(|t: ParamTrial| decide::tag_output(l, t)),
                    ..a
                },
            ).trial,
        )
}

/// The two trials are of the same storage, and both or none are active.
spec fn alike(a: ParamTrial, b: ParamTrial) -> bool {
    a.addr == b.addr && a.size == b.size && a.flags.active == b.flags.active
}

/// Some trial of `s` is like `t`.
spec fn found_in(t: ParamTrial, s: Seq<ParamTrial>) -> bool {
    exists|j: int| 0 <= j < s.len() && alike(t, #[trigger] s[j])
}

/// Each trial of `s` has one like it in `t`.
#[verifier::opaque]
spec fn all_found(s: Seq<ParamTrial>, t: Seq<ParamTrial>) -> bool {
    forall|i: int| 0 <= i < s.len() ==> #[trigger] found_in(s[i], t)
}

proof fn lemma_found(s: Seq<ParamTrial>, t: Seq<ParamTrial>, i: int) -> (j: int)
    requires
        all_found(s, t),
        0 <= i < s.len(),
    ensures
        0 <= j < t.len(),
        alike(s[i], t[j]),
{
    reveal(all_found);
    assert(found_in(s[i], t));
    choose|j: int| 0 <= j < t.len() && alike(s[i], #[trigger] t[j])
}

proof fn lemma_chain_found(s: Seq<ParamTrial>, t: Seq<ParamTrial>, u: Seq<ParamTrial>)
    requires
        all_found(s, t),
        all_found(t, u),
    ensures
        all_found(s, u),
{
    assert forall|i: int| 0 <= i < s.len() implies #[trigger] found_in(s[i], u) by {
        let j = lemma_found(s, t, i);
        let k = lemma_found(t, u, j);
        assert(alike(s[i], u[k]));
    }
    reveal(all_found);
}

proof fn lemma_found_in_place(s: Seq<ParamTrial>, t: Seq<ParamTrial>)
    requires
        s.len() == t.len(),
        forall|i: int| 0 <= i < s.len() ==> alike(#[trigger] s[i], t[i]),
    ensures
        all_found(s, t),
        all_found(t, s),
{
    assert forall|i: int| 0 <= i < s.len() implies #[trigger] found_in(s[i], t) by {
        assert(alike(s[i], t[i]));
    }
    assert forall|i: int| 0 <= i < t.len() implies #[trigger] found_in(t[i], s) by {
        assert(alike(s[i], t[i]));
        assert(alike(t[i], s[i]));
    }
    reveal(all_found);
}

proof fn lemma_found_sorted(s: Seq<ParamTrial>, entries: Seq<EntryView>)
    ensures
        all_found(s, active::sorted_trials(false, s, s.len() as int, entries)),
        all_found(active::sorted_trials(false, s, s.len() as int, entries), s),
{
    let t = active::sorted_trials(false, s, s.len() as int, entries);
    assert forall|i: int| 0 <= i < s.len() implies #[trigger] found_in(s[i], t) by {
        verdict::lemma_sorted_same(s, entries);
        assert(t.contains(s[i]));
        let j = t.index_of(s[i]);
        assert(alike(s[i], t[j]));
    }
    assert forall|i: int| 0 <= i < t.len() implies #[trigger] found_in(t[i], s) by {
        verdict::lemma_sorted_same(s, entries);
        assert(s.contains(t[i]));
        let j = s.index_of(t[i]);
        assert(alike(t[i], s[j]));
    }
    reveal(all_found);
}

/// The search goes over the same trials throughout.
proof fn lemma_search_found(l: ListView, s: Seq<ParamTrial>, first_only: bool, m: int, n: int)
    requires
        0 <= m <= n <= l.entry.len(),
    ensures
        all_found(
            decide::search(l, s, first_only, m).trials,
            decide::search(l, s, first_only, n).trials,
        ),
        all_found(
            decide::search(l, s, first_only, n).trials,
            decide::search(l, s, first_only, m).trials,
        ),
    decreases n - m,
{
    let from = decide::search(l, s, first_only, m).trials;
    let to = decide::search(l, s, first_only, n).trials;
    if m == n {
        lemma_found_in_place(from, to);
    } else {
        lemma_search_found(l, s, first_only, m, n - 1);
        let c = decide::search(l, s, first_only, n - 1);
        let tagged = c.trials.map_values(|t: ParamTrial| decide::tag_against(l, n - 1, t));
        let sorted = active::sorted_trials(false, tagged, tagged.len() as int, l.entry);
        if !decide::passed_over(l.entry[n - 1], first_only) {
            lemma_found_in_place(c.trials, tagged);
            lemma_chain_found(from, c.trials, tagged);
            lemma_chain_found(tagged, c.trials, from);
            lemma_found_sorted(tagged, l.entry);
            lemma_chain_found(from, tagged, sorted);
            lemma_chain_found(sorted, tagged, from);
            assert(to == tagged || to == sorted);
        }
    }
}

/// The best entry is covered by the trials held against it.
proof fn lemma_best_covered(l: ListView, s: Seq<ParamTrial>, first_only: bool, n: int)
    requires
        0 <= n <= l.entry.len() <= usize::MAX,
    ensures
        decide::search(l, s, first_only, n).best matches Some(be) ==> be < n && ({
            let c = decide::search(l, s, first_only, be as int);
            let tagged = c.trials.map_values(|t: ParamTrial| decide::tag_against(l, be as int, t));
            let sorted = active::sorted_trials(false, tagged, tagged.len() as int, l.entry);
            &&& decide::some_match(l, be as int, c.trials)
            &&& decide::covered(l.entry[be as int], sorted)
        }),
    decreases n,
{
    if n > 0 {
        lemma_best_covered(l, s, first_only, n - 1);
    }
}

/// The trial is active and lies in the entry at `be`.
spec fn is_part(l: ListView, be: usize, t: ParamTrial) -> bool {
    t.flags.active && l.entry[be as int].justified(t.addr, t.size as int) >= 0
}

/// Position of the trial in the entry at `be`.
spec fn part_offset(l: ListView, be: usize, t: ParamTrial) -> i32 {
    l.entry[be as int].justified(t.addr, t.size as int) as i32
}

/// The trial is tied to an entry, and ends `off` bytes into it.
spec fn tied_end(t: ParamTrial, off: int) -> bool {
    t.entry is Some && t.offset + t.size == off
}

spec fn some_tied(s: Seq<ParamTrial>, k: int) -> bool {
    exists|i: int| k <= i < s.len() && (#[trigger] s[i]).entry is Some
}

spec fn some_tied_end(s: Seq<ParamTrial>, k: int, off: int) -> bool {
    exists|j: int| k <= j < s.len() && tied_end(#[trigger] s[j], off)
}

/// Covered bytes are covered one trial after the other.
proof fn lemma_cover(e: EntryView, s: Seq<ParamTrial>, k: int, off: int)
    requires
        0 <= k,
        decide::cover_from(e, s, k, off).0 == s.len(),
    ensures
        forall|i: int|
            k <= i < s.len() && (#[trigger] s[i]).entry is Some ==> s[i].offset == off
                || some_tied_end(s, k, s[i].offset as int),
        if some_tied(s, k) {
            some_tied_end(s, k, decide::cover_from(e, s, k, off).1)
        } else {
            decide::cover_from(e, s, k, off).1 == off
        },
    decreases s.len() - k,
{
    if k < s.len() {
        let end = if s[k].entry is None {
            off
        } else {
            off + s[k].size
        };
        lemma_cover(e, s, k + 1, end);
        let last = decide::cover_from(e, s, k, off).1;
        assert(last == decide::cover_from(e, s, k + 1, end).1);
        assert forall|x: int| some_tied_end(s, k + 1, x) implies #[trigger] some_tied_end(
            s,
            k,
            x,
        ) by {
            let j = choose|j: int| k + 1 <= j < s.len() && tied_end(#[trigger] s[j], x);
            assert(tied_end(s[j], x));
        }
        if s[k].entry is Some {
            assert(tied_end(s[k], end));
            assert(some_tied_end(s, k, end));
        } else if some_tied(s, k) {
            let i = choose|i: int| k <= i < s.len() && (#[trigger] s[i]).entry is Some;
            assert(s[i].entry is Some && k + 1 <= i);
        }
        assert(some_tied_end(s, k, last) || !some_tied(s, k));
        assert forall|i: int| k <= i < s.len() && (#[trigger] s[i]).entry is Some implies
            s[i].offset == off || some_tied_end(s, k, s[i].offset as int) by {
            if i > k && s[i].offset != end {
                assert(some_tied_end(s, k + 1, s[i].offset as int));
            }
        }
    }
}

/// What is held against the entry at `be` is tied to it where it lies in it.
proof fn lemma_held(l: ListView, be: usize, s: Seq<ParamTrial>)
    ensures
        ({
            let tagged = s.map_values(|t: ParamTrial| decide::tag_against(l, be as int, t));
            let held = active::sorted_trials(false, tagged, tagged.len() as int, l.entry);
            &&& all_found(s, held)
            &&& all_found(held, s)
            &&& forall|j: int|
                0 <= j < held.len() ==> ((#[trigger] held[j]).entry is Some) == is_part(
                    l,
                    be,
                    held[j],
                )
            &&& forall|j: int|
                0 <= j < held.len() && is_part(l, be, #[trigger] held[j]) ==> held[j].offset
                    == part_offset(l, be, held[j])
        }),
{
    let tagged = s.map_values(|t: ParamTrial| decide::tag_against(l, be as int, t));
    let held = active::sorted_trials(false, tagged, tagged.len() as int, l.entry);
    lemma_found_in_place(s, tagged);
    lemma_found_sorted(tagged, l.entry);
    lemma_chain_found(s, tagged, held);
    lemma_chain_found(held, tagged, s);
    verdict::lemma_sorted_same(tagged, l.entry);
    assert forall|j: int| 0 <= j < held.len() implies ((#[trigger] held[j]).entry is Some)
        == is_part(l, be, held[j]) && (is_part(l, be, held[j]) ==> held[j].offset == part_offset(
        l,
        be,
        held[j],
    )) by {
        assert(tagged.contains(held[j]));
        let i = tagged.index_of(held[j]);
        assert(tagged[i] == decide::tag_against(l, be as int, s[i]));
    }
}

/// The parts of the return value are the trials that lie in its entry.
proof fn lemma_parts(l: ListView, be: usize, s: Seq<ParamTrial>)
    ensures
        ({
            let out = s.map_values(|t: ParamTrial| decide::return_verdict(l, be as int, t));
            let r = active::sorted_trials(false, out, out.len() as int, l.entry);
            &&& verdict::one_entry(l, r, be)
            &&& forall|i: int|
                0 <= i < s.len() && is_part(l, be, #[trigger] s[i]) ==> part_ends_at(
                    r,
                    part_offset(l, be, s[i]) + s[i].size,
                )
            &&& forall|k: int|
                0 <= k < r.len() && (#[trigger] r[k]).flags.used ==> is_part(l, be, r[k])
                    && r[k].offset == part_offset(l, be, r[k])
            &&& forall|k: int|
                #![trigger r[k]]
                0 <= k < r.len() && r[k].flags.used ==> exists|i: int|
                    0 <= i < s.len() && alike(r[k], #[trigger] s[i])
        }),
{
    let out = s.map_values(|t: ParamTrial| decide::return_verdict(l, be as int, t));
    let r = active::sorted_trials(false, out, out.len() as int, l.entry);
    verdict::lemma_sorted_same(out, l.entry);
    assert forall|i: int| 0 <= i < s.len() && is_part(l, be, #[trigger] s[i]) implies part_ends_at(
        r,
        part_offset(l, be, s[i]) + s[i].size,
    ) by {
        assert(r.contains(out[i]));
        let k = r.index_of(out[i]);
        assert(r[k].flags.used && r[k].offset == part_offset(l, be, s[i]));
    }
    assert forall|k: int| #![trigger r[k]] 0 <= k < r.len() && r[k].flags.used implies is_part(
        l,
        be,
        r[k],
    ) && r[k].offset == part_offset(l, be, r[k]) && r[k].entry == Some(be) && exists|i: int|
        0 <= i < s.len() && alike(r[k], #[trigger] s[i]) by {
        assert(out.contains(r[k]));
        let i = out.index_of(r[k]);
        assert(out[i] == decide::return_verdict(l, be as int, s[i]));
        assert(alike(r[k], s[i]));
    }
}

/// Where the search ends with the entry at `be`, the parts cover it.
proof fn lemma_best_without_gap(
    l: ListView,
    be: usize,
    before: Seq<ParamTrial>,
    after: Seq<ParamTrial>,
)
    requires
        all_found(before, after),
        all_found(after, before),
        decide::some_match(l, be as int, before),
        ({
            let tagged = before.map_values(|t: ParamTrial| decide::tag_against(l, be as int, t));
            let held = active::sorted_trials(false, tagged, tagged.len() as int, l.entry);
            decide::covered(l.entry[be as int], held)
        }),
    ensures
        ({
            let out = after.map_values(|t: ParamTrial| decide::return_verdict(l, be as int, t));
            let r = active::sorted_trials(false, out, out.len() as int, l.entry);
            verdict::one_entry(l, r, be) && without_gap(l.entry[be as int], r)
        }),
{
    let e = l.entry[be as int];
    let tagged = before.map_values(|t: ParamTrial| decide::tag_against(l, be as int, t));
    let held = active::sorted_trials(false, tagged, tagged.len() as int, l.entry);
    let out = after.map_values(|t: ParamTrial| decide::return_verdict(l, be as int, t));
    let r = active::sorted_trials(false, out, out.len() as int, l.entry);
    lemma_held(l, be, before);
    lemma_parts(l, be, after);
    lemma_chain_found(held, before, after);
    lemma_chain_found(after, before, held);
    lemma_cover(e, held, 0, 0);
    assert forall|off: int| some_tied_end(held, 0, off) implies #[trigger] part_ends_at(r, off) by {
        let j = choose|j: int| 0 <= j < held.len() && tied_end(#[trigger] held[j], off);
        let m = lemma_found(held, after, j);
        assert(is_part(l, be, after[m]));
    }
    assert forall|k: int| 0 <= k < r.len() && (#[trigger] r[k]).flags.used implies r[k].offset == 0
        || part_ends_at(r, r[k].offset as int) by {
        let m = choose|m: int| 0 <= m < after.len() && alike(r[k], #[trigger] after[m]);
        let j = lemma_found(after, held, m);
        assert(is_part(l, be, held[j]));
        assert(held[j].entry is Some);
        if r[k].offset != 0 {
            assert(some_tied_end(held, 0, held[j].offset as int));
        }
    }
    let i = choose|i: int|
        0 <= i < before.len() && (#[trigger] before[i]).flags.active && e.justified(
            before[i].addr,
            before[i].size as int,
        ) >= 0;
    let j = lemma_found(before, held, i);
    assert(is_part(l, be, held[j]));
    assert(held[j].entry is Some);
    assert(some_tied(held, 0));
    let last = decide::cover_from(e, held, 0, 0).1;
    assert(part_ends_at(r, last));
}

proof fn lemma_fallback_without_gap(l: ListView, a: ActiveView, first_only: bool)
    requires
        l.entry.len() <= usize::MAX,
    ensures
        covers_one(l, decide::fallback_fillin(l, a, first_only).trial),
{
    let n = l.entry.len() as int;
    let c = decide::search(l, a.trial, first_only, n);
    let s = decide::fallback_fillin(l, a, first_only).trial;
    match c.best {
        None => {
            assert(verdict::none_used(s));
        },
        Some(be) => {
            lemma_best_covered(l, a.trial, first_only, n);
            lemma_search_found(l, a.trial, first_only, be as int, n);
            lemma_best_without_gap(
                l,
                be,
                decide::search(l, a.trial, first_only, be as int).trials,
                c.trials,
            );
            assert(verdict::one_entry(l, s, be));
        },
    }
}

/// A return value found by searching the entries lies in one of them and
/// covers it from the least significant end on: a part starts there or where
/// another part ends, and the parts reach the least size of the entry. Where
/// no entry is covered there is no return value.
pub proof fn law_return_parts_without_gap(l: ListView, a: ActiveView)
    requires
        l.entry.len() <= usize::MAX,
        a.trial.len() > 0,
        searched(l, a),
    ensures
        covers_one(l, decide::output_fillin(l, a).trial),
{
    lemma_fallback_without_gap(l, a, false);
    let tags = a.trial.map_values(|t: ParamTrial| decide::tag_output(l, t));
    lemma_fallback_without_gap(
        l,
        fillin::in_formal_order(l, ActiveView { trial: tags, ..a }),
        true,
    );
}

} // verus!
