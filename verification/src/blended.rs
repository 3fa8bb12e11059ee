//! How well trials fit a model, and what merging models keeps.
use crate::joins;
use crate::joins::JoinTable;
use crate::merge;
use crate::model;
use crate::model::{ModelView, ProtoModel};
use crate::error::FspecError;
use crate::paramlist::ParamListKind;
use crate::space::VarnodeData;
use crate::trial::ParamTrial;
use std::rc::Rc;
use vstd::prelude::*;

verus! {

/// What `k` empty slots in front of a trial cost: much for the first, less for
/// each of the next, and then always the same.
pub open spec fn gap_cost(k: int) -> int {
    if k <= 0 {
        0
    } else if k == 1 {
        16
    } else if k == 2 {
        26
    } else if k == 3 {
        33
    } else {
        38 + 3 * (k - 4)
    }
}

proof fn lemma_gap(k: int)
    requires
        k >= 0,
    ensures
        merge::holes(0, k) == gap_cost(k),
    decreases k,
{
    if k > 0 {
        lemma_gap(k - 1);
    }
}

proof fn lemma_added(m: ModelView, s: Seq<ParamTrial>, t: ParamTrial, n: int)
    requires
        0 <= n <= s.len(),
    ensures
        merge::trials_added(m, s.push(t), n) == merge::trials_added(m, s, n),
    decreases n,
{
    if n > 0 {
        lemma_added(m, s, t, n - 1);
        assert(s.push(t)[n - 1] == s[n - 1]);
    }
}

proof fn lemma_of_inputs(m: ModelView, s: Seq<ParamTrial>, n: int)
    ensures
        merge::trials_added(m, s, n).isinputscore,
    decreases n,
{
    if 0 < n <= s.len() {
        lemma_of_inputs(m, s, n - 1);
    }
}

/// How badly the trials fit, before it is stored.
pub open spec fn raw_score(m: ModelView, s: Seq<ParamTrial>) -> int {
    let v = merge::trials_added(m, s, s.len() as int);
    let e = merge::by_slot(v.entry, v.entry.len() as int);
    merge::fit_score(e, e.len() as int) + merge::mismatch_penalty() * v.mismatch
}

/// A trial that is not active does not count against a model. One that no entry
/// of the model holds counts as much as any other such trial.
pub proof fn law_trial_counted(m: ModelView, s: Seq<ParamTrial>, t: ParamTrial)
    requires
        0 <= merge::trials_added(m, s, s.len() as int).mismatch < i32::MAX,
        i32::MIN <= raw_score(m, s) <= i32::MAX - 20,
    ensures
        !t.flags.active ==> merge::model_score(m, s.push(t)) == merge::model_score(m, s),
        t.flags.active && m.ins().found(t.addr, t.size as int, true) is None ==> merge::model_score(
            m,
            s.push(t),
        ) == merge::model_score(m, s) + 20,
{
    lemma_added(m, s, t, s.len() as int);
    lemma_of_inputs(m, s, s.len() as int);
    assert(s.push(t)[s.len() as int] == t);
}

/// A model whose only fitting trial stands in slot `k` scores what the empty slots
/// in front of it cost, and nothing for the first slot.
pub proof fn law_lone_trial_score(m: ModelView, t: ParamTrial, i: usize, k: i32)
    requires
        t.flags.active,
        m.ins().found(t.addr, t.size as int, true) == Some(i),
        m.ins().entry[i as int].slot_at(t.addr, 0) == k,
        0 <= k <= 1000,
    ensures
        merge::model_score(m, seq![t]) == gap_cost(k as int),
{
    let s = seq![t];
    reveal_with_fuel(merge::trials_added, 2);
    let v = merge::trials_added(m, s, 1);
    assert(v.entry.len() == 1 && v.entry[0].slot == k && v.mismatch == 0);
    reveal_with_fuel(merge::by_slot, 2);
    reveal_with_fuel(merge::slot_position, 2);
    let e = merge::by_slot(v.entry, 1);
    assert(e =~= v.entry);
    reveal_with_fuel(merge::fit_score, 2);
    reveal_with_fuel(merge::next_free, 2);
    lemma_gap(k as int);
    assert(merge::fit_score(e, 1) == gap_cost(k as int));
}

/// A model is chosen from a merged one exactly where one of them scores below the
/// limit, and then the first with the lowest score is.
pub proof fn law_first_best_model(models: Seq<Rc<ProtoModel>>, s: Seq<ParamTrial>, n: int)
    requires
        0 <= n <= models.len(),
        forall|i: int| 0 <= i < n ==> merge::model_score((*#[trigger] models[i])@, s) >= 0,
    ensures
        ({
            let (b, low) = merge::best_model(models, s, n);
            match b {
                None => low == 500 && forall|i: int|
                    0 <= i < n ==> merge::model_score((*#[trigger] models[i])@, s) >= 500,
                Some(k) => {
                    &&& 0 <= k < n
                    &&& low == merge::model_score((*models[k])@, s)
                    &&& low < 500
                    &&& forall|i: int|
                        0 <= i < n ==> merge::model_score((*#[trigger] models[i])@, s) >= low
                    &&& forall|i: int|
                        0 <= i < k ==> merge::model_score((*#[trigger] models[i])@, s) > low
                },
            }
        }),
    decreases n,
{
    if n > 0 {
        law_first_best_model(models, s, n - 1);
        assert(merge::model_score((*models[n - 1])@, s) >= 0);
    }
}

/// The two models can be merged: the second has an ordinary list of inputs and,
/// unless nothing is merged yet, the same stack, if it has one, and the same code
/// to put in.
pub open spec fn mergeable(m: ModelView, o: ModelView) -> bool {
    &&& o.input->0.kind == ParamListKind::Standard || o.input->0.kind == ParamListKind::Register
    &&& m.input is Some ==> {
        &&& m.input->0.entry.len() == 0 || o.input->0.spacebase is None || m.input->0.spacebase
            == o.input->0.spacebase
        &&& m.inject_upon_entry == o.inject_upon_entry
        &&& m.inject_upon_return == o.inject_upon_return
    }
}

/// Merging a model into another fails exactly where the two do not go together.
/// The first model that is merged gives its own properties; after that the number
/// of popped bytes is known only where both agree, and a byte can hold locals, or
/// parameters, where either says so.
pub proof fn law_models_merged(m: ModelView, o: ModelView)
    requires
        o.input is Some,
        o.output is Some,
    ensures
        merge::fold_error(m, o) is None <==> mergeable(m, o),
        mergeable(m, o) ==> ({
            let r = merge::after_fold(m, o);
            &&& m.input is None ==> r.extrapop == o.extrapop && r.localrange == o.localrange
                && r.paramrange == o.paramrange && r.effectlist == o.effectlist && r.likelytrash
                == o.likelytrash && r.input->0.entry == o.input->0.entry
            &&& m.input is Some ==> {
                &&& m.extrapop == o.extrapop ==> r.extrapop == m.extrapop
                &&& m.extrapop != o.extrapop ==> r.extrapop == model::EXTRAPOP_UNKNOWN
                &&& forall|i: int|
                    0 <= i < m.localrange.len() ==> r.localrange.contains(
                        #[trigger] m.localrange[i],
                    )
                &&& forall|i: int|
                    0 <= i < o.localrange.len() ==> r.localrange.contains(
                        #[trigger] o.localrange[i],
                    )
                &&& forall|i: int|
                    0 <= i < m.paramrange.len() ==> r.paramrange.contains(
                        #[trigger] m.paramrange[i],
                    )
                &&& forall|i: int|
                    0 <= i < o.paramrange.len() ==> r.paramrange.contains(
                        #[trigger] o.paramrange[i],
                    )
                &&& r.localrange.len() == m.localrange.len() + o.localrange.len()
                &&& r.paramrange.len() == m.paramrange.len() + o.paramrange.len()
            }
        }),
        !mergeable(m, o) && merge::fold_error(m, o) != Some(FspecError::MergeInjectIds)
            ==> merge::after_fold(m, o) == m,
{
    if mergeable(m, o) && m.input is Some {
        let r = merge::after_fold(m, o);
        let a = m.localrange.len() as int;
        let b = m.paramrange.len() as int;
        assert forall|i: int| 0 <= i < m.localrange.len() implies r.localrange.contains(
            #[trigger] m.localrange[i],
        ) by {
            assert(r.localrange[i] == m.localrange[i]);
        }
        assert forall|i: int| 0 <= i < o.localrange.len() implies r.localrange.contains(
            #[trigger] o.localrange[i],
        ) by {
            assert(r.localrange[a + i] == o.localrange[i]);
        }
        assert forall|i: int| 0 <= i < m.paramrange.len() implies r.paramrange.contains(
            #[trigger] m.paramrange[i],
        ) by {
            assert(r.paramrange[i] == m.paramrange[i]);
        }
        assert forall|i: int| 0 <= i < o.paramrange.len() implies r.paramrange.contains(
            #[trigger] o.paramrange[i],
        ) by {
            assert(r.paramrange[b + i] == o.paramrange[i]);
        }
    }
}

/// The records of the table lie apart, each in front of the next free place.
pub open spec fn records_apart(t: JoinTable) -> bool {
    &&& forall|i: int|
        0 <= i < t.joins.len() ==> (#[trigger] t.joins[i]).unified.offset + t.joins[i].unified.size
            <= t.next
    &&& forall|i: int, j: int|
        0 <= i < j < t.joins.len() ==> (#[trigger] t.joins[i]).unified.offset
            + t.joins[i].unified.size <= (#[trigger] t.joins[j]).unified.offset
}

proof fn lemma_position(t: JoinTable, pieces: Seq<VarnodeData>, total: u32, from: int)
    requires
        0 <= from <= t.joins.len(),
    ensures
        ({
            let k = t.position_of(pieces, total, from);
            &&& from <= k <= t.joins.len()
            &&& k < t.joins.len() ==> t.joins[k].pieces == pieces && t.joins[k].unified.size
                == total
        }),
    decreases t.joins.len() - from,
{
    if from < t.joins.len() {
        lemma_position(t, pieces, total, from + 1);
    }
}

/// A join is given a place of its own: one that has a record for the same pieces
/// and the same size, or a new one behind all that are taken, so that records
/// stay apart. It is as big as its pieces together, or as its logical size.
pub proof fn law_join_placed(t: JoinTable, pieces: Seq<VarnodeData>, logical: u32)
    requires
        records_apart(t),
        t.next + 0x1_0000_0010 <= u64::MAX,
        t.find_add(pieces, logical) is Ok,
    ensures
        ({
            let v = t.find_add(pieces, logical)->Ok_0;
            let r = t.after_find_add(pieces, logical);
            &&& records_apart(r)
            &&& exists|k: int|
                0 <= k < r.joins.len() && (#[trigger] r.joins[k]).unified == v && r.joins[k].pieces
                    == pieces
            &&& logical != 0 ==> v.size == logical && pieces.len() == 1
            &&& logical == 0 ==> pieces.len() > 1 && v.size
                == crate::space::pieces_size(pieces, 0) as u32
            &&& v.size > 0
            &&& forall|i: int|
                0 <= i < t.joins.len() ==> (#[trigger] r.joins[i]) == t.joins[i]
        }),
{
    let total = joins::join_total(pieces, logical);
    lemma_position(t, pieces, total, 0);
    let k = t.position_of(pieces, total, 0);
    let r = t.after_find_add(pieces, logical);
    assert(r.joins[k].pieces == pieces);
    let up = joins::round16(total);
    assert(total <= up <= total + 15) by (nonlinear_arith)
        requires
            up == (total + 15) / 16 * 16,
    ;
}

} // verus!
