//! Merged models: several conventions of which one is chosen by how well the
//! trials of a function fit it.
use crate::active::ParamActive;
use crate::effects;
use crate::effects::EffectRecord;
use crate::error::FspecError;
use crate::joins::AddrSpaceManager;
use crate::listbuild;
use crate::model;
use crate::model::{IdSource, ModelView, ProtoModel, ProtoModelMerged};
use crate::paramlist::{ListView, ParamListKind, ParamListStandard};
use crate::space;
use crate::space::Address;
use crate::trial::ParamTrial;
use std::rc::Rc;
use vstd::prelude::*;

verus! {

/// A trial that fits a model: the slot it starts at, and how many it takes.
/// `orig_index` counts the trials that fitted before it.
#[derive(Debug, Clone, Copy, PartialEq, Eq, Structural)]
pub struct PEntry {
    pub orig_index: i32,
    pub slot: i32,
    pub size: i32,
}

/// Measures how well trials fit a model; the lower the score, the better.
#[derive(Debug)]
pub struct ScoreProtoModel {
    pub isinputscore: bool,
    pub entry: Vec<PEntry>,
    pub finalscore: i32,
    pub mismatch: i32,
}

/// The measure in the abstract.
#[verifier::ext_equal]
pub struct ScoreView {
    pub isinputscore: bool,
    pub entry: Seq<PEntry>,
    pub finalscore: i32,
    pub mismatch: i32,
}

impl View for ScoreProtoModel {
    type V = ScoreView;

    open spec fn view(&self) -> ScoreView {
        ScoreView {
            isinputscore: self.isinputscore,
            entry: self.entry@,
            finalscore: self.finalscore,
            mismatch: self.mismatch,
        }
    }
}

/// A measure before any trial.
pub open spec fn new_score(isinput: bool) -> ScoreView {
    ScoreView { isinputscore: isinput, entry: Seq::empty(), finalscore: -1i32, mismatch: 0 }
}

/// The measure with another location taken in.
pub open spec fn score_added(v: ScoreView, m: ModelView, addr: Address, sz: int) -> ScoreView {
    let l = if v.isinputscore {
        m.ins()
    } else {
        m.outs()
    };
    match l.found(addr, sz, true) {
        Some(i) => ScoreView {
            entry: v.entry.push(
                PEntry {
                    orig_index: v.entry.len() as i32,
                    slot: l.entry[i as int].slot_at(addr, 0) as i32,
                    size: l.slot_size(i as int, sz),
                },
            ),
            ..v
        },
        None => ScoreView { mismatch: (v.mismatch + 1) as i32, ..v },
    }
}

/// Where `x` goes in the first `n` entries: behind those of no higher slot.
pub open spec fn slot_position(s: Seq<PEntry>, n: int, x: PEntry) -> int
    decreases n,
{
    if n <= 0 || n > s.len() {
        0
    } else if x.slot < s[n - 1].slot {
        slot_position(s, n - 1, x)
    } else {
        n
    }
}

/// The first `n` entries in order of their slots.
pub open spec fn by_slot(s: Seq<PEntry>, n: int) -> Seq<PEntry>
    decreases n,
{
    if n <= 0 || n > s.len() {
        Seq::empty()
    } else {
        let rest = by_slot(s, n - 1);
        rest.insert(slot_position(rest, rest.len() as int, s[n - 1]), s[n - 1])
    }
}

/// The penalty for leaving slot `k` empty.
pub open spec fn hole_penalty(k: int) -> int {
    if k < 1 {
        16
    } else if k == 1 {
        10
    } else if k == 2 {
        7
    } else if k == 3 {
        5
    } else {
        3
    }
}

/// The penalty for leaving the slots from `a` to `b` empty.
pub open spec fn holes(a: int, b: int) -> int
    decreases b - a,
{
    if a >= b {
        0
    } else {
        holes(a, b - 1) + hole_penalty(b - 1)
    }
}

/// The penalty for a trial that fits nowhere, or a slot used twice.
pub open spec fn mismatch_penalty() -> int {
    20
}

/// The next slot expected after the first `n` ordered entries.
pub open spec fn next_free(s: Seq<PEntry>, n: int) -> int
    decreases n,
{
    if n <= 0 || n > s.len() {
        0
    } else {
        let p = s[n - 1];
        let before = next_free(s, n - 1);
        if before > p.slot && before > p.slot + p.size {
            before
        } else {
            p.slot + p.size
        }
    }
}

/// The penalties for holes and duplicate slots over the first `n` ordered
/// entries.
pub open spec fn fit_score(s: Seq<PEntry>, n: int) -> int
    decreases n,
{
    if n <= 0 || n > s.len() {
        0
    } else {
        let p = s[n - 1];
        let before = next_free(s, n - 1);
        fit_score(s, n - 1) + (if p.slot > before {
            holes(before, p.slot as int)
        } else if before > p.slot {
            mismatch_penalty()
        } else {
            0
        })
    }
}

/// The measure with its score computed.
pub open spec fn scored(v: ScoreView) -> ScoreView {
    let s = by_slot(v.entry, v.entry.len() as int);
    ScoreView {
        entry: s,
        finalscore: (fit_score(s, s.len() as int) + mismatch_penalty() * v.mismatch) as i32,
        ..v
    }
}

/// The measure of the active ones of the first `n` trials as inputs of `m`.
pub open spec fn trials_added(m: ModelView, s: Seq<ParamTrial>, n: int) -> ScoreView
    decreases n,
{
    if n <= 0 || n > s.len() {
        new_score(true)
    } else if s[n - 1].flags.active {
        score_added(trials_added(m, s, n - 1), m, s[n - 1].addr, s[n - 1].size as int)
    } else {
        trials_added(m, s, n - 1)
    }
}

/// How well the active trials fit the inputs of a model.
pub open spec fn model_score(m: ModelView, s: Seq<ParamTrial>) -> i32 {
    scored(trials_added(m, s, s.len() as int)).finalscore
}

/// The best of the first `n` models and its score: the first one with the
/// lowest score, which has to be below 500.
pub open spec fn best_model(models: Seq<Rc<ProtoModel>>, s: Seq<ParamTrial>, n: int) -> (
    Option<int>,
    int,
)
    decreases n,
{
    if n <= 0 || n > models.len() {
        (None, 500)
    } else {
        let (b, low) = best_model(models, s, n - 1);
        let score = model_score((*models[n - 1])@, s) as int;
        if low != 0 && score < low {
            (Some(n - 1), score)
        } else {
            (b, low)
        }
    }
}

/// The penalty for empty slots is bounded by their number.
proof fn lemma_holes(a: int, b: int)
    requires
        a <= b,
    ensures
        0 <= holes(a, b) <= 16 * (b - a),
    decreases b - a,
{
    if a < b {
        lemma_holes(a, b - 1);
    }
}

impl ScoreProtoModel {
    pub fn new(isinput: bool, numparam: i32) -> (r: ScoreProtoModel)
        ensures
            r@ == new_score(isinput),
    {
        let cap: usize = if numparam > 0 {
            numparam as usize
        } else {
            0
        };
        ScoreProtoModel {
            isinputscore: isinput,
            entry: Vec::with_capacity(cap),
            finalscore: -1,
            mismatch: 0,
        }
    }

    /// Take the `sz` bytes at `addr` into the measure against `m`.
    pub fn add_parameter(&mut self, m: &ProtoModel, addr: &Address, sz: i32)
        requires
            old(self).isinputscore ==> (m@.input matches Some(l) && l.wf()),
            !old(self).isinputscore ==> (m@.output matches Some(l) && l.wf()),
        ensures
            final(self)@ == score_added(old(self)@, m@, *addr, sz as int),
    {
        let orig: i32 = self.entry.len() as i32;
        let mut slot: i32 = 0;
        let mut slotsize: i32 = 0;
        let isparam = if self.isinputscore {
            m.possible_input_param_with_slot(addr, sz, &mut slot, &mut slotsize)
        } else {
            m.possible_output_param_with_slot(addr, sz, &mut slot, &mut slotsize)
        };
        if isparam {
            self.entry.push(PEntry { orig_index: orig, slot, size: slotsize });
        } else {
            self.mismatch = (self.mismatch as i64 + 1) as i32;
        }
    }

    fn sort_entries(&mut self)
        ensures
            final(self)@ == (ScoreView {
                entry: by_slot(old(self)@.entry, old(self)@.entry.len() as int),
                ..old(self)@
            }),
    {
        let ghost s = self.entry@;
        let mut out: Vec<PEntry> = Vec::new();
        let mut i: usize = 0;
        while i < self.entry.len()
            invariant
                i <= self.entry.len(),
                *self == *old(self),
                s == self.entry@,
                out@ == by_slot(s, i as int),
            decreases self.entry.len() - i,
        {
            let x = self.entry[i];
            let mut k: usize = out.len();
            while k > 0 && x.slot < out[k - 1].slot
                invariant
                    k <= out.len(),
                    slot_position(out@, out@.len() as int, x) == slot_position(out@, k as int, x),
                decreases k,
            {
                k -= 1;
            }
            out.insert(k, x);
            i += 1;
        }
        self.entry = out;
    }

    /// Compute the score.
    pub fn do_score(&mut self)
        ensures
            final(self)@ == scored(old(self)@),
    {
        self.sort_entries();
        let ghost s = self.entry@;
        let mut nextfree: i64 = 0;
        let mut base: i128 = 0;
        let mut i: usize = 0;
        assert(self.entry.len() <= usize::MAX);
        while i < self.entry.len()
            invariant
                i <= self.entry.len() <= usize::MAX,
                s == self.entry@,
                s == by_slot(old(self)@.entry, old(self)@.entry.len() as int),
                self@ == (ScoreView { entry: s, ..old(self)@ }),
                nextfree == next_free(s, i as int),
                base == fit_score(s, i as int),
                -0x1_0000_0000 <= nextfree <= 0x1_0000_0000,
                0 <= base <= 0x100_0000_0000 * i,
            decreases self.entry.len() - i,
        {
            let p = self.entry[i];
            if p.slot as i64 > nextfree {
                let ghost from = nextfree as int;
                let mut add: i64 = 0;
                proof {
                    lemma_holes(from, p.slot as int);
                }
                while nextfree < p.slot as i64
                    invariant
                        from <= nextfree <= p.slot,
                        -0x1_0000_0000 <= from,
                        add == holes(from, nextfree as int),
                        0 <= add <= 16 * (nextfree - from),
                    decreases p.slot - nextfree,
                {
                    let pen: i64 = if nextfree < 1 {
                        16
                    } else if nextfree == 1 {
                        10
                    } else if nextfree == 2 {
                        7
                    } else if nextfree == 3 {
                        5
                    } else {
                        3
                    };
                    add += pen;
                    nextfree += 1;
                }
                base += add as i128;
                nextfree += p.size as i64;
            } else if nextfree > p.slot as i64 {
                base += 20;
                if p.slot as i64 + p.size as i64 > nextfree {
                    nextfree = p.slot as i64 + p.size as i64;
                }
            } else {
                nextfree = p.slot as i64 + p.size as i64;
            }
            i += 1;
        }
        self.finalscore = (base + 20 * self.mismatch as i128) as i32;
    }

    pub fn get_score(&self) -> (r: i32)
        ensures
            r == self.finalscore,
    {
        self.finalscore
    }

    pub fn get_num_mismatch(&self) -> (r: i32)
        ensures
            r == self.mismatch,
    {
        self.mismatch
    }
}

/// The first model folded into a blank merged model.
pub open spec fn first_fold(m: ModelView, o: ModelView) -> ModelView {
    ModelView {
        input: Some(
            ListView {
                spacebase: o.ins().spacebase,
                entry: o.ins().entry,
                ..model::empty_list(ParamListKind::Merged)
            },
        ),
        output: model::rebuilt(o.output),
        extrapop: o.extrapop,
        effectlist: o.effectlist,
        inject_upon_entry: o.inject_upon_entry,
        inject_upon_return: o.inject_upon_return,
        likelytrash: o.likelytrash,
        localrange: o.localrange,
        paramrange: o.paramrange,
        ..m
    }
}

/// The input entries of the merged model `m` with those of `o` folded in.
pub open spec fn folded_inputs(m: ModelView, o: ModelView) -> ListView {
    if m.ins().entry.len() == 0 {
        ListView { spacebase: o.ins().spacebase, entry: o.ins().entry, ..m.ins() }
    } else {
        ListView {
            entry: listbuild::merge_all(
                m.ins().entry,
                o.ins().entry,
                o.ins().entry.len() as int,
            ),
            ..m.ins()
        }
    }
}

/// The model `m` with the inputs of `o` folded in and the bytes popped unknown
/// where they differ.
pub open spec fn half_fold(m: ModelView, o: ModelView) -> ModelView {
    ModelView {
        input: Some(folded_inputs(m, o)),
        extrapop: if m.extrapop != o.extrapop {
            model::EXTRAPOP_UNKNOWN
        } else {
            m.extrapop
        },
        ..m
    }
}

/// Why `o` cannot be folded into `m`.
pub open spec fn fold_error(m: ModelView, o: ModelView) -> Option<FspecError> {
    if o.ins().kind != ParamListKind::Standard && o.ins().kind != ParamListKind::Register {
        Some(FspecError::MergeNonStandard)
    } else if m.input is None {
        None
    } else if m.ins().entry.len() > 0 && m.ins().spacebase != o.ins().spacebase
        && o.ins().spacebase is Some {
        Some(FspecError::MergeDifferentStacks)
    } else if m.inject_upon_entry != o.inject_upon_entry || m.inject_upon_return
        != o.inject_upon_return {
        Some(FspecError::MergeInjectIds)
    } else {
        None
    }
}

/// The merged model after the attempt to fold in `o`: what both kill and trash,
/// and all that either can use for locals and parameters.
pub open spec fn after_fold(m: ModelView, o: ModelView) -> ModelView {
    match fold_error(m, o) {
        Some(FspecError::MergeInjectIds) => half_fold(m, o),
        Some(_) => m,
        None => if m.input is None {
            first_fold(m, o)
        } else {
            ModelView {
                effectlist: effects::common_effects(m.effectlist, o.effectlist, 0, 0),
                likelytrash: effects::common_locations(m.likelytrash, o.likelytrash, 0, 0),
                internalstorage: effects::common_locations(
                    m.internalstorage,
                    o.internalstorage,
                    0,
                    0,
                ),
                localrange: m.localrange + o.localrange,
                paramrange: m.paramrange + o.paramrange,
                ..half_fold(m, o)
            }
        },
    }
}

/// Every model of the list can be scored.
pub open spec fn all_scorable(models: Seq<Rc<ProtoModel>>) -> bool {
    forall|i: int|
        0 <= i < models.len() ==> ((*#[trigger] models[i])@.input matches Some(l) && l.wf())
}

impl ProtoModel {
    /// A merged model with nothing in it yet.
    pub fn new_merged(manager: &AddrSpaceManager, ids: &mut IdSource) -> (r: ProtoModel)
        requires
            old(ids).next() < u64::MAX,
        ensures
            r@ == (ModelView {
                merged: true,
                ..model::blank_model(old(ids).upcoming(), manager.stack_space)
            }),
            r.merged matches Some(m) && m.modellist@ == Seq::<Rc<ProtoModel>>::empty(),
            final(ids).one_past(*old(ids)),
    {
        let mut res = ProtoModel::new(manager, ids);
        res.merged = Some(ProtoModelMerged { modellist: Vec::new() });
        res
    }

    /// How many models are merged in this one.
    pub fn num_models(&self) -> (r: i32)
        ensures
            r == (match self.merged {
                Some(m) => m.modellist@.len() as i32,
                None => 0,
            }),
    {
        match &self.merged {
            Some(m) => m.modellist.len() as i32,
            None => 0,
        }
    }

    /// The `i`-th of the merged models.
    pub fn get_model(&self, i: i32) -> (r: &Rc<ProtoModel>)
        requires
            self.merged matches Some(m) && 0 <= i < m.modellist@.len(),
        ensures
            *r == self.merged->0.modellist@[i as int],
    {
        &self.merged.as_ref().unwrap().modellist[i as usize]
    }

    /// Fold another model into this one. Only models with an ordinary input
    /// list, the same stack and the same injections can be merged.
    pub fn fold_in_model(&mut self, o: &Rc<ProtoModel>) -> (r: Result<(), FspecError>)
        requires
            o@.input matches Some(l) && l.entries_ok(),
            o@.output matches Some(l) && l.entries_ok(),
            old(self)@.input matches Some(l) ==> l.entries_ok(),
        ensures
            final(self)@ == after_fold(old(self)@, o@),
            match r {
                Ok(_) => fold_error(old(self)@, o@) is None,
                Err(e) => fold_error(old(self)@, o@) == Some(e),
            },
            final(self).merged == old(self).merged,
            final(self)@.input matches Some(l) ==> l.entries_ok(),
    {
        let src: &ProtoModel = o;
        match src.input().kind {
            ParamListKind::Standard | ParamListKind::Register => {},
            _ => return Err(FspecError::MergeNonStandard),
        }
        if self.input.is_none() {
            let mut merged_input = ParamListStandard::new(ParamListKind::Merged);
            if let Err(e) = merged_input.fold_in(src.input()) {
                return Err(e);
            }
            self.input = Some(merged_input);
            self.output = Some(src.output().copy());
            self.extrapop = src.extrapop;
            self.effectlist = effects::copy_effects(&src.effectlist);
            self.inject_upon_entry = src.inject_upon_entry;
            self.inject_upon_return = src.inject_upon_return;
            self.likelytrash = space::copy_locations(&src.likelytrash);
            self.localrange = model::copy_ranges(&src.localrange);
            self.paramrange = model::copy_ranges(&src.paramrange);
            return Ok(());
        }
        if let Err(e) = self.input_mut().fold_in(src.input()) {
            return Err(e);
        }
        if self.extrapop != src.extrapop {
            self.extrapop = model::EXTRAPOP_UNKNOWN;
        }
        if self.inject_upon_entry != src.inject_upon_entry || self.inject_upon_return
            != src.inject_upon_return {
            return Err(FspecError::MergeInjectIds);
        }
        self.effectlist = effects::intersect_effects(&self.effectlist, &src.effectlist);
        effects::intersect_registers(&mut self.likelytrash, &src.likelytrash);
        effects::intersect_registers(&mut self.internalstorage, &src.internalstorage);
        model::append_ranges(&mut self.localrange, &src.localrange);
        model::append_ranges(&mut self.paramrange, &src.paramrange);
        Ok(())
    }

    /// Fold in a model and add it to those to choose from.
    pub fn merged_push(&mut self, o: Rc<ProtoModel>) -> (r: Result<(), FspecError>)
        requires
            old(self).merged is Some,
            o@.input matches Some(l) && l.entries_ok(),
            o@.output matches Some(l) && l.entries_ok(),
            old(self)@.input matches Some(l) ==> l.entries_ok(),
        ensures
            final(self)@ == after_fold(old(self)@, o@),
            final(self).merged is Some,
            match r {
                Ok(_) => fold_error(old(self)@, o@) is None && final(self).merged->0.modellist@
                    == old(self).merged->0.modellist@.push(o),
                Err(e) => fold_error(old(self)@, o@) == Some(e) && final(self).merged
                    == old(self).merged,
            },
            final(self)@.input matches Some(l) ==> l.entries_ok(),
    {
        if let Err(e) = self.fold_in_model(&o) {
            return Err(e);
        }
        let ghost v = self@;
        let mut m = self.merged.take().unwrap();
        m.modellist.push(o);
        self.merged = Some(m);
        assert(self@ =~= v);
        Ok(())
    }

    /// Folding in is complete.
    pub fn merged_finalize(&mut self)
        requires
            old(self)@.input matches Some(l) ==> l.entries_ok(),
        ensures
            final(self)@ == (ModelView { input: model::rebuilt(old(self)@.input), ..old(self)@ }),
            final(self).merged == old(self).merged,
    {
        if self.input.is_some() {
            self.input_mut().finalize();
        }
    }

    /// The merged model that the active trials fit best.
    pub fn select_model(&self, active: &ParamActive) -> (r: Result<Rc<ProtoModel>, FspecError>)
        requires
            self.merged matches Some(m) ==> all_scorable(m.modellist@),
        ensures
            match self.merged {
                None => r == Err::<Rc<ProtoModel>, FspecError>(FspecError::NotMerged),
                Some(m) => match best_model(
                    m.modellist@,
                    active@.trial,
                    m.modellist@.len() as int,
                ).0 {
                    Some(b) => r == Ok::<Rc<ProtoModel>, FspecError>(m.modellist@[b]) && 0 <= b
                        < m.modellist@.len(),
                    None => r == Err::<Rc<ProtoModel>, FspecError>(FspecError::NoModelMatches),
                },
            },
    {
        let m: &ProtoModelMerged = match &self.merged {
            Some(m) => m,
            None => return Err(FspecError::NotMerged),
        };
        let ghost models = m.modellist@;
        let ghost s = active@.trial;
        let mut bestscore: i32 = 500;
        let mut bestindex: Option<usize> = None;
        let mut i: usize = 0;
        while i < m.modellist.len()
            invariant
                i <= m.modellist.len(),
                models == m.modellist@,
                s == active@.trial,
                all_scorable(models),
                best_model(models, s, i as int) == (
                    match bestindex {
                        Some(b) => Some(b as int),
                        None => None,
                    },
                    bestscore as int,
                ),
                bestindex matches Some(b) ==> b < i,
            decreases m.modellist.len() - i,
        {
            let cur: &ProtoModel = &m.modellist[i];
            assert((*models[i as int])@.input matches Some(l) && l.wf());
            let score: i32 = score_trials(cur, active);
            if bestscore != 0 && score < bestscore {
                bestscore = score;
                bestindex = Some(i);
            }
            i += 1;
        }
        match bestindex {
            Some(b) => Ok(Rc::clone(&m.modellist[b])),
            None => Err(FspecError::NoModelMatches),
        }
    }
}

/// How well the active trials fit the inputs of a model.
pub fn score_trials(m: &ProtoModel, active: &ParamActive) -> (r: i32)
    requires
        m@.input matches Some(l) && l.wf(),
    ensures
        r == model_score(m@, active@.trial),
{
    let mut score = ScoreProtoModel::new(true, active.get_num_trials());
    let mut j: usize = 0;
    while j < active.trial.len()
        invariant
            j <= active.trial.len(),
            m@.input matches Some(l) && l.wf(),
            score@ == trials_added(m@, active@.trial, j as int),
            score.isinputscore,
        decreases active.trial.len() - j,
    {
        let t = active.trial[j];
        if t.is_active() {
            score.add_parameter(m, &t.addr, t.size);
        }
        j += 1;
    }
    score.do_score();
    score.get_score()
}

/// Trials that fill the slots from the first one on, without a hole and
/// without a slot used twice, score nothing.
pub proof fn law_perfect_fit(s: Seq<PEntry>, n: int)
    requires
        0 <= n <= s.len(),
        forall|i: int| 0 <= i < n ==> (#[trigger] s[i]).slot == next_free(s, i),
    ensures
        fit_score(s, n) == 0,
    decreases n,
{
    if n > 0 {
        law_perfect_fit(s, n - 1);
        assert(s[n - 1].slot == next_free(s, n - 1));
    }
}

/// The score of a fit never falls below nothing.
pub proof fn law_score_nonnegative(s: Seq<PEntry>, n: int)
    requires
        0 <= n <= s.len(),
    ensures
        fit_score(s, n) >= 0,
    decreases n,
{
    if n > 0 {
        law_score_nonnegative(s, n - 1);
        if s[n - 1].slot > next_free(s, n - 1) {
            lemma_holes(next_free(s, n - 1), s[n - 1].slot as int);
        }
    }
}

/// The model chosen from a merged one scores no higher than any other that was
/// to be chosen from, and below the limit.
pub proof fn law_best_model(models: Seq<Rc<ProtoModel>>, s: Seq<ParamTrial>, n: int, k: int)
    requires
        0 <= k < n <= models.len(),
        forall|i: int| 0 <= i < n ==> model_score((*#[trigger] models[i])@, s) >= 0,
    ensures
        best_model(models, s, n).1 <= 500,
        best_model(models, s, n).1 <= model_score((*models[k])@, s),
        best_model(models, s, n).0 matches Some(b) ==> 0 <= b < n && best_model(models, s, n).1
            == model_score((*models[b])@, s),
    decreases n,
{
    assert(model_score((*models[n - 1])@, s) >= 0);
    if k < n - 1 {
        law_best_model(models, s, n - 1, k);
    } else if n > 1 {
        law_best_model(models, s, n - 1, 0);
        assert(model_score((*models[k])@, s) >= 0);
    }
}

/// The effects kept by a merge come from the first list, in its order.
pub(crate) proof fn lemma_common_ordered(a: Seq<EffectRecord>, b: Seq<EffectRecord>, i: int, j: int)
    requires
        effects::by_address(a),
        0 <= i,
        0 <= j,
    ensures
        effects::by_address(effects::common_effects(a, b, i, j)),
        forall|k: int|
            0 <= k < effects::common_effects(a, b, i, j).len() ==> exists|p: int|
                i <= p < a.len() && #[trigger] a[p] == #[trigger] effects::common_effects(
                    a,
                    b,
                    i,
                    j,
                )[k],
    decreases a.len() - i + b.len() - j,
{
    let s = effects::common_effects(a, b, i, j);
    if i < a.len() && j < b.len() {
        if a[i].before(b[j]) {
            lemma_common_ordered(a, b, i + 1, j);
        } else if b[j].before(a[i]) {
            lemma_common_ordered(a, b, i, j + 1);
        } else {
            lemma_common_ordered(a, b, i + 1, j + 1);
            let rest = effects::common_effects(a, b, i + 1, j + 1);
            if a[i] == b[j] {
                assert forall|x: int, y: int| 0 <= x < y < s.len() implies !(#[trigger] s[y]).before(
                    #[trigger] s[x],
                ) by {
                    assert(s[y] == rest[y - 1]);
                    let p = choose|p: int| i + 1 <= p < a.len() && #[trigger] a[p] == rest[y - 1];
                    if x == 0 {
                        assert(s[0] == a[i]);
                        assert(!a[p].before(a[i]));
                    } else {
                        assert(s[x] == rest[x - 1]);
                    }
                }
                assert forall|k: int| 0 <= k < s.len() implies exists|p: int|
                    i <= p < a.len() && #[trigger] a[p] == #[trigger] s[k] by {
                    if k == 0 {
                        assert(s[0] == a[i]);
                    } else {
                        assert(s[k] == rest[k - 1]);
                    }
                }
            }
        }
    }
}

} // verus!
