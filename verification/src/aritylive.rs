//! Argument lists that came out too short at a call: they are extended to
//! those of another call of the same callee when the code of the callee
//! agrees.
use crate::callspec::{CallView, FuncCallSpecs};
use crate::entry;
use crate::entry::{EntryView, ParamEntry};
use crate::entrymap;
use crate::entrymap::EntryMap;
use crate::error::FspecError;
use crate::graph::{Graph, GraphView, OpId, VarnodeId};
use crate::link;
use crate::opcode::OpCode;
use crate::options;
use crate::probe::{CalleeEntryDead, DeadView};
use crate::script::{Script, ScriptView};
use crate::space::{Address, SpaceType};
use crate::trial::ParamTrial;
use vstd::prelude::*;

verus! {

/// The switch that lets the code of a callee extend argument lists.
#[derive(Debug)]
pub struct OptionCalleeArityLive;

impl OptionCalleeArityLive {
    /// The name of the switch.
    pub const NAME: &'static str = "calleearitylive";

    /// The setting that the word stands for, and what is said of it.
    pub fn apply(&self, p1: &str) -> (r: Result<(bool, String), FspecError>)
        ensures
            match (options::setting(p1@), r) {
                (Some(b), Ok((v, m))) => v == b && m@ == options::turned(
                    "Callee-body argument-list extension"@,
                    b,
                ),
                (None, Err(e)) => e == FspecError::BadSetting,
                _ => false,
            },
    {
        options::turn("Callee-body argument-list extension", p1)
    }
}

/// A call whose argument list came out short: where the arguments that it
/// kept were, in order, and the register trials that it dropped, each with
/// the varnode that the call had for it.
#[derive(Debug)]
pub struct PendingExtend {
    pub op: OpId,
    pub entry: Address,
    pub recovered: Vec<(Address, i32)>,
    pub candidates: Vec<(Address, i32, VarnodeId)>,
}

/// A call with a short argument list in the abstract.
#[verifier::ext_equal]
pub struct ExtendView {
    pub op: OpId,
    pub entry: Address,
    pub recovered: Seq<(Address, i32)>,
    pub candidates: Seq<(Address, i32, VarnodeId)>,
}

impl View for PendingExtend {
    type V = ExtendView;

    open spec fn view(&self) -> ExtendView {
        ExtendView {
            op: self.op,
            entry: self.entry,
            recovered: self.recovered@,
            candidates: self.candidates@,
        }
    }
}

/// Is the address on the stack, or nowhere, so that it cannot be compared
/// between calls.
pub open spec fn stacked(addr: Address) -> bool {
    match addr.space {
        Some(s) => s.type_ == SpaceType::Spacebase,
        None => true,
    }
}

fn is_stack(addr: &Address) -> (r: bool)
    ensures
        r == stacked(*addr),
{
    match addr.space {
        Some(s) => s.type_ == SpaceType::Spacebase,
        None => true,
    }
}

/// Do two locations share a byte.
pub open spec fn overlapping(a: (Address, i32), b: (Address, i32)) -> bool {
    match (a.0.space, b.0.space) {
        (Some(sa), Some(sb)) => sa.index == sb.index && a.1 > 0 && b.1 > 0 && entry::share_byte(
            a.0.offset,
            a.1 as int,
            b.0.offset,
            b.1 as int,
        ),
        _ => false,
    }
}

fn overlaps(a: &Address, asz: i32, b: &Address, bsz: i32) -> (r: bool)
    ensures
        r == overlapping((*a, asz), (*b, bsz)),
{
    match (a.space, b.space) {
        (Some(sa), Some(sb)) => sa.index == sb.index && asz > 0 && bsz > 0 && entry::shares_byte(
            a.offset,
            asz,
            b.offset,
            bsz as u64,
        ),
        _ => false,
    }
}

/// The varnode of a trial that could still be an argument: an unused register
/// trial with a varnode of its own size at the call.
pub open spec fn promotable(g: GraphView, op: OpId, t: ParamTrial) -> Option<VarnodeId> {
    if t.flags.defnouse || t.flags.unref || stacked(t.addr) || t.slot < 1 {
        None
    } else {
        match g.input(op, t.slot as int) {
            Some(vn) => match g.vn(vn) {
                Some(v) => if v.size == t.size {
                    Some(vn)
                } else {
                    None
                },
                None => None,
            },
            None => None,
        }
    }
}

/// The kept arguments and the candidates behind them among the first `n`
/// trials; nothing if a used trial is on the stack or behind a candidate.
pub open spec fn sorted_out(g: GraphView, op: OpId, trials: Seq<ParamTrial>, n: int) -> Option<
    (Seq<(Address, i32)>, Seq<(Address, i32, VarnodeId)>),
>
    decreases n,
{
    if n <= 0 || n > trials.len() {
        Some((Seq::empty(), Seq::empty()))
    } else {
        let t = trials[n - 1];
        match sorted_out(g, op, trials, n - 1) {
            None => None,
            Some((kept, cands)) => if t.flags.used {
                if stacked(t.addr) || cands.len() > 0 {
                    None
                } else {
                    Some((kept.push((t.addr, t.size)), cands))
                }
            } else {
                match promotable(g, op, t) {
                    Some(vn) => Some((kept, cands.push((t.addr, t.size, vn)))),
                    None => Some((kept, cands)),
                }
            },
        }
    }
}

/// A short argument list that might be extended.
pub open spec fn captured(on: bool, c: CallView, g: GraphView) -> Option<ExtendView> {
    if !on || c.proto.input_locked() {
        None
    } else {
        match g.op(c.op) {
            None => None,
            Some(o) => if o.dead || o.code != OpCode::Call {
                None
            } else {
                match sorted_out(g, c.op, c.activeinput.trial, c.activeinput.trial.len() as int) {
                    Some((kept, cands)) => if kept.len() == 0 || cands.len() == 0 {
                        None
                    } else {
                        Some(
                            ExtendView {
                                op: c.op,
                                entry: c.entryaddress,
                                recovered: kept,
                                candidates: cands,
                            },
                        )
                    },
                    None => None,
                }
            },
        }
    }
}

/// Nothing is sorted out once it failed.
proof fn lemma_sorted_out_fails(g: GraphView, op: OpId, trials: Seq<ParamTrial>, k: int, n: int)
    requires
        0 <= k <= n <= trials.len(),
        sorted_out(g, op, trials, k) is None,
    ensures
        sorted_out(g, op, trials, n) is None,
    decreases n - k,
{
    if k < n {
        lemma_sorted_out_fails(g, op, trials, k, n - 1);
    }
}

fn find_promotable(g: &Graph, op: OpId, t: &ParamTrial) -> (r: Option<VarnodeId>)
    ensures
        r == promotable(g@, op, *t),
{
    if t.is_definitely_not_used() || t.is_unref() || is_stack(t.get_address()) || t.get_slot() < 1 {
        return None;
    }
    match g.get_in(op, t.get_slot()) {
        Some(vn) => match g.get_vn(vn) {
            Some(v) => if v.size == t.get_size() {
                Some(vn)
            } else {
                None
            },
            None => None,
        },
        None => None,
    }
}

/// A call that is about to get a short argument list, while the trials are
/// there and the call has its inputs. `callee_arity` and `callee_arity_live`
/// turn the extension on.
pub fn capture_partial_call(
    callee_arity: bool,
    callee_arity_live: bool,
    fc: &FuncCallSpecs,
    g: &Graph,
) -> (r: Option<PendingExtend>)
    requires
        fc@.proto.wf(),
    ensures
        match r {
            Some(p) => captured(callee_arity && callee_arity_live, fc@, g@) == Some(p@),
            None => captured(callee_arity && callee_arity_live, fc@, g@) is None,
        },
{
    if !callee_arity || !callee_arity_live || fc.is_input_locked() {
        return None;
    }
    let op = fc.get_op();
    match g.get_op(op) {
        Some(o) => {
            if o.dead || o.code != OpCode::Call {
                return None;
            }
        },
        None => {
            return None;
        },
    }
    let trials = &fc.activeinput.trial;
    let mut recovered: Vec<(Address, i32)> = Vec::new();
    let mut candidates: Vec<(Address, i32, VarnodeId)> = Vec::new();
    let ghost ts = fc@.activeinput.trial;
    assert(ts == trials@);
    assert(recovered@ =~= Seq::empty());
    assert(candidates@ =~= Seq::empty());
    let mut i: usize = 0;
    while i < trials.len()
        invariant
            i <= trials.len(),
            ts == trials@,
            ts == fc@.activeinput.trial,
            op == fc@.op,
            !fc@.proto.input_locked(),
            g@.op(op) matches Some(o) && !o.dead && o.code == OpCode::Call,
            sorted_out(g@, op, ts, i as int) == Some((recovered@, candidates@)),
        decreases trials.len() - i,
    {
        let t = &trials[i];
        let addr = *t.get_address();
        if t.is_used() {
            if is_stack(&addr) || candidates.len() > 0 {
                proof {
                    lemma_sorted_out_fails(g@, op, ts, i as int + 1, ts.len() as int);
                }
                return None;
            }
            recovered.push((addr, t.get_size()));
        } else {
            match find_promotable(g, op, t) {
                Some(vn) => {
                    candidates.push((addr, t.get_size(), vn));
                },
                None => {},
            }
        }
        i += 1;
    }
    if recovered.len() == 0 || candidates.len() == 0 {
        return None;
    }
    Some(PendingExtend { op, entry: *fc.get_entry_address(), recovered, candidates })
}

/// Does a location of the witness share a byte with `e`.
pub open spec fn claimed(e: (Address, i32), witness: Seq<(Address, i32)>) -> bool {
    exists|k: int| 0 <= k < witness.len() && overlapping(e, #[trigger] witness[k])
}

/// The first `n` locations without those that the witness claims.
pub open spec fn uncovered(
    entries: Seq<(Address, i32)>,
    witness: Seq<(Address, i32)>,
    n: int,
) -> Seq<(Address, i32)>
    decreases n,
{
    if n <= 0 || n > entries.len() {
        Seq::empty()
    } else {
        let before = uncovered(entries, witness, n - 1);
        if claimed(entries[n - 1], witness) {
            before
        } else {
            before.push(entries[n - 1])
        }
    }
}

/// The argument locations of the model that the witness does not claim.
pub fn uncovered_argument_locations(
    entries: &[(Address, i32)],
    witness: &[(Address, i32)],
) -> (r: Vec<(Address, i32)>)
    ensures
        r@ == uncovered(entries@, witness@, entries@.len() as int),
{
    let mut r: Vec<(Address, i32)> = Vec::new();
    assert(r@ =~= Seq::empty());
    let mut i: usize = 0;
    while i < entries.len()
        invariant
            i <= entries.len(),
            r@ == uncovered(entries@, witness@, i as int),
        decreases entries.len() - i,
    {
        let e = entries[i];
        let mut found: bool = false;
        let mut k: usize = 0;
        while k < witness.len() && !found
            invariant
                k <= witness.len(),
                found ==> claimed(e, witness@),
                !found ==> forall|j: int| 0 <= j < k ==> !overlapping(e, #[trigger] witness@[j]),
            decreases witness.len() - k,
        {
            let w = witness[k];
            if overlaps(&e.0, e.1, &w.0, w.1) {
                assert(overlapping(e, witness@[k as int]));
                found = true;
            }
            k += 1;
        }
        if !found {
            r.push(e);
        }
        i += 1;
    }
    r
}

/// The locations of entries.
pub open spec fn locations(entries: Seq<EntryView>) -> Seq<(Address, i32)> {
    Seq::new(
        entries.len(),
        |i: int|
            (
                Address { space: entries[i].spaceid, offset: entries[i].addressbase },
                entries[i].size,
            ),
    )
}

fn entry_locations(entries: &Vec<ParamEntry>) -> (r: Vec<(Address, i32)>)
    ensures
        r@ == locations(entry::entries_view(entries@)),
{
    let mut r: Vec<(Address, i32)> = Vec::new();
    let mut i: usize = 0;
    while i < entries.len()
        invariant
            i <= entries.len(),
            r@ =~= locations(entry::entries_view(entries@)).take(i as int),
        decreases entries.len() - i,
    {
        let e = &entries[i];
        r.push((Address { space: e.spaceid, offset: e.addressbase }, e.size));
        i += 1;
    }
    assert(r@ =~= locations(entry::entries_view(entries@)));
    r
}

/// The first candidate from `i` on at a location, or their number.
pub open spec fn candidate_at(cands: Seq<(Address, i32)>, loc: (Address, i32), i: int) -> int
    decreases cands.len() - i,
{
    if i < 0 || i >= cands.len() {
        cands.len() as int
    } else if cands[i] == loc {
        i
    } else {
        candidate_at(cands, loc, i + 1)
    }
}

/// The candidates that cover the first `n` locations of a list, each behind
/// the one before, and where the next one may stand.
pub open spec fn planned(tail: Seq<(Address, i32)>, cands: Seq<(Address, i32)>, n: int) -> Option<
    (Seq<i32>, int),
>
    decreases n,
{
    if n <= 0 || n > tail.len() {
        Some((Seq::empty(), 0))
    } else {
        match planned(tail, cands, n - 1) {
            None => None,
            Some((picked, next)) => {
                let k = candidate_at(cands, tail[n - 1], next);
                if k < cands.len() {
                    Some((picked.push(k as i32), k + 1))
                } else {
                    None
                }
            },
        }
    }
}

/// The candidates that cover a whole list, in order.
pub open spec fn plan(tail: Seq<(Address, i32)>, cands: Seq<(Address, i32)>) -> Option<Seq<i32>> {
    match planned(tail, cands, tail.len() as int) {
        Some((picked, next)) => Some(picked),
        None => None,
    }
}

proof fn lemma_planned_fails(tail: Seq<(Address, i32)>, cands: Seq<(Address, i32)>, k: int, n: int)
    requires
        0 <= k <= n <= tail.len(),
        planned(tail, cands, k) is None,
    ensures
        planned(tail, cands, n) is None,
    decreases n - k,
{
    if k < n {
        lemma_planned_fails(tail, cands, k, n - 1);
    }
}

/// The candidates that cover the missing locations, in order, or nothing when
/// one of them cannot be covered.
pub fn plan_tail(tail: &[(Address, i32)], candidates: &[(Address, i32)]) -> (r: Option<Vec<i32>>)
    ensures
        match r {
            Some(v) => plan(tail@, candidates@) == Some(v@),
            None => plan(tail@, candidates@) is None,
        },
{
    let mut picked: Vec<i32> = Vec::new();
    assert(picked@ =~= Seq::empty());
    let mut next: usize = 0;
    let mut i: usize = 0;
    while i < tail.len()
        invariant
            i <= tail.len(),
            next <= candidates.len(),
            planned(tail@, candidates@, i as int) == Some((picked@, next as int)),
        decreases tail.len() - i,
    {
        let w = tail[i];
        let mut k: usize = next;
        let mut found: bool = false;
        while k < candidates.len() && !found
            invariant
                next <= k <= candidates.len(),
                found ==> k < candidates.len() && candidates@[k as int] == w,
                candidate_at(candidates@, w, next as int) == candidate_at(candidates@, w, k as int),
            decreases candidates.len() - k, (if found {
                0int
            } else {
                1int
            }),
        {
            let c = candidates[k];
            if c.0.same(&w.0) && c.1 == w.1 {
                found = true;
            } else {
                k += 1;
            }
        }
        if !found {
            proof {
                lemma_planned_fails(tail@, candidates@, i as int + 1, tail@.len() as int);
            }
            return None;
        }
        picked.push(k as i32);
        next = k + 1;
        i += 1;
    }
    Some(picked)
}

/// Does the code of the callee read all of the locations early.
pub open spec fn all_live(d: DeadView, s: Seq<(Address, i32)>) -> bool {
    forall|k: int| 0 <= k < s.len() ==> d.live((#[trigger] s[k]).0, s[k].1 as int)
}

/// Does the code of the callee read none of the locations early.
pub open spec fn none_live(d: DeadView, s: Seq<(Address, i32)>) -> bool {
    forall|k: int| 0 <= k < s.len() ==> !d.live((#[trigger] s[k]).0, s[k].1 as int)
}

/// Does the code of the callee agree that the witness is its whole list of
/// register arguments: it reads all that is missing at the call, and no other
/// argument register.
pub open spec fn body_agrees(
    known: Option<DeadView>,
    entries: Seq<EntryView>,
    witness: Seq<(Address, i32)>,
    tail: Seq<(Address, i32)>,
) -> bool {
    known matches Some(d) && d.complete && all_live(d, tail) && none_live(
        d,
        uncovered(locations(entries), witness, entries.len() as int),
    )
}

fn callee_body_agrees(
    facts: &EntryMap<CalleeEntryDead>,
    entry: &Address,
    entries: &Vec<ParamEntry>,
    witness: &Vec<(Address, i32)>,
    from: usize,
) -> (r: bool)
    requires
        facts.wf(),
        from <= witness.len(),
    ensures
        r == body_agrees(
            entrymap::fact_at(facts@, *entry),
            entry::entries_view(entries@),
            witness@,
            witness@.skip(from as int),
        ),
{
    let live = match facts.get(entry) {
        Some(d) => d,
        None => {
            return false;
        },
    };
    if !live.is_complete() {
        return false;
    }
    let ghost tail = witness@.skip(from as int);
    let mut i: usize = from;
    while i < witness.len()
        invariant
            from <= i <= witness.len(),
            live.wf(),
            tail == witness@.skip(from as int),
            entrymap::fact_at(facts@, *entry) == Some(live@),
            forall|k: int|
                0 <= k < i - from ==> live@.live((#[trigger] tail[k]).0, tail[k].1 as int),
        decreases witness.len() - i,
    {
        let w = witness[i];
        assert(tail[i - from] == w);
        if !live.proves_read(&w.0, w.1) {
            return false;
        }
        i += 1;
    }
    assert(all_live(live@, tail));
    let locs = entry_locations(entries);
    let left = uncovered_argument_locations(locs.as_slice(), witness.as_slice());
    let mut j: usize = 0;
    while j < left.len()
        invariant
            j <= left.len(),
            live.wf(),
            entrymap::fact_at(facts@, *entry) == Some(live@),
            left@ == uncovered(
                locations(entry::entries_view(entries@)),
                witness@,
                entries@.len() as int,
            ),
            forall|k: int|
                0 <= k < j ==> !live@.live((#[trigger] left@[k]).0, left@[k].1 as int),
        decreases left.len() - j,
    {
        let l = left[j];
        assert(left@[j as int] == l);
        if live.proves_read(&l.0, l.1) {
            return false;
        }
        j += 1;
    }
    true
}

/// The storage of candidates.
pub open spec fn storage(s: Seq<(Address, i32, VarnodeId)>) -> Seq<(Address, i32)> {
    s.map_values(|c: (Address, i32, VarnodeId)| (c.0, c.1))
}

/// The varnodes of the candidates that were picked.
pub open spec fn promoted(p: ExtendView, picked: Seq<i32>) -> Seq<VarnodeId> {
    picked.map_values(|k: i32| p.candidates[k as int].2)
}

/// The position of the call made by `op` from `i` on, or their number.
pub open spec fn call_of(calls: Seq<CallView>, op: OpId, i: int) -> int
    decreases calls.len() - i,
{
    if i < 0 || i >= calls.len() {
        calls.len() as int
    } else if calls[i].op == op {
        i
    } else {
        call_of(calls, op, i + 1)
    }
}

impl ExtendView {
    /// Does the call still have exactly the arguments that it kept.
    pub open spec fn stands(self, g: GraphView) -> bool {
        g.op(self.op) matches Some(o) && !o.dead && o.code == OpCode::Call && o.inputs.len()
            == self.recovered.len() + 1
    }

    /// The varnodes that the call gains from a witness, if it does.
    pub open spec fn gained(
        self,
        calls: Seq<CallView>,
        g: GraphView,
        witness: Seq<(Address, i32)>,
        facts: Map<(i32, u64), DeadView>,
    ) -> Option<Seq<VarnodeId>> {
        let n = self.recovered.len() as int;
        let idx = call_of(calls, self.op, 0);
        if !self.stands(g) || witness.len() <= n || witness.take(n) != self.recovered {
            None
        } else {
            match plan(witness.skip(n), storage(self.candidates)) {
                None => None,
                Some(picked) => {
                    let more = promoted(self, picked);
                    if idx < calls.len() && calls[idx].proto.model is Some
                        && calls[idx].proto.model_view().ins().entry.len() > 0 && body_agrees(
                        entrymap::fact_at(facts, self.entry),
                        calls[idx].proto.model_view().ins().entry,
                        witness,
                        witness.skip(n),
                    ) && (forall|k: int|
                        0 <= k < more.len() ==> g.vn(#[trigger] more[k]) is Some) {
                        Some(more)
                    } else {
                        None
                    }
                },
            }
        }
    }

    /// The calls and the changes once the call is extended, if it is.
    pub open spec fn extended(
        self,
        calls: Seq<CallView>,
        g: GraphView,
        s: ScriptView,
        witness: Seq<(Address, i32)>,
        facts: Map<(i32, u64), DeadView>,
    ) -> (Seq<CallView>, ScriptView, bool) {
        match self.gained(calls, g, witness, facts) {
            Some(more) => {
                let idx = call_of(calls, self.op, 0);
                (
                    calls.update(
                        idx,
                        CallView { final_input_storage: witness, ..calls[idx] },
                    ),
                    s.set_all_input(self.op, g.op(self.op)->0.inputs + more),
                    true,
                )
            },
            None => (calls, s, false),
        }
    }
}

/// The locations that are picked are candidates.
proof fn lemma_planned_in_range(tail: Seq<(Address, i32)>, cands: Seq<(Address, i32)>, n: int)
    requires
        cands.len() <= i32::MAX,
        0 <= n <= tail.len(),
    ensures
        planned(tail, cands, n) matches Some((picked, next)) ==> 0 <= next <= cands.len()
            && picked.len() == n && forall|k: int|
            0 <= k < n ==> 0 <= #[trigger] picked[k] < next && cands[picked[k] as int] == tail[k],
    decreases n,
{
    if n > 0 {
        lemma_planned_in_range(tail, cands, n - 1);
        match planned(tail, cands, n - 1) {
            Some((picked, next)) => {
                lemma_candidate_at(cands, tail[n - 1], next);
            },
            None => {},
        }
    }
}

proof fn lemma_candidate_at(cands: Seq<(Address, i32)>, loc: (Address, i32), i: int)
    requires
        0 <= i <= cands.len(),
    ensures
        i <= candidate_at(cands, loc, i) <= cands.len(),
        candidate_at(cands, loc, i) < cands.len() ==> cands[candidate_at(cands, loc, i)] == loc,
        forall|k: int| i <= k < candidate_at(cands, loc, i) ==> #[trigger] cands[k] != loc,
    decreases cands.len() - i,
{
    if i < cands.len() && cands[i] != loc {
        lemma_candidate_at(cands, loc, i + 1);
    }
}

/// The arguments that a call gains stand at the missing locations, in order:
/// the candidates that are picked cover all of them, each behind the one
/// before.
pub proof fn law_tail_in_order(tail: Seq<(Address, i32)>, cands: Seq<(Address, i32)>)
    requires
        cands.len() <= i32::MAX,
    ensures
        plan(tail, cands) matches Some(picked) ==> picked.len() == tail.len() && (forall|k: int|
            0 <= k < picked.len() ==> 0 <= #[trigger] picked[k] < cands.len()
                && cands[picked[k] as int] == tail[k]) && (forall|j: int, k: int|
            0 <= j < k < picked.len() ==> picked[j] < picked[k]),
{
    lemma_planned_in_range(tail, cands, tail.len() as int);
    lemma_planned_grows(tail, cands, tail.len() as int);
}

proof fn lemma_planned_grows(tail: Seq<(Address, i32)>, cands: Seq<(Address, i32)>, n: int)
    requires
        cands.len() <= i32::MAX,
        0 <= n <= tail.len(),
    ensures
        planned(tail, cands, n) matches Some((picked, next)) ==> forall|j: int, k: int|
            0 <= j < k < picked.len() ==> picked[j] < picked[k],
    decreases n,
{
    if n > 0 {
        lemma_planned_grows(tail, cands, n - 1);
        lemma_planned_in_range(tail, cands, n - 1);
        match planned(tail, cands, n - 1) {
            Some((picked, next)) => {
                lemma_candidate_at(cands, tail[n - 1], next);
            },
            None => {},
        }
    }
}

/// A list is left alone only if it cannot be covered: whenever some choice of
/// candidates in order covers all missing locations, one is found.
pub proof fn law_tail_covered_if_possible(
    tail: Seq<(Address, i32)>,
    cands: Seq<(Address, i32)>,
    choice: Seq<int>,
)
    requires
        cands.len() <= i32::MAX,
        choice.len() == tail.len(),
        forall|k: int|
            0 <= k < tail.len() ==> 0 <= #[trigger] choice[k] < cands.len() && cands[choice[k]]
                == tail[k],
        forall|j: int, k: int| 0 <= j < k < tail.len() ==> choice[j] < choice[k],
    ensures
        plan(tail, cands) is Some,
{
    lemma_plan_keeps_up(tail, cands, choice, tail.len() as int);
}

proof fn lemma_plan_keeps_up(
    tail: Seq<(Address, i32)>,
    cands: Seq<(Address, i32)>,
    choice: Seq<int>,
    n: int,
)
    requires
        cands.len() <= i32::MAX,
        choice.len() == tail.len(),
        forall|k: int|
            0 <= k < tail.len() ==> 0 <= #[trigger] choice[k] < cands.len() && cands[choice[k]]
                == tail[k],
        forall|j: int, k: int| 0 <= j < k < tail.len() ==> choice[j] < choice[k],
        0 <= n <= tail.len(),
    ensures
        planned(tail, cands, n) matches Some((picked, next)) && (if n == 0 {
            next == 0
        } else {
            0 <= next <= choice[n - 1] + 1
        }),
    decreases n,
{
    if n > 0 {
        lemma_plan_keeps_up(tail, cands, choice, n - 1);
        lemma_planned_in_range(tail, cands, n - 1);
        match planned(tail, cands, n - 1) {
            Some((picked, next)) => {
                assert(next <= choice[n - 1]);
                lemma_candidate_at(cands, tail[n - 1], next);
                assert(cands[choice[n - 1]] == tail[n - 1]);
            },
            None => {},
        }
    }
}

/// What the witness leaves uncovered shares no byte with it, and is one of
/// the argument locations.
pub proof fn law_uncovered(
    entries: Seq<(Address, i32)>,
    witness: Seq<(Address, i32)>,
    n: int,
    k: int,
)
    requires
        0 <= n <= entries.len(),
        0 <= k < uncovered(entries, witness, n).len(),
    ensures
        entries.contains(uncovered(entries, witness, n)[k]),
        !claimed(uncovered(entries, witness, n)[k], witness),
    decreases n,
{
    if k < uncovered(entries, witness, n - 1).len() {
        law_uncovered(entries, witness, n - 1, k);
    } else {
        assert(entries[n - 1] == uncovered(entries, witness, n)[k]);
    }
}

fn candidate_storage(c: &Vec<(Address, i32, VarnodeId)>) -> (r: Vec<(Address, i32)>)
    ensures
        r@ == storage(c@),
{
    let mut r: Vec<(Address, i32)> = Vec::new();
    let mut i: usize = 0;
    while i < c.len()
        invariant
            i <= c.len(),
            r@ =~= storage(c@).take(i as int),
        decreases c.len() - i,
    {
        let x = c[i];
        r.push((x.0, x.1));
        i += 1;
    }
    assert(r@ =~= storage(c@));
    r
}

fn find_call(calls: &Vec<FuncCallSpecs>, op: OpId) -> (r: usize)
    ensures
        r == call_of(link::calls_view(calls@), op, 0),
        r <= calls.len(),
{
    let mut i: usize = 0;
    while i < calls.len()
        invariant
            i <= calls.len(),
            call_of(link::calls_view(calls@), op, 0) == call_of(
                link::calls_view(calls@),
                op,
                i as int,
            ),
        decreases calls.len() - i,
    {
        assert(link::calls_view(calls@)[i as int] == calls@[i as int]@);
        if calls[i].get_op() == op {
            return i;
        }
        i += 1;
    }
    i
}

fn starts_with(witness: &Vec<(Address, i32)>, kept: &Vec<(Address, i32)>) -> (r: bool)
    requires
        kept.len() <= witness.len(),
    ensures
        r == (witness@.take(kept@.len() as int) == kept@),
{
    let ghost n = kept@.len() as int;
    let mut i: usize = 0;
    while i < kept.len()
        invariant
            i <= kept.len(),
            n == kept@.len(),
            kept.len() <= witness.len(),
            forall|k: int| 0 <= k < i ==> witness@[k] == #[trigger] kept@[k],
        decreases kept.len() - i,
    {
        let w = witness[i];
        let k = kept[i];
        if !w.0.same(&k.0) || w.1 != k.1 {
            assert(witness@.take(n)[i as int] != kept@[i as int]);
            return false;
        }
        i += 1;
    }
    assert(witness@.take(n) =~= kept@);
    true
}

/// The candidates that were picked, if all of their varnodes are there.
fn gather_promoted(p: &PendingExtend, picked: &Vec<i32>, g: &Graph) -> (r: Option<Vec<VarnodeId>>)
    requires
        forall|k: int| 0 <= k < picked@.len() ==> 0 <= #[trigger] picked@[k] < p@.candidates.len(),
    ensures
        match r {
            Some(v) => v@ == promoted(p@, picked@) && forall|k: int|
                0 <= k < v@.len() ==> g@.vn(#[trigger] v@[k]) is Some,
            None => exists|k: int|
                0 <= k < promoted(p@, picked@).len() && g@.vn(
                    #[trigger] promoted(p@, picked@)[k],
                ) is None,
        },
{
    let mut v: Vec<VarnodeId> = Vec::new();
    let mut i: usize = 0;
    while i < picked.len()
        invariant
            i <= picked.len(),
            v@ =~= promoted(p@, picked@).take(i as int),
            forall|k: int|
                0 <= k < picked@.len() ==> 0 <= #[trigger] picked@[k] < p@.candidates.len(),
            forall|k: int| 0 <= k < i ==> g@.vn(#[trigger] v@[k]) is Some,
        decreases picked.len() - i,
    {
        let k: i32 = picked[i];
        assert(0 <= picked@[i as int] < p@.candidates.len());
        let vn = p.candidates[k as usize].2;
        assert(promoted(p@, picked@)[i as int] == vn);
        if g.get_vn(vn).is_none() {
            return None;
        }
        v.push(vn);
        i += 1;
    }
    assert(v@ =~= promoted(p@, picked@));
    Some(v)
}

/// The calls have the entries that their models are asked for.
pub open spec fn calls_modelled(calls: Seq<CallView>) -> bool {
    forall|i: int|
        0 <= i < calls.len() ==> ((#[trigger] calls[i]).proto.model is Some
            ==> calls[i].proto.model_view().input is Some)
}

/// Extends the arguments of one call to those of `witness`, another call of
/// the same callee, or leaves it alone. Says whether it gained arguments.
pub fn extend_one(
    calls: &mut Vec<FuncCallSpecs>,
    p: &PendingExtend,
    witness: &Vec<(Address, i32)>,
    g: &Graph,
    s: &mut Script,
    facts: &EntryMap<CalleeEntryDead>,
) -> (r: bool)
    requires
        facts.wf(),
        p@.candidates.len() <= i32::MAX,
        calls_modelled(link::calls_view(old(calls)@)),
    ensures
        (link::calls_view(final(calls)@), final(s)@, r) == p@.extended(
            link::calls_view(old(calls)@),
            g@,
            old(s)@,
            witness@,
            facts@,
        ),
{
    let ghost cv = link::calls_view(calls@);
    let n: usize = p.recovered.len();
    let o = match g.get_op(p.op) {
        Some(o) => o,
        None => {
            return false;
        },
    };
    if o.dead || o.code != OpCode::Call || o.inputs.len() == 0 || o.inputs.len() - 1 != n {
        return false;
    }
    if witness.len() <= n || !starts_with(witness, &p.recovered) {
        return false;
    }
    let mut tail: Vec<(Address, i32)> = Vec::new();
    let mut i: usize = n;
    while i < witness.len()
        invariant
            n <= i <= witness.len(),
            tail@ =~= witness@.subrange(n as int, i as int),
        decreases witness.len() - i,
    {
        tail.push(witness[i]);
        i += 1;
    }
    assert(tail@ =~= witness@.skip(n as int));
    let locs = candidate_storage(&p.candidates);
    let picked = match plan_tail(tail.as_slice(), locs.as_slice()) {
        Some(v) => v,
        None => {
            return false;
        },
    };
    proof {
        law_tail_in_order(tail@, locs@);
    }
    let idx: usize = find_call(calls, p.op);
    if idx >= calls.len() {
        return false;
    }
    assert(cv[idx as int] == calls@[idx as int]@);
    if !calls[idx].proto.has_model() {
        return false;
    }
    let entries = calls[idx].proto.input_param_entries();
    if entries.len() == 0 {
        return false;
    }
    if !callee_body_agrees(facts, &p.entry, &entries, witness, n) {
        return false;
    }
    let more = match gather_promoted(p, &picked, g) {
        Some(v) => v,
        None => {
            return false;
        },
    };
    let mut newparam: Vec<VarnodeId> = Vec::new();
    let mut j: usize = 0;
    while j < o.inputs.len()
        invariant
            j <= o.inputs.len(),
            newparam@ =~= o.inputs@.take(j as int),
        decreases o.inputs.len() - j,
    {
        newparam.push(o.inputs[j]);
        j += 1;
    }
    let ghost kept = newparam@;
    let mut k: usize = 0;
    while k < more.len()
        invariant
            k <= more.len(),
            kept == o.inputs@.take(o.inputs@.len() as int),
            newparam@ =~= kept + more@.take(k as int),
        decreases more.len() - k,
    {
        newparam.push(more[k]);
        k += 1;
    }
    assert(newparam@ =~= o@.inputs + more@);
    s.set_all_input(p.op, &newparam);
    let storage = copy_storage(witness);
    calls[idx].set_final_input_storage(storage);
    assert(link::calls_view(calls@) =~= cv.update(
        idx as int,
        CallView { final_input_storage: witness@, ..cv[idx as int] },
    ));
    true
}

fn copy_storage(v: &Vec<(Address, i32)>) -> (r: Vec<(Address, i32)>)
    ensures
        r@ == v@,
{
    let mut r: Vec<(Address, i32)> = Vec::new();
    let mut i: usize = 0;
    while i < v.len()
        invariant
            i <= v.len(),
            r@ =~= v@.take(i as int),
        decreases v.len() - i,
    {
        r.push(v[i]);
        i += 1;
    }
    assert(r@ =~= v@);
    r
}

/// The calls and the changes once the first `n` short lists are extended, and
/// how many of them were.
pub open spec fn all_extended(
    calls: Seq<CallView>,
    pending: Seq<PendingExtend>,
    witnesses: Seq<Vec<(Address, i32)>>,
    n: int,
    g: GraphView,
    s: ScriptView,
    facts: Map<(i32, u64), DeadView>,
) -> (Seq<CallView>, ScriptView, int)
    decreases n,
{
    if n <= 0 || n > pending.len() {
        (calls, s, 0)
    } else {
        let (c1, s1, k) = all_extended(calls, pending, witnesses, n - 1, g, s, facts);
        let (c2, s2, b) = pending[n - 1]@.extended(c1, g, s1, witnesses[n - 1]@, facts);
        (c2, s2, if b {
            k + 1
        } else {
            k
        })
    }
}

proof fn lemma_call_of(calls: Seq<CallView>, op: OpId, i: int)
    requires
        0 <= i <= calls.len(),
    ensures
        i <= call_of(calls, op, i) <= calls.len(),
    decreases calls.len() - i,
{
    if i < calls.len() && calls[i].op != op {
        lemma_call_of(calls, op, i + 1);
    }
}

/// Extending a call keeps the models.
proof fn lemma_extended_modelled(
    p: ExtendView,
    calls: Seq<CallView>,
    g: GraphView,
    s: ScriptView,
    witness: Seq<(Address, i32)>,
    facts: Map<(i32, u64), DeadView>,
)
    requires
        calls_modelled(calls),
    ensures
        calls_modelled(p.extended(calls, g, s, witness, facts).0),
{
    let after = p.extended(calls, g, s, witness, facts).0;
    lemma_call_of(calls, p.op, 0);
    assert forall|i: int|
        0 <= i < after.len() && (
        #[trigger] after[i]).proto.model is Some implies after[i].proto.model_view().input is Some by {
        assert(after[i].proto == calls[i].proto);
    }
}

/// Extends the short lists in the order in which they were found, each to its
/// own witness; says how many gained arguments.
///
/// All witnesses are chosen before the first list is extended, so this is right
/// only where no list is the witness of a later one. A call that was extended
/// can be the witness of a later one of the same callee: where that may be, the
/// witness of each list is chosen when its turn comes, and `extend_one` is run
/// list by list.
pub fn extend_pending(
    calls: &mut Vec<FuncCallSpecs>,
    pending: &Vec<PendingExtend>,
    witnesses: &Vec<Vec<(Address, i32)>>,
    g: &Graph,
    s: &mut Script,
    facts: &EntryMap<CalleeEntryDead>,
) -> (r: i32)
    requires
        facts.wf(),
        witnesses.len() == pending.len(),
        pending.len() <= i32::MAX,
        forall|i: int|
            0 <= i < pending@.len() ==> (#[trigger] pending@[i])@.candidates.len() <= i32::MAX,
        calls_modelled(link::calls_view(old(calls)@)),
    ensures
        (link::calls_view(final(calls)@), final(s)@, r as int) == all_extended(
            link::calls_view(old(calls)@),
            pending@,
            witnesses@,
            pending@.len() as int,
            g@,
            old(s)@,
            facts@,
        ),
{
    let ghost cv = link::calls_view(calls@);
    let ghost s0 = s@;
    let mut extended: i32 = 0;
    let mut i: usize = 0;
    while i < pending.len()
        invariant
            i <= pending.len(),
            facts.wf(),
            witnesses.len() == pending.len(),
            pending.len() <= i32::MAX,
            forall|i: int|
                0 <= i < pending@.len() ==> (#[trigger] pending@[i])@.candidates.len() <= i32::MAX,
            cv == link::calls_view(old(calls)@),
            s0 == old(s)@,
            calls_modelled(link::calls_view(calls@)),
            0 <= extended <= i,
            (link::calls_view(calls@), s@, extended as int) == all_extended(
                cv,
                pending@,
                witnesses@,
                i as int,
                g@,
                s0,
                facts@,
            ),
        decreases pending.len() - i,
    {
        assert(pending@[i as int]@.candidates.len() <= i32::MAX);
        proof {
            lemma_extended_modelled(
                pending@[i as int]@,
                link::calls_view(calls@),
                g@,
                s@,
                witnesses@[i as int]@,
                facts@,
            );
        }
        if extend_one(calls, &pending[i], &witnesses[i], g, s, facts) {
            extended += 1;
        }
        i += 1;
    }
    extended
}

/// A short argument list only ever grows, and all of it or nothing: either
/// nothing changes, or the call keeps its arguments and gains one for each
/// further location of the witness, whose list starts with that of the call.
/// The code of the callee reads each gained register before it writes it, and
/// no other argument register.
pub proof fn law_extension_only_adds(
    p: ExtendView,
    calls: Seq<CallView>,
    g: GraphView,
    s: ScriptView,
    witness: Seq<(Address, i32)>,
    facts: Map<(i32, u64), DeadView>,
)
    requires
        p.candidates.len() <= i32::MAX,
    ensures
        ({
            let (after, script, grown) = p.extended(calls, g, s, witness, facts);
            let n = p.recovered.len() as int;
            let idx = call_of(calls, p.op, 0);
            let more = p.gained(calls, g, witness, facts)->0;
            if !grown {
                after == calls && script == s
            } else {
                &&& n < witness.len()
                &&& witness.take(n) == p.recovered
                &&& more.len() == witness.len() - n
                &&& script == s.set_all_input(p.op, g.op(p.op)->0.inputs + more)
                &&& after[idx].final_input_storage == witness
                &&& forall|k: int|
                    0 <= k < calls.len() && k != idx ==> #[trigger] after[k] == calls[k]
                &&& entrymap::fact_at(facts, p.entry) matches Some(d) && all_live(
                    d,
                    witness.skip(n),
                ) && none_live(
                    d,
                    uncovered(
                        locations(calls[idx].proto.model_view().ins().entry),
                        witness,
                        calls[idx].proto.model_view().ins().entry.len() as int,
                    ),
                )
            }
        }),
{
    lemma_call_of(calls, p.op, 0);
    let n = p.recovered.len() as int;
    if n <= witness.len() {
        law_tail_in_order(witness.skip(n), storage(p.candidates));
    }
}

} // verus!
