//! The collection of trials under analysis for one function or call site.
use crate::entry;
use crate::entry::{EntryView, ParamEntry};
use crate::error::FspecError;
use crate::space::{Address, SpaceType};
use crate::trial;
use crate::trial::{ParamTrial, TrialFlags};
use vstd::prelude::*;

verus! {

/// The trials and the state of their analysis. `slotbase` is the slot of the
/// next trial; `stackplaceholder` the input slot reserved for the stack
/// pointer, -1 if none was reserved and -2 once it has been given up.
#[derive(Debug)]
pub struct ParamActive {
    pub trial: Vec<ParamTrial>,
    pub slotbase: i32,
    pub stackplaceholder: i32,
    pub numpasses: i32,
    pub maxpass: i32,
    pub isfullychecked: bool,
    pub needsfinalcheck: bool,
    pub recoversubcall: bool,
    pub join_reverse: bool,
    pub vararg_stack_split: bool,
    pub own_input_gap: bool,
}

/// The collection in the abstract.
#[verifier::ext_equal]
pub struct ActiveView {
    pub trial: Seq<ParamTrial>,
    pub slotbase: i32,
    pub stackplaceholder: i32,
    pub numpasses: i32,
    pub maxpass: i32,
    pub isfullychecked: bool,
    pub needsfinalcheck: bool,
    pub recoversubcall: bool,
    pub join_reverse: bool,
    pub vararg_stack_split: bool,
    pub own_input_gap: bool,
}

impl View for ParamActive {
    type V = ActiveView;

    open spec fn view(&self) -> ActiveView {
        ActiveView {
            trial: self.trial@,
            slotbase: self.slotbase,
            stackplaceholder: self.stackplaceholder,
            numpasses: self.numpasses,
            maxpass: self.maxpass,
            isfullychecked: self.isfullychecked,
            needsfinalcheck: self.needsfinalcheck,
            recoversubcall: self.recoversubcall,
            join_reverse: self.join_reverse,
            vararg_stack_split: self.vararg_stack_split,
            own_input_gap: self.own_input_gap,
        }
    }
}

/// A collection before any trial is registered.
pub open spec fn empty_active(recoversub: bool) -> ActiveView {
    ActiveView {
        trial: Seq::empty(),
        slotbase: 1,
        stackplaceholder: -1i32,
        numpasses: 0,
        maxpass: 0,
        isfullychecked: false,
        needsfinalcheck: false,
        recoversubcall: recoversub,
        join_reverse: false,
        vararg_stack_split: false,
        own_input_gap: false,
    }
}

/// The trial registered for the `sz` bytes at `addr`: storage off the stack is
/// taken not to survive a call.
pub open spec fn registered_trial(addr: Address, sz: i32, slot: i32) -> ParamTrial {
    let t = trial::fresh_trial(addr, sz, slot);
    ParamTrial {
        flags: TrialFlags {
            killedbycall: !(addr.space matches Some(s) && s.type_ == SpaceType::Spacebase),
            ..t.flags
        },
        ..t
    }
}

/// Do the range and the trial share a byte.
pub open spec fn range_hits(addr: Address, sz: int, t: ParamTrial) -> bool {
    addr.overlaps(sz, t.addr, t.size as int)
}

/// The first trial from `from` on that the range hits, or -1.
pub open spec fn first_hit(trials: Seq<ParamTrial>, addr: Address, sz: int, from: int) -> int
    decreases trials.len() - from,
{
    if from < 0 || from >= trials.len() {
        -1
    } else if range_hits(addr, sz, trials[from]) {
        from
    } else {
        first_hit(trials, addr, sz, from + 1)
    }
}

/// The first trial that a range overlaps, or -1; a range of a single byte is
/// only held against the first trial.
pub open spec fn trial_hit(trials: Seq<ParamTrial>, addr: Address, sz: int) -> int {
    if sz <= 1 {
        if trials.len() > 0 && addr.overlap_at(0, trials[0].addr, trials[0].size as int) >= 0 {
            0
        } else {
            -1
        }
    } else {
        first_hit(trials, addr, sz, 0)
    }
}

/// The trial found for a range is the first that overlaps it, and none is found
/// only if none does.
pub proof fn law_first_trial_found(trials: Seq<ParamTrial>, addr: Address, sz: int)
    requires
        sz > 1,
    ensures
        ({
            let k = trial_hit(trials, addr, sz);
            &&& -1 <= k < trials.len()
            &&& k >= 0 ==> range_hits(addr, sz, trials[k])
            &&& forall|i: int|
                0 <= i < (if k < 0 {
                    trials.len() as int
                } else {
                    k
                }) ==> !range_hits(addr, sz, #[trigger] trials[i])
        }),
{
    lemma_first_hit(trials, addr, sz, 0);
}

proof fn lemma_first_hit(trials: Seq<ParamTrial>, addr: Address, sz: int, from: int)
    requires
        0 <= from <= trials.len(),
    ensures
        ({
            let k = first_hit(trials, addr, sz, from);
            &&& k == -1 || from <= k < trials.len()
            &&& k >= 0 ==> range_hits(addr, sz, trials[k])
            &&& forall|i: int|
                from <= i < (if k < 0 {
                    trials.len() as int
                } else {
                    k
                }) ==> !range_hits(addr, sz, #[trigger] trials[i])
        }),
    decreases trials.len() - from,
{
    if from < trials.len() && !range_hits(addr, sz, trials[from]) {
        lemma_first_hit(trials, addr, sz, from + 1);
    }
}

/// The order of trials: by fixed position or in formal parameter order.
pub open spec fn less_by(
    fixed: bool,
    a: ParamTrial,
    b: ParamTrial,
    entries: Seq<EntryView>,
) -> bool {
    if fixed {
        trial::fixed_less(a, b, entries)
    } else {
        trial::trial_less(a, b, entries)
    }
}

/// Where `x` goes in the first `n` elements of `s`: behind those that do not
/// come after it.
pub open spec fn insert_position(
    fixed: bool,
    s: Seq<ParamTrial>,
    n: int,
    x: ParamTrial,
    entries: Seq<EntryView>,
) -> int
    decreases n,
{
    if n <= 0 || n > s.len() {
        0
    } else if less_by(fixed, x, s[n - 1], entries) {
        insert_position(fixed, s, n - 1, x, entries)
    } else {
        n
    }
}

/// The first `n` trials in order, trials of equal rank in their former order.
pub open spec fn sorted_trials(
    fixed: bool,
    s: Seq<ParamTrial>,
    n: int,
    entries: Seq<EntryView>,
) -> Seq<ParamTrial>
    decreases n,
{
    if n <= 0 || n > s.len() {
        Seq::empty()
    } else {
        let rest = sorted_trials(fixed, s, n - 1, entries);
        rest.insert(insert_position(fixed, rest, rest.len() as int, s[n - 1], entries), s[n - 1])
    }
}

/// The trial once the slot `placeholder` before it is gone.
pub open spec fn slot_lowered(t: ParamTrial, placeholder: int) -> ParamTrial {
    if t.slot > placeholder {
        ParamTrial { slot: (t.slot - 1) as i32, ..t }
    } else {
        t
    }
}

/// The trial once another slot stands behind the slot `slot`.
pub open spec fn slot_raised(t: ParamTrial, slot: int) -> ParamTrial {
    if t.slot > slot {
        ParamTrial { slot: (t.slot + 1) as i32, ..t }
    } else {
        t
    }
}

/// The used ones of the first `n` trials, in order, in slots from 1 on.
pub open spec fn used_trials(s: Seq<ParamTrial>, n: int) -> Seq<ParamTrial>
    decreases n,
{
    if n <= 0 || n > s.len() {
        Seq::empty()
    } else {
        let rest = used_trials(s, n - 1);
        if s[n - 1].flags.used {
            rest.push(ParamTrial { slot: (rest.len() + 1) as i32, ..s[n - 1] })
        } else {
            rest
        }
    }
}

/// How many trials in front are used.
pub open spec fn used_prefix(s: Seq<ParamTrial>, from: int) -> int
    decreases s.len() - from,
{
    if from < 0 || from >= s.len() {
        s.len() as int
    } else if !s[from].flags.used {
        from
    } else {
        used_prefix(s, from + 1)
    }
}

/// The trials with the one at `i` split after its first `sz` bytes.
pub open spec fn split_trials(s: Seq<ParamTrial>, i: int, sz: int) -> Seq<ParamTrial> {
    let t = s[i];
    let hi = ParamTrial { flags: t.flags, ..trial::fresh_trial(t.addr, sz as i32, t.slot) };
    let lo = ParamTrial {
        flags: t.flags,
        ..trial::fresh_trial(t.addr.plus(sz), (t.size - sz) as i32, (t.slot + 1) as i32)
    };
    let raised = s.map_values(|x: ParamTrial| slot_raised(x, t.slot as int));
    raised.subrange(0, i) + seq![hi, lo] + raised.subrange(i + 1, s.len() as int)
}

/// The trial that stands for two joined ones.
pub open spec fn joined_trial(addr: Address, sz: i32, slot: i32) -> ParamTrial {
    trial::fresh_trial(addr, sz, slot).with_used().with_active()
}

/// The first `n` trials with those at `slot` and `slot + 1` joined.
pub open spec fn join_trials(
    s: Seq<ParamTrial>,
    n: int,
    slot: i32,
    addr: Address,
    sz: i32,
) -> Seq<ParamTrial>
    decreases n,
{
    if n <= 0 || n > s.len() {
        Seq::empty()
    } else {
        let rest = join_trials(s, n - 1, slot, addr, sz);
        let t = s[n - 1];
        if t.slot < slot {
            rest.push(t)
        } else if t.slot == slot {
            rest.push(joined_trial(addr, sz, slot))
        } else if t.slot == slot + 1 {
            rest
        } else {
            rest.push(ParamTrial { slot: (t.slot - 1) as i32, ..t })
        }
    }
}

/// Bytes of the first `n` trials that stand at `slot` or `slot + 1`.
pub open spec fn joined_size(s: Seq<ParamTrial>, n: int, slot: int) -> int
    decreases n,
{
    if n <= 0 || n > s.len() {
        0
    } else if s[n - 1].slot == slot || s[n - 1].slot == slot + 1 {
        joined_size(s, n - 1, slot) + s[n - 1].size
    } else {
        joined_size(s, n - 1, slot)
    }
}

/// The entries of all trials are among `n` entries.
pub open spec fn trials_ok(s: Seq<ParamTrial>, n: nat) -> bool {
    forall|i: int| 0 <= i < s.len() ==> trial::entry_ok(#[trigger] s[i], n)
}

impl ActiveView {
    /// Index of the trial behind the call's input slot `slot`: the call target
    /// takes slot 0 and the placeholder, if it lies before, another one.
    pub open spec fn trial_index(self, slot: int) -> int {
        slot - (if self.stackplaceholder < 0 || slot < self.stackplaceholder {
            1int
        } else {
            2int
        })
    }

    /// Without trials, ready to start over.
    pub open spec fn cleared(self) -> ActiveView {
        ActiveView {
            trial: Seq::empty(),
            slotbase: 1,
            stackplaceholder: -1i32,
            numpasses: 0,
            isfullychecked: false,
            join_reverse: false,
            ..self
        }
    }

    /// With a trial for the `sz` bytes at `addr`.
    pub open spec fn registered(self, addr: Address, sz: i32) -> ActiveView {
        ActiveView {
            trial: self.trial.push(registered_trial(addr, sz, self.slotbase)),
            slotbase: (self.slotbase + 1) as i32,
            ..self
        }
    }

    /// With the next slot reserved for the stack pointer.
    pub open spec fn reserved(self) -> ActiveView {
        ActiveView {
            stackplaceholder: self.slotbase,
            slotbase: (self.slotbase + 1) as i32,
            ..self
        }
    }

    /// With the slot of the stack pointer given up.
    pub open spec fn unreserved(self) -> ActiveView {
        ActiveView {
            trial: self.trial.map_values(
                |t: ParamTrial| slot_lowered(t, self.stackplaceholder as int),
            ),
            stackplaceholder: -2i32,
            slotbase: (self.slotbase - 1) as i32,
            maxpass: 0,
            ..self
        }
    }

    /// After one more pass.
    pub open spec fn passed(self) -> ActiveView {
        ActiveView { numpasses: (self.numpasses + 1) as i32, ..self }
    }

    /// With another trial in the place of the `i`-th.
    pub open spec fn with_trial(self, i: int, t: ParamTrial) -> ActiveView {
        ActiveView { trial: self.trial.update(i, t), ..self }
    }
}

/// Where `x` goes in the ordered list `out`.
fn place_of(fixed: bool, out: &Vec<ParamTrial>, x: &ParamTrial, entries: &[ParamEntry]) -> (r: usize)
    requires
        trial::entry_ok(*x, entries@.len()),
        trials_ok(out@, entries@.len()),
        forall|m: int| 0 <= m < entries@.len() ==> (#[trigger] entries@[m])@.group_set.len() > 0,
    ensures
        r == insert_position(
            fixed,
            out@,
            out@.len() as int,
            *x,
            entry::entries_view(entries@),
        ),
        r <= out@.len(),
{
    let ghost view = entry::entries_view(entries@);
    let mut k: usize = out.len();
    while k > 0
        invariant
            k <= out.len(),
            view == entry::entries_view(entries@),
            trial::entry_ok(*x, entries@.len()),
            trials_ok(out@, entries@.len()),
            forall|m: int|
                0 <= m < entries@.len() ==> (#[trigger] entries@[m])@.group_set.len() > 0,
            insert_position(fixed, out@, out@.len() as int, *x, view) == insert_position(
                fixed,
                out@,
                k as int,
                *x,
                view,
            ),
        decreases k,
    {
        assert(trial::entry_ok(out@[k - 1], entries@.len()));
        let less = if fixed {
            ParamTrial::fixed_is_less(x, &out[k - 1], entries)
        } else {
            x.is_less(&out[k - 1], entries)
        };
        if !less {
            return k;
        }
        k -= 1;
    }
    0
}

impl ParamActive {
    pub fn new(recoversub: bool) -> (r: ParamActive)
        ensures
            r@ == empty_active(recoversub),
    {
        ParamActive {
            trial: Vec::new(),
            slotbase: 1,
            stackplaceholder: -1,
            numpasses: 0,
            maxpass: 0,
            isfullychecked: false,
            needsfinalcheck: false,
            recoversubcall: recoversub,
            join_reverse: false,
            vararg_stack_split: false,
            own_input_gap: false,
        }
    }

    /// Drop all trials and start over; what belongs to the call rather than to
    /// one analysis is kept.
    pub fn clear(&mut self)
        ensures
            final(self)@ == (ActiveView {
                trial: Seq::empty(),
                slotbase: 1,
                stackplaceholder: -1i32,
                numpasses: 0,
                isfullychecked: false,
                join_reverse: false,
                ..old(self)@
            }),
    {
        self.trial = Vec::new();
        self.slotbase = 1;
        self.stackplaceholder = -1;
        self.numpasses = 0;
        self.isfullychecked = false;
        self.join_reverse = false;
    }

    /// Add a trial for the `sz` bytes at `addr`, in the next slot.
    pub fn register_trial(&mut self, addr: &Address, sz: i32)
        ensures
            final(self)@ == (ActiveView {
                trial: old(self)@.trial.push(registered_trial(*addr, sz, old(self).slotbase)),
                slotbase: (old(self).slotbase + 1) as i32,
                ..old(self)@
            }),
    {
        let mut t = ParamTrial::new(*addr, sz, self.slotbase);
        let on_stack = match addr.space {
            Some(s) => s.type_ == SpaceType::Spacebase,
            None => false,
        };
        if !on_stack {
            t.mark_killed_by_call();
        }
        self.trial.push(t);
        self.slotbase = (self.slotbase as i64 + 1) as i32;
    }

    pub fn get_num_trials(&self) -> (r: i32)
        ensures
            r == self@.trial.len() as i32,
    {
        self.trial.len() as i32
    }

    pub fn get_trial(&self, i: i32) -> (r: &ParamTrial)
        requires
            0 <= i < self@.trial.len(),
        ensures
            *r == self@.trial[i as int],
    {
        &self.trial[i as usize]
    }

    pub fn get_trial_mut(&mut self, i: i32) -> (r: &mut ParamTrial)
        requires
            0 <= i < old(self)@.trial.len(),
        ensures
            *r == old(self)@.trial[i as int],
            final(self)@ == (ActiveView {
                trial: old(self)@.trial.update(i as int, *final(r)),
                ..old(self)@
            }),
    {
        &mut self.trial[i as usize]
    }

    /// Put another trial in the place of the `i`-th.
    pub fn put_trial(&mut self, i: usize, t: ParamTrial)
        requires
            i < old(self)@.trial.len(),
        ensures
            final(self)@ == old(self)@.with_trial(i as int, t),
    {
        self.trial.set(i, t);
    }

    /// The trial behind an input slot of the call.
    pub fn get_trial_for_input_varnode(&self, slot: i32) -> (r: &ParamTrial)
        requires
            0 <= self@.trial_index(slot as int) < self@.trial.len(),
        ensures
            *r == self@.trial[self@.trial_index(slot as int)],
    {
        let back: i32 = if self.stackplaceholder < 0 || slot < self.stackplaceholder {
            1
        } else {
            2
        };
        &self.trial[(slot as i64 - back as i64) as usize]
    }

    /// The first trial that the `sz` bytes at `addr` overlap, or -1; a single
    /// byte is only held against the first trial.
    pub fn which_trial(&self, addr: &Address, sz: i32) -> (r: i32)
        requires
            self@.trial.len() <= i32::MAX,
        ensures
            r == trial_hit(self@.trial, *addr, sz as int),
            -1 <= r < self@.trial.len(),
    {
        let mut i: usize = 0;
        while i < self.trial.len()
            invariant
                i <= self.trial.len(),
                self@.trial.len() <= i32::MAX,
                i > 0 ==> sz > 1,
                sz > 1 ==> first_hit(self@.trial, *addr, sz as int, 0) == first_hit(
                    self@.trial,
                    *addr,
                    sz as int,
                    i as int,
                ),
            decreases self.trial.len() - i,
        {
            let t = self.trial[i];
            if addr.overlap(0, &t.addr, t.size) >= 0 {
                return i as i32;
            }
            if sz <= 1 {
                return -1;
            }
            if t.addr.overlap(0, addr, sz) >= 0 {
                return i as i32;
            }
            i += 1;
        }
        -1
    }

    pub fn needs_final_check(&self) -> (r: bool)
        ensures
            r == self.needsfinalcheck,
    {
        self.needsfinalcheck
    }

    pub fn mark_needs_final_check(&mut self)
        ensures
            final(self)@ == (ActiveView { needsfinalcheck: true, ..old(self)@ }),
    {
        self.needsfinalcheck = true;
    }

    pub fn is_join_reverse(&self) -> (r: bool)
        ensures
            r == self.join_reverse,
    {
        self.join_reverse
    }

    pub fn set_join_reverse(&mut self)
        ensures
            final(self)@ == (ActiveView { join_reverse: true, ..old(self)@ }),
    {
        self.join_reverse = true;
    }

    pub fn is_vararg_stack_split(&self) -> (r: bool)
        ensures
            r == self.vararg_stack_split,
    {
        self.vararg_stack_split
    }

    pub fn set_vararg_stack_split(&mut self, val: bool)
        ensures
            final(self)@ == (ActiveView { vararg_stack_split: val, ..old(self)@ }),
    {
        self.vararg_stack_split = val;
    }

    pub fn is_own_input_gap(&self) -> (r: bool)
        ensures
            r == self.own_input_gap,
    {
        self.own_input_gap
    }

    pub fn set_own_input_gap(&mut self, val: bool)
        ensures
            final(self)@ == (ActiveView { own_input_gap: val, ..old(self)@ }),
    {
        self.own_input_gap = val;
    }

    pub fn is_recover_subcall(&self) -> (r: bool)
        ensures
            r == self.recoversubcall,
    {
        self.recoversubcall
    }

    pub fn is_fully_checked(&self) -> (r: bool)
        ensures
            r == self.isfullychecked,
    {
        self.isfullychecked
    }

    pub fn mark_fully_checked(&mut self)
        ensures
            final(self)@ == (ActiveView { isfullychecked: true, ..old(self)@ }),
    {
        self.isfullychecked = true;
    }

    /// Reserve the next slot for the stack pointer.
    pub fn set_placeholder_slot(&mut self)
        ensures
            final(self)@ == (ActiveView {
                stackplaceholder: old(self).slotbase,
                slotbase: (old(self).slotbase + 1) as i32,
                ..old(self)@
            }),
    {
        self.stackplaceholder = self.slotbase;
        self.slotbase = (self.slotbase as i64 + 1) as i32;
    }

    pub fn get_num_passes(&self) -> (r: i32)
        ensures
            r == self.numpasses,
    {
        self.numpasses
    }

    pub fn get_max_pass(&self) -> (r: i32)
        ensures
            r == self.maxpass,
    {
        self.maxpass
    }

    pub fn set_max_pass(&mut self, val: i32)
        ensures
            final(self)@ == (ActiveView { maxpass: val, ..old(self)@ }),
    {
        self.maxpass = val;
    }

    pub fn finish_pass(&mut self)
        ensures
            final(self)@ == (ActiveView {
                numpasses: (old(self).numpasses + 1) as i32,
                ..old(self)@
            }),
    {
        self.numpasses = (self.numpasses as i64 + 1) as i32;
    }

    /// Put the trials in order.
    fn sort_by(&mut self, fixed: bool, entries: &[ParamEntry])
        requires
            trials_ok(old(self)@.trial, entries@.len()),
            forall|i: int|
                0 <= i < entries@.len() ==> (#[trigger] entries@[i])@.group_set.len() > 0,
        ensures
            final(self)@ == (ActiveView {
                trial: sorted_trials(
                    fixed,
                    old(self)@.trial,
                    old(self)@.trial.len() as int,
                    entry::entries_view(entries@),
                ),
                ..old(self)@
            }),
    {
        let ghost view = entry::entries_view(entries@);
        let ghost s = self.trial@;
        let mut out: Vec<ParamTrial> = Vec::new();
        let mut i: usize = 0;
        while i < self.trial.len()
            invariant
                i <= self.trial.len(),
                s == self.trial@,
                *self == *old(self),
                view == entry::entries_view(entries@),
                trials_ok(s, entries@.len()),
                trials_ok(out@, entries@.len()),
                forall|k: int|
                    0 <= k < entries@.len() ==> (#[trigger] entries@[k])@.group_set.len() > 0,
                out@ == sorted_trials(fixed, s, i as int, view),
                out@.len() == i,
            decreases self.trial.len() - i,
        {
            let x = self.trial[i];
            assert(trial::entry_ok(s[i as int], entries@.len()));
            let k: usize = place_of(fixed, &out, &x, entries);
            out.insert(k, x);
            i += 1;
        }
        self.trial = out;
    }

    /// Put the trials in formal parameter order.
    pub fn sort_trials(&mut self, entries: &[ParamEntry])
        requires
            trials_ok(old(self)@.trial, entries@.len()),
            forall|i: int|
                0 <= i < entries@.len() ==> (#[trigger] entries@[i])@.group_set.len() > 0,
        ensures
            final(self)@ == (ActiveView {
                trial: sorted_trials(
                    false,
                    old(self)@.trial,
                    old(self)@.trial.len() as int,
                    entry::entries_view(entries@),
                ),
                ..old(self)@
            }),
    {
        self.sort_by(false, entries);
    }

    /// Put the trials in order of fixed position.
    pub fn sort_fixed_position(&mut self, entries: &[ParamEntry])
        requires
            trials_ok(old(self)@.trial, entries@.len()),
            forall|i: int|
                0 <= i < entries@.len() ==> (#[trigger] entries@[i])@.group_set.len() > 0,
        ensures
            final(self)@ == (ActiveView {
                trial: sorted_trials(
                    true,
                    old(self)@.trial,
                    old(self)@.trial.len() as int,
                    entry::entries_view(entries@),
                ),
                ..old(self)@
            }),
    {
        self.sort_by(true, entries);
    }

    /// Give up the placeholder slot: later trials move down by one.
    pub fn free_placeholder_slot(&mut self)
        ensures
            final(self)@ == (ActiveView {
                trial: old(self)@.trial.map_values(
                    |t: ParamTrial| slot_lowered(t, old(self).stackplaceholder as int),
                ),
                stackplaceholder: -2i32,
                slotbase: (old(self).slotbase - 1) as i32,
                maxpass: 0,
                ..old(self)@
            }),
    {
        let ghost s = self.trial@;
        let place: i32 = self.stackplaceholder;
        let mut out: Vec<ParamTrial> = Vec::new();
        let mut i: usize = 0;
        while i < self.trial.len()
            invariant
                i <= self.trial.len(),
                s == self.trial@,
                *self == *old(self),
                place == self.stackplaceholder,
                out@.len() == i,
                forall|k: int|
                    0 <= k < i ==> #[trigger] out@[k] == slot_lowered(s[k], place as int),
            decreases self.trial.len() - i,
        {
            let mut t = self.trial[i];
            if t.slot > place {
                t.set_slot(t.slot - 1);
            }
            out.push(t);
            i += 1;
        }
        assert(out@ =~= s.map_values(
            |t: ParamTrial| slot_lowered(t, old(self).stackplaceholder as int),
        ));
        self.trial = out;
        self.stackplaceholder = -2;
        self.slotbase = (self.slotbase as i64 - 1) as i32;
        self.maxpass = 0;
    }

    /// Keep only the used trials, in slots from 1 on.
    pub fn delete_unused_trials(&mut self)
        requires
            old(self)@.trial.len() < i32::MAX,
        ensures
            final(self)@ == (ActiveView {
                trial: used_trials(old(self)@.trial, old(self)@.trial.len() as int),
                ..old(self)@
            }),
    {
        let ghost s = self.trial@;
        let mut out: Vec<ParamTrial> = Vec::new();
        let mut slot: i32 = 1;
        let mut i: usize = 0;
        while i < self.trial.len()
            invariant
                i <= self.trial.len(),
                s == self.trial@,
                s.len() < i32::MAX,
                *self == *old(self),
                out@ == used_trials(s, i as int),
                out@.len() <= i,
                slot == out@.len() + 1,
            decreases self.trial.len() - i,
        {
            let mut c = self.trial[i];
            if c.is_used() {
                c.set_slot(slot);
                slot += 1;
                out.push(c);
            }
            i += 1;
        }
        self.trial = out;
    }

    /// Split the trial at `i` after its first `sz` bytes. Refused while a
    /// placeholder is reserved.
    pub fn split_trial(&mut self, i: i32, sz: i32) -> (r: Result<(), FspecError>)
        requires
            0 <= i < old(self)@.trial.len(),
            i32::MIN <= old(self)@.trial[i as int].size - sz <= i32::MAX,
        ensures
            match r {
                Ok(_) => old(self).stackplaceholder < 0 && final(self)@ == (ActiveView {
                    trial: split_trials(old(self)@.trial, i as int, sz as int),
                    slotbase: (old(self).slotbase + 1) as i32,
                    ..old(self)@
                }),
                Err(e) => e == FspecError::SplitWithPlaceholder && old(self).stackplaceholder >= 0
                    && final(self)@ == old(self)@,
            },
    {
        if self.stackplaceholder >= 0 {
            return Err(FspecError::SplitWithPlaceholder);
        }
        let ghost s = self.trial@;
        let at: usize = i as usize;
        let slot: i32 = self.trial[at].slot;
        let ghost raised = s.map_values(|x: ParamTrial| slot_raised(x, slot as int));
        let mut out: Vec<ParamTrial> = Vec::new();
        let mut j: usize = 0;
        while j < at
            invariant
                j <= at < self.trial.len(),
                s == self.trial@,
                *self == *old(self),
                raised == s.map_values(|x: ParamTrial| slot_raised(x, slot as int)),
                out@ == raised.subrange(0, j as int),
            decreases at - j,
        {
            let mut c = self.trial[j];
            if c.slot > slot {
                c.set_slot((c.slot as i64 + 1) as i32);
            }
            out.push(c);
            assert(raised[j as int] == c);
            j += 1;
        }
        let t = self.trial[at];
        out.push(t.split_hi(sz));
        out.push(t.split_lo(t.size - sz));
        let ghost front = out@;
        assert(t.size - (t.size - sz) == sz);
        j = at + 1;
        while j < self.trial.len()
            invariant
                at < j <= self.trial.len(),
                s == self.trial@,
                *self == *old(self),
                raised == s.map_values(|x: ParamTrial| slot_raised(x, slot as int)),
                out@ == front + raised.subrange(at + 1, j as int),
            decreases self.trial.len() - j,
        {
            let mut c = self.trial[j];
            if c.slot > slot {
                c.set_slot((c.slot as i64 + 1) as i32);
            }
            out.push(c);
            assert(raised[j as int] == c);
            assert(raised.subrange(at + 1, j + 1) =~= raised.subrange(at + 1, j as int).push(c));
            j += 1;
        }
        assert(out@ =~= split_trials(s, i as int, sz as int));
        self.slotbase = (self.slotbase as i64 + 1) as i32;
        self.trial = out;
        Ok(())
    }

    /// Join the trial at `slot` and the one in the next slot into a trial of
    /// `sz` bytes at `addr`, which must be their total size. Refused while a
    /// placeholder is reserved.
    pub fn join_trial(&mut self, slot: i32, addr: &Address, sz: i32) -> (r: Result<(), FspecError>)
        requires
            old(self)@.trial.len() <= i32::MAX,
        ensures
            match r {
                Ok(_) => old(self).stackplaceholder < 0 && joined_size(
                    old(self)@.trial,
                    old(self)@.trial.len() as int,
                    slot as int,
                ) == sz && final(self)@ == (ActiveView {
                    trial: join_trials(
                        old(self)@.trial,
                        old(self)@.trial.len() as int,
                        slot,
                        *addr,
                        sz,
                    ),
                    slotbase: (old(self).slotbase - 1) as i32,
                    ..old(self)@
                }),
                Err(e) => final(self)@ == old(self)@ && (if old(self).stackplaceholder >= 0 {
                    e == FspecError::JoinWithPlaceholder
                } else {
                    e == FspecError::JoinSizeMismatch && joined_size(
                        old(self)@.trial,
                        old(self)@.trial.len() as int,
                        slot as int,
                    ) != sz
                }),
            },
    {
        if self.stackplaceholder >= 0 {
            return Err(FspecError::JoinWithPlaceholder);
        }
        let ghost s = self.trial@;
        let mut out: Vec<ParamTrial> = Vec::new();
        let mut sizecheck: i64 = 0;
        let mut i: usize = 0;
        while i < self.trial.len()
            invariant
                i <= self.trial.len(),
                s == self.trial@,
                s.len() <= i32::MAX,
                *self == *old(self),
                out@ == join_trials(s, i as int, slot, *addr, sz),
                sizecheck == joined_size(s, i as int, slot as int),
                -0x8000_0000 * i <= sizecheck <= 0x8000_0000 * i,
            decreases self.trial.len() - i,
        {
            let t = self.trial[i];
            if t.slot < slot {
                out.push(t);
            } else if t.slot == slot {
                sizecheck += t.size as i64;
                let mut n = ParamTrial::new(*addr, sz, slot);
                n.mark_used();
                n.mark_active();
                out.push(n);
            } else if t.slot as i64 == slot as i64 + 1 {
                sizecheck += t.size as i64;
            } else {
                let mut c = t;
                c.set_slot(t.slot - 1);
                out.push(c);
            }
            i += 1;
        }
        if sizecheck != sz as i64 {
            return Err(FspecError::JoinSizeMismatch);
        }
        self.slotbase = (self.slotbase as i64 - 1) as i32;
        self.trial = out;
        Ok(())
    }

    /// How many trials in front are used.
    pub fn get_num_used(&self) -> (r: i32)
        requires
            self@.trial.len() <= i32::MAX,
        ensures
            r == used_prefix(self@.trial, 0),
    {
        let mut count: i32 = 0;
        while (count as usize) < self.trial.len()
            invariant
                0 <= count <= self.trial.len() <= i32::MAX,
                used_prefix(self@.trial, 0) == used_prefix(self@.trial, count as int),
            decreases self.trial.len() - count,
        {
            if !self.trial[count as usize].is_used() {
                return count;
            }
            count += 1;
        }
        count
    }

    /// Can the trial at `i` shrink to the `sz` bytes at `addr`.
    pub fn test_shrink(&self, i: i32, addr: &Address, sz: i32) -> (r: bool)
        requires
            0 <= i < self@.trial.len(),
        ensures
            r == self@.trial[i as int].can_shrink(*addr, sz as int),
    {
        self.trial[i as usize].test_shrink(addr, sz)
    }

    /// Shrink the trial at `i` to the `sz` bytes at `addr`.
    pub fn shrink(&mut self, i: i32, addr: Address, sz: i32)
        requires
            0 <= i < old(self)@.trial.len(),
        ensures
            final(self)@ == (ActiveView {
                trial: old(self)@.trial.update(
                    i as int,
                    ParamTrial { addr, size: sz, ..old(self)@.trial[i as int] },
                ),
                ..old(self)@
            }),
    {
        let t = self.trial[i as usize];
        let mut n = t;
        n.set_address(addr, sz);
        self.trial.set(i as usize, n);
    }
}

/// The insertion point is an index of the list.
pub(crate) proof fn lemma_insert_position_bound(
    fixed: bool,
    s: Seq<ParamTrial>,
    n: int,
    x: ParamTrial,
    entries: Seq<EntryView>,
)
    requires
        0 <= n <= s.len(),
    ensures
        0 <= insert_position(fixed, s, n, x, entries) <= n,
        insert_position(fixed, s, n, x, entries) > 0 ==> !less_by(
            fixed,
            x,
            s[insert_position(fixed, s, n, x, entries) - 1],
            entries,
        ),
        forall|k: int|
            insert_position(fixed, s, n, x, entries) <= k < n ==> less_by(
                fixed,
                x,
                #[trigger] s[k],
                entries,
            ),
    decreases n,
{
    if n > 0 && less_by(fixed, x, s[n - 1], entries) {
        lemma_insert_position_bound(fixed, s, n - 1, x, entries);
    }
}

/// Sorting neither adds nor loses a trial.
pub proof fn law_sort_keeps_trials(
    fixed: bool,
    s: Seq<ParamTrial>,
    n: int,
    entries: Seq<EntryView>,
)
    requires
        0 <= n <= s.len(),
    ensures
        sorted_trials(fixed, s, n, entries).len() == n,
        sorted_trials(fixed, s, n, entries).to_multiset() == s.subrange(0, n).to_multiset(),
    decreases n,
{
    if n > 0 {
        law_sort_keeps_trials(fixed, s, n - 1, entries);
        let rest = sorted_trials(fixed, s, n - 1, entries);
        lemma_insert_position_bound(fixed, rest, rest.len() as int, s[n - 1], entries);
        vstd::seq_lib::to_multiset_insert(
            rest,
            insert_position(fixed, rest, rest.len() as int, s[n - 1], entries),
            s[n - 1],
        );
        vstd::seq_lib::to_multiset_build(s.subrange(0, n - 1), s[n - 1]);
        assert(s.subrange(0, n - 1).push(s[n - 1]) =~= s.subrange(0, n));
    } else {
        assert(s.subrange(0, 0) =~= Seq::<ParamTrial>::empty());
    }
}

/// Spaces that appear in the trials are told apart by their index.
pub open spec fn spaces_indexed(s: Seq<ParamTrial>) -> bool {
    forall|i: int, j: int|
        0 <= i < s.len() && 0 <= j < s.len() ==> trial::indexed_alike(
            #[trigger] s[i],
            #[trigger] s[j],
        )
}

/// No trial of the list comes before one that stands in front of it.
pub open spec fn in_order(fixed: bool, s: Seq<ParamTrial>, entries: Seq<EntryView>) -> bool {
    forall|i: int, j: int|
        0 <= i < j < s.len() ==> !less_by(fixed, #[trigger] s[j], #[trigger] s[i], entries)
}

/// Sorting puts the trials in order: none comes before one in front of it.
pub proof fn law_sort_orders(
    fixed: bool,
    s: Seq<ParamTrial>,
    n: int,
    entries: Seq<EntryView>,
)
    requires
        0 <= n <= s.len(),
        spaces_indexed(s),
    ensures
        in_order(fixed, sorted_trials(fixed, s, n, entries), entries),
        forall|k: int|
            0 <= k < sorted_trials(fixed, s, n, entries).len() ==> s.contains(
                #[trigger] sorted_trials(fixed, s, n, entries)[k],
            ),
    decreases n,
{
    if n > 0 {
        law_sort_orders(fixed, s, n - 1, entries);
        law_sort_keeps_trials(fixed, s, n - 1, entries);
        let rest = sorted_trials(fixed, s, n - 1, entries);
        let x = s[n - 1];
        let p = insert_position(fixed, rest, rest.len() as int, x, entries);
        lemma_insert_position_bound(fixed, rest, rest.len() as int, x, entries);
        let out = rest.insert(p, x);
        assert forall|k: int| 0 <= k < out.len() implies s.contains(#[trigger] out[k]) by {
            if k < p {
                assert(out[k] == rest[k]);
            } else if k == p {
                assert(out[k] == s[n - 1]);
            } else {
                assert(out[k] == rest[k - 1]);
            }
        }
        assert forall|i: int, j: int| 0 <= i < j < out.len() implies !less_by(
            fixed,
            #[trigger] out[j],
            #[trigger] out[i],
            entries,
        ) by {
            if j == p {
                let y = rest[p - 1];
                let z = rest[i];
                assert(out[i] == z);
                if i < p - 1 {
                    assert(!less_by(fixed, y, z, entries));
                }
                let a = s.index_of(z);
                let b = s.index_of(y);
                assert(s.contains(z) && s.contains(y));
                assert(s[a] == z && s[b] == y);
                assert(trial::indexed_alike(s[a], s[b]));
                assert(trial::indexed_alike(s[b], s[n - 1]));
                assert(trial::indexed_alike(s[a], s[n - 1]));
                trial::law_trial_order_is_weak(z, y, x, entries);
            } else if i == p {
                assert(out[j] == rest[j - 1]);
                trial::law_trial_less_asymmetric(x, rest[j - 1], entries);
            } else {
                let jj = if j > p {
                    j - 1
                } else {
                    j
                };
                let ii = if i > p {
                    i - 1
                } else {
                    i
                };
                assert(out[j] == rest[jj] && out[i] == rest[ii]);
            }
        }
    }
}

/// What is left after deleting the unused trials is used and numbered from 1.
pub proof fn law_deleted_unused(s: Seq<ParamTrial>, n: int)
    requires
        0 <= n <= s.len() < i32::MAX,
    ensures
        used_trials(s, n).len() <= n,
        forall|k: int|
            0 <= k < used_trials(s, n).len() ==> (#[trigger] used_trials(s, n)[k]).flags.used
                && used_trials(s, n)[k].slot == k + 1,
    decreases n,
{
    if n > 0 {
        law_deleted_unused(s, n - 1);
    }
}

/// No two trials share a slot.
pub open spec fn slots_distinct(s: Seq<ParamTrial>) -> bool {
    forall|i: int, j: int|
        0 <= i < s.len() && 0 <= j < s.len() && i != j ==> (#[trigger] s[i]).slot != (
        #[trigger] s[j]).slot
}

/// Joining the two halves of a split trial adds up to its size and puts the
/// other trials back where they were.
pub proof fn law_join_undoes_split(s: Seq<ParamTrial>, i: int, sz: int, addr: Address)
    requires
        0 <= i < s.len(),
        slots_distinct(s),
        forall|k: int| 0 <= k < s.len() ==> (#[trigger] s[k]).slot < i32::MAX,
        i32::MIN <= sz <= i32::MAX,
        i32::MIN <= s[i].size - sz <= i32::MAX,
    ensures
        joined_size(split_trials(s, i, sz), (s.len() + 1) as int, s[i].slot as int) == s[i].size,
        join_trials(split_trials(s, i, sz), (s.len() + 1) as int, s[i].slot, addr, s[i].size) == s.update(
            i,
            joined_trial(addr, s[i].size, s[i].slot),
        ),
{
    lemma_join_of_split(s, i, sz, addr, (s.len() + 1) as int);
    assert(s.update(i, joined_trial(addr, s[i].size, s[i].slot)).subrange(0, s.len() as int)
        =~= s.update(i, joined_trial(addr, s[i].size, s[i].slot)));
}

proof fn lemma_join_of_split(s: Seq<ParamTrial>, i: int, sz: int, addr: Address, n: int)
    requires
        0 <= i < s.len(),
        slots_distinct(s),
        forall|k: int| 0 <= k < s.len() ==> (#[trigger] s[k]).slot < i32::MAX,
        i32::MIN <= sz <= i32::MAX,
        i32::MIN <= s[i].size - sz <= i32::MAX,
        0 <= n <= s.len() + 1,
    ensures
        ({
            let out = split_trials(s, i, sz);
            let back = s.update(i, joined_trial(addr, s[i].size, s[i].slot));
            &&& out.len() == s.len() + 1
            &&& join_trials(out, n, s[i].slot, addr, s[i].size) == back.subrange(
                0,
                if n <= i + 1 {
                    n
                } else {
                    n - 1
                },
            )
            &&& joined_size(out, n, s[i].slot as int) == (if n <= i {
                0
            } else if n == i + 1 {
                sz
            } else {
                s[i].size as int
            })
        }),
    decreases n,
{
    let out = split_trials(s, i, sz);
    let back = s.update(i, joined_trial(addr, s[i].size, s[i].slot));
    let raised = s.map_values(|x: ParamTrial| slot_raised(x, s[i].slot as int));
    assert(out.len() == s.len() + 1);
    if n > 0 {
        lemma_join_of_split(s, i, sz, addr, n - 1);
        let t = out[n - 1];
        if n - 1 < i {
            assert(t == slot_raised(s[n - 1], s[i].slot as int));
            assert(s[n - 1].slot != s[i].slot);
            assert(back[n - 1] == s[n - 1]);
            assert(back.subrange(0, n - 1).push(s[n - 1]) =~= back.subrange(0, n));
        } else if n - 1 == i {
            assert(t.slot == s[i].slot && t.size == sz);
            assert(back.subrange(0, n - 1).push(back[i]) =~= back.subrange(0, n));
        } else if n - 1 == i + 1 {
            assert(t.slot == s[i].slot + 1 && t.size == s[i].size - sz);
        } else {
            assert(t == slot_raised(s[n - 2], s[i].slot as int));
            assert(s[n - 2].slot != s[i].slot);
            assert(back[n - 2] == s[n - 2]);
            assert(back.subrange(0, n - 2).push(s[n - 2]) =~= back.subrange(0, n - 1));
        }
    } else {
        assert(back.subrange(0, 0) =~= Seq::<ParamTrial>::empty());
    }
}

} // verus!
