//! The prototype of one call and what is known of the call site.
use crate::active;
use crate::active::{ActiveView, ParamActive};
use crate::decide;
use crate::effects;
use crate::error::FspecError;
use crate::fillin;
use crate::graph::OpId;
use crate::merge;
use crate::model;
use crate::num;
use crate::paramlist::ParamListKind;
use crate::proto;
use crate::proto::{FuncProto, ProtoView};
use crate::space::{Address, SpaceType};
use crate::trial::ParamTrial;
use vstd::prelude::*;

verus! {

/// Stands for a stack offset that is not known.
pub const OFFSET_UNKNOWN: u64 = 0xBADBEEF;

/// The prototype of a call and the state of its recovery. `stackoffset` is the
/// offset of the stack pointer at the call, `stack_placeholder_slot` the slot
/// of the varnode that stands for the stack pointer, or -1, and
/// `final_input_storage` where each argument finally was.
#[derive(Debug)]
pub struct FuncCallSpecs {
    pub proto: FuncProto,
    pub op: OpId,
    pub name: String,
    pub entryaddress: Address,
    pub has_fd: bool,
    pub effective_extrapop: i32,
    pub stackoffset: u64,
    pub stack_placeholder_slot: i32,
    pub paramshift: i32,
    pub match_call_count: i32,
    pub activeinput: ParamActive,
    pub activeoutput: ParamActive,
    pub input_consume: Vec<i32>,
    pub isinputactive: bool,
    pub isoutputactive: bool,
    pub isbadjumptable: bool,
    pub isstackoutputlock: bool,
    pub final_input_storage: Vec<(Address, i32)>,
}

/// The prototype of a call in the abstract.
#[verifier::ext_equal]
pub struct CallView {
    pub proto: ProtoView,
    pub op: OpId,
    pub name: Seq<char>,
    pub entryaddress: Address,
    pub has_fd: bool,
    pub effective_extrapop: i32,
    pub stackoffset: u64,
    pub stack_placeholder_slot: i32,
    pub paramshift: i32,
    pub match_call_count: i32,
    pub activeinput: ActiveView,
    pub activeoutput: ActiveView,
    pub input_consume: Seq<i32>,
    pub isinputactive: bool,
    pub isoutputactive: bool,
    pub isbadjumptable: bool,
    pub isstackoutputlock: bool,
    pub final_input_storage: Seq<(Address, i32)>,
}

impl View for FuncCallSpecs {
    type V = CallView;

    open spec fn view(&self) -> CallView {
        CallView {
            proto: self.proto@,
            op: self.op,
            name: self.name@,
            entryaddress: self.entryaddress,
            has_fd: self.has_fd,
            effective_extrapop: self.effective_extrapop,
            stackoffset: self.stackoffset,
            stack_placeholder_slot: self.stack_placeholder_slot,
            paramshift: self.paramshift,
            match_call_count: self.match_call_count,
            activeinput: self.activeinput@,
            activeoutput: self.activeoutput@,
            input_consume: self.input_consume@,
            isinputactive: self.isinputactive,
            isoutputactive: self.isoutputactive,
            isbadjumptable: self.isbadjumptable,
            isstackoutputlock: self.isstackoutputlock,
            final_input_storage: self.final_input_storage@,
        }
    }
}

/// A call of which only the operation and perhaps the target are known.
pub open spec fn fresh_call(op: OpId, entry: Address) -> CallView {
    CallView {
        proto: proto::blank_proto(),
        op,
        name: Seq::empty(),
        entryaddress: entry,
        has_fd: false,
        effective_extrapop: model::EXTRAPOP_UNKNOWN,
        stackoffset: OFFSET_UNKNOWN,
        stack_placeholder_slot: -1i32,
        paramshift: 0,
        match_call_count: 0,
        activeinput: active::empty_active(true),
        activeoutput: active::empty_active(true),
        input_consume: Seq::empty(),
        isinputactive: false,
        isoutputactive: false,
        isbadjumptable: false,
        isstackoutputlock: false,
        final_input_storage: Seq::empty(),
    }
}

/// The number of bytes read of each argument, when `val` of the one in `slot`
/// are. The numbers only get smaller.
pub open spec fn consumed(s: Seq<i32>, slot: int, val: i32) -> Seq<i32> {
    let t = if slot < s.len() {
        s
    } else {
        s + Seq::new((slot + 1 - s.len()) as nat, |k: int| 0i32)
    };
    if t[slot] == 0 || val < t[slot] {
        t.update(slot, val)
    } else {
        t
    }
}

impl CallView {
    /// The effect of the call on a range. A range on the stack is seen from the
    /// callee, whose stack pointer is `stackoffset` away.
    pub open spec fn effect(self, addr: Address, size: int) -> u32 {
        match addr.space {
            None => effects::UNKNOWN_EFFECT,
            Some(s) => if s.type_ != SpaceType::Spacebase {
                self.proto.effect(addr, size)
            } else if self.stackoffset == OFFSET_UNKNOWN {
                effects::UNKNOWN_EFFECT
            } else {
                self.proto.effect(
                    Address {
                        space: Some(s),
                        offset: s.wrapped(num::wadd(addr.offset, -(self.stackoffset as int))),
                    },
                    size,
                )
            },
        }
    }

    pub open spec fn with_placeholder(self, slot: i32) -> CallView {
        CallView {
            stack_placeholder_slot: slot,
            activeinput: if self.isinputactive {
                self.activeinput.reserved()
            } else {
                self.activeinput
            },
            ..self
        }
    }

    pub open spec fn without_placeholder(self) -> CallView {
        CallView {
            stack_placeholder_slot: -1i32,
            activeinput: if self.isinputactive {
                self.activeinput.unreserved()
            } else {
                self.activeinput
            },
            ..self
        }
    }

    /// With the recovery of inputs turned on.
    pub open spec fn recovering_inputs(self) -> CallView {
        let delay = match self.proto.model_view().input {
            Some(l) => l.maxdelay,
            None => 0,
        };
        CallView {
            isinputactive: true,
            activeinput: ActiveView {
                maxpass: if delay > 0 {
                    3
                } else {
                    delay
                },
                ..self.activeinput
            },
            ..self
        }
    }

    /// The trial behind an input slot of the call.
    pub open spec fn trial_in(self, slot: int) -> ParamTrial {
        self.activeinput.trial[self.activeinput.trial_index(slot)]
    }

    /// The two trials that a join of the slots `slot1` and the next one takes,
    /// the more significant first.
    pub open spec fn join_pair(self, slot1: int, ishislot: bool) -> (ParamTrial, ParamTrial) {
        if ishislot {
            (self.trial_in(slot1), self.trial_in(slot1 + 1))
        } else {
            (self.trial_in(slot1 + 1), self.trial_in(slot1))
        }
    }

    /// Both slots have a trial.
    pub open spec fn pair_there(self, slot1: int) -> bool {
        let a = self.activeinput;
        0 <= a.trial_index(slot1) < a.trial.len() && 0 <= a.trial_index(slot1 + 1) < a.trial.len()
    }

    /// Can the arguments in two slots, of these sizes, be joined.
    pub open spec fn joinable(self, slot1: int, ishislot: bool, size1: int, size2: int) -> bool {
        let (hi, lo) = self.join_pair(slot1, ishislot);
        &&& !self.isinputactive
        &&& slot1 < self.activeinput.trial.len()
        &&& if ishislot {
            hi.size == size1 && lo.size == size2
        } else {
            lo.size == size1 && hi.size == size2
        }
        &&& self.proto.model_view().ins().joinable(
            hi.addr,
            hi.size as int,
            lo.addr,
            lo.size as int,
        )
    }
}

impl FuncCallSpecs {
    /// The prototype of the call `call_op`, which goes to `entry`.
    pub fn new(call_op: OpId, entry: Address) -> (r: FuncCallSpecs)
        ensures
            r@ == fresh_call(call_op, entry),
    {
        let r = FuncCallSpecs {
            proto: FuncProto::new(),
            op: call_op,
            name: String::new(),
            entryaddress: entry,
            has_fd: false,
            effective_extrapop: model::EXTRAPOP_UNKNOWN,
            stackoffset: OFFSET_UNKNOWN,
            stack_placeholder_slot: -1,
            paramshift: 0,
            match_call_count: 0,
            activeinput: ParamActive::new(true),
            activeoutput: ParamActive::new(true),
            input_consume: Vec::new(),
            isinputactive: false,
            isoutputactive: false,
            isbadjumptable: false,
            isstackoutputlock: false,
            final_input_storage: Vec::new(),
        };
        assert(r@ =~= fresh_call(call_op, entry));
        r
    }

    /// The same call made by another operation, without the state of recovery.
    pub fn clone_for_op(&self, newop: OpId) -> (r: FuncCallSpecs)
        ensures
            r@ == (CallView {
                name: self@.name,
                has_fd: self@.has_fd,
                effective_extrapop: self@.effective_extrapop,
                stackoffset: self@.stackoffset,
                paramshift: self@.paramshift,
                isbadjumptable: self@.isbadjumptable,
                proto: ProtoView { return_bytes_consumed: 0, ..self@.proto },
                ..fresh_call(newop, self@.entryaddress)
            }),
    {
        let mut res = FuncCallSpecs::new(newop, self.entryaddress);
        res.has_fd = self.has_fd;
        res.name = self.name.as_str().to_owned();
        res.effective_extrapop = self.effective_extrapop;
        res.stackoffset = self.stackoffset;
        res.paramshift = self.paramshift;
        res.isbadjumptable = self.isbadjumptable;
        res.proto.copy(&self.proto);
        res
    }

    pub fn proto(&self) -> (r: &FuncProto)
        ensures
            r@ == self@.proto,
    {
        &self.proto
    }

    pub fn proto_mut(&mut self) -> (r: &mut FuncProto)
        ensures
            r@ == old(self)@.proto,
            final(self)@ == (CallView { proto: final(r)@, ..old(self)@ }),
    {
        &mut self.proto
    }

    /// Note the callee. It can be noted once; an empty name says nothing.
    pub fn set_funcdata(&mut self, entry: Address, name: &str) -> (r: Result<(), FspecError>)
        ensures
            match r {
                Ok(_) => !old(self)@.has_fd && final(self)@ == (CallView {
                    has_fd: true,
                    entryaddress: entry,
                    name: if name@.len() == 0 {
                        old(self)@.name
                    } else {
                        name@
                    },
                    ..old(self)@
                }),
                Err(e) => old(self)@.has_fd && e == FspecError::CalleeAlreadySet && final(self)@
                    == old(self)@,
            },
    {
        if self.has_fd {
            return Err(FspecError::CalleeAlreadySet);
        }
        self.has_fd = true;
        self.entryaddress = entry;
        if name.unicode_len() != 0 {
            self.name = name.to_owned();
        }
        Ok(())
    }

    /// The effect of the call on the `size` bytes at `addr`.
    pub fn has_effect_translate(&self, addr: &Address, size: i32) -> (r: u32)
        requires
            addr.space is Some,
            effects::by_address(self@.proto.own_effects()),
        ensures
            r == self@.effect(*addr, size as int),
    {
        match addr.space {
            Some(spc) => {
                if spc.type_ != SpaceType::Spacebase {
                    return self.proto.has_effect(addr, size);
                }
                if self.stackoffset == OFFSET_UNKNOWN {
                    return effects::UNKNOWN_EFFECT;
                }
                let newoff: u64 = spc.wrap_offset(addr.offset.wrapping_sub(self.stackoffset));
                let translated = Address::new(spc, newoff);
                self.proto.has_effect(&translated, size)
            },
            None => effects::UNKNOWN_EFFECT,
        }
    }

    pub fn set_stack_placeholder_slot(&mut self, slot: i32)
        ensures
            final(self)@ == old(self)@.with_placeholder(slot),
    {
        self.stack_placeholder_slot = slot;
        if self.isinputactive {
            self.activeinput.set_placeholder_slot();
        }
    }

    pub fn clear_stack_placeholder_slot(&mut self)
        ensures
            final(self)@ == old(self)@.without_placeholder(),
    {
        self.stack_placeholder_slot = -1;
        if self.isinputactive {
            self.activeinput.free_placeholder_slot();
        }
    }

    /// Turn on the recovery of inputs.
    pub fn init_active_input(&mut self)
        requires
            old(self)@.proto.model is Some,
        ensures
            final(self)@ == old(self)@.recovering_inputs(),
    {
        self.isinputactive = true;
        let mut maxdelay: i32 = self.proto.get_max_input_delay();
        if maxdelay > 0 {
            maxdelay = 3;
        }
        self.activeinput.set_max_pass(maxdelay);
    }

    /// Replace a merged model by the one that fits the trials best.
    pub fn resolve_model(&mut self, active: &ParamActive) -> (r: Result<(), FspecError>)
        requires
            old(self)@.proto.model matches Some(m) ==> (m.merged matches Some(g)
                ==> merge::all_scorable(g.modellist@)),
        ensures
            match resolved_proto(old(self)@.proto, active@) {
                Ok(p) => r is Ok && final(self)@ == (CallView { proto: p, ..old(self)@ }),
                Err(e) => r == Err::<(), FspecError>(e) && final(self)@ == old(self)@,
            },
    {
        self.proto.resolve_model(active)
    }

    /// Choose the model for the input trials of the call, and decide which of
    /// them are parameters.
    pub fn resolve_and_derive_input_map(&mut self) -> (r: Result<(), FspecError>)
        requires
            old(self)@.proto.model matches Some(m) ==> (m.merged matches Some(g)
                ==> merge::all_scorable(g.modellist@)),
            resolved_proto(old(self)@.proto, old(self)@.activeinput) matches Ok(p)
                ==> derivable(p, old(self)@.activeinput),
        ensures
            match resolved_proto(old(self)@.proto, old(self)@.activeinput) {
                Err(e) => r == Err::<(), FspecError>(e) && final(self)@ == old(self)@,
                Ok(p) => match decide::decided(p.model_view().ins(), old(self)@.activeinput) {
                    Ok(a) => r is Ok && final(self)@ == (CallView {
                        proto: p,
                        activeinput: a,
                        ..old(self)@
                    }),
                    Err(e) => r == Err::<(), FspecError>(e) && final(self)@ == (CallView {
                        proto: p,
                        ..old(self)@
                    }),
                },
            },
    {
        let res = self.proto.resolve_model(&self.activeinput);
        if res.is_err() {
            return res;
        }
        self.proto.derive_input_map(&mut self.activeinput)
    }

    /// Decide which of the output trials of the call hold the return value.
    pub fn derive_output_map_self(&mut self) -> (r: Result<(), FspecError>)
        requires
            old(self)@.proto.has_outputs(),
            old(self)@.proto.model_view().outs().kind == ParamListKind::Standard && old(
                self,
            )@.proto.model_view().outs().entry.len() > 0 ==> old(
                self,
            )@.proto.model_view().outs().decidable(),
            fillin::tied(
                old(self)@.proto.model_view().outs(),
                old(self)@.activeoutput.trial,
            ),
        ensures
            match decide::decided(
                old(self)@.proto.model_view().outs(),
                old(self)@.activeoutput,
            ) {
                Ok(a) => r is Ok && final(self)@ == (CallView { activeoutput: a, ..old(self)@ }),
                Err(e) => r == Err::<(), FspecError>(e) && final(self)@ == old(self)@,
            },
    {
        self.proto.derive_output_map(&mut self.activeoutput)
    }

    /// Decide which of the trials are parameters.
    pub fn derive_input_map(&self, active: &mut ParamActive) -> (r: Result<(), FspecError>)
        requires
            derivable(self@.proto, old(active)@),
        ensures
            match decide::decided(self@.proto.model_view().ins(), old(active)@) {
                Ok(a) => r is Ok && final(active)@ == a,
                Err(e) => r == Err::<(), FspecError>(e) && final(active)@ == old(active)@,
            },
    {
        self.proto.derive_input_map(active)
    }

    /// Decide which of the trials hold the return value.
    pub fn derive_output_map(&self, active: &mut ParamActive) -> (r: Result<(), FspecError>)
        requires
            self@.proto.has_outputs(),
            self@.proto.model_view().outs().kind == ParamListKind::Standard
                && self@.proto.model_view().outs().entry.len() > 0
                ==> self@.proto.model_view().outs().decidable(),
            fillin::tied(self@.proto.model_view().outs(), old(active)@.trial),
        ensures
            match decide::decided(self@.proto.model_view().outs(), old(active)@) {
                Ok(a) => r is Ok && final(active)@ == a,
                Err(e) => r == Err::<(), FspecError>(e) && final(active)@ == old(active)@,
            },
    {
        self.proto.derive_output_map(active)
    }

    pub fn get_active_input(&mut self) -> (r: &mut ParamActive)
        ensures
            r@ == old(self)@.activeinput,
            final(self)@ == (CallView { activeinput: final(r)@, ..old(self)@ }),
    {
        &mut self.activeinput
    }

    pub fn active_input(&self) -> (r: &ParamActive)
        ensures
            r@ == self@.activeinput,
    {
        &self.activeinput
    }

    pub fn get_active_output(&mut self) -> (r: &mut ParamActive)
        ensures
            r@ == old(self)@.activeoutput,
            final(self)@ == (CallView { activeoutput: final(r)@, ..old(self)@ }),
    {
        &mut self.activeoutput
    }

    pub fn active_output(&self) -> (r: &ParamActive)
        ensures
            r@ == self@.activeoutput,
    {
        &self.activeoutput
    }

    /// The number of bytes read of the argument in a slot, 0 if not known.
    pub fn get_input_bytes_consumed(&self, slot: i32) -> (r: i32)
        requires
            slot >= 0,
            self@.input_consume.len() <= i32::MAX,
        ensures
            r == (if slot < self@.input_consume.len() {
                self@.input_consume[slot as int]
            } else {
                0
            }),
    {
        if slot >= self.input_consume.len() as i32 {
            return 0;
        }
        self.input_consume[slot as usize]
    }

    /// Note that `val` bytes of the argument in a slot are read. Does that
    /// change the number.
    pub fn set_input_bytes_consumed(&mut self, slot: i32, val: i32) -> (r: bool)
        requires
            0 <= slot < i32::MAX,
            old(self)@.input_consume.len() <= i32::MAX,
        ensures
            final(self)@ == (CallView {
                input_consume: consumed(old(self)@.input_consume, slot as int, val),
                ..old(self)@
            }),
            r == (slot >= old(self)@.input_consume.len() || old(self)@.input_consume[slot as int]
                == 0 || val < old(self)@.input_consume[slot as int]),
    {
        let ghost s0 = self@.input_consume;
        while self.input_consume.len() as i32 <= slot
            invariant
                0 <= slot < i32::MAX,
                s0 == old(self)@.input_consume,
                s0.len() <= self@.input_consume.len() <= i32::MAX,
                s0.len() <= slot ==> self@.input_consume.len() <= slot + 1,
                s0.len() > slot ==> self@.input_consume.len() == s0.len(),
                self@ == (CallView { input_consume: self@.input_consume, ..old(self)@ }),
                forall|k: int|
                    0 <= k < self@.input_consume.len() ==> (#[trigger] self@.input_consume[k]) == (
                    if k < s0.len() {
                        s0[k]
                    } else {
                        0i32
                    }),
            decreases slot + 1 - self.input_consume.len(),
        {
            self.input_consume.push(0);
        }
        let old_val: i32 = self.input_consume[slot as usize];
        let ghost mid = if slot < s0.len() {
            s0
        } else {
            s0 + Seq::new((slot + 1 - s0.len()) as nat, |k: int| 0i32)
        };
        assert(self@.input_consume =~= mid);
        if old_val == 0 || val < old_val {
            self.input_consume.set(slot as usize, val);
            return true;
        }
        false
    }

    /// Can the arguments in the slots `slot1` and the next one, of these sizes,
    /// be joined into one.
    pub fn check_input_join(&self, slot1: i32, ishislot: bool, vn1_size: i32, vn2_size: i32) -> (r:
        bool)
        requires
            self@.activeinput.trial.len() <= i32::MAX,
            !self@.isinputactive && slot1 < self@.activeinput.trial.len() ==> self@.pair_there(
                slot1 as int,
            ) && self@.proto.has_inputs(),
        ensures
            r == self@.joinable(slot1 as int, ishislot, vn1_size as int, vn2_size as int),
    {
        if self.isinputactive {
            return false;
        }
        if slot1 >= self.activeinput.get_num_trials() {
            return false;
        }
        let first = *self.activeinput.get_trial_for_input_varnode(slot1);
        let second = *self.activeinput.get_trial_for_input_varnode(slot1 + 1);
        if first.size != vn1_size || second.size != vn2_size {
            return false;
        }
        let (hislot, loslot) = if ishislot {
            (first, second)
        } else {
            (second, first)
        };
        self.proto.check_input_join(&hislot.addr, hislot.size, &loslot.addr, loslot.size)
    }

    /// The two storage locations that a join takes, the more significant first.
    pub fn input_join_pieces(&self, slot1: i32, ishislot: bool) -> (r: (
        Address,
        i32,
        Address,
        i32,
    ))
        requires
            slot1 < i32::MAX,
            self@.pair_there(slot1 as int),
        ensures
            ({
                let (hi, lo) = self@.join_pair(slot1 as int, ishislot);
                r == (hi.addr, hi.size, lo.addr, lo.size)
            }),
    {
        let first = *self.activeinput.get_trial_for_input_varnode(slot1);
        let second = *self.activeinput.get_trial_for_input_varnode(slot1 + 1);
        if ishislot {
            (first.addr, first.size, second.addr, second.size)
        } else {
            (second.addr, second.size, first.addr, first.size)
        }
    }

    /// Join the arguments in the slots `slot1` and the next one, given the
    /// address that stands for both together, or the reason why there is none.
    pub fn do_input_join(&mut self, slot1: i32, joined: Result<Address, FspecError>) -> (r: Result<
        (),
        FspecError,
    >)
        requires
            old(self)@.proto.wf(),
            !old(self)@.proto.input_locked() ==> slot1 < i32::MAX && old(self)@.pair_there(
                slot1 as int,
            ) && old(self)@.activeinput.trial.len() <= i32::MAX,
            !old(self)@.proto.input_locked() ==> i32::MIN <= old(self)@.trial_in(slot1 as int).size
                + old(self)@.trial_in(slot1 + 1).size <= i32::MAX,
        ensures
            ({
                let a = old(self)@.activeinput;
                let n = a.trial.len() as int;
                let sz = (old(self)@.trial_in(slot1 as int).size + old(self)@.trial_in(
                    slot1 + 1,
                ).size) as i32;
                let failure = if old(self)@.proto.input_locked() {
                    Some(FspecError::JoinLocked)
                } else if joined is Err {
                    Some(joined->Err_0)
                } else if a.stackplaceholder >= 0 {
                    Some(FspecError::JoinWithPlaceholder)
                } else if active::joined_size(a.trial, n, slot1 as int) != sz {
                    Some(FspecError::JoinSizeMismatch)
                } else {
                    None
                };
                match failure {
                    Some(e) => r == Err::<(), FspecError>(e) && final(self)@ == old(self)@,
                    None => r is Ok && final(self)@ == (CallView {
                        activeinput: ActiveView {
                            trial: active::join_trials(a.trial, n, slot1, joined->Ok_0, sz),
                            slotbase: (a.slotbase - 1) as i32,
                            ..a
                        },
                        ..old(self)@
                    }),
                }
            }),
    {
        if self.proto.is_input_locked() {
            return Err(FspecError::JoinLocked);
        }
        let size1: i32 = self.activeinput.get_trial_for_input_varnode(slot1).size;
        let size2: i32 = self.activeinput.get_trial_for_input_varnode(slot1 + 1).size;
        match joined {
            Ok(addr) => self.activeinput.join_trial(slot1, &addr, size1 + size2),
            Err(e) => Err(e),
        }
    }

    pub fn is_dotdotdot(&self) -> (r: bool)
        ensures
            r == self@.proto.flag(proto::DOTDOTDOT),
    {
        self.proto.is_dotdotdot()
    }

    pub fn is_input_locked(&self) -> (r: bool)
        requires
            self@.proto.wf(),
        ensures
            r == self@.proto.input_locked(),
    {
        self.proto.is_input_locked()
    }

    pub fn get_model_extra_pop(&self) -> (r: i32)
        requires
            self@.proto.model is Some,
        ensures
            r == self@.proto.model_view().extrapop,
    {
        self.proto.get_model_extra_pop()
    }

    pub fn get_extra_pop(&self) -> (r: i32)
        ensures
            r == self@.proto.extrapop,
    {
        self.proto.get_extra_pop()
    }

    pub fn is_auto_killed_by_call(&self) -> (r: bool)
        requires
            self@.proto.store matches Some(s) ==> s.outparam is Some,
        ensures
            r == (self@.proto.flag(proto::AUTO_KILLEDBYCALL) || self@.proto.output_locked()),
    {
        self.proto.is_auto_killed_by_call()
    }

    pub fn get_name(&self) -> (r: &str)
        ensures
            r@ == self@.name,
    {
        self.name.as_str()
    }

    pub fn get_entry_address(&self) -> (r: &Address)
        ensures
            *r == self@.entryaddress,
    {
        &self.entryaddress
    }

    pub fn final_input_storage(&self) -> (r: &[(Address, i32)])
        ensures
            r@ == self@.final_input_storage,
    {
        self.final_input_storage.as_slice()
    }

    pub fn set_final_input_storage(&mut self, storage: Vec<(Address, i32)>)
        ensures
            final(self)@ == (CallView { final_input_storage: storage@, ..old(self)@ }),
    {
        self.final_input_storage = storage;
    }

    pub fn set_address(&mut self, addr: Address)
        ensures
            final(self)@ == (CallView { entryaddress: addr, ..old(self)@ }),
    {
        self.entryaddress = addr;
    }

    pub fn get_op(&self) -> (r: OpId)
        ensures
            r == self@.op,
    {
        self.op
    }

    pub fn has_funcdata(&self) -> (r: bool)
        ensures
            r == self@.has_fd,
    {
        self.has_fd
    }

    pub fn set_effective_extra_pop(&mut self, epop: i32)
        ensures
            final(self)@ == (CallView { effective_extrapop: epop, ..old(self)@ }),
    {
        self.effective_extrapop = epop;
    }

    pub fn get_effective_extra_pop(&self) -> (r: i32)
        ensures
            r == self@.effective_extrapop,
    {
        self.effective_extrapop
    }

    pub fn get_spacebase_offset(&self) -> (r: u64)
        ensures
            r == self@.stackoffset,
    {
        self.stackoffset
    }

    pub fn get_stackoffset(&self) -> (r: u64)
        ensures
            r == self@.stackoffset,
    {
        self.stackoffset
    }

    pub fn set_paramshift(&mut self, val: i32)
        ensures
            final(self)@ == (CallView { paramshift: val, ..old(self)@ }),
    {
        self.paramshift = val;
    }

    pub fn get_paramshift(&self) -> (r: i32)
        ensures
            r == self@.paramshift,
    {
        self.paramshift
    }

    pub fn get_match_call_count(&self) -> (r: i32)
        ensures
            r == self@.match_call_count,
    {
        self.match_call_count
    }

    pub fn get_stack_placeholder_slot(&self) -> (r: i32)
        ensures
            r == self@.stack_placeholder_slot,
    {
        self.stack_placeholder_slot
    }

    pub fn clear_active_input(&mut self)
        ensures
            final(self)@ == (CallView { isinputactive: false, ..old(self)@ }),
    {
        self.isinputactive = false;
    }

    pub fn init_active_output(&mut self)
        ensures
            final(self)@ == (CallView { isoutputactive: true, ..old(self)@ }),
    {
        self.isoutputactive = true;
    }

    pub fn clear_active_output(&mut self)
        ensures
            final(self)@ == (CallView { isoutputactive: false, ..old(self)@ }),
    {
        self.isoutputactive = false;
    }

    pub fn is_input_active(&self) -> (r: bool)
        ensures
            r == self@.isinputactive,
    {
        self.isinputactive
    }

    pub fn is_output_active(&self) -> (r: bool)
        ensures
            r == self@.isoutputactive,
    {
        self.isoutputactive
    }

    pub fn set_bad_jump_table(&mut self, val: bool)
        ensures
            final(self)@ == (CallView { isbadjumptable: val, ..old(self)@ }),
    {
        self.isbadjumptable = val;
    }

    pub fn is_bad_jump_table(&self) -> (r: bool)
        ensures
            r == self@.isbadjumptable,
    {
        self.isbadjumptable
    }

    pub fn set_stack_output_lock(&mut self, val: bool)
        ensures
            final(self)@ == (CallView { isstackoutputlock: val, ..old(self)@ }),
    {
        self.isstackoutputlock = val;
    }

    pub fn is_stack_output_lock(&self) -> (r: bool)
        ensures
            r == self@.isstackoutputlock,
    {
        self.isstackoutputlock
    }
}

/// The prototype with its model chosen for the trials.
pub open spec fn resolved_proto(p: ProtoView, a: ActiveView) -> Result<ProtoView, FspecError> {
    match p.model {
        None => Ok(p),
        Some(m) => match m.merged {
            None => Ok(p),
            Some(g) => match merge::best_model(
                g.modellist@,
                a.trial,
                g.modellist@.len() as int,
            ).0 {
                Some(b) => Ok(p.with_model(Some(g.modellist@[b]))),
                None => Err(FspecError::NoModelMatches),
            },
        },
    }
}

/// The model can decide on the input trials.
pub open spec fn derivable(p: ProtoView, a: ActiveView) -> bool {
    &&& p.has_inputs()
    &&& p.model_view().ins().kind == ParamListKind::Standard && p.model_view().ins().entry.len() > 0
        ==> p.model_view().ins().decidable()
    &&& fillin::tied(p.model_view().ins(), a.trial)
}

/// Of two numbers of bytes read, the smaller counts, in either order, and the
/// other slots are left alone.
pub proof fn law_consumed_smallest(s: Seq<i32>, slot: int, a: i32, b: i32)
    requires
        0 <= slot,
        a > 0,
        b > 0,
    ensures
        consumed(consumed(s, slot, a), slot, b) == consumed(consumed(s, slot, b), slot, a),
        forall|k: int|
            0 <= k < s.len() && k != slot ==> #[trigger] consumed(s, slot, a)[k] == s[k],
        slot < s.len() && s[slot] > 0 ==> 0 < consumed(s, slot, a)[slot] <= s[slot],
{
    assert(consumed(consumed(s, slot, a), slot, b) =~= consumed(consumed(s, slot, b), slot, a));
}

/// Reserving a slot for the stack pointer and giving it up again leaves every
/// trial in its slot.
pub proof fn law_placeholder_released(c: CallView, slot: i32)
    requires
        c.activeinput.slotbase < i32::MAX,
        forall|i: int|
            0 <= i < c.activeinput.trial.len() ==> (#[trigger] c.activeinput.trial[i]).slot
                < c.activeinput.slotbase,
    ensures
        c.with_placeholder(slot).without_placeholder().activeinput.trial == c.activeinput.trial,
        c.with_placeholder(slot).without_placeholder().activeinput.slotbase
            == c.activeinput.slotbase,
        c.with_placeholder(slot).without_placeholder().stack_placeholder_slot == -1,
{
    assert(c.with_placeholder(slot).without_placeholder().activeinput.trial
        =~= c.activeinput.trial);
}

} // verus!
