//! What a prototype says of storage locations: locked parameters come before
//! the model.
use crate::active::{ActiveView, ParamActive};
use crate::decide;
use crate::dtype::TypeMetatype;
use crate::effects;
use crate::effects::EffectRecord;
use crate::entry;
use crate::entry::{Containment, ParamEntry};
use crate::error::FspecError;
use crate::fillin;
use crate::listbuild;
use crate::listbuild::RangeList;
use crate::opcode::OpCode;
use crate::paramlist::ParamListKind;
use crate::proto;
use crate::proto::{FuncProto, ProtoView};
use crate::space::{AddrSpace, Address, VarnodeData};
use crate::store::{ParamView, ProtoParameter};
use vstd::prelude::*;

verus! {

/// Where the range stands in the parameter `p`, negative if not inside.
pub open spec fn offset_in(p: ParamView, addr: Address, size: int) -> int {
    p.addr.justified_offset(p.size() as int, addr, size, false)
}

/// Does the parameter `p` lie inside the range.
pub open spec fn param_inside(p: ParamView, addr: Address, size: int) -> bool {
    p.addr.inside(p.size() as int, addr, size)
}

/// The storage of a parameter.
pub open spec fn location_of(p: ParamView) -> VarnodeData {
    VarnodeData { space: p.addr.space, offset: p.addr.offset, size: p.size() as u32 }
}

/// The `i`-th input of the list is there and locked.
pub open spec fn locked_at(s: Seq<Option<ParamView>>, i: int) -> bool {
    0 <= i < s.len() && (s[i] matches Some(p) && p.type_locked())
}

/// Some input is locked.
pub open spec fn some_locked(s: Seq<Option<ParamView>>) -> bool {
    exists|i: int| #[trigger] locked_at(s, i)
}

/// A locked input holds the range where a value of its size would stand.
pub open spec fn held_justified(s: Seq<Option<ParamView>>, addr: Address, size: int) -> bool {
    exists|i: int| #[trigger] locked_at(s, i) && offset_in(s[i]->0, addr, size) == 0
}

/// A locked input holds the range elsewhere.
pub open spec fn held_unjustified(s: Seq<Option<ParamView>>, addr: Address, size: int) -> bool {
    exists|i: int| #[trigger] locked_at(s, i) && offset_in(s[i]->0, addr, size) > 0
}

/// A locked input lies inside the range.
pub open spec fn holds_locked(s: Seq<Option<ParamView>>, addr: Address, size: int) -> bool {
    exists|i: int| #[trigger] locked_at(s, i) && param_inside(s[i]->0, addr, size)
}

/// The first locked input from `i` on that holds the range.
pub open spec fn first_holding(
    s: Seq<Option<ParamView>>,
    i: int,
    addr: Address,
    size: int,
) -> Option<ParamView>
    decreases s.len() - i,
{
    if i < 0 || i >= s.len() {
        None
    } else if locked_at(s, i) && offset_in(s[i]->0, addr, size) >= 0 {
        s[i]
    } else {
        first_holding(s, i + 1, addr, size)
    }
}

/// The biggest of the locked ones among the first `n` inputs that lie inside
/// the range; `none` if there is no such input.
pub open spec fn biggest_locked(
    s: Seq<Option<ParamView>>,
    n: int,
    addr: Address,
    size: int,
    none: VarnodeData,
) -> VarnodeData
    decreases n,
{
    if n <= 0 || n > s.len() {
        VarnodeData { size: 0, ..none }
    } else {
        let before = biggest_locked(s, n - 1, addr, size, none);
        if locked_at(s, n - 1) && param_inside(s[n - 1]->0, addr, size)
            && s[n - 1]->0.size() as u32 > before.size {
            location_of(s[n - 1]->0)
        } else {
            before
        }
    }
}

/// What a locked parameter makes of a range.
pub open spec fn contained_in(p: ParamView, addr: Address, size: int) -> Containment {
    if offset_in(p, addr, size) == 0 {
        Containment::ContainsJustified
    } else if offset_in(p, addr, size) > 0 {
        Containment::ContainsUnjustified
    } else if param_inside(p, addr, size) {
        Containment::ContainedBy
    } else {
        Containment::NoContainment
    }
}

impl ProtoView {
    /// The inputs; none without a collection.
    pub open spec fn inputs(self) -> Seq<Option<ParamView>> {
        match self.store {
            Some(s) => s.inparam,
            None => Seq::empty(),
        }
    }

    /// No inputs are possible.
    pub open spec fn void_inputs(self) -> bool {
        !self.flag(proto::DOTDOTDOT) && self.flag(proto::VOIDINPUTLOCK)
    }

    /// The locked inputs decide, not the model.
    pub open spec fn inputs_decide(self) -> bool {
        !self.flag(proto::DOTDOTDOT) && !self.flag(proto::VOIDINPUTLOCK) && some_locked(
            self.inputs(),
        )
    }

    /// The model decides on inputs.
    pub open spec fn model_decides(self) -> bool {
        !self.void_inputs() && !self.inputs_decide()
    }

    /// The list of inputs of the model is there.
    pub open spec fn has_inputs(self) -> bool {
        self.model is Some && (self.model_view().input matches Some(l) && l.wf())
    }

    /// The list of return values of the model is there.
    pub open spec fn has_outputs(self) -> bool {
        self.model is Some && (self.model_view().output matches Some(l) && l.wf())
    }

    /// The collection is there where it is looked at.
    pub open spec fn inputs_kept(self) -> bool {
        self.flag(proto::DOTDOTDOT) || self.flag(proto::VOIDINPUTLOCK) || self.store is Some
    }

    /// The effect of a call on a range.
    pub open spec fn effect(self, addr: Address, size: int) -> u32 {
        if self.effectlist.len() > 0 {
            effects::effect_at(self.effectlist, addr, size)
        } else if self.model is Some {
            effects::effect_at(self.model_view().effectlist, addr, size)
        } else {
            effects::UNKNOWN_EFFECT
        }
    }

    /// The effects that hold: the prototype's own, or those of the model.
    pub open spec fn own_effects(self) -> Seq<EffectRecord> {
        if self.effectlist.len() > 0 {
            self.effectlist
        } else if self.model is Some {
            self.model_view().effectlist
        } else {
            Seq::empty()
        }
    }

    /// How a range relates to the inputs.
    pub open spec fn input_containment(self, addr: Address, size: int) -> Containment {
        let s = self.inputs();
        if self.void_inputs() {
            Containment::NoContainment
        } else if self.inputs_decide() {
            if held_justified(s, addr, size) {
                Containment::ContainsJustified
            } else if held_unjustified(s, addr, size) {
                Containment::ContainsUnjustified
            } else if holds_locked(s, addr, size) {
                Containment::ContainedBy
            } else {
                Containment::NoContainment
            }
        } else {
            self.model_view().ins().characterized(addr, size)
        }
    }

    /// How a range relates to the return value.
    pub open spec fn output_containment(self, addr: Address, size: int) -> Containment {
        if self.output_locked() {
            let p = self.store->0.output();
            if p.is_kind(TypeMetatype::Void) {
                Containment::NoContainment
            } else {
                contained_in(p, addr, size)
            }
        } else {
            self.model_view().outs().characterized(addr, size)
        }
    }

    /// Can a range be an input.
    pub open spec fn input_possible(self, addr: Address, size: int) -> bool {
        if self.void_inputs() {
            false
        } else if self.inputs_decide() {
            held_justified(self.inputs(), addr, size)
        } else {
            self.model is Some && self.model_view().ins().possible(addr, size)
        }
    }

    /// Can a range be the return value.
    pub open spec fn output_possible(self, addr: Address, size: int) -> bool {
        if self.output_locked() {
            let p = self.store->0.output();
            !p.is_kind(TypeMetatype::Void) && offset_in(p, addr, size) == 0
        } else {
            self.model_view().outs().possible(addr, size)
        }
    }
}

impl FuncProto {
    /// The effect of a call on the `size` bytes at `addr`.
    pub fn has_effect(&self, addr: &Address, size: i32) -> (r: u32)
        requires
            effects::by_address(self@.own_effects()),
        ensures
            r == self@.effect(*addr, size as int),
    {
        if self.effectlist.len() == 0 {
            return match &self.model {
                Some(m) => m.has_effect(addr, size),
                None => effects::UNKNOWN_EFFECT,
            };
        }
        effects::lookup_effect(self.effectlist.as_slice(), addr, size)
    }

    /// The effects that hold.
    pub fn effect_list(&self) -> (r: Vec<EffectRecord>)
        ensures
            r@ == self@.own_effects(),
    {
        if self.effectlist.len() == 0 {
            match &self.model {
                Some(m) => effects::copy_effects(&m.effectlist),
                None => {
                    let v: Vec<EffectRecord> = Vec::new();
                    assert(v@ =~= Seq::empty());
                    v
                },
            }
        } else {
            effects::copy_effects(&self.effectlist)
        }
    }

    /// Has the prototype effects of its own.
    pub fn has_effect_override(&self) -> (r: bool)
        ensures
            r == (self@.effectlist.len() > 0),
    {
        self.effectlist.len() > 0
    }

    /// Add an effect of its own.
    pub fn push_effect_override(&mut self, eff: EffectRecord)
        requires
            effects::by_address(old(self)@.effectlist),
        ensures
            final(self)@ == (ProtoView {
                effectlist: old(self)@.effectlist.insert(
                    effects::effect_position(
                        old(self)@.effectlist,
                        old(self)@.effectlist.len() as int,
                        eff,
                    ),
                    eff,
                ),
                ..old(self)@
            }),
            effects::by_address(final(self)@.effectlist),
    {
        effects::insert_effect(&mut self.effectlist, eff);
    }

    /// The locations that hold values without meaning.
    pub fn trash_list(&self) -> (r: &[VarnodeData])
        requires
            self@.likelytrash.len() == 0 ==> self@.model is Some,
        ensures
            r@ == (if self@.likelytrash.len() == 0 {
                self@.model_view().likelytrash
            } else {
                self@.likelytrash
            }),
    {
        if self.likelytrash.len() == 0 {
            self.model().trash_list()
        } else {
            self.likelytrash.as_slice()
        }
    }

    pub fn internal_list(&self) -> (r: &[VarnodeData])
        requires
            self@.model is Some,
        ensures
            r@ == self@.model_view().internalstorage,
    {
        self.model().internal_list()
    }

    /// How a range relates to the inputs.
    pub fn characterize_as_input_param(&self, addr: &Address, size: i32) -> (r: Containment)
        requires
            self@.wf(),
            self@.inputs_kept(),
            self@.model_decides() ==> self@.has_inputs(),
        ensures
            r == self@.input_containment(*addr, size as int),
    {
        if !self.is_dotdotdot() {
            if crate::num::has_bit(self.flags, proto::VOIDINPUTLOCK) {
                return Containment::NoContainment;
            }
            if let Some(c) = self.locked_containment(addr, size) {
                return c;
            }
        }
        self.model().characterize_as_input_param(addr, size)
    }

    /// How a range relates to the locked inputs, if there are any.
    fn locked_containment(&self, addr: &Address, size: i32) -> (r: Option<Containment>)
        requires
            self@.store matches Some(s) && s.wf(),
        ensures
            ({
                let s = self@.inputs();
                let z = size as int;
                r == (if !some_locked(s) {
                    None::<Containment>
                } else if held_justified(s, *addr, z) {
                    Some(Containment::ContainsJustified)
                } else if held_unjustified(s, *addr, z) {
                    Some(Containment::ContainsUnjustified)
                } else if holds_locked(s, *addr, z) {
                    Some(Containment::ContainedBy)
                } else {
                    Some(Containment::NoContainment)
                })
            }),
    {
        let num: i32 = self.num_params();
        let ghost s = self@.inputs();
        let ghost z = size as int;
        let mut locktest = false;
        let mut res_contains = false;
        let mut res_contained_by = false;
        let mut i: i32 = 0;
        while i < num
            invariant
                0 <= i <= num,
                self@.store is Some,
                s == self@.inputs(),
                z == size,
                num == s.len(),
                locktest == (exists|k: int| k < i && #[trigger] locked_at(s, k)),
                forall|k: int| k < i && #[trigger] locked_at(s, k) ==> offset_in(s[k]->0, *addr, z)
                    != 0,
                res_contains == (exists|k: int|
                    k < i && #[trigger] locked_at(s, k) && offset_in(s[k]->0, *addr, z) > 0),
                res_contained_by == (exists|k: int|
                    k < i && #[trigger] locked_at(s, k) && param_inside(s[k]->0, *addr, z)),
            decreases num - i,
        {
            if let Some(p) = self.get_param(i) {
                assert(s[i as int] == Some(p@));
                if p.is_type_locked() {
                    assert(locked_at(s, i as int));
                    locktest = true;
                    let iaddr = p.get_address();
                    let off: i32 = iaddr.justified_contain(p.get_size(), addr, size, false);
                    if off == 0 {
                        return Some(Containment::ContainsJustified);
                    } else if off > 0 {
                        res_contains = true;
                    }
                    if iaddr.contained_by(p.get_size(), addr, size) {
                        res_contained_by = true;
                    }
                }
            }
            i += 1;
        }
        if locktest {
            if res_contains {
                return Some(Containment::ContainsUnjustified);
            }
            if res_contained_by {
                return Some(Containment::ContainedBy);
            }
            return Some(Containment::NoContainment);
        }
        None
    }

    /// Decide which output trials hold the return value.
    pub fn derive_output_map(&self, active: &mut ParamActive) -> (r: Result<(), FspecError>)
        requires
            self@.has_outputs(),
            self@.model_view().outs().kind == ParamListKind::Standard
                && self@.model_view().outs().entry.len() > 0
                ==> self@.model_view().outs().decidable(),
            fillin::tied(self@.model_view().outs(), old(active)@.trial),
        ensures
            match r {
                Ok(_) => decide::decided(self@.model_view().outs(), old(active)@) == Ok::<
                    ActiveView,
                    FspecError,
                >(final(active)@),
                Err(e) => decide::decided(self@.model_view().outs(), old(active)@) == Err::<
                    ActiveView,
                    FspecError,
                >(e) && final(active)@ == old(active)@,
            },
    {
        self.model().derive_output_map(active)
    }

    /// Decide which input trials are parameters.
    pub fn derive_input_map(&self, active: &mut ParamActive) -> (r: Result<(), FspecError>)
        requires
            self@.has_inputs(),
            self@.model_view().ins().kind == ParamListKind::Standard
                && self@.model_view().ins().entry.len() > 0 ==> self@.model_view().ins().decidable(),
            fillin::tied(self@.model_view().ins(), old(active)@.trial),
        ensures
            match r {
                Ok(_) => decide::decided(self@.model_view().ins(), old(active)@) == Ok::<
                    ActiveView,
                    FspecError,
                >(final(active)@),
                Err(e) => decide::decided(self@.model_view().ins(), old(active)@) == Err::<
                    ActiveView,
                    FspecError,
                >(e) && final(active)@ == old(active)@,
            },
    {
        self.model().derive_input_map(active)
    }

    /// The entries of the model's inputs.
    pub fn input_param_entries(&self) -> (r: Vec<ParamEntry>)
        requires
            self@.model is Some,
            self@.model_view().input is Some,
        ensures
            entry::entries_view(r@) == self@.model_view().ins().entry,
    {
        listbuild::copy_entries(&self.model().input().entry)
    }

    /// How a range relates to the return value.
    pub fn characterize_as_output(&self, addr: &Address, size: i32) -> (r: Containment)
        requires
            self@.wf(),
            !self@.output_locked() ==> self@.has_outputs(),
        ensures
            r == self@.output_containment(*addr, size as int),
    {
        if self.is_output_locked() {
            let p = self.get_output();
            if is_void(p.get_type()) {
                return Containment::NoContainment;
            }
            let iaddr = p.get_address();
            let off: i32 = iaddr.justified_contain(p.get_size(), addr, size, false);
            if off == 0 {
                return Containment::ContainsJustified;
            } else if off > 0 {
                return Containment::ContainsUnjustified;
            }
            if iaddr.contained_by(p.get_size(), addr, size) {
                return Containment::ContainedBy;
            }
            return Containment::NoContainment;
        }
        self.model().characterize_as_output(addr, size)
    }

    /// Can a range be an input. Without a model nothing can.
    pub fn possible_input_param(&self, addr: &Address, size: i32) -> (r: bool)
        requires
            self@.wf(),
            self@.model_decides() && self@.model is Some ==> self@.has_inputs(),
        ensures
            r == self@.input_possible(*addr, size as int),
    {
        if !self.is_dotdotdot() {
            if crate::num::has_bit(self.flags, proto::VOIDINPUTLOCK) {
                return false;
            }
            if self.has_store() {
                if let Some(c) = self.locked_containment(addr, size) {
                    return c == Containment::ContainsJustified;
                }
            } else {
                assert(!some_locked(self@.inputs()));
            }
        }
        match &self.model {
            Some(m) => m.possible_input_param(addr, size),
            None => false,
        }
    }

    /// Can a range be the return value.
    pub fn possible_output_param(&self, addr: &Address, size: i32) -> (r: bool)
        requires
            self@.wf(),
            !self@.output_locked() ==> self@.has_outputs(),
        ensures
            r == self@.output_possible(*addr, size as int),
    {
        if self.is_output_locked() {
            let p = self.get_output();
            if is_void(p.get_type()) {
                return false;
            }
            return p.get_address().justified_contain(p.get_size(), addr, size, false) == 0;
        }
        self.model().possible_output_param(addr, size)
    }

    /// Is a range inside an input, but not where a value would stand. The
    /// storage of that input is passed back.
    pub fn unjustified_input_param(&self, addr: &Address, size: i32, res: &mut VarnodeData) -> (r:
        bool)
        requires
            self@.wf(),
            self@.inputs_kept(),
            self@.model_decides() ==> self@.has_inputs(),
        ensures
            ({
                let l = self@.model_view().ins();
                let z = size as int;
                if self@.void_inputs() {
                    !r && *final(res) == *old(res)
                } else if self@.inputs_decide() {
                    match first_holding(self@.inputs(), 0, *addr, z) {
                        Some(p) => r == (offset_in(p, *addr, z) > 0) && *final(res) == (if r {
                            location_of(p)
                        } else {
                            *old(res)
                        }),
                        None => !r && *final(res) == *old(res),
                    }
                } else {
                    r == l.unjustified(*addr, z) && *final(res) == (if r {
                        match l.entry[l.first_holder(0, *addr, z)->0].container(*addr, z) {
                            Some(v) => v,
                            None => *old(res),
                        }
                    } else {
                        *old(res)
                    })
                }
            }),
    {
        if !self.is_dotdotdot() {
            if crate::num::has_bit(self.flags, proto::VOIDINPUTLOCK) {
                return false;
            }
            if let Some(found) = self.locked_holder(addr, size) {
                return match found {
                    Some(v) => {
                        *res = v;
                        true
                    },
                    None => false,
                };
            }
        }
        self.model().unjustified_input_param(addr, size, res)
    }

    /// The storage of the first locked input that holds the range, unless the
    /// range stands where a value would. `None` if no input is locked.
    fn locked_holder(&self, addr: &Address, size: i32) -> (r: Option<Option<VarnodeData>>)
        requires
            self@.store matches Some(s) && s.wf(),
        ensures
            ({
                let s = self@.inputs();
                let z = size as int;
                r == (if !some_locked(s) {
                    None::<Option<VarnodeData>>
                } else {
                    Some(
                        match first_holding(s, 0, *addr, z) {
                            Some(p) => if offset_in(p, *addr, z) > 0 {
                                Some(location_of(p))
                            } else {
                                None
                            },
                            None => None,
                        },
                    )
                })
            }),
    {
        let num: i32 = self.num_params();
        let ghost s = self@.inputs();
        let ghost z = size as int;
        let mut locktest = false;
        let mut i: i32 = 0;
        while i < num
            invariant
                0 <= i <= num,
                self@.store is Some,
                s == self@.inputs(),
                z == size,
                num == s.len(),
                locktest == (exists|k: int| k < i && #[trigger] locked_at(s, k)),
                first_holding(s, 0, *addr, z) == first_holding(s, i as int, *addr, z),
            decreases num - i,
        {
            if let Some(p) = self.get_param(i) {
                assert(s[i as int] == Some(p@));
                if p.is_type_locked() {
                    assert(locked_at(s, i as int));
                    locktest = true;
                    let iaddr = p.get_address();
                    let just: i32 = iaddr.justified_contain(p.get_size(), addr, size, false);
                    if just == 0 {
                        return Some(None);
                    }
                    if just > 0 {
                        return Some(
                            Some(
                                VarnodeData {
                                    space: iaddr.space,
                                    offset: iaddr.offset,
                                    size: p.get_size() as u32,
                                },
                            ),
                        );
                    }
                }
            }
            i += 1;
        }
        if locktest {
            Some(None)
        } else {
            None
        }
    }

    /// Pass back the biggest input inside a range, and whether there is one.
    /// Where the inputs are locked the size passed back without one is 0.
    pub fn get_biggest_contained_input_param(
        &self,
        loc: &Address,
        size: i32,
        res: &mut VarnodeData,
    ) -> (r: bool)
        requires
            self@.wf(),
            self@.inputs_kept(),
            self@.model_decides() ==> self@.has_inputs(),
        ensures
            ({
                let s = self@.inputs();
                let z = size as int;
                if self@.void_inputs() {
                    !r && *final(res) == *old(res)
                } else if self@.inputs_decide() {
                    *final(res) == biggest_locked(s, s.len() as int, *loc, z, *old(res)) && r == (
                    final(res).size != 0)
                } else {
                    let found = self@.model_view().ins().biggest_contained(*loc, z);
                    r == (found is Some) && *final(res) == (match found {
                        Some(v) => v,
                        None => if self@.flag(proto::DOTDOTDOT) || s.len() == 0 {
                            *old(res)
                        } else {
                            VarnodeData { size: 0, ..*old(res) }
                        },
                    })
                }
            }),
    {
        if !self.is_dotdotdot() {
            if crate::num::has_bit(self.flags, proto::VOIDINPUTLOCK) {
                return false;
            }
            if self.num_params() > 0 {
                if self.biggest_among_locked(loc, size, res) {
                    return res.size != 0;
                }
            } else {
                assert(!some_locked(self@.inputs()));
            }
        }
        self.model().get_biggest_contained_input_param(loc, size, res)
    }

    /// Pass back the biggest locked input inside a range. Is any input locked.
    fn biggest_among_locked(&self, loc: &Address, size: i32, res: &mut VarnodeData) -> (r: bool)
        requires
            self@.store matches Some(s) && s.wf(),
        ensures
            ({
                let s = self@.inputs();
                r == some_locked(s) && *final(res) == biggest_locked(
                    s,
                    s.len() as int,
                    *loc,
                    size as int,
                    *old(res),
                )
            }),
            !r ==> *final(res) == (VarnodeData { size: 0, ..*old(res) }),
    {
        let num: i32 = self.num_params();
        let ghost s = self@.inputs();
        let ghost z = size as int;
        let mut locktest = false;
        res.size = 0;
        let mut i: i32 = 0;
        while i < num
            invariant
                0 <= i <= num,
                self@.store is Some,
                s == self@.inputs(),
                z == size,
                num == s.len(),
                locktest == (exists|k: int| k < i && #[trigger] locked_at(s, k)),
                *res == biggest_locked(s, i as int, *loc, z, *old(res)),
                !locktest ==> *res == (VarnodeData { size: 0, ..*old(res) }),
            decreases num - i,
        {
            if let Some(p) = self.get_param(i) {
                assert(s[i as int] == Some(p@));
                if p.is_type_locked() {
                    assert(locked_at(s, i as int));
                    locktest = true;
                    let iaddr = p.get_address();
                    if iaddr.contained_by(p.get_size(), loc, size) && p.get_size() as u32
                        > res.size {
                        res.space = iaddr.space;
                        res.offset = iaddr.offset;
                        res.size = p.get_size() as u32;
                    }
                }
            }
            i += 1;
        }
        locktest
    }

    /// Pass back the return value, or a possible one, if it lies inside a range.
    pub fn get_biggest_contained_output(&self, loc: &Address, size: i32, res: &mut VarnodeData)
        -> (r: bool)
        requires
            self@.wf(),
            !self@.output_locked() ==> self@.has_outputs(),
        ensures
            ({
                let p = self@.store->0.output();
                let found = if !self@.output_locked() {
                    self@.model_view().outs().biggest_contained(*loc, size as int)
                } else if !p.is_kind(TypeMetatype::Void) && param_inside(p, *loc, size as int) {
                    Some(location_of(p))
                } else {
                    None
                };
                r == (found is Some) && *final(res) == (match found {
                    Some(v) => v,
                    None => *old(res),
                })
            }),
    {
        if self.is_output_locked() {
            let p = self.get_output();
            if is_void(p.get_type()) {
                return false;
            }
            let iaddr = p.get_address();
            if iaddr.contained_by(p.get_size(), loc, size) {
                res.space = iaddr.space;
                res.offset = iaddr.offset;
                res.size = p.get_size() as u32;
                return true;
            }
            return false;
        }
        self.model().get_biggest_contained_output(loc, size, res)
    }

    pub fn get_spacebase(&self) -> (r: Option<AddrSpace>)
        requires
            self@.model is Some,
        ensures
            r == (match self@.model_view().input {
                Some(l) => l.spacebase,
                None => None,
            }),
    {
        self.model().get_spacebase()
    }

    pub fn get_local_range(&self) -> (r: &RangeList)
        requires
            self@.model is Some,
        ensures
            r.ranges@ == self@.model_view().localrange,
    {
        self.model().get_local_range()
    }

    pub fn get_param_range(&self) -> (r: &RangeList)
        requires
            self@.model is Some,
        ensures
            r.ranges@ == self@.model_view().paramrange,
    {
        self.model().get_param_range()
    }

    pub fn is_stack_grows_negative(&self) -> (r: bool)
        requires
            self@.model is Some,
        ensures
            r == self@.model_view().stackgrowsnegative,
    {
        self.model().is_stack_grows_negative()
    }

    pub fn get_max_input_delay(&self) -> (r: i32)
        requires
            self@.model is Some,
        ensures
            r == (match self@.model_view().input {
                Some(l) => l.maxdelay,
                None => 0,
            }),
    {
        self.model().get_max_input_delay()
    }

    pub fn get_max_output_delay(&self) -> (r: i32)
        requires
            self@.model is Some,
        ensures
            r == (match self@.model_view().output {
                Some(l) => l.maxdelay,
                None => 0,
            }),
    {
        self.model().get_max_output_delay()
    }

    /// Can two input locations be the halves of one parameter.
    pub fn check_input_join(&self, hiaddr: &Address, hisz: i32, loaddr: &Address, losz: i32) -> (r:
        bool)
        requires
            self@.has_inputs(),
        ensures
            r == self@.model_view().ins().joinable(*hiaddr, hisz as int, *loaddr, losz as int),
    {
        self.model().check_input_join(hiaddr, hisz, loaddr, losz)
    }

    /// Can one input location be split in two parameters.
    pub fn check_input_split(&self, loc: &Address, size: i32, splitpoint: i32) -> (r: bool)
        requires
            self@.has_inputs(),
            i32::MIN <= size - splitpoint <= i32::MAX,
        ensures
            r == self@.model_view().ins().splittable(*loc, size as int, splitpoint as int),
    {
        self.model().check_input_split(loc, size, splitpoint)
    }

    pub fn assumed_input_extension(&self, addr: &Address, size: i32, res: &mut VarnodeData) -> (r:
        OpCode)
        requires
            self@.has_inputs(),
        ensures
            match self@.model_view().ins().first_extender(0, *addr, size as int) {
                Some(i) => r == self@.model_view().ins().entry[i].extension_op(*addr, size as int)
                    && *final(res) == self@.model_view().ins().entry[i].extension_container(*addr),
                None => r == OpCode::Copy && *final(res) == *old(res),
            },
    {
        self.model().assumed_input_extension(addr, size, res)
    }

    pub fn assumed_output_extension(&self, addr: &Address, size: i32, res: &mut VarnodeData) -> (r:
        OpCode)
        requires
            self@.has_outputs(),
        ensures
            match self@.model_view().outs().first_extender(0, *addr, size as int) {
                Some(i) => r == self@.model_view().outs().entry[i].extension_op(*addr, size as int)
                    && *final(res) == self@.model_view().outs().entry[i].extension_container(*addr),
                None => r == OpCode::Copy && *final(res) == *old(res),
            },
    {
        self.model().assumed_output_extension(addr, size, res)
    }

    /// The types of trials are not available here.
    pub fn update_input_types(&mut self) -> (r: Result<(), FspecError>)
        ensures
            r == Err::<(), FspecError>(FspecError::Unsupported),
            *final(self) == *old(self),
    {
        Err(FspecError::Unsupported)
    }

    /// The sizes of trials are not available here.
    pub fn update_input_no_types(&mut self) -> (r: Result<(), FspecError>)
        ensures
            r == Err::<(), FspecError>(FspecError::Unsupported),
            *final(self) == *old(self),
    {
        Err(FspecError::Unsupported)
    }

    /// The types of trials are not available here.
    pub fn update_output_types(&mut self) -> (r: Result<(), FspecError>)
        ensures
            r == Err::<(), FspecError>(FspecError::Unsupported),
            *final(self) == *old(self),
    {
        Err(FspecError::Unsupported)
    }

    /// The sizes of trials are not available here.
    pub fn update_output_no_types(&mut self) -> (r: Result<(), FspecError>)
        ensures
            r == Err::<(), FspecError>(FspecError::Unsupported),
            *final(self) == *old(self),
    {
        Err(FspecError::Unsupported)
    }

    /// Prototypes are not restored from a document.
    pub fn decode(&mut self) -> (r: Result<(), FspecError>)
        ensures
            r == Err::<(), FspecError>(FspecError::Unsupported),
            *final(self) == *old(self),
    {
        Err(FspecError::Unsupported)
    }
}

/// Is the data-type that of no value.
fn is_void(t: Option<crate::dtype::Datatype>) -> (r: bool)
    ensures
        r == (t matches Some(x) && x.metatype == TypeMetatype::Void),
{
    match t {
        Some(x) => x.metatype == TypeMetatype::Void,
        None => false,
    }
}

/// Where the model does not decide, a range is a possible input exactly where
/// it is held justified.
pub proof fn law_possible_is_justified(p: ProtoView, addr: Address, size: int)
    requires
        !p.model_decides(),
    ensures
        p.input_possible(addr, size) == (p.input_containment(addr, size)
            == Containment::ContainsJustified),
{
}

/// No range is an input of a function locked to take none.
pub proof fn law_void_has_no_inputs(p: ProtoView, addr: Address, size: int)
    requires
        p.void_inputs(),
    ensures
        !p.input_possible(addr, size),
        p.input_containment(addr, size) == Containment::NoContainment,
{
}

} // verus!
