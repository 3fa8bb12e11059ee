//! Prototype models: complete conventions for passing values to and from a
//! function.
use crate::active::{ActiveView, ParamActive};
use crate::assign;
use crate::assign::MapOut;
use crate::decide;
use crate::dtype;
use crate::dtype::{Datatype, TypeMetatype};
use crate::effects;
use crate::effects::EffectRecord;
use crate::entry::Containment;
use crate::error::FspecError;
use crate::fillin;
use crate::joins::{AddrSpaceManager, JoinTable};
use crate::listbuild::{Range, RangeList};
use crate::num;
use crate::opcode::OpCode;
use crate::paramlist;
use crate::paramlist::{ListView, ParamListKind, ParamListStandard};
use crate::pieces;
use crate::pieces::{ParameterPieces, PrototypePieces};
use crate::space;
use crate::space::{AddrSpace, Address, VarnodeData};
use std::rc::Rc;
use vstd::prelude::*;

verus! {

/// The number of bytes popped by a function is not known.
pub const EXTRAPOP_UNKNOWN: i32 = 0x8000;

/// The identity of a prototype model: the source that it comes from, and the
/// number that it has there.
#[derive(Debug, Clone, Copy, PartialEq, Eq, Structural)]
pub struct ProtoModelId {
    pub source: u64,
    pub number: u64,
}

/// Where identities come from: each is handed out once. How many sources the
/// process has is known to its owner alone, who gives each a name of its own;
/// the identities of two sources then stay apart.
#[derive(Debug)]
pub struct IdSource {
    name: u64,
    next: u64,
}

impl IdSource {
    /// What tells the source from the others of the process.
    pub closed spec fn name(self) -> u64 {
        self.name
    }

    /// The next number.
    pub closed spec fn next(self) -> u64 {
        self.next
    }

    /// The next identity.
    pub open spec fn upcoming(self) -> ProtoModelId {
        ProtoModelId { source: self.name(), number: self.next() }
    }

    /// The identity was handed out by this source.
    pub open spec fn issued(self, id: ProtoModelId) -> bool {
        id.source == self.name() && id.number < self.next()
    }

    /// The source handed out one identity since it was as in `before`.
    pub open spec fn one_past(self, before: IdSource) -> bool {
        self.name() == before.name() && self.next() == before.next() + 1
    }

    /// A source under a name that no other source of the process has.
    pub fn new(name: u64) -> (r: IdSource)
        ensures
            r.name() == name,
            r.next() == 1,
    {
        IdSource { name, next: 1 }
    }
}

impl ProtoModelId {
    /// An identity that was not handed out before: not by this source, nor by
    /// one with another name.
    pub fn fresh(ids: &mut IdSource) -> (r: ProtoModelId)
        requires
            old(ids).next() < u64::MAX,
        ensures
            r == old(ids).upcoming(),
            !old(ids).issued(r),
            final(ids).issued(r),
            final(ids).one_past(*old(ids)),
    {
        let id: u64 = ids.next;
        ids.next = id + 1;
        ProtoModelId { source: ids.name, number: id }
    }
}

/// The models that a merged model chooses from.
#[derive(Debug)]
pub struct ProtoModelMerged {
    pub modellist: Vec<Rc<ProtoModel>>,
}

/// A prototype model: the lists for inputs and for return values, the effects
/// of a call, and properties of the functions that follow it. `compat_model`
/// is the identity of the model that it was copied from.
#[derive(Debug)]
pub struct ProtoModel {
    pub name: String,
    pub extrapop: i32,
    pub input: Option<ParamListStandard>,
    pub output: Option<ParamListStandard>,
    pub compat_model: Option<ProtoModelId>,
    pub id: ProtoModelId,
    pub effectlist: Vec<EffectRecord>,
    pub likelytrash: Vec<VarnodeData>,
    pub internalstorage: Vec<VarnodeData>,
    pub inject_upon_entry: i32,
    pub inject_upon_return: i32,
    pub localrange: RangeList,
    pub paramrange: RangeList,
    pub stackgrowsnegative: bool,
    pub has_this: bool,
    pub is_construct: bool,
    pub is_printed: bool,
    pub merged: Option<ProtoModelMerged>,
    pub is_unknown: bool,
}

/// A prototype model in the abstract, apart from the models merged in it.
#[verifier::ext_equal]
pub struct ModelView {
    pub name: Seq<char>,
    pub extrapop: i32,
    pub input: Option<ListView>,
    pub output: Option<ListView>,
    pub compat_model: Option<ProtoModelId>,
    pub id: ProtoModelId,
    pub effectlist: Seq<EffectRecord>,
    pub likelytrash: Seq<VarnodeData>,
    pub internalstorage: Seq<VarnodeData>,
    pub inject_upon_entry: i32,
    pub inject_upon_return: i32,
    pub localrange: Seq<Range>,
    pub paramrange: Seq<Range>,
    pub stackgrowsnegative: bool,
    pub has_this: bool,
    pub is_construct: bool,
    pub is_printed: bool,
    pub merged: bool,
    pub is_unknown: bool,
}

/// The abstract form of an optional list.
pub open spec fn list_view(l: Option<ParamListStandard>) -> Option<ListView> {
    match l {
        Some(x) => Some(x@),
        None => None,
    }
}

impl View for ProtoModel {
    type V = ModelView;

    open spec fn view(&self) -> ModelView {
        ModelView {
            name: self.name@,
            extrapop: self.extrapop,
            input: list_view(self.input),
            output: list_view(self.output),
            compat_model: self.compat_model,
            id: self.id,
            effectlist: self.effectlist@,
            likelytrash: self.likelytrash@,
            internalstorage: self.internalstorage@,
            inject_upon_entry: self.inject_upon_entry,
            inject_upon_return: self.inject_upon_return,
            localrange: self.localrange.ranges@,
            paramrange: self.paramrange.ranges@,
            stackgrowsnegative: self.stackgrowsnegative,
            has_this: self.has_this,
            is_construct: self.is_construct,
            is_printed: self.is_printed,
            merged: self.merged is Some,
            is_unknown: self.is_unknown,
        }
    }
}

/// How far the default range of locals reaches.
pub open spec fn local_reach(addr_size: u32) -> int {
    if addr_size >= 4 {
        999999
    } else if addr_size >= 2 {
        9999
    } else {
        99
    }
}

/// How far the default range of stack parameters reaches.
pub open spec fn param_reach(addr_size: u32) -> int {
    if addr_size >= 4 {
        511
    } else if addr_size >= 2 {
        255
    } else {
        15
    }
}

/// The `reach` bytes below the top of a space, and the top.
pub open spec fn top_range(spc: AddrSpace, reach: int) -> Range {
    Range { space: spc, first: num::wadd(spc.highest, -reach), last: spc.highest }
}

/// The bytes of a space from 0 to `reach`.
pub open spec fn bottom_range(spc: AddrSpace, reach: int) -> Range {
    Range { space: spc, first: 0, last: reach as u64 }
}

/// The default range of locals: at the top of the stack space if the stack
/// grows toward lower addresses.
pub open spec fn default_locals(stack: Option<AddrSpace>, negative: bool) -> Seq<Range> {
    match stack {
        None => Seq::empty(),
        Some(s) => seq![
            if negative {
                top_range(s, local_reach(s.addr_size))
            } else {
                bottom_range(s, local_reach(s.addr_size))
            },
        ],
    }
}

/// The default range of stack parameters, at the other end.
pub open spec fn default_params(stack: Option<AddrSpace>, negative: bool) -> Seq<Range> {
    match stack {
        None => Seq::empty(),
        Some(s) => seq![
            if negative {
                bottom_range(s, param_reach(s.addr_size))
            } else {
                top_range(s, param_reach(s.addr_size))
            },
        ],
    }
}

/// A model before anything is known of it.
pub open spec fn blank_model(id: ProtoModelId, stack: Option<AddrSpace>) -> ModelView {
    ModelView {
        name: Seq::empty(),
        extrapop: 0,
        input: None,
        output: None,
        compat_model: None,
        id,
        effectlist: Seq::empty(),
        likelytrash: Seq::empty(),
        internalstorage: Seq::empty(),
        inject_upon_entry: -1i32,
        inject_upon_return: -1i32,
        localrange: default_locals(stack, true),
        paramrange: default_params(stack, true),
        stackgrowsnegative: true,
        has_this: false,
        is_construct: false,
        is_printed: true,
        merged: false,
        is_unknown: false,
    }
}

/// The list with its ranges rebuilt.
pub open spec fn rebuilt(l: Option<ListView>) -> Option<ListView> {
    match l {
        Some(x) => Some(
            ListView {
                resolver: paramlist::all_ranges(x.entry, x.entry.len() as int),
                ..x
            },
        ),
        None => None,
    }
}

/// The model `m` copied under another name and identity.
pub open spec fn named_copy(nm: Seq<char>, m: ModelView, id: ProtoModelId) -> ModelView {
    ModelView {
        name: nm,
        id,
        input: rebuilt(m.input),
        output: rebuilt(m.output),
        is_printed: true,
        has_this: m.has_this || nm == "__thiscall"@,
        compat_model: Some(m.id),
        merged: false,
        is_unknown: false,
        ..m
    }
}

/// One can stand for the other: they are one model, or one is a copy of the
/// other.
pub open spec fn compatible(a: ModelView, b: ModelView) -> bool {
    a.id == b.id || a.compat_model == Some(b.id) || b.compat_model == Some(a.id)
}

/// The parameter list without an address of the return value.
pub open spec fn void_return() -> Seq<ParameterPieces> {
    seq![assign::unstored(dtype::void_type())]
}

/// Is the error that of a parameter without storage.
pub open spec fn is_unassigned(e: FspecError) -> bool {
    e == FspecError::ParamUnassigned || e == FspecError::ReturnUnassigned
}

/// Where the "this" parameter is: behind a hidden return pointer, unless "this"
/// comes first.
pub open spec fn this_marked(s: Seq<ParameterPieces>, this_first: bool) -> Seq<ParameterPieces> {
    if s.len() <= 1 {
        s
    } else {
        let hidden = num::bit(s[1].flags, pieces::HIDDENRETPARM) && s.len() > 2;
        let t = if hidden && this_first {
            s.update(1, ParameterPieces { addr: s[1].addr, ..s[2] }).update(
                2,
                ParameterPieces { addr: s[2].addr, ..s[1] },
            )
        } else {
            s
        };
        let k = if hidden && !this_first {
            2int
        } else {
            1int
        };
        t.update(k, ParameterPieces { flags: t[k].flags | pieces::ISTHIS, ..t[k] })
    }
}

impl ModelView {
    /// Both lists are there.
    pub open spec fn built(self) -> bool {
        self.input is Some && self.output is Some
    }

    /// Both lists are there and their entries in use, and the effects are
    /// ordered.
    pub open spec fn wf(self) -> bool {
        &&& self.input matches Some(l) && l.wf()
        &&& self.output matches Some(l) && l.wf()
        &&& effects::by_address(self.effectlist)
    }

    /// Prototypes can be laid out under the model.
    pub open spec fn assignable(self) -> bool {
        &&& self.input matches Some(l) && l.assignable()
        &&& self.output matches Some(l) && l.assignable()
    }

    /// Prototypes can be laid out, and each list is of its own direction.
    pub open spec fn lays_out(self) -> bool {
        &&& self.assignable()
        &&& self.outs().kind == ParamListKind::StandardOut || self.outs().kind
            == ParamListKind::RegisterOut
        &&& self.ins().kind != ParamListKind::StandardOut && self.ins().kind
            != ParamListKind::RegisterOut
    }

    /// The list of the inputs.
    pub open spec fn ins(self) -> ListView {
        self.input->0
    }

    /// The list of the return values.
    pub open spec fn outs(self) -> ListView {
        self.output->0
    }

    /// Laying out the return value and then the inputs of a prototype. With
    /// `ignore`, a return value that gets no storage is dropped.
    pub open spec fn storage(
        self,
        outtype: Option<Datatype>,
        intypes: Seq<Datatype>,
        ignore: bool,
        data_space: Option<AddrSpace>,
        table: JoinTable,
    ) -> MapOut {
        let first = assign::map_out(
            self.outs(),
            outtype,
            intypes,
            data_space,
            Seq::empty(),
            table,
        );
        let dropped = first.res matches Err(e) && ignore && is_unassigned(e);
        if first.res is Err && !dropped {
            first
        } else {
            let second = assign::map_out(
                self.ins(),
                outtype,
                intypes,
                data_space,
                if dropped {
                    void_return()
                } else {
                    first.pieces
                },
                first.table,
            );
            if second.res is Ok && self.has_this {
                MapOut {
                    pieces: this_marked(second.pieces, self.ins().thisbeforeret),
                    ..second
                }
            } else {
                second
            }
        }
    }
}

/// An equal list of ranges.
pub fn copy_ranges(v: &RangeList) -> (r: RangeList)
    ensures
        r.ranges@ == v.ranges@,
{
    let mut out = RangeList::new();
    append_ranges(&mut out, v);
    assert(Seq::<Range>::empty() + v.ranges@ =~= v.ranges@);
    out
}

/// Add all ranges of another list.
pub fn append_ranges(dst: &mut RangeList, src: &RangeList)
    ensures
        final(dst).ranges@ == old(dst).ranges@ + src.ranges@,
{
    let mut i: usize = 0;
    assert(old(dst).ranges@ + src.ranges@.subrange(0, 0) =~= dst.ranges@);
    while i < src.ranges.len()
        invariant
            i <= src.ranges.len(),
            dst.ranges@ == old(dst).ranges@ + src.ranges@.subrange(0, i as int),
        decreases src.ranges.len() - i,
    {
        let x = src.ranges[i];
        dst.insert_range(x.space, x.first, x.last);
        i += 1;
        assert(dst.ranges@ =~= old(dst).ranges@ + src.ranges@.subrange(0, i as int));
    }
    assert(src.ranges@.subrange(0, i as int) =~= src.ranges@);
}

/// An equal optional list, with its ranges rebuilt.
fn copy_list(l: &Option<ParamListStandard>) -> (r: Option<ParamListStandard>)
    requires
        l matches Some(x) ==> x@.entries_ok(),
    ensures
        list_view(r) == rebuilt(list_view(*l)),
{
    match l {
        Some(x) => Some(x.copy()),
        None => None,
    }
}

/// Is the name that of the convention for methods.
fn is_thiscall(nm: &str) -> (r: bool)
    ensures
        r == (nm@ == "__thiscall"@),
{
    nm.to_owned() == "__thiscall".to_owned()
}

/// Mark the "this" parameter.
fn mark_this(res: &mut Vec<ParameterPieces>, this_first: bool)
    ensures
        final(res)@ == this_marked(old(res)@, this_first),
{
    let ghost s = res@;
    if res.len() <= 1 {
        return;
    }
    let hidden = num::has_bit(res[1].flags, pieces::HIDDENRETPARM) && res.len() > 2;
    let mut this_index: usize = 1;
    if hidden {
        if this_first {
            let mut a = res[1];
            let mut b = res[2];
            a.swap_markup(&mut b);
            res.set(1, a);
            res.set(2, b);
        } else {
            this_index = 2;
        }
    }
    let ghost t = res@;
    let mut p = res[this_index];
    p.flags = p.flags | pieces::ISTHIS;
    res.set(this_index, p);
    assert(res@ =~= this_marked(s, this_first));
}

impl ProtoModel {
    /// A model with no lists and the default stack ranges.
    pub fn new(manager: &AddrSpaceManager, ids: &mut IdSource) -> (r: ProtoModel)
        requires
            old(ids).next() < u64::MAX,
        ensures
            r@ == blank_model(old(ids).upcoming(), manager.stack_space),
            final(ids).one_past(*old(ids)),
    {
        let mut res = ProtoModel {
            name: String::new(),
            extrapop: 0,
            input: None,
            output: None,
            compat_model: None,
            id: ProtoModelId::fresh(ids),
            effectlist: Vec::new(),
            likelytrash: Vec::new(),
            internalstorage: Vec::new(),
            inject_upon_entry: -1,
            inject_upon_return: -1,
            localrange: RangeList::new(),
            paramrange: RangeList::new(),
            stackgrowsnegative: true,
            has_this: false,
            is_construct: false,
            is_printed: true,
            merged: None,
            is_unknown: false,
        };
        res.default_local_range(manager);
        res.default_param_range(manager);
        assert(res@ =~= blank_model(old(ids).upcoming(), manager.stack_space));
        res
    }

    /// Add the default range of locals.
    fn default_local_range(&mut self, manager: &AddrSpaceManager)
        ensures
            final(self)@ == (ModelView {
                localrange: old(self)@.localrange + default_locals(
                    manager.stack_space,
                    old(self).stackgrowsnegative,
                ),
                ..old(self)@
            }),
    {
        let spc = match manager.stack_space {
            Some(s) => s,
            None => {
                assert(self@.localrange + Seq::<Range>::empty() =~= self@.localrange);
                return;
            },
        };
        let reach: u64 = if spc.addr_size >= 4 {
            999999
        } else if spc.addr_size >= 2 {
            9999
        } else {
            99
        };
        if self.stackgrowsnegative {
            let last: u64 = spc.highest;
            self.localrange.insert_range(spc, last.wrapping_sub(reach), last);
        } else {
            self.localrange.insert_range(spc, 0, reach);
        }
        assert(self@.localrange =~= old(self)@.localrange + default_locals(
            manager.stack_space,
            old(self).stackgrowsnegative,
        ));
    }

    /// Add the default range of stack parameters.
    fn default_param_range(&mut self, manager: &AddrSpaceManager)
        ensures
            final(self)@ == (ModelView {
                paramrange: old(self)@.paramrange + default_params(
                    manager.stack_space,
                    old(self).stackgrowsnegative,
                ),
                ..old(self)@
            }),
    {
        let spc = match manager.stack_space {
            Some(s) => s,
            None => {
                assert(self@.paramrange + Seq::<Range>::empty() =~= self@.paramrange);
                return;
            },
        };
        let reach: u64 = if spc.addr_size >= 4 {
            511
        } else if spc.addr_size >= 2 {
            255
        } else {
            15
        };
        if self.stackgrowsnegative {
            self.paramrange.insert_range(spc, 0, reach);
        } else {
            let last: u64 = spc.highest;
            self.paramrange.insert_range(spc, last.wrapping_sub(reach), last);
        }
        assert(self@.paramrange =~= old(self)@.paramrange + default_params(
            manager.stack_space,
            old(self).stackgrowsnegative,
        ));
    }

    /// A copy of `op2` under another name, compatible with it.
    pub fn copy_named(nm: &str, op2: &ProtoModel, ids: &mut IdSource) -> (r: ProtoModel)
        requires
            old(ids).next() < u64::MAX,
            op2@.input matches Some(l) ==> l.entries_ok(),
            op2@.output matches Some(l) ==> l.entries_ok(),
        ensures
            r@ == named_copy(nm@, op2@, old(ids).upcoming()),
            final(ids).one_past(*old(ids)),
    {
        ProtoModel {
            name: nm.to_owned(),
            extrapop: op2.extrapop,
            input: copy_list(&op2.input),
            output: copy_list(&op2.output),
            compat_model: Some(op2.id),
            id: ProtoModelId::fresh(ids),
            effectlist: effects::copy_effects(&op2.effectlist),
            likelytrash: space::copy_locations(&op2.likelytrash),
            internalstorage: space::copy_locations(&op2.internalstorage),
            inject_upon_entry: op2.inject_upon_entry,
            inject_upon_return: op2.inject_upon_return,
            localrange: copy_ranges(&op2.localrange),
            paramrange: copy_ranges(&op2.paramrange),
            stackgrowsnegative: op2.stackgrowsnegative,
            has_this: op2.has_this || is_thiscall(nm),
            is_construct: op2.is_construct,
            is_printed: true,
            merged: None,
            is_unknown: false,
        }
    }

    /// A copy of `placeholder` that stands for a model with an unknown name.
    pub fn new_unknown(nm: &str, placeholder: &ProtoModel, ids: &mut IdSource) -> (r: ProtoModel)
        requires
            old(ids).next() < u64::MAX,
            placeholder@.input matches Some(l) ==> l.entries_ok(),
            placeholder@.output matches Some(l) ==> l.entries_ok(),
        ensures
            r@ == (ModelView {
                is_unknown: true,
                ..named_copy(nm@, placeholder@, old(ids).upcoming())
            }),
            final(ids).one_past(*old(ids)),
    {
        let mut res = ProtoModel::copy_named(nm, placeholder, ids);
        res.is_unknown = true;
        res
    }

    pub fn get_name(&self) -> (r: &str)
        ensures
            r@ == self@.name,
    {
        self.name.as_str()
    }

    pub fn get_extra_pop(&self) -> (r: i32)
        ensures
            r == self.extrapop,
    {
        self.extrapop
    }

    pub fn set_extra_pop(&mut self, ep: i32)
        ensures
            final(self)@ == (ModelView { extrapop: ep, ..old(self)@ }),
            final(self).merged == old(self).merged,
    {
        self.extrapop = ep;
    }

    pub fn get_inject_upon_entry(&self) -> (r: i32)
        ensures
            r == self.inject_upon_entry,
    {
        self.inject_upon_entry
    }

    pub fn get_inject_upon_return(&self) -> (r: i32)
        ensures
            r == self.inject_upon_return,
    {
        self.inject_upon_return
    }

    pub fn get_local_range(&self) -> (r: &RangeList)
        ensures
            r.ranges@ == self@.localrange,
    {
        &self.localrange
    }

    pub fn get_param_range(&self) -> (r: &RangeList)
        ensures
            r.ranges@ == self@.paramrange,
    {
        &self.paramrange
    }

    pub fn effect_list(&self) -> (r: &[EffectRecord])
        ensures
            r@ == self@.effectlist,
    {
        self.effectlist.as_slice()
    }

    pub fn trash_list(&self) -> (r: &[VarnodeData])
        ensures
            r@ == self@.likelytrash,
    {
        self.likelytrash.as_slice()
    }

    pub fn internal_list(&self) -> (r: &[VarnodeData])
        ensures
            r@ == self@.internalstorage,
    {
        self.internalstorage.as_slice()
    }

    /// The stack space of the inputs.
    pub fn get_spacebase(&self) -> (r: Option<AddrSpace>)
        ensures
            r == (match self@.input {
                Some(l) => l.spacebase,
                None => None,
            }),
    {
        match &self.input {
            Some(l) => l.spacebase,
            None => None,
        }
    }

    pub fn is_stack_grows_negative(&self) -> (r: bool)
        ensures
            r == self.stackgrowsnegative,
    {
        self.stackgrowsnegative
    }

    pub fn has_this_pointer(&self) -> (r: bool)
        ensures
            r == self.has_this,
    {
        self.has_this
    }

    pub fn is_constructor(&self) -> (r: bool)
        ensures
            r == self.is_construct,
    {
        self.is_construct
    }

    pub fn print_in_decl(&self) -> (r: bool)
        ensures
            r == self.is_printed,
    {
        self.is_printed
    }

    pub fn set_print_in_decl(&mut self, val: bool)
        ensures
            final(self)@ == (ModelView { is_printed: val, ..old(self)@ }),
            final(self).merged == old(self).merged,
    {
        self.is_printed = val;
    }

    pub fn get_max_input_delay(&self) -> (r: i32)
        ensures
            r == (match self@.input {
                Some(l) => l.maxdelay,
                None => 0,
            }),
    {
        match &self.input {
            Some(l) => l.maxdelay,
            None => 0,
        }
    }

    pub fn get_max_output_delay(&self) -> (r: i32)
        ensures
            r == (match self@.output {
                Some(l) => l.maxdelay,
                None => 0,
            }),
    {
        match &self.output {
            Some(l) => l.maxdelay,
            None => 0,
        }
    }

    pub fn is_auto_killed_by_call(&self) -> (r: bool)
        ensures
            r == (self@.output matches Some(l) && l.auto_killed_by_call),
    {
        match &self.output {
            Some(l) => l.auto_killed_by_call,
            None => false,
        }
    }

    pub fn is_merged(&self) -> (r: bool)
        ensures
            r == self@.merged,
    {
        self.merged.is_some()
    }

    pub fn is_unknown(&self) -> (r: bool)
        ensures
            r == self.is_unknown,
    {
        self.is_unknown
    }

    pub fn get_alias_parent(&self) -> (r: Option<ProtoModelId>)
        ensures
            r == self.compat_model,
    {
        self.compat_model
    }

    pub fn input(&self) -> (r: &ParamListStandard)
        requires
            self@.input is Some,
        ensures
            r@ == self@.ins(),
            self.input == Some(*r),
    {
        self.input.as_ref().unwrap()
    }

    pub fn output(&self) -> (r: &ParamListStandard)
        requires
            self@.output is Some,
        ensures
            r@ == self@.outs(),
            self.output == Some(*r),
    {
        self.output.as_ref().unwrap()
    }

    pub fn merged(&self) -> (r: Option<&ProtoModelMerged>)
        ensures
            match r {
                Some(m) => self.merged == Some(*m),
                None => self.merged is None,
            },
    {
        self.merged.as_ref()
    }

    /// Can two input locations be the halves of one parameter.
    pub fn check_input_join(&self, hiaddr: &Address, hisize: i32, loaddr: &Address, losize: i32)
        -> (r: bool)
        requires
            self@.input matches Some(l) && l.wf(),
        ensures
            r == self@.ins().joinable(*hiaddr, hisize as int, *loaddr, losize as int),
    {
        self.input().check_join(hiaddr, hisize, loaddr, losize)
    }

    /// Can two output locations be the halves of one return value.
    pub fn check_output_join(&self, hiaddr: &Address, hisize: i32, loaddr: &Address, losize: i32)
        -> (r: bool)
        requires
            self@.output matches Some(l) && l.wf(),
        ensures
            r == self@.outs().joinable(*hiaddr, hisize as int, *loaddr, losize as int),
    {
        self.output().check_join(hiaddr, hisize, loaddr, losize)
    }

    /// Can an input location be split into two parameters.
    pub fn check_input_split(&self, loc: &Address, size: i32, splitpoint: i32) -> (r: bool)
        requires
            self@.input matches Some(l) && l.wf(),
            i32::MIN <= size - splitpoint <= i32::MAX,
        ensures
            r == self@.ins().splittable(*loc, size as int, splitpoint as int),
    {
        self.input().check_split(loc, size, splitpoint)
    }

    pub fn characterize_as_input_param(&self, loc: &Address, size: i32) -> (r: Containment)
        requires
            self@.input matches Some(l) && l.wf(),
        ensures
            r == self@.ins().characterized(*loc, size as int),
    {
        self.input().characterize_as_param(loc, size)
    }

    pub fn characterize_as_output(&self, loc: &Address, size: i32) -> (r: Containment)
        requires
            self@.output matches Some(l) && l.wf(),
        ensures
            r == self@.outs().characterized(*loc, size as int),
    {
        self.output().characterize_as_param(loc, size)
    }

    pub fn possible_input_param(&self, loc: &Address, size: i32) -> (r: bool)
        requires
            self@.input matches Some(l) && l.wf(),
        ensures
            r == self@.ins().possible(*loc, size as int),
    {
        self.input().possible_param(loc, size)
    }

    pub fn possible_output_param(&self, loc: &Address, size: i32) -> (r: bool)
        requires
            self@.output matches Some(l) && l.wf(),
        ensures
            r == self@.outs().possible(*loc, size as int),
    {
        self.output().possible_param(loc, size)
    }

    pub fn possible_input_param_with_slot(
        &self,
        loc: &Address,
        size: i32,
        slot: &mut i32,
        slotsize: &mut i32,
    ) -> (r: bool)
        requires
            self@.input matches Some(l) && l.wf(),
        ensures
            match self@.ins().found(*loc, size as int, true) {
                Some(i) => r && *final(slot) == self@.ins().entry[i as int].slot_at(*loc, 0) as i32
                    && *final(slotsize) == self@.ins().slot_size(i as int, size as int),
                None => !r && *final(slot) == *old(slot) && *final(slotsize) == *old(slotsize),
            },
    {
        self.input().possible_param_with_slot(loc, size, slot, slotsize)
    }

    pub fn possible_output_param_with_slot(
        &self,
        loc: &Address,
        size: i32,
        slot: &mut i32,
        slotsize: &mut i32,
    ) -> (r: bool)
        requires
            self@.output matches Some(l) && l.wf(),
        ensures
            match self@.outs().found(*loc, size as int, true) {
                Some(i) => r && *final(slot) == self@.outs().entry[i as int].slot_at(*loc, 0) as i32
                    && *final(slotsize) == self@.outs().slot_size(i as int, size as int),
                None => !r && *final(slot) == *old(slot) && *final(slotsize) == *old(slotsize),
            },
    {
        self.output().possible_param_with_slot(loc, size, slot, slotsize)
    }

    pub fn unjustified_input_param(&self, loc: &Address, size: i32, res: &mut VarnodeData) -> (r:
        bool)
        requires
            self@.input matches Some(l) && l.wf(),
        ensures
            r == self@.ins().unjustified(*loc, size as int),
            *final(res) == (if r {
                match self@.ins().entry[self@.ins().first_holder(
                    0,
                    *loc,
                    size as int,
                )->0].container(*loc, size as int) {
                    Some(v) => v,
                    None => *old(res),
                }
            } else {
                *old(res)
            }),
    {
        self.input().unjustified_container(loc, size, res)
    }

    pub fn assumed_input_extension(&self, addr: &Address, size: i32, res: &mut VarnodeData) -> (r:
        OpCode)
        requires
            self@.input matches Some(l) && l.wf(),
        ensures
            match self@.ins().first_extender(0, *addr, size as int) {
                Some(i) => r == self@.ins().entry[i].extension_op(*addr, size as int) && *final(res)
                    == self@.ins().entry[i].extension_container(*addr),
                None => r == OpCode::Copy && *final(res) == *old(res),
            },
    {
        self.input().assumed_extension(addr, size, res)
    }

    pub fn assumed_output_extension(&self, addr: &Address, size: i32, res: &mut VarnodeData) -> (r:
        OpCode)
        requires
            self@.output matches Some(l) && l.wf(),
        ensures
            match self@.outs().first_extender(0, *addr, size as int) {
                Some(i) => r == self@.outs().entry[i].extension_op(*addr, size as int) && *final(res)
                    == self@.outs().entry[i].extension_container(*addr),
                None => r == OpCode::Copy && *final(res) == *old(res),
            },
    {
        self.output().assumed_extension(addr, size, res)
    }

    pub fn get_biggest_contained_input_param(
        &self,
        loc: &Address,
        size: i32,
        res: &mut VarnodeData,
    ) -> (r: bool)
        requires
            self@.input matches Some(l) && l.wf(),
        ensures
            r == (self@.ins().biggest_contained(*loc, size as int) is Some),
            *final(res) == (match self@.ins().biggest_contained(*loc, size as int) {
                Some(v) => v,
                None => *old(res),
            }),
    {
        self.input().get_biggest_contained_param(loc, size, res)
    }

    pub fn get_biggest_contained_output(&self, loc: &Address, size: i32, res: &mut VarnodeData)
        -> (r: bool)
        requires
            self@.output matches Some(l) && l.wf(),
        ensures
            r == (self@.outs().biggest_contained(*loc, size as int) is Some),
            *final(res) == (match self@.outs().biggest_contained(*loc, size as int) {
                Some(v) => v,
                None => *old(res),
            }),
    {
        self.output().get_biggest_contained_param(loc, size, res)
    }

    /// Decide which input trials are parameters.
    pub fn derive_input_map(&self, active: &mut ParamActive) -> (r: Result<(), FspecError>)
        requires
            self@.input matches Some(l) && l.wf() && (l.kind == ParamListKind::Standard
                && l.entry.len() > 0 ==> l.decidable()) && fillin::tied(l, old(active)@.trial),
        ensures
            match r {
                Ok(_) => decide::decided(self@.ins(), old(active)@) == Ok::<ActiveView, FspecError>(
                    final(active)@,
                ),
                Err(e) => decide::decided(self@.ins(), old(active)@) == Err::<
                    ActiveView,
                    FspecError,
                >(e) && final(active)@ == old(active)@,
            },
    {
        self.input().fillin_map(active)
    }

    /// Decide which output trials hold the return value.
    pub fn derive_output_map(&self, active: &mut ParamActive) -> (r: Result<(), FspecError>)
        requires
            self@.output matches Some(l) && l.wf() && (l.kind == ParamListKind::Standard
                && l.entry.len() > 0 ==> l.decidable()) && fillin::tied(l, old(active)@.trial),
        ensures
            match r {
                Ok(_) => decide::decided(self@.outs(), old(active)@) == Ok::<
                    ActiveView,
                    FspecError,
                >(final(active)@),
                Err(e) => decide::decided(self@.outs(), old(active)@) == Err::<
                    ActiveView,
                    FspecError,
                >(e) && final(active)@ == old(active)@,
            },
    {
        self.output().fillin_map(active)
    }

    /// Start the lists of inputs and return values for a named strategy.
    pub fn build_param_list(&mut self, strategy: &str) -> (r: Result<(), FspecError>)
        ensures
            match strategy_kinds(strategy@) {
                Some((i, o)) => r is Ok && final(self)@ == (ModelView {
                    input: Some(empty_list(i)),
                    output: Some(empty_list(o)),
                    ..old(self)@
                }),
                None => r == Err::<(), FspecError>(FspecError::UnknownStrategy) && final(self)@
                    == old(self)@,
            },
            final(self).merged == old(self).merged,
    {
        let s = strategy.to_owned();
        let (i, o) = if s == String::new() || s == "standard".to_owned() {
            (ParamListKind::Standard, ParamListKind::StandardOut)
        } else if s == "register".to_owned() {
            (ParamListKind::Register, ParamListKind::RegisterOut)
        } else {
            return Err(FspecError::UnknownStrategy);
        };
        self.input = Some(ParamListStandard::new(i));
        self.output = Some(ParamListStandard::new(o));
        Ok(())
    }

    /// Can one model stand for the other: they are the same model, or one is a
    /// named copy of the other. Models are told apart by their identities.
    pub fn is_compatible(&self, op2: &ProtoModel) -> (r: bool)
        ensures
            r == compatible(self@, op2@),
    {
        if self.id == op2.id {
            return true;
        }
        if let Some(p) = self.compat_model {
            if p == op2.id {
                return true;
            }
        }
        if let Some(p) = op2.compat_model {
            if p == self.id {
                return true;
            }
        }
        false
    }

    /// Lay out a prototype: the storage of the return value, then that of the
    /// inputs. With `ignore_output_error` a return value that gets no storage
    /// is taken to be void.
    pub fn assign_parameter_storage(
        &self,
        proto: &PrototypePieces,
        res: &mut Vec<ParameterPieces>,
        ignore_output_error: bool,
        manager: &mut AddrSpaceManager,
    ) -> (r: Result<(), FspecError>)
        requires
            self@.lays_out(),
            proto.outtype is Some,
            old(res)@.len() == 0,
        ensures
            (MapOut { res: r, pieces: final(res)@, table: final(manager).table() })
                == self@.storage(
                proto.outtype,
                proto.intypes@,
                ignore_output_error,
                old(manager).default_data_space,
                old(manager).table(),
            ),
            final(manager).default_data_space == old(manager).default_data_space,
            final(manager).stack_space == old(manager).stack_space,
            old(manager).wf() ==> final(manager).wf(),
    {
        assert(res@ =~= Seq::empty());
        match self.output().assign_map(proto, res, manager) {
            Ok(_) => {},
            Err(e) => {
                let unassigned = e == FspecError::ParamUnassigned || e
                    == FspecError::ReturnUnassigned;
                if !ignore_output_error || !unassigned {
                    return Err(e);
                }
                res.clear();
                let mut p = ParameterPieces::default();
                p.type_ = Some(Datatype::new(0, TypeMetatype::Void));
                res.push(p);
                assert(res@ =~= void_return());
            },
        }
        let out = self.input().assign_map(proto, res, manager);
        if out.is_ok() && self.has_this {
            mark_this(res, self.input().is_this_before_ret_pointer());
        }
        out
    }

    /// Models are not restored from a document.
    pub fn decode(&mut self) -> (r: Result<(), FspecError>)
        ensures
            r == Err::<(), FspecError>(FspecError::Unsupported),
            *final(self) == *old(self),
    {
        Err(FspecError::Unsupported)
    }

    /// Look up an effect in an ordered list.
    pub fn lookup_effect(efflist: &[EffectRecord], addr: &Address, size: i32) -> (r: u32)
        requires
            effects::by_address(efflist@),
        ensures
            r == effects::effect_at(efflist@, *addr, size as int),
    {
        effects::lookup_effect(efflist, addr, size)
    }

    /// Look up a record by its range among the first `list_size` of a list: its
    /// position, -1 if no record overlaps the range, -2 if one does in part.
    pub fn lookup_record(efflist: &[EffectRecord], list_size: i32, addr: &Address, size: i32)
        -> (r: i32)
        requires
            0 <= list_size <= efflist@.len(),
        ensures
            r == effects::record_at(efflist@, list_size as int, *addr, size as int),
    {
        effects::lookup_record(efflist, list_size, addr, size)
    }

    /// The effect of a call on the `size` bytes at `addr`.
    pub fn has_effect(&self, addr: &Address, size: i32) -> (r: u32)
        requires
            effects::by_address(self@.effectlist),
        ensures
            r == effects::effect_at(self@.effectlist, *addr, size as int),
    {
        effects::lookup_effect(self.effectlist.as_slice(), addr, size)
    }

    /// Keep of an ordered list of locations what another one has too.
    pub fn intersect_registers(reg_list1: &mut Vec<VarnodeData>, reg_list2: &Vec<VarnodeData>)
        ensures
            final(reg_list1)@ == effects::common_locations(old(reg_list1)@, reg_list2@, 0, 0),
    {
        effects::intersect_registers(reg_list1, reg_list2)
    }

    pub fn set_name(&mut self, name: &str)
        ensures
            final(self)@ == (ModelView {
                name: name@,
                has_this: old(self).has_this || name@ == "__thiscall"@,
                ..old(self)@
            }),
            final(self).merged == old(self).merged,
    {
        self.name = name.to_owned();
        if is_thiscall(name) {
            self.has_this = true;
        }
    }

    pub fn set_has_this(&mut self, val: bool)
        ensures
            final(self)@ == (ModelView { has_this: val, ..old(self)@ }),
            final(self).merged == old(self).merged,
    {
        self.has_this = val;
    }

    pub fn set_constructor(&mut self, val: bool)
        ensures
            final(self)@ == (ModelView { is_construct: val, ..old(self)@ }),
            final(self).merged == old(self).merged,
    {
        self.is_construct = val;
    }

    /// The list of inputs, to be filled.
    pub fn input_mut(&mut self) -> (r: &mut ParamListStandard)
        requires
            old(self)@.input is Some,
        ensures
            r@ == old(self)@.ins(),
            final(self)@ == (ModelView { input: Some(final(r)@), ..old(self)@ }),
            final(self).merged == old(self).merged,
    {
        self.input.as_mut().unwrap()
    }

    /// The list of return values, to be filled.
    pub fn output_mut(&mut self) -> (r: &mut ParamListStandard)
        requires
            old(self)@.output is Some,
        ensures
            r@ == old(self)@.outs(),
            final(self)@ == (ModelView { output: Some(final(r)@), ..old(self)@ }),
            final(self).merged == old(self).merged,
    {
        self.output.as_mut().unwrap()
    }

    /// Add an effect, in order.
    pub fn push_effect(&mut self, eff: EffectRecord)
        requires
            effects::by_address(old(self)@.effectlist),
        ensures
            final(self)@ == (ModelView {
                effectlist: old(self)@.effectlist.insert(
                    effects::effect_position(
                        old(self)@.effectlist,
                        old(self)@.effectlist.len() as int,
                        eff,
                    ),
                    eff,
                ),
                ..old(self)@
            }),
            effects::by_address(final(self)@.effectlist),
            final(self).merged == old(self).merged,
    {
        effects::insert_effect(&mut self.effectlist, eff);
    }

    /// Add a location that tends to hold left-over values, in order.
    pub fn push_likely_trash(&mut self, vd: VarnodeData)
        ensures
            final(self)@ == (ModelView {
                likelytrash: old(self)@.likelytrash.insert(
                    effects::location_position(
                        old(self)@.likelytrash,
                        old(self)@.likelytrash.len() as int,
                        vd,
                    ),
                    vd,
                ),
                ..old(self)@
            }),
            final(self).merged == old(self).merged,
    {
        effects::insert_location(&mut self.likelytrash, vd);
    }

    /// Add a location for internal constants, in order.
    pub fn push_internal_storage(&mut self, vd: VarnodeData)
        ensures
            final(self)@ == (ModelView {
                internalstorage: old(self)@.internalstorage.insert(
                    effects::location_position(
                        old(self)@.internalstorage,
                        old(self)@.internalstorage.len() as int,
                        vd,
                    ),
                    vd,
                ),
                ..old(self)@
            }),
            final(self).merged == old(self).merged,
    {
        effects::insert_location(&mut self.internalstorage, vd);
    }

    pub fn set_inject_ids(&mut self, upon_entry: i32, upon_return: i32)
        ensures
            final(self)@ == (ModelView {
                inject_upon_entry: upon_entry,
                inject_upon_return: upon_return,
                ..old(self)@
            }),
            final(self).merged == old(self).merged,
    {
        self.inject_upon_entry = upon_entry;
        self.inject_upon_return = upon_return;
    }
}

/// The kinds of lists that a strategy asks for.
pub open spec fn strategy_kinds(s: Seq<char>) -> Option<(ParamListKind, ParamListKind)> {
    if s == Seq::<char>::empty() || s == "standard"@ {
        Some((ParamListKind::Standard, ParamListKind::StandardOut))
    } else if s == "register"@ {
        Some((ParamListKind::Register, ParamListKind::RegisterOut))
    } else {
        None
    }
}

/// A list without entries.
pub open spec fn empty_list(kind: ParamListKind) -> ListView {
    ListView {
        kind,
        numgroup: 0,
        maxdelay: 0,
        thisbeforeret: false,
        auto_killed_by_call: false,
        resource_start: Seq::empty(),
        entry: Seq::empty(),
        resolver: Seq::empty(),
        model_rules: Seq::empty(),
        spacebase: None,
        use_fillin_fallback: true,
    }
}

/// Compatibility goes both ways, every model is compatible with itself, and a
/// named copy with what it was copied from.
pub proof fn law_compatible(a: ModelView, b: ModelView, nm: Seq<char>, id: ProtoModelId)
    ensures
        compatible(a, b) == compatible(b, a),
        compatible(a, a),
        compatible(named_copy(nm, a, id), a),
        compatible(a, named_copy(nm, a, id)),
{
}

/// Of two models with identities of their own, one can stand for the other
/// only if it was copied from it: two copies of one model cannot stand for each
/// other, nor can two models that are no copies, whatever they hold.
pub proof fn law_only_copies_compatible(
    a: ModelView,
    b: ModelView,
    nm: Seq<char>,
    id: ProtoModelId,
    nm2: Seq<char>,
    id2: ProtoModelId,
)
    requires
        a.id != b.id,
        a.id != id,
        a.id != id2,
        id != id2,
    ensures
        compatible(a, b) <==> a.compat_model == Some(b.id) || b.compat_model == Some(a.id),
        a.compat_model is None && b.compat_model is None ==> !compatible(a, b),
        !compatible(named_copy(nm, a, id), named_copy(nm2, a, id2)),
{
}

/// Models made apart are strangers: of two new models, with identities from
/// two sources or from one source at different times, neither can stand for
/// the other, and no identity comes from two sources.
pub proof fn law_made_apart(
    x: IdSource,
    y: IdSource,
    stack: Option<AddrSpace>,
    stack2: Option<AddrSpace>,
)
    requires
        x.name() != y.name() || x.next() != y.next(),
    ensures
        !compatible(blank_model(x.upcoming(), stack), blank_model(y.upcoming(), stack2)),
        forall|id: ProtoModelId| x.name() != y.name() ==> !(#[trigger] x.issued(id) && y.issued(id)),
{
}

} // verus!
