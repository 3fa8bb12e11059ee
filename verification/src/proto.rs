//! Function prototypes: a model, parameters with storage, and properties.
use crate::active::ParamActive;
use crate::dtype::Datatype;
use crate::effects;
use crate::effects::EffectRecord;
use crate::error::FspecError;
use crate::merge;
use crate::model;
use crate::model::{ModelView, ProtoModel};
use crate::num;
use crate::pieces::ParameterPieces;
use crate::space;
use crate::space::{SpaceType, VarnodeData};
use crate::store;
use crate::store::{
    ParamView,
    ParameterBasic,
    ProtoParameter,
    ProtoStore,
    ProtoStoreInternal,
    StoreView,
};
use std::rc::Rc;
use vstd::prelude::*;

verus! {

/// The function takes a variable number of arguments.
pub const DOTDOTDOT: u32 = 1;

/// The function is locked to take no inputs.
pub const VOIDINPUTLOCK: u32 = 2;

/// The model is locked.
pub const MODELLOCK: u32 = 4;

/// Calls are replaced by the body.
pub const IS_INLINE: u32 = 8;

/// The function does not return.
pub const NO_RETURN: u32 = 16;

/// Shifted parameters have been added and removed.
pub const PARAMSHIFT_APPLIED: u32 = 32;

/// The inputs are not properly represented.
pub const ERROR_INPUTPARAM: u32 = 64;

/// The return value is not properly represented.
pub const ERROR_OUTPUTPARAM: u32 = 128;

/// The storage does not follow the model.
pub const CUSTOM_STORAGE: u32 = 256;

/// The function is a constructor.
pub const IS_CONSTRUCTOR: u32 = 0x200;

/// The function is a destructor.
pub const IS_DESTRUCTOR: u32 = 0x400;

/// The function is a method with a "this" pointer.
pub const HAS_THISPTR: u32 = 0x800;

/// The prototype overrides that of a single call.
pub const IS_OVERRIDE: u32 = 0x1000;

/// Possible storage of the return value is killed by a call.
pub const AUTO_KILLEDBYCALL: u32 = 0x2000;

/// The model, the parameters and the properties of a function. A nonempty
/// `effectlist` or `likelytrash` takes the place of the model's. `injectid` is
/// the code that replaces calls, if not negative, and `return_bytes_consumed`
/// the number of bytes of the return value that callers read, 0 for all.
#[derive(Debug)]
pub struct FuncProto {
    pub model: Option<Rc<ProtoModel>>,
    pub store: Option<ProtoStoreInternal>,
    pub extrapop: i32,
    pub flags: u32,
    pub effectlist: Vec<EffectRecord>,
    pub likelytrash: Vec<VarnodeData>,
    pub injectid: i32,
    pub return_bytes_consumed: i32,
}

/// A prototype in the abstract.
#[verifier::ext_equal]
pub struct ProtoView {
    pub model: Option<Rc<ProtoModel>>,
    pub store: Option<StoreView>,
    pub extrapop: i32,
    pub flags: u32,
    pub effectlist: Seq<EffectRecord>,
    pub likelytrash: Seq<VarnodeData>,
    pub injectid: i32,
    pub return_bytes_consumed: i32,
}

/// The abstract form of an optional collection.
pub open spec fn store_view(s: Option<ProtoStoreInternal>) -> Option<StoreView> {
    match s {
        Some(x) => Some(x@),
        None => None,
    }
}

impl View for FuncProto {
    type V = ProtoView;

    open spec fn view(&self) -> ProtoView {
        ProtoView {
            model: self.model,
            store: store_view(self.store),
            extrapop: self.extrapop,
            flags: self.flags,
            effectlist: self.effectlist@,
            likelytrash: self.likelytrash@,
            injectid: self.injectid,
            return_bytes_consumed: self.return_bytes_consumed,
        }
    }
}

/// A prototype of which nothing is known.
pub open spec fn blank_proto() -> ProtoView {
    ProtoView {
        model: None,
        store: None,
        extrapop: 0,
        flags: 0,
        effectlist: Seq::empty(),
        likelytrash: Seq::empty(),
        injectid: -1i32,
        return_bytes_consumed: 0,
    }
}

/// The end of a stack parameter, rounded up to four bytes.
pub open spec fn stack_end(p: ParamView) -> i32 {
    vstd::wrapping::i32_specs::wrapping_add(
        vstd::wrapping::i32_specs::wrapping_add(p.addr.offset as i32, p.size()),
        3,
    ) & 0xffffffci32
}

/// Is the parameter on the stack.
pub open spec fn on_stack(p: ParamView) -> bool {
    p.addr.space matches Some(s) && s.type_ == SpaceType::Spacebase
}

/// The bytes popped by a function that removes the return address and the
/// stack parameters among the first `n`.
pub open spec fn popped(s: Seq<Option<ParamView>>, n: int) -> i32
    decreases n,
{
    if n <= 0 || n > s.len() {
        4
    } else {
        let before = popped(s, n - 1);
        match s[n - 1] {
            Some(p) => if on_stack(p) && stack_end(p) > before {
                stack_end(p)
            } else {
                before
            },
            None => before,
        }
    }
}

/// An input with its data-type, and its name if it has one, locked or unlocked.
pub open spec fn locked_input(p: Option<ParamView>, val: bool) -> Option<ParamView> {
    match p {
        Some(p) => Some(
            if p.name.len() == 0 {
                p.with_type_lock(val)
            } else {
                p.with_type_lock(val).with_name_lock(val)
            },
        ),
        None => None,
    }
}

/// The position of the "this" pointer among the inputs: behind a pointer to
/// the return value.
pub open spec fn this_position(s: StoreView) -> int {
    if s.input(0) matches Some(p) && p.hidden_return() {
        1
    } else {
        0
    }
}

/// The number of bytes read, when `val` bytes are: 0 stands for all of them.
pub open spec fn fewer_bytes(before: i32, val: i32) -> i32 {
    if val != 0 && (before == 0 || val < before) {
        val
    } else {
        before
    }
}

impl ProtoView {
    /// The model.
    pub open spec fn model_view(self) -> ModelView {
        (*self.model->0)@
    }

    /// Has one of the properties `m`.
    pub open spec fn flag(self, m: u32) -> bool {
        num::bit(self.flags, m)
    }

    pub open spec fn with_flag(self, m: u32, val: bool) -> ProtoView {
        ProtoView {
            flags: if val {
                self.flags | m
            } else {
                self.flags & !m
            },
            ..self
        }
    }

    /// The parameters, where there are any, can be counted, and the effects
    /// are ordered.
    pub open spec fn wf(self) -> bool {
        (self.store matches Some(s) ==> s.wf()) && effects::by_address(self.effectlist)
    }

    pub open spec fn input_locked(self) -> bool {
        self.flag(VOIDINPUTLOCK) || (self.store matches Some(s) && s.input(0) matches Some(p)
            && p.type_locked())
    }

    pub open spec fn output_locked(self) -> bool {
        self.store matches Some(s) && s.output().type_locked()
    }

    /// Following the model `m`. An unknown number of popped bytes does not
    /// replace a number that came from an earlier model.
    pub open spec fn with_model(self, m: Option<Rc<ProtoModel>>) -> ProtoView {
        match m {
            None => ProtoView { model: None, extrapop: model::EXTRAPOP_UNKNOWN, ..self },
            Some(x) => {
                let v = (*x)@;
                let f1 = if v.has_this {
                    self.flags | HAS_THISPTR
                } else {
                    self.flags
                };
                let f2 = if v.is_construct {
                    f1 | IS_CONSTRUCTOR
                } else {
                    f1
                };
                ProtoView {
                    model: Some(x),
                    extrapop: if self.model is None || v.extrapop != model::EXTRAPOP_UNKNOWN {
                        v.extrapop
                    } else {
                        self.extrapop
                    },
                    flags: if v.output matches Some(l) && l.auto_killed_by_call {
                        f2 | AUTO_KILLEDBYCALL
                    } else {
                        f2
                    },
                    ..self
                }
            },
        }
    }

    /// Every input locked or unlocked. Locking locks the model; without inputs
    /// the absence of inputs is what is locked.
    pub open spec fn with_input_lock(self, val: bool) -> ProtoView {
        let p = if val {
            self.with_flag(MODELLOCK, true)
        } else {
            self
        };
        let s = self.store->0;
        if s.inparam.len() == 0 {
            p.with_flag(VOIDINPUTLOCK, val)
        } else {
            ProtoView {
                store: Some(
                    StoreView {
                        inparam: Seq::new(
                            s.inparam.len(),
                            |i: int| locked_input(s.inparam[i], val),
                        ),
                        ..s
                    },
                ),
                ..p
            }
        }
    }

    /// The return value locked or unlocked. Locking locks the model.
    pub open spec fn with_output_lock(self, val: bool) -> ProtoView {
        let s = self.store->0;
        ProtoView {
            store: Some(
                StoreView { outparam: Some(s.output().with_type_lock(val)), ..s },
            ),
            ..if val {
                self.with_flag(MODELLOCK, true)
            } else {
                self
            }
        }
    }

    /// The number of popped bytes that locked inputs determine.
    pub open spec fn with_resolved_pop(self) -> ProtoView {
        let s = self.store->0;
        if !self.input_locked() {
            self
        } else if self.flag(DOTDOTDOT) {
            if s.inparam.len() != 0 {
                ProtoView { extrapop: 4, ..self }
            } else {
                self
            }
        } else {
            ProtoView { extrapop: popped(s.inparam, s.inparam.len() as int), ..self }
        }
    }

    /// The "this" pointer of a method marked.
    pub open spec fn with_this_marked(self) -> ProtoView {
        let s = self.store->0;
        let k = this_position(s);
        if self.model_view().has_this && s.input(k) is Some {
            ProtoView {
                store: Some(
                    StoreView {
                        inparam: s.inparam.update(k, Some(s.inparam[k]->0.with_this(true))),
                        ..s
                    },
                ),
                ..self
            }
        } else {
            self
        }
    }

    /// Code injected in place of calls, or none for a negative `id`.
    pub open spec fn with_inject(self, id: i32) -> ProtoView {
        if id < 0 {
            ProtoView { injectid: -1i32, ..self.with_flag(IS_INLINE, false) }
        } else {
            ProtoView { injectid: id, ..self.with_flag(IS_INLINE, true) }
        }
    }

    /// Can be restricted to match `o`.
    pub open spec fn can_become(self, o: ProtoView) -> bool {
        &&& model::compatible(self.model_view(), o.model_view())
        &&& self.output_locked() && o.output_locked() ==> store::agree(
            self.store->0.output(),
            o.store->0.output(),
        )
        &&& self.extrapop == model::EXTRAPOP_UNKNOWN || self.extrapop == o.extrapop
        &&& self.flag(DOTDOTDOT) == o.flag(DOTDOTDOT) || (o.flag(DOTDOTDOT)
            && !self.input_locked())
        &&& self.injectid == o.injectid
        &&& self.flags & (IS_INLINE | NO_RETURN) == o.flags & (IS_INLINE | NO_RETURN)
        &&& self.effectlist == o.effectlist
        &&& self.likelytrash == o.likelytrash
    }
}

impl Default for FuncProto {
    fn default() -> (r: FuncProto)
        ensures
            r@ == blank_proto(),
    {
        FuncProto::new()
    }
}

impl FuncProto {
    pub fn new() -> (r: FuncProto)
        ensures
            r@ == blank_proto(),
            r@.wf(),
    {
        let r = FuncProto {
            model: None,
            store: None,
            extrapop: 0,
            flags: 0,
            effectlist: Vec::new(),
            likelytrash: Vec::new(),
            injectid: -1,
            return_bytes_consumed: 0,
        };
        assert(r@.effectlist =~= Seq::empty());
        assert(r@.likelytrash =~= Seq::empty());
        r
    }

    /// Take over another prototype, except for the bytes that callers read.
    pub fn copy(&mut self, op2: &FuncProto)
        ensures
            final(self)@ == (ProtoView {
                return_bytes_consumed: old(self)@.return_bytes_consumed,
                ..op2@
            }),
    {
        self.model = match &op2.model {
            Some(m) => Some(Rc::clone(m)),
            None => None,
        };
        self.extrapop = op2.extrapop;
        self.flags = op2.flags;
        self.store = match &op2.store {
            Some(s) => Some(s.copy()),
            None => None,
        };
        self.effectlist = effects::copy_effects(&op2.effectlist);
        self.likelytrash = space::copy_locations(&op2.likelytrash);
        self.injectid = op2.injectid;
    }

    /// Take over the properties that affect the flow of data.
    pub fn copy_flow_effects(&mut self, op2: &FuncProto)
        ensures
            final(self)@ == (ProtoView {
                flags: (old(self)@.flags & !(IS_INLINE | NO_RETURN)) | (op2@.flags & (IS_INLINE
                    | NO_RETURN)),
                injectid: op2@.injectid,
                ..old(self)@
            }),
    {
        self.flags = self.flags & !(IS_INLINE | NO_RETURN);
        self.flags = self.flags | (op2.flags & (IS_INLINE | NO_RETURN));
        self.injectid = op2.injectid;
    }

    /// Replace a merged model by the one that fits the trials best.
    pub fn resolve_model(&mut self, active: &ParamActive) -> (r: Result<(), FspecError>)
        requires
            old(self)@.model matches Some(m) ==> (m.merged matches Some(g) ==> merge::all_scorable(
                g.modellist@,
            )),
        ensures
            match old(self)@.model {
                None => r is Ok && final(self)@ == old(self)@,
                Some(m) => match m.merged {
                    None => r is Ok && final(self)@ == old(self)@,
                    Some(g) => match merge::best_model(
                        g.modellist@,
                        active@.trial,
                        g.modellist@.len() as int,
                    ).0 {
                        Some(b) => r is Ok && final(self)@ == old(self)@.with_model(
                            Some(g.modellist@[b]),
                        ),
                        None => r == Err::<(), FspecError>(FspecError::NoModelMatches)
                            && final(self)@ == old(self)@,
                    },
                },
            },
    {
        let chosen = match &self.model {
            None => {
                return Ok(());
            },
            Some(m) => {
                if !m.is_merged() {
                    return Ok(());
                }
                m.select_model(active)
            },
        };
        match chosen {
            Ok(m) => {
                self.set_model(Some(m));
                Ok(())
            },
            Err(e) => Err(e),
        }
    }

    pub fn has_model(&self) -> (r: bool)
        ensures
            r == (self@.model is Some),
    {
        self.model.is_some()
    }

    pub fn model(&self) -> (r: &Rc<ProtoModel>)
        requires
            self@.model is Some,
        ensures
            self@.model == Some(*r),
            (*r)@ == self@.model_view(),
    {
        self.model.as_ref().unwrap()
    }

    /// Is this the model of the prototype: the one with the same identity.
    pub fn has_matching_model(&self, op2: &Rc<ProtoModel>) -> (r: bool)
        ensures
            r == (self@.model matches Some(m) && (*m)@.id == (*op2)@.id),
    {
        match &self.model {
            Some(m) => m.id == op2.id,
            None => false,
        }
    }

    pub fn get_model_name(&self) -> (r: &str)
        requires
            self@.model is Some,
        ensures
            r@ == self@.model_view().name,
    {
        self.model().get_name()
    }

    pub fn get_model_extra_pop(&self) -> (r: i32)
        requires
            self@.model is Some,
        ensures
            r == self@.model_view().extrapop,
    {
        self.model().get_extra_pop()
    }

    pub fn is_model_unknown(&self) -> (r: bool)
        requires
            self@.model is Some,
        ensures
            r == self@.model_view().is_unknown,
    {
        self.model().is_unknown()
    }

    pub fn print_model_in_decl(&self) -> (r: bool)
        requires
            self@.model is Some,
        ensures
            r == self@.model_view().is_printed,
    {
        self.model().print_in_decl()
    }

    /// Follow a model, or none.
    pub fn set_model(&mut self, m: Option<Rc<ProtoModel>>)
        ensures
            final(self)@ == old(self)@.with_model(m),
    {
        match m {
            Some(m) => {
                let expop: i32 = m.get_extra_pop();
                if self.model.is_none() || expop != model::EXTRAPOP_UNKNOWN {
                    self.extrapop = expop;
                }
                if m.has_this_pointer() {
                    self.flags = self.flags | HAS_THISPTR;
                }
                if m.is_constructor() {
                    self.flags = self.flags | IS_CONSTRUCTOR;
                }
                if m.is_auto_killed_by_call() {
                    self.flags = self.flags | AUTO_KILLEDBYCALL;
                }
                self.model = Some(m);
            },
            None => {
                self.model = None;
                self.extrapop = model::EXTRAPOP_UNKNOWN;
            },
        }
    }

    /// Start a collection of parameters, and follow the model if there is none
    /// yet.
    pub fn set_internal(&mut self, m: Rc<ProtoModel>, vt: Datatype)
        ensures
            final(self)@ == ({
                let p = ProtoView { store: Some(store::empty_store(vt)), ..old(self)@ };
                if old(self)@.model is None {
                    p.with_model(Some(m))
                } else {
                    p
                }
            }),
    {
        self.store = Some(ProtoStoreInternal::new(vt));
        if self.model.is_none() {
            self.set_model(Some(m));
        }
    }

    /// Parameters backed by the symbols of a scope are not available.
    pub fn set_scope(&mut self) -> (r: Result<(), FspecError>)
        ensures
            r == Err::<(), FspecError>(FspecError::Unsupported),
            final(self)@ == old(self)@,
    {
        Err(FspecError::Unsupported)
    }

    pub fn get_param(&self, i: i32) -> (r: Option<&ParameterBasic>)
        requires
            self@.store is Some,
        ensures
            match r {
                Some(p) => self@.store->0.input(i as int) == Some(p@),
                None => self@.store->0.input(i as int) is None,
            },
    {
        self.store.as_ref().unwrap().get_input(i)
    }

    pub fn set_param(&mut self, i: i32, name: &str, piece: &ParameterPieces)
        requires
            old(self)@.store is Some,
            0 <= i < i32::MAX,
            piece.type_ is Some,
        ensures
            final(self)@ == (ProtoView {
                store: Some(old(self)@.store->0.with_input(i as int, name@, *piece)),
                ..old(self)@
            }),
    {
        if let Some(s) = &mut self.store {
            s.set_input(i, name, piece);
        }
    }

    pub fn remove_param(&mut self, i: i32)
        requires
            old(self)@.store is Some,
        ensures
            final(self)@ == (ProtoView {
                store: Some(old(self)@.store->0.without_input(i as int)),
                ..old(self)@
            }),
    {
        if let Some(s) = &mut self.store {
            s.clear_input(i);
        }
    }

    pub fn num_params(&self) -> (r: i32)
        requires
            self@.store is Some,
        ensures
            r == self@.store->0.inparam.len() as i32,
    {
        self.store.as_ref().unwrap().get_num_inputs()
    }

    pub fn get_output(&self) -> (r: &ParameterBasic)
        requires
            self@.store matches Some(s) && s.outparam is Some,
        ensures
            r@ == self@.store->0.output(),
    {
        self.store.as_ref().unwrap().get_output()
    }

    pub fn set_output(&mut self, piece: &ParameterPieces)
        requires
            old(self)@.store is Some,
            piece.type_ is Some,
        ensures
            final(self)@ == (ProtoView {
                store: Some(old(self)@.store->0.with_output(*piece)),
                ..old(self)@
            }),
    {
        if let Some(s) = &mut self.store {
            s.set_output(piece);
        }
    }

    /// Drop the inputs, where there are any.
    pub fn store_clear_all_inputs(&mut self)
        ensures
            final(self)@ == (match old(self)@.store {
                Some(s) => ProtoView { store: Some(s.without_inputs()), ..old(self)@ },
                None => old(self)@,
            }),
    {
        if let Some(s) = &mut self.store {
            s.clear_all_inputs();
        }
    }

    /// Set an input, if parameters are kept.
    pub fn store_set_input(&mut self, i: i32, nm: &str, piece: &ParameterPieces)
        requires
            old(self)@.store is Some ==> 0 <= i < i32::MAX && piece.type_ is Some,
        ensures
            final(self)@ == (match old(self)@.store {
                Some(s) => ProtoView {
                    store: Some(s.with_input(i as int, nm@, *piece)),
                    ..old(self)@
                },
                None => old(self)@,
            }),
    {
        if let Some(s) = &mut self.store {
            s.set_input(i, nm, piece);
        }
    }

    pub fn get_output_type(&self) -> (r: Option<Datatype>)
        requires
            self@.store matches Some(s) && s.outparam is Some,
        ensures
            r == self@.store->0.output().type_,
    {
        self.get_output().get_type()
    }

    pub fn has_store(&self) -> (r: bool)
        ensures
            r == (self@.store is Some),
    {
        self.store.is_some()
    }

    /// Start a collection of parameters unless there is one.
    pub fn attach_internal_store(&mut self, void_type: Datatype)
        ensures
            final(self)@ == (if old(self)@.store is Some {
                old(self)@
            } else {
                ProtoView { store: Some(store::empty_store(void_type)), ..old(self)@ }
            }),
    {
        if self.store.is_none() {
            self.store = Some(ProtoStoreInternal::new(void_type));
        }
    }

    /// Replace the collection of parameters.
    pub fn set_store(&mut self, s: ProtoStoreInternal)
        ensures
            final(self)@ == (ProtoView { store: Some(s@), ..old(self)@ }),
    {
        self.store = Some(s);
    }

    pub fn is_input_locked(&self) -> (r: bool)
        requires
            self@.wf(),
        ensures
            r == self@.input_locked(),
    {
        if num::has_bit(self.flags, VOIDINPUTLOCK) {
            return true;
        }
        if !self.has_store() {
            return false;
        }
        if self.num_params() == 0 {
            return false;
        }
        match self.get_param(0) {
            Some(p) => p.is_type_locked(),
            None => false,
        }
    }

    pub fn is_output_locked(&self) -> (r: bool)
        requires
            self@.store matches Some(s) ==> s.outparam is Some,
        ensures
            r == self@.output_locked(),
    {
        if !self.has_store() {
            return false;
        }
        self.get_output().is_type_locked()
    }

    fn set_flag(&mut self, m: u32, val: bool)
        ensures
            final(self)@ == old(self)@.with_flag(m, val),
    {
        self.flags = if val {
            self.flags | m
        } else {
            self.flags & !m
        };
    }

    pub fn is_model_locked(&self) -> (r: bool)
        ensures
            r == self@.flag(MODELLOCK),
    {
        num::has_bit(self.flags, MODELLOCK)
    }

    pub fn has_custom_storage(&self) -> (r: bool)
        ensures
            r == self@.flag(CUSTOM_STORAGE),
    {
        num::has_bit(self.flags, CUSTOM_STORAGE)
    }

    /// Lock or unlock the inputs.
    pub fn set_input_lock(&mut self, val: bool)
        requires
            old(self)@.store matches Some(s) && s.wf(),
        ensures
            final(self)@ == old(self)@.with_input_lock(val),
            old(self)@.wf() ==> final(self)@.wf(),
    {
        if val {
            self.flags = self.flags | MODELLOCK;
        }
        let num: i32 = self.num_params();
        if num == 0 {
            self.set_flag(VOIDINPUTLOCK, val);
            return ;
        }
        let ghost p0 = self@;
        let ghost s0 = self@.store->0;
        let mut i: i32 = 0;
        while i < num
            invariant
                0 <= i <= num,
                num == s0.inparam.len(),
                p0.store == Some(s0),
                self@.store matches Some(s) && s == (StoreView { inparam: s.inparam, ..s0 })
                    && s.inparam.len() == s0.inparam.len() && (forall|k: int|
                    0 <= k < num ==> (#[trigger] s.inparam[k]) == (if k < i {
                        locked_input(s0.inparam[k], val)
                    } else {
                        s0.inparam[k]
                    })),
                self@ == (ProtoView { store: self@.store, ..p0 }),
            decreases num - i,
        {
            let mut changed: Option<ParameterBasic> = None;
            if let Some(p) = self.get_param(i) {
                let mut q = p.copy();
                q.set_type_lock(val);
                if !q.is_name_undefined() {
                    q.set_name_lock(val);
                }
                changed = Some(q);
            }
            if let Some(q) = changed {
                if let Some(s) = &mut self.store {
                    s.replace_input(i, q);
                }
            }
            i += 1;
        }
        assert(self@.store->0.inparam =~= old(self)@.with_input_lock(val).store->0.inparam);
        assert(self@ =~= old(self)@.with_input_lock(val));
    }

    /// Lock or unlock the return value.
    pub fn set_output_lock(&mut self, val: bool)
        requires
            old(self)@.store matches Some(s) && s.outparam is Some,
        ensures
            final(self)@ == old(self)@.with_output_lock(val),
            old(self)@.wf() ==> final(self)@.wf(),
    {
        if val {
            self.flags = self.flags | MODELLOCK;
        }
        let mut q = self.get_output().copy();
        q.set_type_lock(val);
        if let Some(s) = &mut self.store {
            s.replace_output(q);
        }
        assert(self@ =~= old(self)@.with_output_lock(val));
    }

    pub fn set_model_lock(&mut self, val: bool)
        ensures
            final(self)@ == old(self)@.with_flag(MODELLOCK, val),
    {
        self.set_flag(MODELLOCK, val);
    }

    pub fn is_inline(&self) -> (r: bool)
        ensures
            r == self@.flag(IS_INLINE),
    {
        num::has_bit(self.flags, IS_INLINE)
    }

    pub fn set_inline(&mut self, val: bool)
        ensures
            final(self)@ == old(self)@.with_flag(IS_INLINE, val),
    {
        self.set_flag(IS_INLINE, val);
    }

    pub fn is_no_return(&self) -> (r: bool)
        ensures
            r == self@.flag(NO_RETURN),
    {
        num::has_bit(self.flags, NO_RETURN)
    }

    pub fn set_no_return(&mut self, val: bool)
        ensures
            final(self)@ == old(self)@.with_flag(NO_RETURN, val),
    {
        self.set_flag(NO_RETURN, val);
    }

    pub fn has_this_pointer(&self) -> (r: bool)
        ensures
            r == self@.flag(HAS_THISPTR),
    {
        num::has_bit(self.flags, HAS_THISPTR)
    }

    pub fn is_constructor(&self) -> (r: bool)
        ensures
            r == self@.flag(IS_CONSTRUCTOR),
    {
        num::has_bit(self.flags, IS_CONSTRUCTOR)
    }

    pub fn set_constructor(&mut self, val: bool)
        ensures
            final(self)@ == old(self)@.with_flag(IS_CONSTRUCTOR, val),
    {
        self.set_flag(IS_CONSTRUCTOR, val);
    }

    pub fn is_destructor(&self) -> (r: bool)
        ensures
            r == self@.flag(IS_DESTRUCTOR),
    {
        num::has_bit(self.flags, IS_DESTRUCTOR)
    }

    pub fn set_destructor(&mut self, val: bool)
        ensures
            final(self)@ == old(self)@.with_flag(IS_DESTRUCTOR, val),
    {
        self.set_flag(IS_DESTRUCTOR, val);
    }

    pub fn has_input_errors(&self) -> (r: bool)
        ensures
            r == self@.flag(ERROR_INPUTPARAM),
    {
        num::has_bit(self.flags, ERROR_INPUTPARAM)
    }

    pub fn set_input_errors(&mut self, val: bool)
        ensures
            final(self)@ == old(self)@.with_flag(ERROR_INPUTPARAM, val),
    {
        self.set_flag(ERROR_INPUTPARAM, val);
    }

    pub fn has_output_errors(&self) -> (r: bool)
        ensures
            r == self@.flag(ERROR_OUTPUTPARAM),
    {
        num::has_bit(self.flags, ERROR_OUTPUTPARAM)
    }

    pub fn set_output_errors(&mut self, val: bool)
        ensures
            final(self)@ == old(self)@.with_flag(ERROR_OUTPUTPARAM, val),
    {
        self.set_flag(ERROR_OUTPUTPARAM, val);
    }

    pub fn is_dotdotdot(&self) -> (r: bool)
        ensures
            r == self@.flag(DOTDOTDOT),
    {
        num::has_bit(self.flags, DOTDOTDOT)
    }

    pub fn set_dotdotdot(&mut self, val: bool)
        ensures
            final(self)@ == old(self)@.with_flag(DOTDOTDOT, val),
    {
        self.set_flag(DOTDOTDOT, val);
    }

    pub fn is_override(&self) -> (r: bool)
        ensures
            r == self@.flag(IS_OVERRIDE),
    {
        num::has_bit(self.flags, IS_OVERRIDE)
    }

    pub fn set_override(&mut self, val: bool)
        ensures
            final(self)@ == old(self)@.with_flag(IS_OVERRIDE, val),
    {
        self.set_flag(IS_OVERRIDE, val);
    }

    pub fn is_paramshift_applied(&self) -> (r: bool)
        ensures
            r == self@.flag(PARAMSHIFT_APPLIED),
    {
        num::has_bit(self.flags, PARAMSHIFT_APPLIED)
    }

    pub fn set_paramshift_applied(&mut self, val: bool)
        ensures
            final(self)@ == old(self)@.with_flag(PARAMSHIFT_APPLIED, val),
    {
        self.set_flag(PARAMSHIFT_APPLIED, val);
    }

    pub fn get_inject_id(&self) -> (r: i32)
        ensures
            r == self@.injectid,
    {
        self.injectid
    }

    pub fn get_return_bytes_consumed(&self) -> (r: i32)
        ensures
            r == self@.return_bytes_consumed,
    {
        self.return_bytes_consumed
    }

    pub fn get_extra_pop(&self) -> (r: i32)
        ensures
            r == self@.extrapop,
    {
        self.extrapop
    }

    pub fn set_extra_pop(&mut self, ep: i32)
        ensures
            final(self)@ == (ProtoView { extrapop: ep, ..old(self)@ }),
    {
        self.extrapop = ep;
    }

    pub fn get_inject_upon_entry(&self) -> (r: i32)
        requires
            self@.model is Some,
        ensures
            r == self@.model_view().inject_upon_entry,
    {
        self.model().get_inject_upon_entry()
    }

    pub fn get_inject_upon_return(&self) -> (r: i32)
        requires
            self@.model is Some,
        ensures
            r == self@.model_view().inject_upon_return,
    {
        self.model().get_inject_upon_return()
    }

    /// The properties by which prototypes are told apart.
    pub fn get_comparable_flags(&self) -> (r: u32)
        ensures
            r == self@.flags & (((DOTDOTDOT | IS_CONSTRUCTOR) | IS_DESTRUCTOR) | HAS_THISPTR),
    {
        self.flags & (((DOTDOTDOT | IS_CONSTRUCTOR) | IS_DESTRUCTOR) | HAS_THISPTR)
    }

    /// Note that callers read `val` bytes of the return value. The smallest
    /// such number counts, and 0 says nothing. Has the number changed.
    pub fn set_return_bytes_consumed(&mut self, val: i32) -> (r: bool)
        ensures
            final(self)@ == (ProtoView {
                return_bytes_consumed: fewer_bytes(old(self)@.return_bytes_consumed, val),
                ..old(self)@
            }),
            r == (final(self)@.return_bytes_consumed != old(self)@.return_bytes_consumed),
    {
        if val == 0 {
            return false;
        }
        if self.return_bytes_consumed == 0 || val < self.return_bytes_consumed {
            self.return_bytes_consumed = val;
            return true;
        }
        false
    }

    /// Find the number of bytes popped by a function with locked inputs.
    pub fn resolve_extra_pop(&mut self)
        requires
            old(self)@.wf(),
            old(self)@.input_locked() ==> old(self)@.store is Some,
        ensures
            final(self)@ == old(self)@.with_resolved_pop(),
    {
        if !self.is_input_locked() {
            return ;
        }
        let numparams: i32 = self.num_params();
        if self.is_dotdotdot() {
            if numparams != 0 {
                self.set_extra_pop(4);
            }
            return ;
        }
        let mut expop: i32 = 4;
        let mut i: i32 = 0;
        let ghost s = self@.store->0.inparam;
        while i < numparams
            invariant
                0 <= i <= numparams,
                self@ == old(self)@,
                self@.store is Some,
                s == self@.store->0.inparam,
                numparams == s.len(),
                expop == popped(s, i as int),
            decreases numparams - i,
        {
            if let Some(p) = self.get_param(i) {
                let addr = p.get_address();
                let stack = match addr.space {
                    Some(spc) => spc.type_ == SpaceType::Spacebase,
                    None => false,
                };
                if stack {
                    let cur: i32 = (addr.offset as i32).wrapping_add(p.get_size()).wrapping_add(3)
                        & 0xffffffc;
                    if cur > expop {
                        expop = cur;
                    }
                }
            }
            i += 1;
        }
        self.set_extra_pop(expop);
    }

    /// Drop the inputs unless they are locked.
    pub fn clear_unlocked_input(&mut self)
        requires
            old(self)@.wf(),
        ensures
            final(self)@ == (if old(self)@.input_locked() {
                old(self)@
            } else {
                match old(self)@.store {
                    Some(s) => ProtoView { store: Some(s.without_inputs()), ..old(self)@ },
                    None => old(self)@,
                }
            }),
            final(self)@.wf(),
    {
        if self.is_input_locked() {
            return ;
        }
        self.store_clear_all_inputs();
    }

    /// Drop the return value unless it is locked; where its size alone is
    /// locked, the size stays.
    pub fn clear_unlocked_output(&mut self)
        requires
            old(self)@.store matches Some(s) && s.outparam is Some,
        ensures
            final(self)@ == (ProtoView {
                store: Some(
                    ({
                        let s = old(self)@.store->0;
                        let o = s.output();
                        if !o.type_locked() {
                            s.without_output()
                        } else if o.size_locked() && old(self)@.model is Some {
                            StoreView { outparam: Some(o.with_size_only()), ..s }
                        } else {
                            s
                        }
                    }),
                ),
                return_bytes_consumed: 0,
                ..old(self)@
            }),
            old(self)@.wf() ==> final(self)@.wf(),
    {
        let type_locked = self.get_output().is_type_locked();
        let size_locked = self.get_output().is_size_type_locked();
        if type_locked {
            if size_locked && self.model.is_some() {
                let mut q = self.get_output().copy();
                q.reset_size_lock_type();
                if let Some(s) = &mut self.store {
                    s.replace_output(q);
                }
            }
        } else {
            if let Some(s) = &mut self.store {
                s.clear_output();
            }
        }
        self.return_bytes_consumed = 0;
    }

    /// Drop the inputs, locked or not.
    pub fn clear_input(&mut self)
        requires
            old(self)@.store is Some,
        ensures
            final(self)@ == (ProtoView {
                store: Some(old(self)@.store->0.without_inputs()),
                ..old(self)@.with_flag(VOIDINPUTLOCK, false)
            }),
            old(self)@.wf() ==> final(self)@.wf(),
    {
        self.store_clear_all_inputs();
        self.set_flag(VOIDINPUTLOCK, false);
    }

    /// Replace calls by the code `id`; a negative one cancels this.
    pub fn set_inject_id(&mut self, id: i32)
        ensures
            final(self)@ == old(self)@.with_inject(id),
    {
        if id < 0 {
            self.cancel_inject_id();
        } else {
            self.injectid = id;
            self.set_flag(IS_INLINE, true);
        }
    }

    pub fn cancel_inject_id(&mut self)
        ensures
            final(self)@ == old(self)@.with_inject(-1i32),
    {
        self.injectid = -1;
        self.set_flag(IS_INLINE, false);
    }

    /// Mark the "this" pointer if the model has one.
    pub fn update_this_pointer(&mut self)
        requires
            old(self)@.model is Some,
            old(self)@.store matches Some(s) && s.wf(),
        ensures
            final(self)@ == old(self)@.with_this_marked(),
            old(self)@.wf() ==> final(self)@.wf(),
    {
        if !self.model().has_this_pointer() {
            return ;
        }
        let num_inputs: i32 = self.num_params();
        if num_inputs == 0 {
            return ;
        }
        let mut idx: i32 = 0;
        let hidden = match self.get_param(0) {
            Some(p) => p.is_hidden_return(),
            None => false,
        };
        if hidden {
            if num_inputs < 2 {
                return ;
            }
            idx = 1;
        }
        let mut changed: Option<ParameterBasic> = None;
        if let Some(p) = self.get_param(idx) {
            let mut q = p.copy();
            q.set_this_pointer(true);
            changed = Some(q);
        }
        if let Some(q) = changed {
            if let Some(s) = &mut self.store {
                s.replace_input(idx, q);
            }
        }
        assert(self@ =~= old(self)@.with_this_marked());
    }

    /// Can this be restricted to match another prototype.
    pub fn is_compatible(&self, op2: &FuncProto) -> (r: bool)
        requires
            self@.model is Some,
            op2@.model is Some,
            self@.wf(),
            op2@.wf(),
        ensures
            r == self@.can_become(op2@),
    {
        if !self.model().is_compatible(op2.model()) {
            return false;
        }
        if op2.is_output_locked() && self.is_output_locked() {
            if !store::proto_parameter_eq(self.get_output(), op2.get_output()) {
                return false;
            }
        }
        if self.extrapop != model::EXTRAPOP_UNKNOWN && self.extrapop != op2.extrapop {
            return false;
        }
        if self.is_dotdotdot() != op2.is_dotdotdot() {
            if op2.is_dotdotdot() {
                if self.is_input_locked() {
                    return false;
                }
            } else {
                return false;
            }
        }
        if self.injectid != op2.injectid {
            return false;
        }
        if (self.flags & (IS_INLINE | NO_RETURN)) != (op2.flags & (IS_INLINE | NO_RETURN)) {
            return false;
        }
        if !same_effects(&self.effectlist, &op2.effectlist) {
            return false;
        }
        same_locations(&self.likelytrash, &op2.likelytrash)
    }

    /// Is possible storage of the return value killed by a call.
    pub fn is_auto_killed_by_call(&self) -> (r: bool)
        requires
            self@.store matches Some(s) ==> s.outparam is Some,
        ensures
            r == (self@.flag(AUTO_KILLEDBYCALL) || self@.output_locked()),
    {
        if num::has_bit(self.flags, AUTO_KILLEDBYCALL) {
            return true;
        }
        self.is_output_locked()
    }
}

/// Are two lists of effects the same.
fn same_effects(a: &Vec<EffectRecord>, b: &Vec<EffectRecord>) -> (r: bool)
    ensures
        r == (a@ == b@),
{
    if a.len() != b.len() {
        return false;
    }
    let mut i: usize = 0;
    while i < a.len()
        invariant
            i <= a.len(),
            a.len() == b.len(),
            forall|k: int| 0 <= k < i ==> a@[k] == b@[k],
        decreases a.len() - i,
    {
        if !a[i].same(&b[i]) {
            return false;
        }
        i += 1;
    }
    assert(a@ =~= b@);
    true
}

/// Are two lists of locations the same.
fn same_locations(a: &Vec<VarnodeData>, b: &Vec<VarnodeData>) -> (r: bool)
    ensures
        r == (a@ == b@),
{
    if a.len() != b.len() {
        return false;
    }
    let mut i: usize = 0;
    while i < a.len()
        invariant
            i <= a.len(),
            a.len() == b.len(),
            forall|k: int| 0 <= k < i ==> a@[k] == b@[k],
        decreases a.len() - i,
    {
        if !a[i].same(&b[i]) {
            return false;
        }
        i += 1;
    }
    assert(a@ =~= b@);
    true
}

/// A property set or cleared reads back, and the others are left alone.
pub proof fn law_flag_reads_back(p: ProtoView, m: u32, n: u32, val: bool)
    requires
        m != 0,
        m & n == 0,
    ensures
        p.with_flag(m, val).flag(m) == val,
        p.with_flag(m, val).flag(n) == p.flag(n),
{
    num::lemma_set_bits(p.flags, m, n);
    num::lemma_clear_bits(p.flags, m, n);
}

/// A prototype can always be restricted to match itself or a copy.
pub proof fn law_becomes_copy(p: ProtoView, bytes: i32)
    ensures
        p.can_become((ProtoView { return_bytes_consumed: bytes, ..p })),
{
}

/// Locking the inputs locks them, with and without inputs, as long as the
/// first one is there, and locks the model. Unlocking undoes the lock.
pub proof fn law_input_lock(p: ProtoView)
    requires
        p.store matches Some(s) && (s.inparam.len() > 0 ==> s.inparam[0] is Some),
    ensures
        p.with_input_lock(true).input_locked(),
        p.with_input_lock(true).flag(MODELLOCK),
        !p.flag(VOIDINPUTLOCK) ==> !p.with_input_lock(false).input_locked(),
        !p.flag(VOIDINPUTLOCK) ==> !p.with_input_lock(true).with_input_lock(false).input_locked(),
{
    let s = p.store->0;
    let f = p.flags;
    assert(((f | 4u32) | 2u32) & 2u32 != 0 && ((f | 4u32) | 2u32) & 4u32 != 0) by (bit_vector);
    assert((f | 4u32) & 4u32 != 0) by (bit_vector);
    assert((f & !2u32) & 2u32 == 0) by (bit_vector);
    assert((((f | 4u32) | 2u32) & !2u32) & 2u32 == 0) by (bit_vector);
    assert(f & 2u32 == 0 ==> (f | 4u32) & 2u32 == 0) by (bit_vector);
    if s.inparam.len() > 0 {
        lemma_locked_input(s.inparam[0]->0, true);
        lemma_locked_input(s.inparam[0]->0, false);
        let t = locked_input(s.inparam[0], true)->0;
        lemma_locked_input(t, false);
        assert(p.with_input_lock(true).store->0.inparam[0] == locked_input(s.inparam[0], true));
        assert(p.with_input_lock(false).store->0.inparam[0] == locked_input(s.inparam[0], false));
        assert(p.with_input_lock(true).with_input_lock(false).store->0.inparam[0]
            == locked_input(Some(t), false));
    }
}

proof fn lemma_locked_input(p: ParamView, val: bool)
    ensures
        locked_input(Some(p), val) matches Some(q) && q.type_locked() == val,
{
    let f = p.flags;
    assert((f | 16u32) & 16u32 != 0 && ((f | 16u32) | 32u32) & 16u32 != 0 && (f & !(16u32
        | 32u32)) & 16u32 == 0) by (bit_vector);
    let g = p.with_type_lock(val).flags;
    assert((g | 8u32) & 16u32 == g & 16u32 && (g & !8u32) & 16u32 == g & 16u32) by (bit_vector);
}

/// Of several numbers of bytes read, the smallest is kept, whatever their order.
pub proof fn law_fewest_bytes(before: i32, a: i32, b: i32)
    requires
        before >= 0,
        a >= 0,
        b >= 0,
    ensures
        fewer_bytes(fewer_bytes(before, a), b) == fewer_bytes(fewer_bytes(before, b), a),
        before != 0 ==> 0 < fewer_bytes(before, a) <= before,
{
}

} // verus!
