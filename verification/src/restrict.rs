//! Restricting the prototype of a call to another one, and the varnode that
//! stands for the stack pointer at a call.
use crate::callspec::{CallView, FuncCallSpecs};
use crate::dtype::TypeMetatype;
use crate::error::FspecError;
use crate::graph::{Graph, GraphView, OpId, VarnodeId};
use crate::num;
use crate::opcode::OpCode;
use crate::proto;
use crate::proto::{FuncProto, ProtoView};
use crate::query;
use crate::script::{Edit, Script, ScriptView};
use crate::space::{AddrSpace, Address, SpaceType};
use crate::store::{ParamView, ParameterBasic, ProtoParameter};
use crate::trial::ParamTrial;
use vstd::prelude::*;

verus! {

/// How the name of a function without a symbol starts.
#[derive(Debug, Clone, Copy, PartialEq, Eq, Structural)]
pub enum NameStyle {
    Angr,
    Ghidra,
    Func,
}

/// The start of the name of a function without a symbol.
pub open spec fn name_prefix(style: NameStyle) -> Seq<char> {
    match style {
        NameStyle::Angr => "sub_"@,
        NameStyle::Ghidra => "FUN_"@,
        NameStyle::Func => "func_"@,
    }
}

/// What is shown of a call.
#[derive(Debug)]
pub struct FspecCallInfo {
    pub printed_name: String,
    pub entry: Address,
}

/// The slot of the first trial from `i` on that covers the bytes from `start`
/// to `last`, 0 if there is none or it is ruled out already. A stack location
/// without a trial gives -1: it can be loaded.
pub open spec fn reuse_from(s: Seq<ParamTrial>, i: int, start: Address, last: Address) -> i32
    decreases s.len() - i,
{
    if i < 0 || i >= s.len() {
        if start.space matches Some(x) && x.type_ == SpaceType::Spacebase {
            -1i32
        } else {
            0
        }
    } else if start.before(s[i].addr) || s[i].addr.plus(s[i].size - 1).before(last) {
        reuse_from(s, i + 1, start, last)
    } else if s[i].flags.defnouse {
        0
    } else {
        s[i].slot
    }
}

/// Does a varnode hold the parameter, or the parameter the varnode.
pub open spec fn meets_param(p: ParamView, addr: Address, size: int) -> bool {
    query::offset_in(p, addr, size) >= 0 || addr.justified_offset(
        size,
        p.addr,
        p.size() as int,
        false,
    ) >= 0
}

/// The varnode `v`, if it is there and meets the parameter.
pub open spec fn met(g: GraphView, v: Option<VarnodeId>, p: ParamView) -> Seq<VarnodeId> {
    match v {
        Some(id) => match g.vn(id) {
            Some(vn) => if meets_param(p, vn.addr, vn.size as int) {
                seq![id]
            } else {
                Seq::empty()
            },
            None => Seq::empty(),
        },
        None => Seq::empty(),
    }
}

/// The values created indirectly by the operations that end with `op` and meet
/// the parameter, nearest first.
pub open spec fn created(g: GraphView, op: Option<OpId>, p: ParamView) -> Seq<VarnodeId>
    decreases (match op {
        Some(o) => g.order(o) + 1,
        None => 0,
    }),
{
    match op {
        None => Seq::empty(),
        Some(o) => match g.op(o) {
            None => Seq::empty(),
            Some(v) => if v.code != OpCode::Indirect {
                Seq::empty()
            } else {
                let here = if v.creation {
                    met(g, v.output, p)
                } else {
                    Seq::empty()
                };
                match v.previous {
                    Some(q) => if g.order(q) < g.order(o) && g.order(q) >= 0 {
                        here + created(g, Some(q), p)
                    } else {
                        here
                    },
                    None => here,
                }
            },
        },
    }
}

/// The outcome of restricting the prototype of a call.
#[verifier::ext_equal]
pub struct Restricted {
    pub ok: bool,
    pub call: CallView,
    pub newinput: Seq<Option<VarnodeId>>,
    pub newoutput: Seq<VarnodeId>,
}

impl CallView {
    /// What a parameter of another prototype takes over: an input slot, -1 for
    /// a load from the stack, 0 for nothing.
    pub open spec fn reuse(self, p: ParamView) -> i32 {
        reuse_from(self.activeinput.trial, 0, p.addr, p.addr.plus(p.size() - 1))
    }

    /// The pointer that the varnode standing for the stack pointer loads from.
    pub open spec fn spacebase_relative(self, g: GraphView) -> Option<VarnodeId> {
        if self.stack_placeholder_slot < 0 {
            None
        } else {
            match g.input(self.op, self.stack_placeholder_slot as int) {
                None => None,
                Some(v) => match g.vn(v) {
                    None => None,
                    Some(t) => if !t.placeholder || t.def is None {
                        None
                    } else {
                        match g.op(t.def->0) {
                            None => None,
                            Some(l) => if l.code != OpCode::Load {
                                None
                            } else {
                                l.input(1)
                            },
                        }
                    },
                },
            }
        }
    }

    /// The inputs for the first `n` parameters of another prototype, after the
    /// call target; `None` for one that is loaded from the stack. The list
    /// ends where a parameter cannot be provided.
    pub open spec fn inputs_for(
        self,
        g: GraphView,
        params: Seq<Option<ParamView>>,
        n: int,
        before: Seq<Option<VarnodeId>>,
    ) -> (bool, Seq<Option<VarnodeId>>)
        decreases n,
    {
        if n <= 0 || n > params.len() {
            (true, before.push(g.input(self.op, 0)))
        } else {
            let (ok, list) = self.inputs_for(g, params, n - 1, before);
            let reuse = self.reuse(params[n - 1]->0);
            if !ok || reuse == 0 {
                (false, list)
            } else if reuse > 0 {
                (true, list.push(g.input(self.op, reuse as int)))
            } else if self.spacebase_relative(g) is None {
                (false, list)
            } else {
                (true, list.push(None))
            }
        }
    }

    /// The varnodes that hold the return value of another prototype.
    pub open spec fn outputs_for(self, g: GraphView, p: ParamView) -> Seq<VarnodeId> {
        if p.is_kind(TypeMetatype::Void) {
            Seq::empty()
        } else {
            met(
                g,
                match g.op(self.op) {
                    Some(o) => o.output,
                    None => None,
                },
                p,
            ) + created(g, g.previous(self.op), p)
        }
    }

    /// With the prototype of the call taken over.
    pub open spec fn with_proto(self, r: ProtoView) -> CallView {
        CallView {
            proto: ProtoView {
                return_bytes_consumed: self.proto.return_bytes_consumed,
                ..r
            },
            ..self
        }
    }

    /// Does the prototype allow the restriction as such.
    pub open spec fn may_become(self, r: ProtoView) -> bool {
        self.proto.can_become(r) && (r.flag(proto::DOTDOTDOT) ==> self.isinputactive)
    }

    /// Restricting the prototype to `r`. A call without a model takes any
    /// prototype; otherwise the two must be compatible and every locked
    /// parameter must be provided.
    pub open spec fn restricted(
        self,
        g: GraphView,
        r: ProtoView,
        ni: Seq<Option<VarnodeId>>,
        no: Seq<VarnodeId>,
    ) -> Restricted {
        if self.proto.model is None {
            Restricted { ok: true, call: self.with_proto(r), newinput: ni, newoutput: no }
        } else if !self.may_become(r) {
            Restricted { ok: false, call: self, newinput: ni, newoutput: no }
        } else {
            let (ok, list) = if r.input_locked() {
                self.inputs_for(g, r.inputs(), r.inputs().len() as int, ni)
            } else {
                (true, ni)
            };
            if !ok {
                Restricted { ok: false, call: self, newinput: list, newoutput: no }
            } else {
                Restricted {
                    ok: true,
                    call: self.with_proto(r),
                    newinput: list,
                    newoutput: if r.output_locked() {
                        no + self.outputs_for(g, r.store->0.output())
                    } else {
                        no
                    },
                }
            }
        }
    }

    /// The restriction can be tried: what it looks at is there.
    pub open spec fn restrictable(self, g: GraphView, r: ProtoView) -> bool {
        &&& g.wf()
        &&& self.proto.wf()
        &&& r.wf()
        &&& self.proto.model is Some ==> r.model is Some
        &&& self.proto.model is Some && self.may_become(r) && r.input_locked() ==> g.op(self.op)
            is Some && r.store is Some && all_there(r.inputs())
    }

    /// Without the varnode that stands for the stack pointer.
    pub open spec fn aborted(self) -> CallView {
        if self.stack_placeholder_slot >= 0 {
            self.without_placeholder()
        } else {
            self
        }
    }

    /// The changes that take away the varnode standing for the stack pointer,
    /// and the operation that makes it if nothing else reads it.
    pub open spec fn abort_script(self, g: GraphView, s: ScriptView) -> ScriptView {
        if self.stack_placeholder_slot < 0 {
            s
        } else {
            let s1 = s.then_do(
                Edit::RemoveInput { op: self.op, slot: self.stack_placeholder_slot },
            );
            match g.input(self.op, self.stack_placeholder_slot as int) {
                Some(v) => {
                    let vn = g.vn(v)->0;
                    if vn.readers <= 1 && vn.internal() && vn.def is Some {
                        s1.then_do(Edit::Destroy { op: vn.def->0 })
                    } else {
                        s1
                    }
                },
                None => s1,
            }
        }
    }

    /// The varnode whose offset the one standing for the stack pointer has.
    pub open spec fn reference(self, g: GraphView, phvn: VarnodeId) -> VarnodeId {
        g.op(g.vn(phvn)->0.def->0)->0.inputs[0]
    }

    /// The offset of the stack pointer is read off a placeholder.
    pub open spec fn reads_placeholder(self, g: GraphView, phvn: VarnodeId) -> bool {
        self.stack_placeholder_slot >= 0 && g.input(self.op, self.stack_placeholder_slot as int)
            == Some(phvn)
    }

    /// The slot, among the inputs of the prototype, of a locked parameter that
    /// stands for the stack pointer.
    pub open spec fn placeholder_param(self, g: GraphView, phvn: VarnodeId) -> int {
        g.op(self.op)->0.slot_of(phvn, 0) - 1
    }

    /// The offset of the stack pointer found, or the reason why not.
    pub open spec fn spacebase_resolved(self, g: GraphView, phvn: VarnodeId) -> (
        Option<FspecError>,
        CallView,
    ) {
        let addr = g.vn(self.reference(g, phvn))->0.addr;
        let spc = addr.space->0;
        let c = CallView { stackoffset: addr.offset, ..self };
        if self.reads_placeholder(g, phvn) {
            (None, c.aborted())
        } else if !self.proto.input_locked() {
            (Some(FspecError::PlaceholderUnresolved), c)
        } else {
            let k = self.placeholder_param(g, phvn);
            if k >= self.proto.inputs().len() {
                (Some(FspecError::PlaceholderNotAligned), c)
            } else {
                let p = self.proto.inputs()[k]->0;
                if p.addr.space != addr.space && spc.type_ == SpaceType::Spacebase {
                    (Some(FspecError::PlaceholderOtherSpace), c)
                } else {
                    (
                        None,
                        CallView {
                            stackoffset: spc.wrapped(
                                num::wadd(addr.offset, -(p.addr.offset as int)),
                            ),
                            ..c
                        },
                    )
                }
            }
        }
    }

    /// What the resolution looks at is there.
    pub open spec fn resolvable(self, g: GraphView, phvn: VarnodeId) -> bool {
        &&& g.wf()
        &&& self.proto.wf()
        &&& g.op(self.op) is Some
        &&& g.vn(phvn) is Some
        &&& g.vn(phvn)->0.def is Some
        &&& g.op(g.vn(phvn)->0.def->0) is Some
        &&& g.op(g.vn(phvn)->0.def->0)->0.inputs.len() > 0
        &&& g.vn(self.reference(g, phvn)) is Some
        &&& g.vn(self.reference(g, phvn))->0.addr.space is Some
        &&& !self.reads_placeholder(g, phvn) && self.proto.input_locked() ==> {
            let k = self.placeholder_param(g, phvn);
            self.proto.store is Some && k >= 0 && (k < self.proto.inputs().len()
                ==> self.proto.inputs()[k] is Some)
        }
    }
}

/// Every input is there.
pub open spec fn all_there(s: Seq<Option<ParamView>>) -> bool {
    forall|i: int| 0 <= i < s.len() ==> (#[trigger] s[i]) is Some
}

impl FuncCallSpecs {
    /// The name shown for the callee: its own, or one made of its address,
    /// which is given as text.
    pub fn fspec_printed_name(&self, style: NameStyle, address: &str) -> (r: String)
        ensures
            r@ == (if self@.name.len() > 0 {
                self@.name
            } else {
                name_prefix(style) + address@
            }),
    {
        if self.name.as_str().unicode_len() != 0 {
            return self.name.as_str().to_owned();
        }
        let mut s: String = match style {
            NameStyle::Angr => "sub_".to_owned(),
            NameStyle::Ghidra => "FUN_".to_owned(),
            NameStyle::Func => "func_".to_owned(),
        };
        s.append(address);
        s
    }

    /// What is registered for the callee.
    pub fn register_in_fspec_space(&self, style: NameStyle, address: &str) -> (r: FspecCallInfo)
        ensures
            r.printed_name@ == (if self@.name.len() > 0 {
                self@.name
            } else {
                name_prefix(style) + address@
            }),
            r.entry == self@.entryaddress,
    {
        FspecCallInfo {
            printed_name: self.fspec_printed_name(style, address),
            entry: self.entryaddress,
        }
    }

    /// Add an input that stands for the stack pointer. Fails if no loads
    /// relative to it can be made.
    pub fn create_placeholder(&mut self, g: &Graph, s: &mut Script, spacebase: AddrSpace) -> (r:
        Result<(), FspecError>)
        requires
            g@.op(old(self)@.op) is Some,
        ensures
            ({
                let slot = g@.op(old(self)@.op)->0.inputs.len() as i32;
                let op = old(self)@.op;
                let s0 = old(s)@;
                if s0.loads {
                    r is Ok && final(self)@ == old(self)@.with_placeholder(slot) && final(s)@
                        == s0.stack_load(spacebase, 0, 1, op, None).insert_input(
                        op,
                        s0.vn(),
                        slot as int,
                    ).then_do(Edit::MarkPlaceholder { vn: s0.vn() })
                } else {
                    r == Err::<(), FspecError>(FspecError::NoStackLoads) && final(self)@ == old(
                        self,
                    )@ && final(s)@ == s0
                }
            }),
    {
        let slot: i32 = g.get_op(self.op).unwrap().num_input();
        self.create_placeholder_at(slot, s, spacebase)
    }

    /// Add an input that stands for the stack pointer in the slot `slot`.
    pub fn create_placeholder_at(&mut self, slot: i32, s: &mut Script, spacebase: AddrSpace) -> (r:
        Result<(), FspecError>)
        ensures
            ({
                let op = old(self)@.op;
                let s0 = old(s)@;
                if s0.loads {
                    r is Ok && final(self)@ == old(self)@.with_placeholder(slot) && final(s)@
                        == s0.stack_load(spacebase, 0, 1, op, None).insert_input(
                        op,
                        s0.vn(),
                        slot as int,
                    ).then_do(Edit::MarkPlaceholder { vn: s0.vn() })
                } else {
                    r == Err::<(), FspecError>(FspecError::NoStackLoads) && final(self)@ == old(
                        self,
                    )@ && final(s)@ == s0
                }
            }),
    {
        match s.stack_load(spacebase, 0, 1, self.op, None) {
            Some(vn) => {
                s.insert_input(self.op, vn, slot);
                self.set_stack_placeholder_slot(slot);
                s.push(Edit::MarkPlaceholder { vn });
                Ok(())
            },
            None => Err(FspecError::NoStackLoads),
        }
    }

    /// The pointer that the varnode standing for the stack pointer loads from.
    pub fn get_spacebase_relative(&self, g: &Graph) -> (r: Option<VarnodeId>)
        ensures
            r == self@.spacebase_relative(g@),
    {
        if self.stack_placeholder_slot < 0 {
            return None;
        }
        let v = match g.get_in(self.op, self.stack_placeholder_slot) {
            Some(v) => v,
            None => {
                return None;
            },
        };
        let t = match g.get_vn(v) {
            Some(t) => t,
            None => {
                return None;
            },
        };
        if !t.placeholder {
            return None;
        }
        match t.def {
            None => None,
            Some(d) => match g.get_op(d) {
                None => None,
                Some(l) => {
                    if l.code != OpCode::Load {
                        None
                    } else {
                        l.get_in(1)
                    }
                },
            },
        }
    }

    /// Read the offset of the stack pointer at the call off the varnode that
    /// stands for it.
    #[verifier::rlimit(40)]
    pub fn resolve_spacebase_relative(&mut self, g: &Graph, s: &mut Script, phvn: VarnodeId) -> (r:
        Result<(), FspecError>)
        requires
            old(self)@.resolvable(g@, phvn),
        ensures
            ({
                let (failure, call) = old(self)@.spacebase_resolved(g@, phvn);
                final(self)@ == call && match failure {
                    Some(e) => r == Err::<(), FspecError>(e),
                    None => r is Ok,
                }
            }),
            final(s)@ == (if old(self)@.reads_placeholder(g@, phvn) {
                old(self)@.abort_script(g@, old(s)@)
            } else {
                old(s)@
            }),
    {
        let def = g.get_vn(phvn).unwrap().def.unwrap();
        let refvn = g.get_op(def).unwrap().get_in(0).unwrap();
        let addr = g.get_vn(refvn).unwrap().addr;
        let spacebase = addr.space.unwrap();
        self.stackoffset = addr.offset;
        if self.stack_placeholder_slot >= 0 {
            if let Some(v) = g.get_in(self.op, self.stack_placeholder_slot) {
                if v == phvn {
                    self.abort_spacebase_relative(g, s);
                    return Ok(());
                }
            }
        }
        if self.proto.is_input_locked() {
            let callop = g.get_op(self.op).unwrap();
            assert(g@.ops[self.op.0 as int].inputs.len() <= i32::MAX);
            let slot: i32 = callop.get_slot(phvn) - 1;
            if slot >= self.proto.num_params() {
                return Err(FspecError::PlaceholderNotAligned);
            }
            let paddr = self.proto.get_param(slot).unwrap().get_address();
            if !crate::space::same_space(&paddr.space, &addr.space) && spacebase.type_
                == SpaceType::Spacebase {
                return Err(FspecError::PlaceholderOtherSpace);
            }
            self.stackoffset = spacebase.wrap_offset(self.stackoffset.wrapping_sub(paddr.offset));
            return Ok(());
        }
        Err(FspecError::PlaceholderUnresolved)
    }

    /// Take away the input that stands for the stack pointer.
    pub fn abort_spacebase_relative(&mut self, g: &Graph, s: &mut Script)
        requires
            old(self)@.stack_placeholder_slot >= 0 ==> g@.op(old(self)@.op) is Some,
            old(self)@.stack_placeholder_slot >= 0 ==> (g@.input(
                old(self)@.op,
                old(self)@.stack_placeholder_slot as int,
            ) matches Some(v) ==> g@.vn(v) is Some),
        ensures
            final(self)@ == old(self)@.aborted(),
            final(s)@ == old(self)@.abort_script(g@, old(s)@),
    {
        if self.stack_placeholder_slot >= 0 {
            let slot: i32 = self.stack_placeholder_slot;
            let vn = g.get_in(self.op, slot);
            s.push(Edit::RemoveInput { op: self.op, slot });
            self.clear_stack_placeholder_slot();
            if let Some(id) = vn {
                let v = g.get_vn(id).unwrap();
                if v.readers <= 1 && v.is_internal() {
                    if let Some(def) = v.def {
                        s.push(Edit::Destroy { op: def });
                    }
                }
            }
        }
    }

    /// What a parameter of another prototype takes over.
    fn transfer_locked_input_param(&self, param: &ParameterBasic) -> (r: i32)
        ensures
            r == self@.reuse(param@),
    {
        let startaddr = param.get_address();
        let sz: i32 = param.get_size();
        let lastaddr = startaddr.advance(sz as i64 - 1);
        let ghost s = self@.activeinput.trial;
        let mut i: usize = 0;
        while i < self.activeinput.trial.len()
            invariant
                i <= self.activeinput.trial.len(),
                s == self@.activeinput.trial,
                startaddr == param@.addr,
                lastaddr == startaddr.plus(param@.size() - 1),
                reuse_from(s, 0, startaddr, lastaddr) == reuse_from(
                    s,
                    i as int,
                    startaddr,
                    lastaddr,
                ),
            decreases self.activeinput.trial.len() - i,
        {
            let t = self.activeinput.trial[i];
            if !startaddr.is_before(&t.addr) {
                let trialend = t.addr.advance(t.size as i64 - 1);
                if !trialend.is_before(&lastaddr) {
                    if t.is_definitely_not_used() {
                        return 0;
                    }
                    return t.slot;
                }
            }
            i += 1;
        }
        match startaddr.space {
            Some(spc) => {
                if spc.type_ == SpaceType::Spacebase {
                    -1
                } else {
                    0
                }
            },
            None => 0,
        }
    }

    /// Provide an input for each parameter of another prototype.
    fn transfer_locked_input(
        &self,
        g: &Graph,
        newinput: &mut Vec<Option<VarnodeId>>,
        source: &FuncProto,
    ) -> (r: bool)
        requires
            g@.op(self@.op) is Some,
            source@.wf(),
            source@.store is Some,
            all_there(source@.inputs()),
        ensures
            (r, final(newinput)@) == self@.inputs_for(
                g@,
                source@.inputs(),
                source@.inputs().len() as int,
                old(newinput)@,
            ),
    {
        newinput.push(g.get_in(self.op, 0));
        let ghost params = source@.inputs();
        let numparams: i32 = source.num_params();
        let mut i: i32 = 0;
        while i < numparams
            invariant
                0 <= i <= numparams,
                source@.store is Some,
                params == source@.inputs(),
                numparams == params.len(),
                all_there(params),
                (true, newinput@) == self@.inputs_for(g@, params, i as int, old(newinput)@),
            decreases numparams - i,
        {
            assert(params[i as int] is Some);
            let param = source.get_param(i).unwrap();
            let reuse: i32 = self.transfer_locked_input_param(param);
            proof {
                lemma_inputs_prefix(
                    self@,
                    g@,
                    params,
                    i as int + 1,
                    params.len() as int,
                    old(newinput)@,
                );
            }
            if reuse == 0 {
                return false;
            }
            if reuse > 0 {
                newinput.push(g.get_in(self.op, reuse));
            } else {
                if self.get_spacebase_relative(g).is_none() {
                    return false;
                }
                newinput.push(None);
            }
            i += 1;
        }
        true
    }

    /// Add the varnode `v` if it meets the parameter.
    fn add_if_met(
        g: &Graph,
        v: Option<VarnodeId>,
        param: &ParameterBasic,
        newoutput: &mut Vec<VarnodeId>,
    )
        ensures
            final(newoutput)@ == old(newoutput)@ + met(g@, v, param@),
    {
        if let Some(id) = v {
            if let Some(vn) = g.get_vn(id) {
                let paddr = param.get_address();
                let psize: i32 = param.get_size();
                if paddr.justified_contain(psize, &vn.addr, vn.size, false) >= 0
                    || vn.addr.justified_contain(vn.size, &paddr, psize, false) >= 0 {
                    newoutput.push(id);
                    assert(newoutput@ =~= old(newoutput)@ + met(g@, v, param@));
                    return ;
                }
            }
        }
        assert(newoutput@ =~= old(newoutput)@ + met(g@, v, param@));
    }

    /// Collect the varnodes that hold the return value of another prototype.
    fn transfer_locked_output(
        &self,
        g: &Graph,
        newoutput: &mut Vec<VarnodeId>,
        source: &FuncProto,
    )
        requires
            g@.wf(),
            source@.store matches Some(s) && s.outparam is Some,
        ensures
            final(newoutput)@ == old(newoutput)@ + self@.outputs_for(
                g@,
                source@.store->0.output(),
            ),
    {
        let param = source.get_output();
        if let Some(t) = param.get_type() {
            if t.metatype == TypeMetatype::Void {
                assert(newoutput@ =~= old(newoutput)@ + Seq::<VarnodeId>::empty());
                return ;
            }
        }
        let out = match g.get_op(self.op) {
            Some(o) => o.output,
            None => None,
        };
        FuncCallSpecs::add_if_met(g, out, param, newoutput);
        let ghost first = newoutput@;
        let ghost all = created(g@, g@.previous(self@.op), param@);
        let mut indop = g.previous_op(self.op);
        let mut going = true;
        assert(newoutput@ + all =~= first + all);
        while going
            invariant
                g@.wf(),
                going ==> first + all == newoutput@ + created(g@, indop, param@),
                !going ==> first + all == newoutput@,
            decreases (if going { 1int } else { 0int }), (match indop {
                Some(o) => g@.order(o) + 1,
                None => 0,
            }),
        {
            match indop {
                None => {
                    going = false;
                    assert(newoutput@ + Seq::<VarnodeId>::empty() =~= newoutput@);
                },
                Some(io) => {
                    match g.get_op(io) {
                        None => {
                            going = false;
                            assert(newoutput@ + Seq::<VarnodeId>::empty() =~= newoutput@);
                        },
                        Some(o) => {
                            if o.code != OpCode::Indirect {
                                going = false;
                                assert(newoutput@ + Seq::<VarnodeId>::empty() =~= newoutput@);
                            } else {
                                let ghost before = newoutput@;
                                if o.creation {
                                    FuncCallSpecs::add_if_met(g, o.output, param, newoutput);
                                }
                                let ghost here = if o.creation {
                                    met(g@, o.output, param@)
                                } else {
                                    Seq::empty()
                                };
                                assert(newoutput@ =~= before + here);
                                assert(g@.ops[io.0 as int].previous == o.previous);
                                let ghost rest = created(g@, o.previous, param@);
                                assert(created(g@, indop, param@) =~= here + rest);
                                assert(before + (here + rest) =~= (before + here) + rest);
                                indop = o.previous;
                            }
                        },
                    }
                },
            }
        }
        assert(newoutput@ =~= old(newoutput)@ + self@.outputs_for(
            g@,
            source@.store->0.output(),
        ));
    }

    /// Restrict the prototype of the call to a more special one. The inputs
    /// and outputs that go with it are passed back.
    pub fn late_restriction(
        &mut self,
        g: &Graph,
        restricted_proto: &FuncProto,
        newinput: &mut Vec<Option<VarnodeId>>,
        newoutput: &mut Vec<VarnodeId>,
    ) -> (r: bool)
        requires
            old(self)@.restrictable(g@, restricted_proto@),
        ensures
            (Restricted {
                ok: r,
                call: final(self)@,
                newinput: final(newinput)@,
                newoutput: final(newoutput)@,
            }) == old(self)@.restricted(
                g@,
                restricted_proto@,
                old(newinput)@,
                old(newoutput)@,
            ),
    {
        if !self.proto.has_model() {
            self.proto.copy(restricted_proto);
            return true;
        }
        if !self.proto.is_compatible(restricted_proto) {
            return false;
        }
        if restricted_proto.is_dotdotdot() && !self.isinputactive {
            return false;
        }
        if restricted_proto.is_input_locked() {
            if !self.transfer_locked_input(g, newinput, restricted_proto) {
                return false;
            }
        }
        if restricted_proto.is_output_locked() {
            self.transfer_locked_output(g, newoutput, restricted_proto);
        }
        self.proto.copy(restricted_proto);
        true
    }
}

/// Once a parameter cannot be provided the list stays as it is.
proof fn lemma_inputs_prefix(
    c: CallView,
    g: GraphView,
    params: Seq<Option<ParamView>>,
    n: int,
    m: int,
    before: Seq<Option<VarnodeId>>,
)
    requires
        0 <= n <= m <= params.len(),
    ensures
        !c.inputs_for(g, params, n, before).0 ==> c.inputs_for(g, params, m, before)
            == c.inputs_for(g, params, n, before),
    decreases m - n,
{
    if n < m {
        lemma_inputs_prefix(c, g, params, n, m - 1, before);
    }
}

/// A restriction that fails leaves the call as it was; one that succeeds takes
/// over the prototype.
pub proof fn law_restriction(
    c: CallView,
    g: GraphView,
    r: ProtoView,
    ni: Seq<Option<VarnodeId>>,
    no: Seq<VarnodeId>,
)
    ensures
        ({
            let out = c.restricted(g, r, ni, no);
            (!out.ok ==> out.call == c) && (out.ok ==> out.call.proto == (ProtoView {
                return_bytes_consumed: c.proto.return_bytes_consumed,
                ..r
            }))
        }),
{
}

/// A restriction to locked inputs that succeeds gives one input for each
/// parameter, behind the call target.
pub proof fn law_restriction_provides(
    c: CallView,
    g: GraphView,
    params: Seq<Option<ParamView>>,
    n: int,
    before: Seq<Option<VarnodeId>>,
)
    requires
        0 <= n <= params.len(),
        c.inputs_for(g, params, n, before).0,
    ensures
        c.inputs_for(g, params, n, before).1.len() == before.len() + 1 + n,
    decreases n,
{
    if n > 0 {
        law_restriction_provides(c, g, params, n - 1, before);
    }
}

} // verus!
