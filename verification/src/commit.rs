//! Rewriting the inputs and the output of a call after its prototype changed.
use crate::active::ActiveView;
use crate::callspec::{CallView, FuncCallSpecs};
use crate::dtype::TypeMetatype;
use crate::error::FspecError;
use crate::graph::{Graph, GraphView, OpId, VarnodeId};
use crate::opcode::OpCode;
use crate::proto;
use crate::proto::{FuncProto, ProtoView};
use crate::restrict;
use crate::script::{Edit, RestartReason, Script, ScriptView};
use crate::space::{Address, SpaceType, VarnodeData};
use crate::store::{ParamView, ParameterBasic, ProtoParameter};
use vstd::prelude::*;

verus! {

/// Where the least significant byte of the `size` bytes at `addr` stands among
/// the `opsize` bytes at `op`, counted from the least significant one, or -1.
pub open spec fn overlap_of(addr: Address, size: int, op: Address, opsize: int) -> int {
    if !addr.big_endian() {
        addr.overlap_at(0, op, opsize)
    } else {
        let over = addr.overlap_at(size - 1, op, opsize);
        if over != -1 {
            opsize - 1 - over
        } else {
            -1
        }
    }
}

/// Where the least significant byte of one range stands in another.
pub fn overlap_addr(addr: &Address, size: i32, op: &Address, opsize: i32) -> (r: i32)
    requires
        size > i32::MIN,
    ensures
        r == overlap_of(*addr, size as int, *op, opsize as int),
{
    if !addr.is_big_endian() {
        addr.overlap(0, op, opsize)
    } else {
        let over: i32 = addr.overlap(size - 1, op, opsize);
        if over != -1 {
            opsize - 1 - over
        } else {
            -1
        }
    }
}

/// The varnodes of a list that has no gaps.
pub open spec fn given(s: Seq<Option<VarnodeId>>) -> Seq<VarnodeId> {
    Seq::new(s.len(), |i: int| s[i]->0)
}

/// The state while the inputs of a call are rewritten.
#[verifier::ext_equal]
pub struct InputCommit {
    pub failed: bool,
    pub active: ActiveView,
    pub inputs: Seq<Option<VarnodeId>>,
    pub script: ScriptView,
    pub placeholder: Option<VarnodeId>,
    pub looking: bool,
}

/// The first varnode from `i` on that has the size `size`.
pub open spec fn first_of_size(
    g: GraphView,
    s: Seq<VarnodeId>,
    i: int,
    size: i32,
) -> Option<VarnodeId>
    decreases s.len() - i,
{
    if i < 0 || i >= s.len() {
        None
    } else if g.vn(s[i]) matches Some(v) && v.size == size {
        Some(s[i])
    } else {
        first_of_size(g, s, i + 1, size)
    }
}

/// The extension that the type of a value asks for.
pub open spec fn typed_extension(opc: OpCode, int_type: bool) -> OpCode {
    if opc != OpCode::Piece {
        opc
    } else if int_type {
        OpCode::IntSext
    } else {
        OpCode::IntZext
    }
}

/// The varnode to pass for a parameter: the given one, cut to size if it
/// has another size, or one loaded from the stack.
pub open spec fn built(
    op: OpId,
    g: GraphView,
    s: ScriptView,
    vn: Option<VarnodeId>,
    addr: Address,
    size: i32,
    stackref: Option<VarnodeId>,
) -> (Option<VarnodeId>, ScriptView) {
    match vn {
        None => if s.loads {
            (
                Some(s.vn()),
                s.stack_load(addr.space->0, addr.offset, size as u32, op, stackref),
            )
        } else {
            (None, s)
        },
        Some(v) => {
            let x = g.vn(v)->0;
            if x.size == size {
                (Some(v), s)
            } else {
                let newop = s.op();
                let s1 = s.new_op(2, g.op(op)->0.addr).set_opcode(newop, OpCode::SubPiece);
                let newout = s1.vn();
                let s2 = s1.new_unique_out(size, newop);
                let (used, s3) = if x.free && !x.constant() && x.readers != 0 {
                    (s2.vn(), s2.new_varnode(x.size, x.addr))
                } else {
                    (v, s2)
                };
                let s4 = s3.set_input(newop, used, 0);
                (
                    Some(newout),
                    s4.new_constant(4, 0).set_input(newop, s4.vn(), 1).then_do(
                        Edit::InsertBefore { op: newop, at: op },
                    ),
                )
            }
        },
    }
}

/// The state after the inputs for the first `n` parameters were built.
pub open spec fn inputs_built(
    op: OpId,
    g: GraphView,
    params: Seq<Option<ParamView>>,
    n: int,
    stackref: Option<VarnodeId>,
    start: InputCommit,
) -> InputCommit
    decreases n,
{
    if n <= 0 || n > params.len() {
        start
    } else {
        let c = inputs_built(op, g, params, n - 1, stackref, start);
        let p = params[n - 1]->0;
        let (vn, s) = built(op, g, c.script, c.inputs[n], p.addr, p.size(), stackref);
        if c.failed || vn is None {
            InputCommit { failed: true, ..c }
        } else {
            let a = c.active.registered(p.addr, p.size());
            let marks = c.looking && proto::on_stack(p);
            InputCommit {
                failed: false,
                active: a.with_trial(n - 1, a.trial[n - 1].with_active()),
                inputs: c.inputs.update(n, vn),
                script: if marks {
                    s.then_do(Edit::MarkPlaceholder { vn: vn->0 })
                } else {
                    s
                },
                placeholder: if marks {
                    None
                } else {
                    c.placeholder
                },
                looking: c.looking && !marks,
            }
        }
    }
}

impl CallView {
    /// The state before any input is built: the trials start over.
    pub open spec fn commit_start(
        self,
        g: GraphView,
        s: ScriptView,
        newinput: Seq<Option<VarnodeId>>,
    ) -> InputCommit {
        InputCommit {
            failed: false,
            active: self.activeinput.cleared(),
            inputs: newinput,
            script: s,
            placeholder: if self.stack_placeholder_slot >= 0 {
                g.input(self.op, self.stack_placeholder_slot as int)
            } else {
                None
            },
            looking: true,
        }
    }

    /// The call, its inputs and the changes after locked inputs were installed.
    /// A locked stack parameter takes over from the placeholder.
    pub open spec fn inputs_committed(
        self,
        g: GraphView,
        s: ScriptView,
        newinput: Seq<Option<VarnodeId>>,
    ) -> (bool, CallView, Seq<Option<VarnodeId>>, ScriptView) {
        if !self.proto.input_locked() {
            (true, self, newinput, s)
        } else {
            let params = self.proto.inputs();
            let c = inputs_built(
                self.op,
                g,
                params,
                params.len() as int,
                self.spacebase_relative(g),
                self.commit_start(g, s, newinput),
            );
            let bare = CallView {
                stack_placeholder_slot: -1i32,
                activeinput: c.active,
                ..self
            };
            if c.failed {
                (false, bare, c.inputs, c.script)
            } else {
                let (call, list, script) = bare.installed(
                    c.script,
                    c.inputs,
                    c.placeholder,
                    self.activeinput.numpasses,
                );
                (true, call, list, script)
            }
        }
    }

    /// The call, its inputs and the changes after all inputs were set, with the
    /// placeholder, if it is still needed, behind them.
    pub open spec fn installed(
        self,
        s: ScriptView,
        inputs: Seq<Option<VarnodeId>>,
        placeholder: Option<VarnodeId>,
        numpasses: i32,
    ) -> (CallView, Seq<Option<VarnodeId>>, ScriptView) {
        let (list, call) = match placeholder {
            Some(ph) => (inputs.push(Some(ph)), self.with_placeholder(inputs.len() as i32)),
            None => (inputs, self),
        };
        (
            if !self.proto.flag(proto::DOTDOTDOT) {
                CallView { isinputactive: false, ..call }
            } else if numpasses > 0 {
                CallView { activeinput: call.activeinput.passed(), ..call }
            } else {
                call
            },
            list,
            s.set_all_input(self.op, given(list)),
        )
    }

    /// What the rewriting of the inputs looks at is there.
    pub open spec fn inputs_ready(self, g: GraphView, newinput: Seq<Option<VarnodeId>>) -> bool {
        &&& self.proto.wf()
        &&& self.proto.input_locked() ==> {
            let params = self.proto.inputs();
            let n = params.len() as int;
            &&& self.proto.store is Some
            &&& g.op(self.op) is Some
            &&& restrict::all_there(params)
            &&& n > 0 ==> newinput.len() > n
            &&& forall|k: int|
                0 <= k < newinput.len() && !(1 <= k <= n) ==> (#[trigger] newinput[k]) is Some
            &&& forall|k: int|
                1 <= k <= n ==> match #[trigger] newinput[k] {
                    Some(v) => g.vn(v) is Some,
                    None => params[k - 1]->0.addr.space is Some,
                }
        }
    }

    /// The varnode that holds the return value `p` from now on, and the changes
    /// that make it the output of the call.
    pub open spec fn main_output(
        self,
        g: GraphView,
        s: ScriptView,
        newoutput: Seq<VarnodeId>,
        p: ParamView,
    ) -> (VarnodeId, ScriptView) {
        match first_of_size(g, newoutput, 0, p.size()) {
            Some(em) => {
                let def = g.vn(em)->0.def;
                (
                    em,
                    if def == Some(self.op) {
                        s
                    } else {
                        let s1 = s.then_do(Edit::SetOutput { op: self.op, vn: em });
                        match def {
                            Some(io) => s1.then_do(Edit::Unlink { op: io }),
                            None => s1,
                        }
                    },
                )
            },
            None => {
                let s1 = s.then_do(Edit::UnsetOutput { op: self.op });
                (s1.vn(), s1.new_varnode_out(p.size(), p.addr, self.op))
            },
        }
    }

    /// The operation other than the call that writes a varnode.
    pub open spec fn other_def(self, g: GraphView, v: VarnodeId) -> Option<OpId> {
        if g.vn(v)->0.def == Some(self.op) {
            None
        } else {
            g.vn(v)->0.def
        }
    }

    /// The changes that make a narrower varnode a part of the return value.
    pub open spec fn narrowed(
        self,
        g: GraphView,
        s: ScriptView,
        v: VarnodeId,
        main: VarnodeId,
        mainaddr: Address,
        mainsize: i32,
    ) -> ScriptView {
        let x = g.vn(v)->0;
        let (sub_op, s1) = match self.other_def(g, v) {
            Some(io) => (
                io,
                s.then_do(Edit::Uninsert { op: io }).set_opcode(io, OpCode::SubPiece),
            ),
            None => (
                s.op(),
                s.new_op(2, g.op(self.op)->0.addr).set_opcode(s.op(), OpCode::SubPiece).then_do(
                    Edit::SetOutput { op: s.op(), vn: v },
                ),
            ),
        };
        let s2 = s1.set_input(sub_op, main, 0);
        s2.new_constant(
            4,
            (overlap_of(x.addr, x.size as int, mainaddr, mainsize as int) as i32) as u64,
        ).set_input(sub_op, s2.vn(), 1).then_do(Edit::InsertAfter { op: sub_op, at: self.op })
    }

    /// The changes that make a wider varnode an extension of the return value.
    pub open spec fn widened(
        self,
        g: GraphView,
        s: ScriptView,
        v: VarnodeId,
        main: VarnodeId,
        opc: OpCode,
    ) -> ScriptView {
        let (ext, s1) = match self.other_def(g, v) {
            Some(io) => (
                io,
                s.then_do(Edit::Uninsert { op: io }).then_do(
                    Edit::RemoveInput { op: io, slot: 1 },
                ).set_opcode(io, opc),
            ),
            None => (
                s.op(),
                s.new_op(1, g.op(self.op)->0.addr).set_opcode(s.op(), opc).then_do(
                    Edit::SetOutput { op: s.op(), vn: v },
                ),
            ),
        };
        s1.set_input(ext, main, 0).then_do(Edit::InsertAfter { op: ext, at: self.op })
    }

    /// The changes that put less significant bytes, created by the call, below
    /// the return value: the concatenation, the varnode for it if more follows,
    /// and the changes.
    pub open spec fn lower_bytes(
        self,
        g: GraphView,
        s: ScriptView,
        v: VarnodeId,
        main: VarnodeId,
        mainaddr: Address,
        mainsize: i32,
        low: i32,
        more: bool,
    ) -> (OpId, VarnodeId, ScriptView) {
        let x = g.vn(v)->0;
        let lo_addr = if x.addr.big_endian() {
            x.addr.plus(x.size - low)
        } else {
            x.addr
        };
        let made = s.vn();
        let s1 = s.new_indirect_creation(self.op, lo_addr, low);
        let concat = s1.op();
        let s2 = s1.new_op(2, g.op(self.op)->0.addr).set_opcode(concat, OpCode::Piece).set_input(
            concat,
            main,
            0,
        ).set_input(concat, made, 1).then_do(Edit::InsertAfter { op: concat, at: self.op });
        if more {
            (
                concat,
                s2.vn(),
                s2.new_varnode_out(
                    (low + mainsize) as i32,
                    if x.addr.big_endian() {
                        mainaddr
                    } else {
                        lo_addr
                    },
                    concat,
                ),
            )
        } else {
            (concat, main, s2)
        }
    }

    /// The changes that put more significant bytes, created by the call, above
    /// what `last` gives: the concatenation and the changes.
    pub open spec fn upper_bytes(
        self,
        g: GraphView,
        s: ScriptView,
        v: VarnodeId,
        mainsize: i32,
        low: i32,
        high: i32,
        last: OpId,
        last_out: VarnodeId,
    ) -> (OpId, ScriptView) {
        let x = g.vn(v)->0;
        let hi_addr = if !x.addr.big_endian() {
            x.addr.plus(mainsize + low)
        } else {
            x.addr
        };
        let made = s.vn();
        let s1 = s.new_indirect_creation(self.op, hi_addr, high);
        let concat = s1.op();
        (
            concat,
            s1.new_op(2, g.op(self.op)->0.addr).set_opcode(concat, OpCode::Piece).set_input(
                concat,
                made,
                0,
            ).set_input(concat, last_out, 1).then_do(Edit::InsertAfter { op: concat, at: last }),
        )
    }

    /// The changes that make a wider varnode a concatenation around the return
    /// value.
    pub open spec fn surrounded(
        self,
        g: GraphView,
        s: ScriptView,
        v: VarnodeId,
        main: VarnodeId,
        mainaddr: Address,
        mainsize: i32,
        low: i32,
    ) -> ScriptView {
        let x = g.vn(v)->0;
        let s0 = match self.other_def(g, v) {
            Some(io) => s.then_do(Edit::Unlink { op: io }),
            None => s,
        };
        let high = (x.size - low - mainsize) as i32;
        let (op1, out1, s1) = if low != 0 {
            self.lower_bytes(g, s0, v, main, mainaddr, mainsize, low, high != 0)
        } else {
            (self.op, main, s0)
        };
        let (op2, s2) = if high != 0 {
            self.upper_bytes(g, s1, v, mainsize, low, high, op1, out1)
        } else {
            (op1, s1)
        };
        s2.then_do(Edit::SetOutput { op: op2, vn: v })
    }

    /// The changes that redefine one of the former outputs by the return value
    /// `p`, which `main` holds at `mainaddr`.
    pub open spec fn redefined(
        self,
        g: GraphView,
        s: ScriptView,
        v: VarnodeId,
        p: ParamView,
        main: VarnodeId,
        mainaddr: Address,
    ) -> ScriptView {
        let x = g.vn(v)->0;
        let psize = p.size();
        if x.size < psize {
            self.narrowed(g, s, v, main, mainaddr, psize)
        } else if psize < x.size {
            let low = x.addr.justified_offset(x.size as int, p.addr, psize as int, false) as i32;
            let opc = self.assumed_extension(p.addr, psize as int);
            if opc != OpCode::Copy && low == 0 {
                self.widened(g, s, v, main, typed_extension(opc, p.is_kind(TypeMetatype::Int)))
            } else {
                self.surrounded(g, s, v, main, mainaddr, psize, low)
            }
        } else {
            s
        }
    }

    /// The extension that the model assumes of a return value.
    pub open spec fn assumed_extension(self, addr: Address, size: int) -> OpCode {
        let l = self.proto.model_view().outs();
        match l.first_extender(0, addr, size) {
            Some(i) => l.entry[i].extension_op(addr, size),
            None => OpCode::Copy,
        }
    }

    /// The changes for the first `n` of the former outputs.
    pub open spec fn all_redefined(
        self,
        g: GraphView,
        s: ScriptView,
        vns: Seq<VarnodeId>,
        n: int,
        p: ParamView,
        main: VarnodeId,
        mainaddr: Address,
    ) -> ScriptView
        decreases n,
    {
        if n <= 0 || n > vns.len() {
            s
        } else {
            let t = self.all_redefined(g, s, vns, n - 1, p, main, mainaddr);
            if first_of_size(g, vns, 0, p.size()) == Some(vns[n - 1]) {
                t
            } else {
                self.redefined(g, t, vns[n - 1], p, main, mainaddr)
            }
        }
    }

    /// The call and the changes after a locked return value was installed.
    pub open spec fn outputs_committed(
        self,
        g: GraphView,
        s: ScriptView,
        newoutput: Seq<VarnodeId>,
    ) -> (CallView, ScriptView) {
        let p = self.proto.store->0.output();
        if !self.proto.output_locked() {
            (self, s)
        } else if newoutput.len() == 0 {
            (CallView { activeoutput: self.activeoutput.cleared(), ..self }, s)
        } else {
            let (main, s1) = self.main_output(g, s, newoutput, p);
            let mainaddr = match first_of_size(g, newoutput, 0, p.size()) {
                Some(em) => g.vn(em)->0.addr,
                None => p.addr,
            };
            (
                CallView {
                    activeoutput: self.activeoutput.cleared().registered(p.addr, p.size()),
                    isoutputactive: false,
                    ..self
                },
                self.all_redefined(g, s1, newoutput, newoutput.len() as int, p, main, mainaddr),
            )
        }
    }

    /// What the rewriting of the output looks at is there.
    pub open spec fn outputs_ready(self, g: GraphView, newoutput: Seq<VarnodeId>) -> bool {
        &&& self.proto.wf()
        &&& self.proto.output_locked() && newoutput.len() > 0 ==> {
            &&& g.op(self.op) is Some
            &&& forall|k: int|
                0 <= k < newoutput.len() ==> (g.vn(#[trigger] newoutput[k]) matches Some(v)
                    && v.size > i32::MIN)
            &&& (exists|k: int|
                0 <= k < newoutput.len() && (#[trigger] g.vn(newoutput[k])->0.size)
                    > self.proto.store->0.output().size()) ==> self.proto.has_outputs()
        }
    }
}

impl FuncCallSpecs {
    /// The varnode to pass for a parameter.
    fn build_param(
        &self,
        g: &Graph,
        s: &mut Script,
        vn: Option<VarnodeId>,
        addr: &Address,
        size: i32,
        stackref: Option<VarnodeId>,
    ) -> (r: Option<VarnodeId>)
        requires
            g@.op(self@.op) is Some,
            match vn {
                Some(v) => g@.vn(v) is Some,
                None => addr.space is Some,
            },
        ensures
            (r, final(s)@) == built(self@.op, g@, old(s)@, vn, *addr, size, stackref),
    {
        let opaddr = g.get_op(self.op).unwrap().addr;
        let v = match vn {
            None => {
                let spc = addr.space.unwrap();
                return s.stack_load(spc, addr.offset, size as u32, self.op, stackref);
            },
            Some(v) => v,
        };
        let x = g.get_vn(v).unwrap();
        if x.size == size {
            return Some(v);
        }
        let newop = s.new_op(2, opaddr);
        s.set_opcode(newop, OpCode::SubPiece);
        let newout = s.new_unique_out(size, newop);
        let used = if x.free && !x.is_constant() && x.readers != 0 {
            s.new_varnode(x.size, x.addr)
        } else {
            v
        };
        s.set_input(newop, used, 0);
        let c0 = s.new_constant(4, 0);
        s.set_input(newop, c0, 1);
        s.push(Edit::InsertBefore { op: newop, at: self.op });
        Some(newout)
    }

    /// Build the inputs for the parameters of the locked prototype. Passes
    /// back the placeholder that is still needed, or `None` if an input cannot
    /// be built.
    fn build_inputs(
        &mut self,
        g: &Graph,
        s: &mut Script,
        newinput: &mut Vec<Option<VarnodeId>>,
        stackref: Option<VarnodeId>,
        placeholder: Option<VarnodeId>,
    ) -> (r: Option<Option<VarnodeId>>)
        requires
            old(self)@.proto.input_locked(),
            old(self)@.inputs_ready(g@, old(newinput)@),
            old(self)@.activeinput.trial.len() == 0,
        ensures
            ({
                let params = old(self)@.proto.inputs();
                let c = inputs_built(
                    old(self)@.op,
                    g@,
                    params,
                    params.len() as int,
                    stackref,
                    InputCommit {
                        failed: false,
                        active: old(self)@.activeinput,
                        inputs: old(newinput)@,
                        script: old(s)@,
                        placeholder,
                        looking: true,
                    },
                );
                &&& final(self)@ == (CallView { activeinput: c.active, ..old(self)@ })
                &&& final(newinput)@ == c.inputs
                &&& final(s)@ == c.script
                &&& r == (if c.failed {
                    None::<Option<VarnodeId>>
                } else {
                    Some(c.placeholder)
                })
                &&& !c.failed ==> forall|k: int|
                    0 <= k < final(newinput)@.len() ==> (#[trigger] final(newinput)@[k]) is Some
            }),
    {
        let ghost c0 = self@;
        let ghost params = self@.proto.inputs();
        let ghost start = InputCommit {
            failed: false,
            active: self@.activeinput,
            inputs: newinput@,
            script: s@,
            placeholder,
            looking: true,
        };
        let mut place = placeholder;
        let mut looking = true;
        let numparams: i32 = self.proto.num_params();
        let mut i: i32 = 0;
        while i < numparams
            invariant
                0 <= i <= numparams,
                numparams == params.len(),
                c0 == old(self)@,
                start == (InputCommit {
                    failed: false,
                    active: old(self)@.activeinput,
                    inputs: old(newinput)@,
                    script: old(s)@,
                    placeholder,
                    looking: true,
                }),
                params == c0.proto.inputs(),
                c0.proto.input_locked(),
                c0.inputs_ready(g@, start.inputs),
                self@ == (CallView { activeinput: self@.activeinput, ..c0 }),
                self@.activeinput.trial.len() == i,
                newinput@.len() == start.inputs.len(),
                forall|k: int| i < k < newinput@.len() ==> newinput@[k] == start.inputs[k],
                inputs_built(c0.op, g@, params, i as int, stackref, start) == (InputCommit {
                    failed: false,
                    active: self@.activeinput,
                    inputs: newinput@,
                    script: s@,
                    placeholder: place,
                    looking,
                }),
                forall|k: int|
                    0 <= k < newinput@.len() && !(i < k <= numparams) ==> (#[trigger] newinput@[k])
                        is Some,
            decreases numparams - i,
        {
            proof {
                lemma_built_prefix(
                    c0.op,
                    g@,
                    params,
                    i as int + 1,
                    params.len() as int,
                    stackref,
                    start,
                );
            }
            assert(start.inputs[i as int + 1] == newinput@[i as int + 1]);
            match self.build_one_input(g, s, newinput, i, stackref, &mut looking) {
                None => {
                    return None;
                },
                Some(marked) => {
                    if marked {
                        place = None;
                    }
                },
            }
            i += 1;
        }
        Some(place)
    }

    /// Build the input for one parameter of the locked prototype. Says whether
    /// it stands for the stack pointer, or `None` if it cannot be built.
    fn build_one_input(
        &mut self,
        g: &Graph,
        s: &mut Script,
        newinput: &mut Vec<Option<VarnodeId>>,
        i: i32,
        stackref: Option<VarnodeId>,
        looking: &mut bool,
    ) -> (r: Option<bool>)
        requires
            old(self)@.proto.store is Some,
            0 <= i < old(self)@.proto.inputs().len() <= i32::MAX,
            old(self)@.proto.inputs()[i as int] is Some,
            i + 1 < old(newinput)@.len(),
            old(self)@.activeinput.trial.len() == i,
            g@.op(old(self)@.op) is Some,
            match old(newinput)@[i + 1] {
                Some(v) => g@.vn(v) is Some,
                None => old(self)@.proto.inputs()[i as int]->0.addr.space is Some,
            },
        ensures
            ({
                let p = old(self)@.proto.inputs()[i as int]->0;
                let (vn, script) = built(
                    old(self)@.op,
                    g@,
                    old(s)@,
                    old(newinput)@[i + 1],
                    p.addr,
                    p.size(),
                    stackref,
                );
                let a = old(self)@.activeinput.registered(p.addr, p.size());
                let marks = *old(looking) && proto::on_stack(p);
                match vn {
                    None => r is None && final(self)@ == old(self)@ && final(s)@ == old(s)@
                        && final(newinput)@ == old(newinput)@ && *final(looking) == *old(looking),
                    Some(v) => {
                        &&& r == Some(marks)
                        &&& final(self)@ == (CallView {
                            activeinput: a.with_trial(i as int, a.trial[i as int].with_active()),
                            ..old(self)@
                        })
                        &&& final(newinput)@ == old(newinput)@.update(i + 1, vn)
                        &&& final(s)@ == (if marks {
                            script.then_do(Edit::MarkPlaceholder { vn: v })
                        } else {
                            script
                        })
                        &&& *final(looking) == (*old(looking) && !marks)
                    },
                }
            }),
    {
        let param = self.proto.get_param(i).unwrap();
        let paddr = param.get_address();
        let psize: i32 = param.get_size();
        let stack = match paddr.space {
            Some(spc) => spc.type_ == SpaceType::Spacebase,
            None => false,
        };
        let at: usize = i as usize + 1;
        let cur = newinput[at];
        match self.build_param(g, s, cur, &paddr, psize, stackref) {
            None => None,
            Some(vn) => {
                newinput.set(at, Some(vn));
                self.activeinput.register_trial(&paddr, psize);
                self.activeinput.get_trial_mut(i).mark_active();
                let marks = *looking && stack;
                if marks {
                    s.push(Edit::MarkPlaceholder { vn });
                    *looking = false;
                }
                Some(marks)
            },
        }
    }

    /// Install the inputs of a locked prototype.
    pub fn commit_new_inputs(
        &mut self,
        g: &Graph,
        s: &mut Script,
        newinput: &mut Vec<Option<VarnodeId>>,
    ) -> (r: Result<(), FspecError>)
        requires
            old(self)@.inputs_ready(g@, old(newinput)@),
        ensures
            ({
                let (ok, call, list, script) = old(self)@.inputs_committed(
                    g@,
                    old(s)@,
                    old(newinput)@,
                );
                &&& final(self)@ == call
                &&& final(newinput)@ == list
                &&& final(s)@ == script
                &&& if ok {
                    r is Ok
                } else {
                    r == Err::<(), FspecError>(FspecError::NoStackLoads)
                }
            }),
    {
        if !self.is_input_locked() {
            return Ok(());
        }
        let stackref = self.get_spacebase_relative(g);
        let placeholder = if self.stack_placeholder_slot >= 0 {
            g.get_in(self.op, self.stack_placeholder_slot)
        } else {
            None
        };
        self.stack_placeholder_slot = -1;
        let num_passes: i32 = self.activeinput.get_num_passes();
        self.activeinput.clear();
        let still = match self.build_inputs(g, s, newinput, stackref, placeholder) {
            None => {
                return Err(FspecError::NoStackLoads);
            },
            Some(p) => p,
        };
        self.install_inputs(s, newinput, still, num_passes);
        Ok(())
    }

    /// Set all inputs of the call.
    fn install_inputs(
        &mut self,
        s: &mut Script,
        newinput: &mut Vec<Option<VarnodeId>>,
        placeholder: Option<VarnodeId>,
        num_passes: i32,
    )
        requires
            forall|k: int|
                0 <= k < old(newinput)@.len() ==> (#[trigger] old(newinput)@[k]) is Some,
        ensures
            (final(self)@, final(newinput)@, final(s)@) == old(self)@.installed(
                old(s)@,
                old(newinput)@,
                placeholder,
                num_passes,
            ),
    {
        if let Some(ph) = placeholder {
            newinput.push(Some(ph));
            self.set_stack_placeholder_slot((newinput.len() - 1) as i32);
        }
        let all = all_given(newinput);
        s.set_all_input(self.op, &all);
        if !self.is_dotdotdot() {
            self.clear_active_input();
        } else if num_passes > 0 {
            self.activeinput.finish_pass();
        }
    }

    /// Make a varnode the output of the call.
    fn make_main_output(
        &self,
        g: &Graph,
        s: &mut Script,
        exact: Option<VarnodeId>,
        newoutput: &Vec<VarnodeId>,
        param: &ParameterBasic,
    ) -> (r: VarnodeId)
        requires
            exact == first_of_size(g@, newoutput@, 0, param@.size()),
            exact matches Some(em) ==> g@.vn(em) is Some,
        ensures
            (r, final(s)@) == self@.main_output(g@, old(s)@, newoutput@, param@),
    {
        match exact {
            Some(em) => {
                let def = g.get_vn(em).unwrap().def;
                let same = match def {
                    Some(d) => d == self.op,
                    None => false,
                };
                if !same {
                    s.push(Edit::SetOutput { op: self.op, vn: em });
                    if let Some(io) = def {
                        s.push(Edit::Unlink { op: io });
                    }
                }
                em
            },
            None => {
                s.push(Edit::UnsetOutput { op: self.op });
                s.new_varnode_out(param.get_size(), param.get_address(), self.op)
            },
        }
    }

    /// The operation other than the call that writes a varnode.
    fn def_besides_call(&self, g: &Graph, v: VarnodeId) -> (r: Option<OpId>)
        requires
            g@.vn(v) is Some,
        ensures
            r == self@.other_def(g@, v),
    {
        match g.get_vn(v).unwrap().def {
            Some(d) => {
                if d == self.op {
                    None
                } else {
                    Some(d)
                }
            },
            None => None,
        }
    }

    fn narrow_output(
        &self,
        g: &Graph,
        s: &mut Script,
        v: VarnodeId,
        main: VarnodeId,
        mainaddr: &Address,
        mainsize: i32,
    )
        requires
            g@.op(self@.op) is Some,
            g@.vn(v) matches Some(x) && x.size > i32::MIN,
        ensures
            final(s)@ == self@.narrowed(g@, old(s)@, v, main, *mainaddr, mainsize),
    {
        let opaddr = g.get_op(self.op).unwrap().addr;
        let x = g.get_vn(v).unwrap();
        let part = match self.def_besides_call(g, v) {
            Some(io) => {
                s.push(Edit::Uninsert { op: io });
                s.set_opcode(io, OpCode::SubPiece);
                io
            },
            None => {
                let nop = s.new_op(2, opaddr);
                s.set_opcode(nop, OpCode::SubPiece);
                s.push(Edit::SetOutput { op: nop, vn: v });
                nop
            },
        };
        let overlap: i32 = overlap_addr(&x.addr, x.size, mainaddr, mainsize);
        s.set_input(part, main, 0);
        let c = s.new_constant(4, overlap as u64);
        s.set_input(part, c, 1);
        s.push(Edit::InsertAfter { op: part, at: self.op });
    }

    fn widen_output(&self, g: &Graph, s: &mut Script, v: VarnodeId, main: VarnodeId, opc: OpCode)
        requires
            g@.op(self@.op) is Some,
            g@.vn(v) is Some,
        ensures
            final(s)@ == self@.widened(g@, old(s)@, v, main, opc),
    {
        let opaddr = g.get_op(self.op).unwrap().addr;
        let ext = match self.def_besides_call(g, v) {
            Some(io) => {
                s.push(Edit::Uninsert { op: io });
                s.push(Edit::RemoveInput { op: io, slot: 1 });
                s.set_opcode(io, opc);
                io
            },
            None => {
                let extop = s.new_op(1, opaddr);
                s.set_opcode(extop, opc);
                s.push(Edit::SetOutput { op: extop, vn: v });
                extop
            },
        };
        s.set_input(ext, main, 0);
        s.push(Edit::InsertAfter { op: ext, at: self.op });
    }

    fn append_lower_bytes(
        &self,
        g: &Graph,
        s: &mut Script,
        v: VarnodeId,
        main: VarnodeId,
        mainaddr: &Address,
        mainsize: i32,
        low: i32,
        more: bool,
    ) -> (r: (OpId, VarnodeId))
        requires
            g@.op(self@.op) is Some,
            g@.vn(v) is Some,
        ensures
            (r.0, r.1, final(s)@) == self@.lower_bytes(
                g@,
                old(s)@,
                v,
                main,
                *mainaddr,
                mainsize,
                low,
                more,
            ),
    {
        let opaddr = g.get_op(self.op).unwrap().addr;
        let x = g.get_vn(v).unwrap();
        let big = x.addr.is_big_endian();
        let lo_addr = if big {
            x.addr.advance(x.size as i64 - low as i64)
        } else {
            x.addr
        };
        let (ind, made) = s.new_indirect_creation(self.op, lo_addr, low);
        let concat = s.new_op(2, opaddr);
        s.set_opcode(concat, OpCode::Piece);
        s.set_input(concat, main, 0);
        s.set_input(concat, made, 1);
        s.push(Edit::InsertAfter { op: concat, at: self.op });
        if more {
            let mid_addr = if big {
                *mainaddr
            } else {
                lo_addr
            };
            let out = s.new_varnode_out(
                (low as i64 + mainsize as i64) as i32,
                mid_addr,
                concat,
            );
            (concat, out)
        } else {
            (concat, main)
        }
    }

    fn append_upper_bytes(
        &self,
        g: &Graph,
        s: &mut Script,
        v: VarnodeId,
        mainsize: i32,
        low: i32,
        high: i32,
        last: OpId,
        last_out: VarnodeId,
    ) -> (r: OpId)
        requires
            g@.op(self@.op) is Some,
            g@.vn(v) is Some,
        ensures
            (r, final(s)@) == self@.upper_bytes(
                g@,
                old(s)@,
                v,
                mainsize,
                low,
                high,
                last,
                last_out,
            ),
    {
        let opaddr = g.get_op(self.op).unwrap().addr;
        let x = g.get_vn(v).unwrap();
        let hi_addr = if !x.addr.is_big_endian() {
            x.addr.advance(mainsize as i64 + low as i64)
        } else {
            x.addr
        };
        let (ind, made) = s.new_indirect_creation(self.op, hi_addr, high);
        let concat = s.new_op(2, opaddr);
        s.set_opcode(concat, OpCode::Piece);
        s.set_input(concat, made, 0);
        s.set_input(concat, last_out, 1);
        s.push(Edit::InsertAfter { op: concat, at: last });
        concat
    }

    fn surround_output(
        &self,
        g: &Graph,
        s: &mut Script,
        v: VarnodeId,
        main: VarnodeId,
        mainaddr: &Address,
        mainsize: i32,
        low: i32,
    )
        requires
            g@.op(self@.op) is Some,
            g@.vn(v) is Some,
        ensures
            final(s)@ == self@.surrounded(g@, old(s)@, v, main, *mainaddr, mainsize, low),
    {
        let x = g.get_vn(v).unwrap();
        if let Some(io) = self.def_besides_call(g, v) {
            s.push(Edit::Unlink { op: io });
        }
        let high: i32 = (x.size as i64 - low as i64 - mainsize as i64) as i32;
        let mut last = self.op;
        let mut last_out = main;
        if low != 0 {
            let (o, out) = self.append_lower_bytes(
                g,
                s,
                v,
                main,
                mainaddr,
                mainsize,
                low,
                high != 0,
            );
            last = o;
            last_out = out;
        }
        if high != 0 {
            last = self.append_upper_bytes(g, s, v, mainsize, low, high, last, last_out);
        }
        s.push(Edit::SetOutput { op: last, vn: v });
    }

    /// Install the output of a locked prototype. The former outputs become
    /// parts or extensions of it.
    pub fn commit_new_outputs(&mut self, g: &Graph, s: &mut Script, newoutput: &Vec<VarnodeId>)
        requires
            old(self)@.outputs_ready(g@, newoutput@),
        ensures
            (final(self)@, final(s)@) == old(self)@.outputs_committed(g@, old(s)@, newoutput@),
    {
        if !self.proto.is_output_locked() {
            return ;
        }
        let ghost c0 = self@;
        let ghost p = self@.proto.store->0.output();
        self.activeoutput.clear();
        if newoutput.len() == 0 {
            return ;
        }
        let paddr = self.proto.get_output().get_address();
        let psize: i32 = self.proto.get_output().get_size();
        let int_type = match self.proto.get_output().get_type() {
            Some(t) => t.metatype == TypeMetatype::Int,
            None => false,
        };
        self.activeoutput.register_trial(&paddr, psize);
        let exact = find_of_size(g, newoutput, psize);
        proof {
            lemma_first_of_size(g@, newoutput@, 0, psize);
        }
        let main = self.make_main_output(g, s, exact, newoutput, self.proto.get_output());
        let mainaddr = match exact {
            Some(em) => g.get_vn(em).unwrap().addr,
            None => paddr,
        };
        let ghost s1 = s@;
        let mut i: usize = 0;
        while i < newoutput.len()
            invariant
                i <= newoutput.len(),
                c0.outputs_ready(g@, newoutput@),
                c0.proto.output_locked(),
                p == c0.proto.store->0.output(),
                paddr == p.addr,
                psize == p.size(),
                int_type == p.is_kind(TypeMetatype::Int),
                exact == first_of_size(g@, newoutput@, 0, psize),
                self@ == (CallView { activeoutput: self@.activeoutput, ..c0 }),
                self@.activeoutput == c0.activeoutput.cleared().registered(paddr, psize),
                s@ == c0.all_redefined(g@, s1, newoutput@, i as int, p, main, mainaddr),
            decreases newoutput.len() - i,
        {
            let v = newoutput[i];
            let skip = match exact {
                Some(em) => em == v,
                None => false,
            };
            if !skip {
                let x = g.get_vn(v).unwrap();
                assert(g@.vn(newoutput@[i as int]) matches Some(y) && y.size > i32::MIN);
                if x.size < psize {
                    self.narrow_output(g, s, v, main, &mainaddr, psize);
                } else if psize < x.size {
                    let low: i32 = x.addr.justified_contain(x.size, &paddr, psize, false);
                    let mut vardata = VarnodeData { space: None, offset: 0, size: 0 };
                    assert(g@.vn(newoutput@[i as int])->0.size > p.size());
                    let opc = self.proto.assumed_output_extension(&paddr, psize, &mut vardata);
                    if opc != OpCode::Copy && low == 0 {
                        let chosen = if opc != OpCode::Piece {
                            opc
                        } else if int_type {
                            OpCode::IntSext
                        } else {
                            OpCode::IntZext
                        };
                        self.widen_output(g, s, v, main, chosen);
                    } else {
                        self.surround_output(g, s, v, main, &mainaddr, psize, low);
                    }
                }
            }
            i += 1;
        }
        self.clear_active_output();
    }
}

impl CallView {
    /// The call known to reach a function.
    pub open spec fn directed(self, entry: Address, name: Seq<char>) -> CallView {
        CallView { entryaddress: entry, name, has_fd: true, ..self }
    }

    /// The changes that make an indirect call a direct one.
    pub open spec fn direct_script(
        self,
        g: GraphView,
        s: ScriptView,
        entry: Address,
        handle: u64,
    ) -> ScriptView {
        s.new_call_specs(handle).set_input(self.op, s.vn(), 0).set_opcode(
            self.op,
            OpCode::Call,
        ).then_do(Edit::IndirectOverride { site: g.op(self.op)->0.addr, target: entry })
    }

    /// The list with the call target replaced.
    pub open spec fn retargeted(
        list: Seq<Option<VarnodeId>>,
        target: VarnodeId,
    ) -> Seq<Option<VarnodeId>> {
        if list.len() > 0 {
            list.update(0, Some(target))
        } else {
            list
        }
    }

    /// Taking over the prototype `r` and rewriting the call for it: the error
    /// if an input cannot be built, the call and the changes. `None` if the
    /// prototype cannot be taken over.
    pub open spec fn taken_over(
        self,
        g: GraphView,
        s: ScriptView,
        r: ProtoView,
        target: VarnodeId,
    ) -> Option<(Option<FspecError>, CallView, ScriptView)> {
        let out = self.restricted(g, r, Seq::empty(), Seq::empty());
        if !out.ok {
            None
        } else {
            let (ok, c2, list, s2) = out.call.inputs_committed(
                g,
                s,
                CallView::retargeted(out.newinput, target),
            );
            if !ok {
                Some((Some(FspecError::NoStackLoads), c2, s2))
            } else {
                let (c3, s3) = c2.outputs_committed(g, s2, out.newoutput);
                Some((None, c3, s3))
            }
        }
    }

    /// What taking over a prototype looks at is there.
    pub open spec fn can_take_over(
        self,
        g: GraphView,
        s: ScriptView,
        r: ProtoView,
        target: VarnodeId,
    ) -> bool {
        let out = self.restricted(g, r, Seq::empty(), Seq::empty());
        &&& self.restrictable(g, r)
        &&& out.ok ==> {
            let list = CallView::retargeted(out.newinput, target);
            let c = out.call.inputs_committed(g, s, list);
            out.call.inputs_ready(g, list) && (c.0 ==> c.1.outputs_ready(g, out.newoutput))
        }
    }
}

impl FuncCallSpecs {
    /// Take over a prototype and rewrite the call for it. `None` if it cannot
    /// be taken over.
    fn take_over(&mut self, g: &Graph, s: &mut Script, newproto: &FuncProto, target: VarnodeId)
        -> (r: Option<Result<(), FspecError>>)
        requires
            old(self)@.can_take_over(g@, old(s)@, newproto@, target),
        ensures
            match old(self)@.taken_over(g@, old(s)@, newproto@, target) {
                None => r is None && final(self)@ == old(self)@ && final(s)@ == old(s)@,
                Some((failure, call, script)) => {
                    &&& final(self)@ == call
                    &&& final(s)@ == script
                    &&& match failure {
                        Some(e) => r == Some(Err::<(), FspecError>(e)),
                        None => r matches Some(x) && x is Ok,
                    }
                },
            },
    {
        let mut newinput: Vec<Option<VarnodeId>> = Vec::new();
        let mut newoutput: Vec<VarnodeId> = Vec::new();
        assert(newinput@ =~= Seq::empty());
        assert(newoutput@ =~= Seq::empty());
        if !self.late_restriction(g, newproto, &mut newinput, &mut newoutput) {
            return None;
        }
        if newinput.len() > 0 {
            newinput.set(0, Some(target));
        }
        let res = self.commit_new_inputs(g, s, &mut newinput);
        if res.is_err() {
            return Some(res);
        }
        self.commit_new_outputs(g, s, &newoutput);
        Some(res)
    }

    /// Turn an indirect call into a direct call of a function, which `handle`
    /// stands for, and take over its prototype. Where that is too late, or the
    /// function does not return or is replaced by its body, the analysis has
    /// to start again.
    pub fn deindirect(
        &mut self,
        g: &Graph,
        s: &mut Script,
        newfd_entry: Address,
        newfd_name: &str,
        newproto: &FuncProto,
        newproto_no_return: bool,
        newproto_inline: bool,
        handle: u64,
    ) -> (r: Result<(), FspecError>)
        requires
            g@.op(old(self)@.op) is Some,
            !newproto_no_return && !newproto_inline && !old(self)@.proto.flag(proto::IS_OVERRIDE)
                ==> old(self)@.directed(newfd_entry, newfd_name@).can_take_over(
                g@,
                old(self)@.direct_script(g@, old(s)@, newfd_entry, handle),
                newproto@,
                old(s)@.vn(),
            ),
        ensures
            ({
                let c = old(self)@.directed(newfd_entry, newfd_name@);
                let s1 = old(self)@.direct_script(g@, old(s)@, newfd_entry, handle);
                let again = s1.then_do(
                    Edit::Restart {
                        reason: RestartReason::ProtoDeindirect,
                        site: g@.op(old(self)@.op)->0.addr,
                    },
                );
                if newproto_no_return || newproto_inline {
                    r is Ok && final(self)@ == c && final(s)@ == again
                } else if old(self)@.proto.flag(proto::IS_OVERRIDE) {
                    r is Ok && final(self)@ == c && final(s)@ == s1
                } else {
                    match c.taken_over(g@, s1, newproto@, old(s)@.vn()) {
                        None => r is Ok && final(self)@ == c && final(s)@ == again,
                        Some((failure, call, script)) => {
                            &&& final(self)@ == call
                            &&& final(s)@ == script
                            &&& match failure {
                                Some(e) => r == Err::<(), FspecError>(e),
                                None => r is Ok,
                            }
                        },
                    }
                }
            }),
    {
        self.entryaddress = newfd_entry;
        self.name = newfd_name.to_owned();
        self.has_fd = true;
        let site = g.get_op(self.op).unwrap().addr;
        let fspecvn = s.new_call_specs(handle);
        s.set_input(self.op, fspecvn, 0);
        s.set_opcode(self.op, OpCode::Call);
        s.push(Edit::IndirectOverride { site, target: newfd_entry });
        if !newproto_no_return && !newproto_inline {
            if self.proto.is_override() {
                return Ok(());
            }
            if let Some(res) = self.take_over(g, s, newproto, fspecvn) {
                return res;
            }
        }
        s.push(Edit::Restart { reason: RestartReason::ProtoDeindirect, site });
        Ok(())
    }

    /// Force a more special prototype on the call, and lock it. Where that is
    /// too late the analysis has to start again.
    pub fn force_set(&mut self, g: &Graph, s: &mut Script, fp: &FuncProto)
        requires
            g@.op(old(self)@.op) is Some,
            old(self)@.restrictable(g@, fp@),
            old(self)@.restricted(g@, fp@, Seq::empty(), Seq::empty()).call.proto.store is Some,
        ensures
            ({
                let out = old(self)@.restricted(g@, fp@, Seq::empty(), Seq::empty());
                &&& final(self)@ == (CallView {
                    proto: out.call.proto.with_input_lock(true).with_flag(
                        proto::ERROR_INPUTPARAM,
                        fp@.flag(proto::ERROR_INPUTPARAM),
                    ).with_flag(
                        proto::ERROR_OUTPUTPARAM,
                        fp@.flag(proto::ERROR_OUTPUTPARAM),
                    ),
                    ..out.call
                })
                &&& final(s)@ == (if out.ok {
                    old(s)@
                } else {
                    old(s)@.then_do(
                        Edit::Restart {
                            reason: RestartReason::ProtoForced,
                            site: g@.op(old(self)@.op)->0.addr,
                        },
                    )
                })
            }),
    {
        let mut newinput: Vec<Option<VarnodeId>> = Vec::new();
        let mut newoutput: Vec<VarnodeId> = Vec::new();
        assert(newinput@ =~= Seq::empty());
        assert(newoutput@ =~= Seq::empty());
        if !self.late_restriction(g, fp, &mut newinput, &mut newoutput) {
            let site = g.get_op(self.op).unwrap().addr;
            s.push(Edit::Restart { reason: RestartReason::ProtoForced, site });
        }
        self.proto.set_input_lock(true);
        self.proto.set_input_errors(fp.has_input_errors());
        self.proto.set_output_errors(fp.has_output_errors());
    }
}

/// The varnodes of a list without gaps.
fn all_given(v: &Vec<Option<VarnodeId>>) -> (r: Vec<VarnodeId>)
    requires
        forall|k: int| 0 <= k < v@.len() ==> (#[trigger] v@[k]) is Some,
    ensures
        r@ == given(v@),
{
    let mut out: Vec<VarnodeId> = Vec::new();
    let mut i: usize = 0;
    while i < v.len()
        invariant
            i <= v.len(),
            forall|k: int| 0 <= k < v@.len() ==> (#[trigger] v@[k]) is Some,
            out@.len() == i,
            forall|k: int| 0 <= k < i ==> #[trigger] out@[k] == v@[k]->0,
        decreases v.len() - i,
    {
        assert(v@[i as int] is Some);
        out.push(v[i].unwrap());
        i += 1;
    }
    assert(out@ =~= given(v@));
    out
}

/// The first varnode of a size.
fn find_of_size(g: &Graph, v: &Vec<VarnodeId>, size: i32) -> (r: Option<VarnodeId>)
    ensures
        r == first_of_size(g@, v@, 0, size),
{
    let mut i: usize = 0;
    while i < v.len()
        invariant
            i <= v.len(),
            first_of_size(g@, v@, 0, size) == first_of_size(g@, v@, i as int, size),
        decreases v.len() - i,
    {
        if let Some(x) = g.get_vn(v[i]) {
            if x.size == size {
                return Some(v[i]);
            }
        }
        i += 1;
    }
    None
}

proof fn lemma_first_of_size(g: GraphView, s: Seq<VarnodeId>, i: int, size: i32)
    ensures
        first_of_size(g, s, i, size) matches Some(v) ==> (g.vn(v) matches Some(x) && x.size
            == size),
    decreases s.len() - i,
{
    if 0 <= i < s.len() {
        lemma_first_of_size(g, s, i + 1, size);
    }
}

/// Once an input cannot be built nothing changes any more.
proof fn lemma_built_prefix(
    op: OpId,
    g: GraphView,
    params: Seq<Option<ParamView>>,
    n: int,
    m: int,
    stackref: Option<VarnodeId>,
    start: InputCommit,
)
    requires
        0 <= n <= m <= params.len(),
    ensures
        inputs_built(op, g, params, n, stackref, start).failed ==> inputs_built(
            op,
            g,
            params,
            m,
            stackref,
            start,
        ) == inputs_built(op, g, params, n, stackref, start),
    decreases m - n,
{
    if n < m {
        lemma_built_prefix(op, g, params, n, m - 1, stackref, start);
    }
}

} // verus!
