//! The inputs and outputs that the prototype of the analysed function forces,
//! and prototypes for the functions that it calls.
use crate::actions::{Action, ActionDefaultParams, ActionPrototypeTypes};
use crate::callspec::{CallView, FuncCallSpecs};
use crate::commit;
use crate::declare;
use crate::declare::ProtoOut;
use crate::dtype::{Datatype, TypeMetatype};
use crate::graph::{BlockId, Graph, GraphView, OpId, VarnodeId};
use crate::joins::{AddrSpaceManager, JoinTable};
use crate::link;
use crate::model::ProtoModel;
use crate::opcode::OpCode;
use crate::paramlist::ListView;
use crate::pieces::PrototypePieces;
use crate::proto;
use crate::proto::{FuncProto, ProtoView};
use crate::script::{Edit, Script, ScriptView};
use crate::space::{AddrSpace, Address, VarnodeData};
use crate::store::{ParamView, ParameterBasic, ProtoParameter};
use std::rc::Rc;
use vstd::prelude::*;

verus! {

impl ProtoView {
    /// Is `m` the model.
    pub open spec fn follows(self, m: Rc<ProtoModel>) -> bool {
        self.model matches Some(x) && (*x)@.id == (*m)@.id
    }

    /// Under the model to evaluate with, unless another one is locked.
    pub open spec fn evaluated(self, evalfp: Option<Rc<ProtoModel>>) -> ProtoView {
        match evalfp {
            Some(m) => if !self.flag(proto::MODELLOCK) && !self.follows(m) {
                self.with_model(Some(m))
            } else {
                self
            },
            None => self,
        }
    }
}

/// The changes that put a constant in the place of the return address at the
/// first `n` returns, and their number.
pub open spec fn returns_stripped(g: GraphView, s: ScriptView, rs: Seq<OpId>, n: int) -> (
    ScriptView,
    int,
)
    decreases n,
{
    if n <= 0 || n > rs.len() {
        (s, 0)
    } else {
        let (t, k) = returns_stripped(g, s, rs, n - 1);
        match g.input(rs[n - 1], 0) {
            None => (t, k),
            Some(v) => if g.vn(v) matches Some(x) && x.constant() {
                (t, k)
            } else {
                let size = match g.vn(v) {
                    Some(x) => x.size,
                    None => 1,
                };
                (t.new_constant(size, 0).set_input(rs[n - 1], t.vn(), 0), k + 1)
            },
        }
    }
}

/// A return that really returns.
pub open spec fn live_return(g: GraphView, op: OpId) -> bool {
    g.op(op) matches Some(o) && !o.dead && !o.halt
}

/// The changes that make the first `n` returns return the value `p`, and their
/// number.
pub open spec fn returns_forced(
    g: GraphView,
    s: ScriptView,
    rs: Seq<OpId>,
    n: int,
    p: ParamView,
) -> (ScriptView, int)
    decreases n,
{
    if n <= 0 || n > rs.len() {
        (s, 0)
    } else {
        let (t, k) = returns_forced(g, s, rs, n - 1, p);
        let op = rs[n - 1];
        if !live_return(g, op) {
            (t, k)
        } else {
            (
                t.new_varnode(p.size(), p.addr).insert_input(
                    op,
                    t.vn(),
                    g.op(op)->0.inputs.len() as int,
                ).then_do(Edit::LockType { vn: t.vn(), type_: p.type_->0 }),
                k + 1,
            )
        }
    }
}

/// The changes that extend the input `vn` into a register at the top of the
/// function, if the model assumes that it is extended.
pub open spec fn input_extended(
    l: ListView,
    s: ScriptView,
    vn: VarnodeId,
    addr: Address,
    size: i32,
    int_type: bool,
    top: BlockId,
    start: Address,
) -> ScriptView {
    match l.first_extender(0, addr, size as int) {
        None => s,
        Some(i) => {
            let opc = commit::typed_extension(l.entry[i].extension_op(addr, size as int), int_type);
            if opc == OpCode::Copy {
                s
            } else {
                let whole = l.entry[i].extension_container(addr);
                let op = s.op();
                s.new_op(1, start).new_varnode_out(whole.size as i32, whole.addr(), op).set_opcode(
                    op,
                    opc,
                ).set_input(op, vn, 0).then_do(Edit::InsertBegin { op, block: top })
            }
        },
    }
}

/// The changes that make a varnode for a locked input.
pub open spec fn input_forced(
    l: ListView,
    s: ScriptView,
    p: ParamView,
    top: Option<(BlockId, Address)>,
) -> ScriptView {
    let vn = s.vn();
    let s1 = s.new_varnode(p.size(), p.addr).then_do(Edit::SetInputVarnode { vn }).then_do(
        Edit::LockInput { vn },
    );
    let s2 = if p.type_ is Some && !p.is_kind(TypeMetatype::Unknown) {
        s1.then_do(Edit::LockType { vn, type_: p.type_->0 })
    } else {
        s1
    };
    match top {
        Some((block, start)) => if p.type_ is Some {
            input_extended(
                l,
                s2,
                vn,
                p.addr,
                p.size(),
                p.is_kind(TypeMetatype::Int),
                block,
                start,
            )
        } else {
            s2
        },
        None => s2,
    }
}

/// The changes that make varnodes for the first `n` locked inputs, and the
/// number of inputs that come of it: none where another input is in the way.
pub open spec fn inputs_forced(
    l: ListView,
    s: ScriptView,
    params: Seq<Option<ParamView>>,
    n: int,
    top: Option<(BlockId, Address)>,
    taken: Seq<bool>,
) -> (ScriptView, int)
    decreases n,
{
    if n <= 0 || n > params.len() {
        (s, 0)
    } else {
        let (t, k) = inputs_forced(l, s, params, n - 1, top, taken);
        match params[n - 1] {
            None => (t, k),
            Some(p) => if n - 1 < taken.len() && taken[n - 1] {
                (t.new_varnode(p.size(), p.addr), k)
            } else {
                (input_forced(l, t, p, top), k + 1)
            },
        }
    }
}

/// All that a prototype forces, and the number of changes.
pub open spec fn types_forced(
    g: GraphView,
    s: ScriptView,
    rs: Seq<OpId>,
    p: ProtoView,
    top: Option<(BlockId, Address)>,
    taken: Seq<bool>,
) -> (ScriptView, int) {
    let n = rs.len() as int;
    let (s1, k1) = returns_stripped(g, s.then_do(Edit::ResetLocalWindow), rs, n);
    let (s2, k2) = if !p.output_locked() {
        (s1.then_do(Edit::InitActiveOutput), 1)
    } else {
        let o = p.store->0.output();
        if o.type_ is None || o.is_kind(TypeMetatype::Void) {
            (s1, 0)
        } else {
            returns_forced(g, s1, rs, n, o)
        }
    };
    let (s3, k3) = if p.input_locked() {
        inputs_forced(p.model_view().ins(), s2, p.inputs(), p.inputs().len() as int, top, taken)
    } else {
        (s2, 0)
    };
    (s3, k1 + k2 + k3)
}

/// Extend an input into a register at the top of the function, if the model
/// assumes that it is extended.
pub fn extend_input(
    fp: &FuncProto,
    s: &mut Script,
    invn: VarnodeId,
    in_addr: &Address,
    in_size: i32,
    param_type: &Datatype,
    topbl: BlockId,
    start: Address,
)
    requires
        fp@.has_inputs(),
    ensures
        final(s)@ == input_extended(
            fp@.model_view().ins(),
            old(s)@,
            invn,
            *in_addr,
            in_size,
            param_type.metatype == TypeMetatype::Int,
            topbl,
            start,
        ),
{
    let mut vdata = VarnodeData { space: None, offset: 0, size: 0 };
    let assumed = fp.assumed_input_extension(in_addr, in_size, &mut vdata);
    if assumed == OpCode::Copy {
        return ;
    }
    let res = if assumed != OpCode::Piece {
        assumed
    } else if param_type.metatype == TypeMetatype::Int {
        OpCode::IntSext
    } else {
        OpCode::IntZext
    };
    let op = s.new_op(1, start);
    let _out = s.new_varnode_out(vdata.size as i32, vdata.get_addr(), op);
    s.set_opcode(op, res);
    s.set_input(op, invn, 0);
    s.push(Edit::InsertBegin { op, block: topbl });
}

impl ActionPrototypeTypes {
    fn strip_returns(g: &Graph, s: &mut Script, retops: &Vec<OpId>) -> (r: u128)
        ensures
            (final(s)@, r as int) == returns_stripped(
                g@,
                old(s)@,
                retops@,
                retops@.len() as int,
            ),
            r <= retops@.len(),
    {
        let mut n: u128 = 0;
        let mut i: usize = 0;
        while i < retops.len()
            invariant
                i <= retops.len(),
                (s@, n as int) == returns_stripped(g@, old(s)@, retops@, i as int),
                n <= i,
            decreases retops.len() - i,
        {
            let op = retops[i];
            if let Some(v) = g.get_in(op, 0) {
                let (constant, size) = match g.get_vn(v) {
                    Some(x) => (x.is_constant(), x.size),
                    None => (false, 1i32),
                };
                if !constant {
                    let c = s.new_constant(size, 0);
                    s.set_input(op, c, 0);
                    n += 1;
                }
            }
            i += 1;
        }
        n
    }

    fn force_returns(
        g: &Graph,
        s: &mut Script,
        retops: &Vec<OpId>,
        param: &ParameterBasic,
        type_: Datatype,
    ) -> (r: u128)
        requires
            param@.type_ == Some(type_),
        ensures
            (final(s)@, r as int) == returns_forced(
                g@,
                old(s)@,
                retops@,
                retops@.len() as int,
                param@,
            ),
            r <= retops@.len(),
    {
        let size: i32 = param.get_size();
        let addr = param.get_address();
        let mut n: u128 = 0;
        let mut i: usize = 0;
        while i < retops.len()
            invariant
                i <= retops.len(),
                param@.size() == size,
                param@.addr == addr,
                param@.type_ == Some(type_),
                (s@, n as int) == returns_forced(g@, old(s)@, retops@, i as int, param@),
                n <= i,
            decreases retops.len() - i,
        {
            let op = retops[i];
            if let Some(o) = g.get_op(op) {
                if !o.dead && !o.halt {
                    let vn = s.new_varnode(size, addr);
                    s.insert_input(op, vn, o.num_input());
                    s.push(Edit::LockType { vn, type_ });
                    n += 1;
                }
            }
            i += 1;
        }
        n
    }

    fn force_inputs(
        fp: &FuncProto,
        s: &mut Script,
        top: Option<(BlockId, Address)>,
        taken: &Vec<bool>,
    ) -> (r: u128)
        requires
            fp@.store matches Some(x) && x.wf(),
            top is Some ==> fp@.has_inputs(),
        ensures
            (final(s)@, r as int) == inputs_forced(
                fp@.model_view().ins(),
                old(s)@,
                fp@.inputs(),
                fp@.inputs().len() as int,
                top,
                taken@,
            ),
            r <= fp@.inputs().len(),
    {
        let ghost l = fp@.model_view().ins();
        let ghost params = fp@.inputs();
        let numparams: i32 = fp.num_params();
        let mut n: u128 = 0;
        let mut i: i32 = 0;
        while i < numparams
            invariant
                0 <= i <= numparams,
                l == fp@.model_view().ins(),
                params == fp@.inputs(),
                fp@.store is Some,
                numparams == params.len(),
                top is Some ==> fp@.has_inputs(),
                (s@, n as int) == inputs_forced(l, old(s)@, params, i as int, top, taken@),
                n <= i,
            decreases numparams - i,
        {
            if let Some(param) = fp.get_param(i) {
                let psize: i32 = param.get_size();
                let paddr = param.get_address();
                let vn = s.new_varnode(psize, paddr);
                let there = (i as usize) < taken.len() && taken[i as usize];
                if !there {
                    s.push(Edit::SetInputVarnode { vn });
                    s.push(Edit::LockInput { vn });
                    if let Some(ptype) = param.get_type() {
                        if ptype.metatype != TypeMetatype::Unknown {
                            s.push(Edit::LockType { vn, type_: ptype });
                        }
                        if let Some((topbl, start)) = top {
                            extend_input(fp, s, vn, &paddr, psize, &ptype, topbl, start);
                        }
                    }
                    n += 1;
                }
            }
            i += 1;
        }
        n
    }

    /// Set up what the prototype of the function forces. `evalfp` is the model
    /// to evaluate functions with, `retops` are the returns of the function,
    /// `top` is its first block and where that starts, and `taken` says for
    /// each parameter whether another input is in its way.
    pub fn apply(
        &mut self,
        fp: &mut FuncProto,
        evalfp: Option<Rc<ProtoModel>>,
        g: &Graph,
        s: &mut Script,
        retops: &Vec<OpId>,
        top: Option<(BlockId, Address)>,
        taken: &Vec<bool>,
    ) -> (r: i32)
        requires
            old(fp)@.wf(),
            old(fp)@.input_locked() ==> old(fp)@.store is Some && (top is Some ==> old(
                fp,
            )@.evaluated(evalfp).has_inputs()),
        ensures
            r == 0,
            final(fp)@ == old(fp)@.evaluated(evalfp),
            ({
                let (script, n) = types_forced(g@, old(s)@, retops@, final(fp)@, top, taken@);
                final(s)@ == script && final(self).info() == old(self).info().noted(n)
            }),
    {
        proof {
            lemma_model_keeps_locks(fp@, evalfp);
        }
        if let Some(m) = evalfp {
            if !fp.is_model_locked() && !fp.has_matching_model(&m) {
                fp.set_model(Some(m));
            }
        }
        s.push(Edit::ResetLocalWindow);
        assert(retops.len() <= usize::MAX);
        let mut n: u128 = ActionPrototypeTypes::strip_returns(g, s, retops);
        if fp.is_output_locked() {
            let param = fp.get_output();
            if let Some(t) = param.get_type() {
                if t.metatype != TypeMetatype::Void {
                    n += ActionPrototypeTypes::force_returns(g, s, retops, param, t);
                }
            }
        } else {
            s.push(Edit::InitActiveOutput);
            n += 1;
        }
        if fp.is_input_locked() {
            n += ActionPrototypeTypes::force_inputs(fp, s, top, taken);
        }
        self.base.note(n);
        0
    }
}

/// Following another model changes no lock and no parameter.
proof fn lemma_model_keeps_locks(p: ProtoView, m: Option<Rc<ProtoModel>>)
    ensures
        p.evaluated(m).input_locked() == p.input_locked(),
        p.evaluated(m).store == p.store,
        p.evaluated(m).effectlist == p.effectlist,
        p.wf() ==> p.evaluated(m).wf(),
{
    let f = p.flags;
    assert(forall|a: u32, b: u32, c: u32|
        (a == 0 || a == 0x800) && (b == 0 || b == 0x200) && (c == 0 || c == 0x2000)
            ==> #[trigger] (((f | a) | b) | c) & 2u32 == f & 2u32) by (bit_vector);
    assert(f | 0u32 == f) by (bit_vector);
    assert((f | 0x800u32) | 0u32 == (f | 0x800u32)) by (bit_vector);
    if let Some(x) = m {
        let v = (*x)@;
        let a: u32 = if v.has_this {
            0x800
        } else {
            0
        };
        let b: u32 = if v.is_construct {
            0x200
        } else {
            0
        };
        let c: u32 = if v.output matches Some(l) && l.auto_killed_by_call {
            0x2000
        } else {
            0
        };
        let f1 = f | a;
        assert(f1 | 0u32 == f1) by (bit_vector);
        let f2 = f1 | b;
        assert(f2 | 0u32 == f2) by (bit_vector);
        assert(p.with_model(m).flags == f2 | c);
        assert((((f | a) | b) | c) & 2u32 == f & 2u32);
    }
}

/// What is declared of a called function: its components, and its model.
#[derive(Debug)]
pub struct CalleeDecl {
    pub pieces: Option<PrototypePieces>,
    pub model: Option<Rc<ProtoModel>>,
}

impl CalleeDecl {
    /// Only the storage of the return value is declared.
    pub open spec fn output_only(self) -> bool {
        self.pieces matches Some(d) && d@.intypes.len() == 0 && d@.outtype is None
            && d@.output_storage is Some
    }

    /// The model to declare the function with.
    pub open spec fn seed_model(self, default_fp: Option<Rc<ProtoModel>>) -> Option<
        Rc<ProtoModel>,
    > {
        match default_fp {
            None => None,
            Some(d) => Some(
                match self.model {
                    Some(m) => m,
                    None => d,
                },
            ),
        }
    }

    /// The prototype that the declaration gives, if it gives one.
    pub open spec fn declared(
        self,
        default_fp: Option<Rc<ProtoModel>>,
        void_type: Datatype,
        data_space: Option<AddrSpace>,
        table: JoinTable,
    ) -> Option<ProtoOut> {
        if self.pieces is None || self.output_only() || default_fp is None {
            None
        } else {
            Some(
                proto::blank_proto().seeded(
                    self.pieces->0@,
                    self.seed_model(default_fp)->0,
                    void_type,
                    data_space,
                    table,
                ),
            )
        }
    }

    /// What the declaration gives can be laid out.
    pub open spec fn declarable(
        self,
        default_fp: Option<Rc<ProtoModel>>,
        void_type: Datatype,
        data_space: Option<AddrSpace>,
        table: JoinTable,
    ) -> bool {
        &&& self.output_only() ==> self.pieces->0@.output_storage->0.type_ is Some
        &&& self.declared(default_fp, void_type, data_space, table) matches Some(out) ==> {
            let d = self.pieces->0@;
            &&& (*self.seed_model(default_fp)->0)@.lays_out()
            &&& d.intypes.len() + 2 < i32::MAX
            &&& declare::custom_ok(d, out.proto.store->0.inparam.len() as int)
            &&& d.outtype is None ==> (d.output_storage matches Some(p) ==> p.type_ is Some)
        }
    }
}

impl CallView {
    /// What is declared of the callee: nothing, unless the callee is known.
    pub open spec fn declaration(self, decl: CalleeDecl) -> CalleeDecl {
        if self.has_fd {
            decl
        } else {
            CalleeDecl { pieces: None, model: None }
        }
    }

    /// With a prototype: the declared one, or one to be recovered under the
    /// model to evaluate calls with, perhaps with a declared return value.
    pub open spec fn with_default(
        self,
        evalfp: Rc<ProtoModel>,
        void_type: Datatype,
        decl: CalleeDecl,
        default_fp: Option<Rc<ProtoModel>>,
        data_space: Option<AddrSpace>,
        table: JoinTable,
    ) -> (CallView, JoinTable) {
        let known = decl.declared(default_fp, void_type, data_space, table);
        let table2 = match known {
            Some(out) => out.table,
            None => table,
        };
        if known matches Some(out) && out.res is Ok {
            let p = ProtoView {
                return_bytes_consumed: self.proto.return_bytes_consumed,
                ..known->0.proto
            };
            (CallView { proto: p.evaluated(Some(evalfp)), ..self }, table2)
        } else {
            let base = ProtoView {
                store: Some(crate::store::empty_store(void_type)),
                ..self.proto
            };
            let p = if self.proto.model is None {
                base.with_model(Some(evalfp))
            } else {
                base
            };
            let q = if decl.output_only() {
                ProtoView {
                    store: Some(
                        p.store->0.with_output(decl.pieces->0@.output_storage->0),
                    ),
                    ..p
                }.with_output_lock(true)
            } else {
                p
            };
            (CallView { proto: q, ..self }, table2)
        }
    }
}

impl ActionDefaultParams {
    /// The prototype that a declaration gives, if it gives one.
    fn declared_proto(
        decl: &CalleeDecl,
        default_fp: &Option<Rc<ProtoModel>>,
        void_type: Datatype,
        manager: &mut AddrSpaceManager,
    ) -> (r: Option<FuncProto>)
        requires
            decl.declarable(
                *default_fp,
                void_type,
                old(manager).default_data_space,
                old(manager).table(),
            ),
        ensures
            ({
                let known = decl.declared(
                    *default_fp,
                    void_type,
                    old(manager).default_data_space,
                    old(manager).table(),
                );
                &&& final(manager).table() == (match known {
                    Some(out) => out.table,
                    None => old(manager).table(),
                })
                &&& match r {
                    Some(p) => known matches Some(out) && out.res is Ok && p@ == out.proto,
                    None => !(known matches Some(out) && out.res is Ok),
                }
            }),
            final(manager).default_data_space == old(manager).default_data_space,
            final(manager).stack_space == old(manager).stack_space,
            old(manager).wf() ==> final(manager).wf(),
    {
        let d = match &decl.pieces {
            Some(d) => d,
            None => {
                return None;
            },
        };
        if d.intypes.len() == 0 && d.outtype.is_none() && d.output_storage.is_some() {
            return None;
        }
        let dfp = match default_fp {
            Some(m) => Rc::clone(m),
            None => {
                return None;
            },
        };
        let seed_model = match &decl.model {
            Some(m) => Rc::clone(m),
            None => dfp,
        };
        let mut fp = FuncProto::new();
        match fp.seed_locked_from_pieces(d, seed_model, void_type, manager) {
            Ok(_) => Some(fp),
            Err(_) => None,
        }
    }

    /// Give a call without a model a prototype.
    pub fn set_default(
        fc: &mut FuncCallSpecs,
        evalfp: &Rc<ProtoModel>,
        void_type: Datatype,
        decl: &CalleeDecl,
        default_fp: &Option<Rc<ProtoModel>>,
        manager: &mut AddrSpaceManager,
    )
        requires
            decl.declarable(
                *default_fp,
                void_type,
                old(manager).default_data_space,
                old(manager).table(),
            ),
        ensures
            (final(fc)@, final(manager).table()) == old(fc)@.with_default(
                *evalfp,
                void_type,
                *decl,
                *default_fp,
                old(manager).default_data_space,
                old(manager).table(),
            ),
            final(manager).default_data_space == old(manager).default_data_space,
            final(manager).stack_space == old(manager).stack_space,
            old(manager).wf() ==> final(manager).wf(),
    {
        match ActionDefaultParams::declared_proto(decl, default_fp, void_type, manager) {
            Some(calleeproto) => {
                fc.proto.copy(&calleeproto);
                if !fc.proto.is_model_locked() && !fc.proto.has_matching_model(evalfp) {
                    fc.proto.set_model(Some(Rc::clone(evalfp)));
                }
            },
            None => {
                fc.proto.set_internal(Rc::clone(evalfp), void_type);
                if let Some(d) = &decl.pieces {
                    if d.intypes.len() == 0 && d.outtype.is_none() {
                        if let Some(out_piece) = d.output_storage {
                            fc.proto.set_output(&out_piece);
                            fc.proto.set_output_lock(true);
                        }
                    }
                }
            },
        }
    }

    /// Give every call without a model a prototype. `decls` says what is
    /// declared of the callees that are known.
    pub fn apply(
        &mut self,
        calls: &mut Vec<FuncCallSpecs>,
        evalfp: Option<Rc<ProtoModel>>,
        void_type: Option<Datatype>,
        decls: &Vec<CalleeDecl>,
        default_fp: &Option<Rc<ProtoModel>>,
        manager: &mut AddrSpaceManager,
    ) -> (r: i32)
        requires
            decls@.len() >= old(calls)@.len(),
            evalfp is Some && void_type is Some ==> all_declarable(
                link::calls_view(old(calls)@),
                old(calls)@.len() as int,
                evalfp->0,
                void_type->0,
                decls@,
                *default_fp,
                old(manager).default_data_space,
                old(manager).table(),
            ),
        ensures
            r == 0,
            *final(self) == *old(self),
            if evalfp is Some && void_type is Some {
                (link::calls_view(final(calls)@), final(manager).table()) == defaults_set(
                    link::calls_view(old(calls)@),
                    old(calls)@.len() as int,
                    evalfp->0,
                    void_type->0,
                    decls@,
                    *default_fp,
                    old(manager).default_data_space,
                    old(manager).table(),
                )
            } else {
                final(calls)@ == old(calls)@ && final(manager).table() == old(manager).table()
            },
            final(manager).default_data_space == old(manager).default_data_space,
            final(manager).stack_space == old(manager).stack_space,
            old(manager).wf() ==> final(manager).wf(),
    {
        let evalfp = match evalfp {
            Some(m) => m,
            None => {
                return 0;
            },
        };
        let void_ty = match void_type {
            Some(t) => t,
            None => {
                return 0;
            },
        };
        let unknown = CalleeDecl { pieces: None, model: None };
        let ghost cs = link::calls_view(calls@);
        let ghost ds = manager.default_data_space;
        let ghost t0 = manager.table();
        let size: usize = calls.len();
        let mut i: usize = 0;
        while i < size
            invariant
                i <= size,
                size == calls@.len(),
                size == cs.len(),
                unknown == (CalleeDecl { pieces: None, model: None }),
                cs == link::calls_view(old(calls)@),
                ds == old(manager).default_data_space,
                t0 == old(manager).table(),
                *self == *old(self),
                decls@.len() >= size,
                all_declarable(cs, size as int, evalfp, void_ty, decls@, *default_fp, ds, t0),
                manager.default_data_space == ds,
                manager.stack_space == old(manager).stack_space,
                old(manager).wf() ==> manager.wf(),
                forall|k: int| i <= k < size ==> (#[trigger] calls@[k])@ == cs[k],
                (link::calls_view(calls@), manager.table()) == defaults_set(
                    cs,
                    i as int,
                    evalfp,
                    void_ty,
                    decls@,
                    *default_fp,
                    ds,
                    t0,
                ),
            decreases size - i,
        {
            let ghost before = link::calls_view(calls@);
            assert(calls@[i as int]@ == cs[i as int]);
            if !calls[i].proto.has_model() {
                proof {
                    lemma_declarable(
                        cs,
                        size as int,
                        i as int,
                        evalfp,
                        void_ty,
                        decls@,
                        *default_fp,
                        ds,
                        t0,
                    );
                }
                let fc = &mut calls[i];
                let decl = if fc.has_funcdata() {
                    &decls[i]
                } else {
                    &unknown
                };
                ActionDefaultParams::set_default(
                    fc,
                    &evalfp,
                    void_ty,
                    decl,
                    default_fp,
                    manager,
                );
                assert(link::calls_view(calls@) =~= before.update(i as int, calls@[i as int]@));
            }
            i += 1;
        }
        0
    }
}

/// The first `n` calls with prototypes, and the join table.
pub open spec fn defaults_set(
    cs: Seq<CallView>,
    n: int,
    evalfp: Rc<ProtoModel>,
    void_type: Datatype,
    decls: Seq<CalleeDecl>,
    default_fp: Option<Rc<ProtoModel>>,
    data_space: Option<AddrSpace>,
    table: JoinTable,
) -> (Seq<CallView>, JoinTable)
    decreases n,
{
    if n <= 0 || n > cs.len() {
        (cs, table)
    } else {
        let (ds, t) = defaults_set(
            cs,
            n - 1,
            evalfp,
            void_type,
            decls,
            default_fp,
            data_space,
            table,
        );
        if cs[n - 1].proto.model is Some {
            (ds, t)
        } else {
            let (c, t2) = cs[n - 1].with_default(
                evalfp,
                void_type,
                cs[n - 1].declaration(decls[n - 1]),
                default_fp,
                data_space,
                t,
            );
            (ds.update(n - 1, c), t2)
        }
    }
}

/// What is declared of the callees of the first `n` calls can be laid out.
pub open spec fn all_declarable(
    cs: Seq<CallView>,
    n: int,
    evalfp: Rc<ProtoModel>,
    void_type: Datatype,
    decls: Seq<CalleeDecl>,
    default_fp: Option<Rc<ProtoModel>>,
    data_space: Option<AddrSpace>,
    table: JoinTable,
) -> bool
    decreases n,
{
    n <= 0 || (all_declarable(
        cs,
        n - 1,
        evalfp,
        void_type,
        decls,
        default_fp,
        data_space,
        table,
    ) && (cs[n - 1].proto.model is None ==> cs[n - 1].declaration(decls[n - 1]).declarable(
        default_fp,
        void_type,
        data_space,
        defaults_set(
            cs,
            n - 1,
            evalfp,
            void_type,
            decls,
            default_fp,
            data_space,
            table,
        ).1,
    )))
}

proof fn lemma_declarable(
    cs: Seq<CallView>,
    n: int,
    i: int,
    evalfp: Rc<ProtoModel>,
    void_type: Datatype,
    decls: Seq<CalleeDecl>,
    default_fp: Option<Rc<ProtoModel>>,
    data_space: Option<AddrSpace>,
    table: JoinTable,
)
    requires
        0 <= i < n <= cs.len(),
        all_declarable(cs, n, evalfp, void_type, decls, default_fp, data_space, table),
        cs[i].proto.model is None,
    ensures
        cs[i].declaration(decls[i]).declarable(
            default_fp,
            void_type,
            data_space,
            defaults_set(
                cs,
                i,
                evalfp,
                void_type,
                decls,
                default_fp,
                data_space,
                table,
            ).1,
        ),
    decreases n,
{
    if i < n - 1 {
        lemma_declarable(
            cs,
            n - 1,
            i,
            evalfp,
            void_type,
            decls,
            default_fp,
            data_space,
            table,
        );
    }
}

} // verus!
