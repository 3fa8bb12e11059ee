//! Setting up the inputs and the output of calls before the flow of data is
//! known: varnodes for what the prototype fixes, trials for what is open.
use crate::actions::{Action, ActionExtraPopSetup, ActionFuncLink, ActionFuncLinkOutOnly};
use crate::active::{ActiveView, ParamActive};
use crate::callspec::{CallView, FuncCallSpecs};
use crate::commit;
use crate::dtype::TypeMetatype;
use crate::graph::{Graph, GraphView, OpId};
use crate::joins::{AddrSpaceManager, JoinTable};
use crate::model;
use crate::opcode::OpCode;
use crate::proto;
use crate::restrict;
use crate::script::{Edit, Script, ScriptView};
use crate::space::{AddrSpace, Address, SpaceType, VarnodeData};
use crate::store::{ParamView, ProtoParameter};
use crate::trial::ParamTrial;
use vstd::prelude::*;

verus! {

/// The state while the inputs of a call are set up: the changes, the number of
/// inputs, whether an input stands for the stack pointer, and the stack space
/// if one is still wanted for that.
#[verifier::ext_equal]
pub struct LinkState {
    pub script: ScriptView,
    pub nin: int,
    pub marked: bool,
    pub spacebase: Option<AddrSpace>,
}

/// Is the location on the stack.
pub open spec fn stack_piece(v: VarnodeData) -> bool {
    v.space matches Some(s) && s.type_ == SpaceType::Spacebase
}

/// The end of a list of pieces that is on the stack, the first one if both are.
pub open spec fn stack_end(pieces: Seq<VarnodeData>) -> Option<int> {
    if stack_piece(pieces[0]) {
        Some(0)
    } else if stack_piece(pieces.last()) {
        Some(pieces.len() - 1)
    } else {
        None
    }
}

/// The pieces of a parameter in the join space, if it is known there and one
/// of its ends is on the stack.
pub open spec fn split_on_stack(table: JoinTable, addr: Address) -> Option<
    (Seq<VarnodeData>, int),
> {
    if addr.space matches Some(s) && s.type_ == SpaceType::Join {
        let k = table.position(addr.offset, 0);
        if k < table.joins.len() {
            match stack_end(table.joins[k].pieces) {
                Some(e) => Some((table.joins[k].pieces, e)),
                None => None,
            }
        } else {
            None
        }
    } else {
        None
    }
}

/// Trials for a parameter that is fixed.
pub open spec fn fixed_trial(
    a: ActiveView,
    addr: Address,
    size: i32,
    i: int,
    varargs: bool,
) -> ActiveView {
    let b = a.registered(addr, size);
    let t = b.trial[i].with_active();
    b.with_trial(
        i,
        if varargs {
            ParamTrial { fixed_position: i as i32, ..t }
        } else {
            t
        },
    )
}

/// The state with one more input of the call.
pub open spec fn input_added(st: LinkState, script: ScriptView) -> LinkState {
    LinkState { script, nin: st.nin + 1, ..st }
}

/// A parameter of the call `op` set up: loaded from the stack, put together of
/// a stack piece and the rest of a join, or a plain varnode.
pub open spec fn linked(
    op: OpId,
    opaddr: Address,
    table: JoinTable,
    addr: Address,
    size: i32,
    remain: Option<VarnodeData>,
    st: LinkState,
) -> LinkState {
    let s = st.script;
    match addr.space {
        None => st,
        Some(spc) => if spc.type_ == SpaceType::Spacebase {
            if !s.loads {
                st
            } else {
                let s1 = s.stack_load(spc, addr.offset, size as u32, op, None).insert_input(
                    op,
                    s.vn(),
                    st.nin,
                );
                if st.marked {
                    input_added(st, s1)
                } else {
                    LinkState {
                        marked: true,
                        spacebase: None,
                        ..input_added(st, s1.then_do(Edit::MarkPlaceholder { vn: s.vn() }))
                    }
                }
            }
        } else if split_on_stack(table, addr) is Some && remain is Some {
            let (pieces, k) = split_on_stack(table, addr)->0;
            if remain->0.space is None || !s.loads {
                st
            } else {
                input_added(
                    st,
                    pieced_together(op, opaddr, pieces[k], k == 0, remain->0, size, st.nin, s),
                )
            }
        } else {
            input_added(st, s.new_varnode(size, addr).insert_input(op, s.vn(), st.nin))
        },
    }
}

/// The changes that put an input together of its stack piece, which is its
/// most significant part if `first`, and the rest.
pub open spec fn pieced_together(
    op: OpId,
    opaddr: Address,
    stack: VarnodeData,
    first: bool,
    rest: VarnodeData,
    size: i32,
    nin: int,
    s: ScriptView,
) -> ScriptView {
    let s1 = s.stack_load(stack.space->0, stack.offset, stack.size, op, None);
    let s2 = s1.new_varnode(rest.size as i32, rest.addr());
    let concat = s2.op();
    let s3 = s2.new_op(2, opaddr).set_opcode(concat, OpCode::Piece);
    let s4 = if first {
        s3.set_input(concat, s.vn(), 0).set_input(concat, s1.vn(), 1)
    } else {
        s3.set_input(concat, s1.vn(), 0).set_input(concat, s.vn(), 1)
    };
    s4.new_unique_out(size, concat).then_do(
        Edit::InsertBefore { op: concat, at: op },
    ).insert_input(op, s4.vn(), nin)
}

/// The trials for the first `n` parameters.
pub open spec fn fixed_trials(
    a: ActiveView,
    params: Seq<Option<ParamView>>,
    n: int,
    varargs: bool,
) -> ActiveView
    decreases n,
{
    if n <= 0 || n > params.len() {
        a
    } else {
        let p = params[n - 1]->0;
        fixed_trial(fixed_trials(a, params, n - 1, varargs), p.addr, p.size(), n - 1, varargs)
    }
}

/// The first `n` parameters set up.
pub open spec fn linked_all(
    op: OpId,
    opaddr: Address,
    table: JoinTable,
    params: Seq<Option<ParamView>>,
    n: int,
    remains: Seq<Option<VarnodeData>>,
    st: LinkState,
) -> LinkState
    decreases n,
{
    if n <= 0 || n > params.len() {
        st
    } else {
        let p = params[n - 1]->0;
        linked(
            op,
            opaddr,
            table,
            p.addr,
            p.size(),
            remains[n - 1],
            linked_all(op, opaddr, table, params, n - 1, remains, st),
        )
    }
}

impl CallView {
    /// The state before the inputs are set up.
    pub open spec fn link_start(self, g: GraphView, s: ScriptView) -> LinkState {
        LinkState {
            script: s,
            nin: g.op(self.op)->0.inputs.len() as int,
            marked: self.proto.flag(proto::DOTDOTDOT),
            spacebase: match self.proto.model_view().input {
                Some(l) => l.spacebase,
                None => None,
            },
        }
    }

    /// The call with its inputs set up, and the changes. Open inputs are to be
    /// recovered; fixed inputs get varnodes; an input that stands for the
    /// stack pointer is added unless a fixed one does.
    pub open spec fn inputs_linked(
        self,
        g: GraphView,
        s: ScriptView,
        table: JoinTable,
        remains: Seq<Option<VarnodeData>>,
    ) -> (CallView, ScriptView) {
        let locked = self.proto.input_locked();
        let varargs = self.proto.flag(proto::DOTDOTDOT);
        let c = if !locked || varargs {
            self.recovering_inputs()
        } else {
            self
        };
        let params = self.proto.inputs();
        let st = if locked {
            linked_all(
                self.op,
                g.op(self.op)->0.addr,
                table,
                params,
                params.len() as int,
                remains,
                c.link_start(g, s),
            )
        } else {
            c.link_start(g, s)
        };
        let c2 = if locked {
            CallView {
                activeinput: fixed_trials(c.activeinput, params, params.len() as int, varargs),
                ..c
            }
        } else {
            c
        };
        match st.spacebase {
            Some(sb) => if st.script.loads {
                (
                    c2.with_placeholder(st.nin as i32),
                    st.script.stack_load(sb, 0, 1, self.op, None).insert_input(
                        self.op,
                        st.script.vn(),
                        st.nin,
                    ).then_do(Edit::MarkPlaceholder { vn: st.script.vn() }),
                )
            } else {
                (c2, st.script)
            },
            None => (c2, st.script),
        }
    }

    /// What setting up the inputs looks at is there.
    pub open spec fn inputs_linkable(self, g: GraphView, remains: Seq<Option<VarnodeData>>) -> bool {
        &&& self.proto.wf()
        &&& self.proto.model is Some
        &&& g.op(self.op) is Some
        &&& self.proto.input_locked() ==> self.proto.store is Some && restrict::all_there(
            self.proto.inputs(),
        ) && remains.len() >= self.proto.inputs().len()
    }

    /// The changes that extend the return value of the call into a register,
    /// if the model assumes that it is.
    pub open spec fn output_extended(
        self,
        g: GraphView,
        s: ScriptView,
        p: ParamView,
    ) -> ScriptView {
        let l = self.proto.model_view().outs();
        let opc = commit::typed_extension(
            self.assumed_extension(p.addr, p.size() as int),
            p.is_kind(TypeMetatype::Int),
        );
        if opc == OpCode::Copy {
            s
        } else {
            let whole = l.entry[l.first_extender(
                0,
                p.addr,
                p.size() as int,
            )->0].extension_container(p.addr);
            let ext = s.op();
            let s1 = s.new_op(1, g.op(self.op)->0.addr).new_varnode_out(
                whole.size as i32,
                whole.addr(),
                ext,
            );
            s1.new_varnode(p.size(), p.addr).set_input(ext, s1.vn(), 0).set_opcode(
                ext,
                opc,
            ).then_do(Edit::InsertAfter { op: ext, at: self.op })
        }
    }

    /// The call with its output set up, and the changes. An open output is to
    /// be recovered; a fixed one gets a varnode, later if it is on the stack.
    pub open spec fn output_linked(self, g: GraphView, s: ScriptView, types_known: bool) -> (
        CallView,
        ScriptView,
    ) {
        let s0 = if g.op(self.op) matches Some(o) && o.output is Some {
            s.then_do(Edit::UnsetOutput { op: self.op })
        } else {
            s
        };
        if !self.proto.output_locked() {
            (CallView { isoutputactive: true, ..self }, s0)
        } else {
            let p = self.proto.store->0.output();
            if p.type_ is None || p.is_kind(TypeMetatype::Void) {
                (self, s0)
            } else {
                let s1 = if p.is_kind(TypeMetatype::Bool) && types_known {
                    s0.then_do(Edit::CalculatedBool { op: self.op })
                } else {
                    s0
                };
                if proto::on_stack(p) {
                    (CallView { isstackoutputlock: true, ..self }, s1)
                } else {
                    (
                        self,
                        self.output_extended(
                            g,
                            s1.new_varnode_out(p.size(), p.addr, self.op),
                            p,
                        ),
                    )
                }
            }
        }
    }

    /// What setting up the output looks at is there.
    pub open spec fn output_linkable(self, g: GraphView) -> bool {
        &&& self.proto.wf()
        &&& self.proto.output_locked() ==> {
            let p = self.proto.store->0.output();
            p.type_ is None || p.is_kind(TypeMetatype::Void) || proto::on_stack(p) || (
            self.proto.has_outputs() && g.op(self.op) is Some)
        }
    }
}

impl ActionFuncLink {
    /// Set up one fixed parameter that is split between the stack and the rest
    /// of a join.
    fn link_split(
        op: OpId,
        opaddr: &Address,
        s: &mut Script,
        stack: &VarnodeData,
        first: bool,
        rest: &VarnodeData,
        size: i32,
        nin: u128,
    ) -> (r: bool)
        requires
            stack.space is Some,
            rest.space is Some,
        ensures
            r == old(s)@.loads,
            final(s)@ == (if r {
                pieced_together(op, *opaddr, *stack, first, *rest, size, nin as int, old(s)@)
            } else {
                old(s)@
            }),
    {
        let stack_space = stack.space.unwrap();
        let loadval = match s.stack_load(stack_space, stack.offset, stack.size, op, None) {
            Some(v) => v,
            None => {
                return false;
            },
        };
        let remainval = s.new_varnode(rest.size as i32, rest.get_addr());
        let concat = s.new_op(2, *opaddr);
        s.set_opcode(concat, OpCode::Piece);
        if first {
            s.set_input(concat, loadval, 0);
            s.set_input(concat, remainval, 1);
        } else {
            s.set_input(concat, remainval, 0);
            s.set_input(concat, loadval, 1);
        }
        let out = s.new_unique_out(size, concat);
        s.push(Edit::InsertBefore { op: concat, at: op });
        s.insert_input(op, out, nin as i32);
        true
    }

    /// The stack end of a parameter in the join space, and whether it is the
    /// first piece.
    fn find_split(manager: &AddrSpaceManager, addr: &Address) -> (r: Option<(VarnodeData, bool)>)
        requires
            manager.wf(),
        ensures
            match split_on_stack(manager.table(), *addr) {
                Some((pieces, k)) => r == Some((pieces[k], k == 0)),
                None => r is None,
            },
            r matches Some(x) ==> x.0.space is Some,
    {
        let is_join = match addr.space {
            Some(spc) => spc.type_ == SpaceType::Join,
            None => false,
        };
        if !is_join {
            return None;
        }
        match manager.find_join(addr.offset) {
            Err(_) => None,
            Ok(k) => {
                let join = &manager.joins[k];
                assert(manager.joins@[k as int].wf());
                assert(manager.table().joins[k as int].pieces == join.pieces@);
                let first = *join.get_piece(0);
                let last = *join.get_piece(join.num_pieces() - 1);
                if on_stack(&first) {
                    Some((first, true))
                } else if on_stack(&last) {
                    Some((last, false))
                } else {
                    None
                }
            },
        }
    }

    /// Set up the inputs of a call. `remains` gives, for each parameter in the
    /// join space, the storage that is left without its stack end.
    pub fn func_link_input(
        fc: &mut FuncCallSpecs,
        g: &Graph,
        s: &mut Script,
        manager: &AddrSpaceManager,
        remains: &Vec<Option<VarnodeData>>,
    )
        requires
            old(fc)@.inputs_linkable(g@, remains@),
            manager.wf(),
        ensures
            (final(fc)@, final(s)@) == old(fc)@.inputs_linked(
                g@,
                old(s)@,
                manager.table(),
                remains@,
            ),
    {
        let inputlocked = fc.is_input_locked();
        let varargs = fc.is_dotdotdot();
        let mut spacebase = fc.proto.get_spacebase();
        if !inputlocked || varargs {
            fc.init_active_input();
        }
        let callop = g.get_op(fc.op).unwrap();
        let mut nin: u128 = callop.inputs.len() as u128;
        if inputlocked {
            ActionFuncLink::link_params(
                fc,
                callop.addr,
                s,
                manager,
                remains,
                varargs,
                &mut nin,
                &mut spacebase,
            );
        }
        if let Some(sb) = spacebase {
            let _res = fc.create_placeholder_at(nin as i32, s, sb);
        }
    }

    /// Set up the fixed inputs of a call.
    fn link_params(
        fc: &mut FuncCallSpecs,
        opaddr: Address,
        s: &mut Script,
        manager: &AddrSpaceManager,
        remains: &Vec<Option<VarnodeData>>,
        varargs: bool,
        nin: &mut u128,
        spacebase: &mut Option<AddrSpace>,
    )
        requires
            old(fc)@.proto.wf(),
            old(fc)@.proto.store is Some,
            restrict::all_there(old(fc)@.proto.inputs()),
            remains@.len() >= old(fc)@.proto.inputs().len(),
            manager.wf(),
            *old(nin) + old(fc)@.proto.inputs().len() <= u128::MAX,
        ensures
            ({
                let params = old(fc)@.proto.inputs();
                let n = params.len() as int;
                let st = linked_all(
                    old(fc)@.op,
                    opaddr,
                    manager.table(),
                    params,
                    n,
                    remains@,
                    LinkState {
                        script: old(s)@,
                        nin: *old(nin) as int,
                        marked: varargs,
                        spacebase: *old(spacebase),
                    },
                );
                &&& final(fc)@ == (CallView {
                    activeinput: fixed_trials(old(fc)@.activeinput, params, n, varargs),
                    ..old(fc)@
                })
                &&& final(s)@ == st.script
                &&& *final(nin) == st.nin
                &&& *final(spacebase) == st.spacebase
            }),
    {
        let ghost c0 = fc@;
        let ghost params = fc@.proto.inputs();
        let ghost table = manager.table();
        let ghost start = LinkState {
            script: s@,
            nin: *nin as int,
            marked: varargs,
            spacebase: *spacebase,
        };
        let numparam: i32 = fc.proto.num_params();
        let mut marked = varargs;
        let mut i: i32 = 0;
        while i < numparam
            invariant
                0 <= i <= numparam,
                c0 == old(fc)@,
                numparam == params.len(),
                params == c0.proto.inputs(),
                c0.proto.store is Some,
                restrict::all_there(params),
                remains@.len() >= params.len(),
                manager.wf(),
                table == manager.table(),
                start == (LinkState {
                    script: old(s)@,
                    nin: *old(nin) as int,
                    marked: varargs,
                    spacebase: *old(spacebase),
                }),
                fc@ == (CallView { activeinput: fc@.activeinput, ..c0 }),
                fc@.activeinput == fixed_trials(c0.activeinput, params, i as int, varargs),
                fc@.activeinput.trial.len() >= i,
                *nin <= start.nin + i,
                start.nin + params.len() <= u128::MAX,
                linked_all(c0.op, opaddr, table, params, i as int, remains@, start) == (
                LinkState { script: s@, nin: *nin as int, marked, spacebase: *spacebase }),
            decreases numparam - i,
        {
            assert(params[i as int] is Some);
            let param = fc.proto.get_param(i).unwrap();
            let paddr = param.get_address();
            let psize: i32 = param.get_size();
            fix_trial(&mut fc.activeinput, &paddr, psize, i, varargs);
            ActionFuncLink::place_input(
                fc.op,
                &opaddr,
                s,
                manager,
                remains[i as usize],
                &paddr,
                psize,
                nin,
                &mut marked,
                spacebase,
            );
            i += 1;
        }
    }

    /// Make the varnode for one fixed input of a call.
    fn place_input(
        op: OpId,
        opaddr: &Address,
        s: &mut Script,
        manager: &AddrSpaceManager,
        remain: Option<VarnodeData>,
        paddr: &Address,
        psize: i32,
        nin: &mut u128,
        marked: &mut bool,
        spacebase: &mut Option<AddrSpace>,
    )
        requires
            manager.wf(),
            *old(nin) < u128::MAX,
        ensures
            linked(
                op,
                *opaddr,
                manager.table(),
                *paddr,
                psize,
                remain,
                LinkState {
                    script: old(s)@,
                    nin: *old(nin) as int,
                    marked: *old(marked),
                    spacebase: *old(spacebase),
                },
            ) == (LinkState {
                script: final(s)@,
                nin: *final(nin) as int,
                marked: *final(marked),
                spacebase: *final(spacebase),
            }),
            *final(nin) <= *old(nin) + 1,
    {
        let spc = match paddr.space {
            Some(spc) => spc,
            None => {
                return ;
            },
        };
        if spc.type_ == SpaceType::Spacebase {
            if let Some(loadval) = s.stack_load(spc, paddr.offset, psize as u32, op, None) {
                s.insert_input(op, loadval, *nin as i32);
                *nin = *nin + 1;
                if !*marked {
                    *marked = true;
                    s.push(Edit::MarkPlaceholder { vn: loadval });
                    *spacebase = None;
                }
            }
            return ;
        }
        if let Some((stack, first)) = ActionFuncLink::find_split(manager, paddr) {
            if let Some(rest) = remain {
                if rest.space.is_none() {
                    return ;
                }
                if ActionFuncLink::link_split(op, opaddr, s, &stack, first, &rest, psize, *nin) {
                    *nin = *nin + 1;
                }
                return ;
            }
        }
        let pvn = s.new_varnode(psize, *paddr);
        s.insert_input(op, pvn, *nin as i32);
        *nin = *nin + 1;
    }

    /// Set up the output of a call. `types_known` says whether data-types are
    /// being recovered.
    pub fn func_link_output(fc: &mut FuncCallSpecs, g: &Graph, s: &mut Script, types_known: bool)
        requires
            old(fc)@.output_linkable(g@),
        ensures
            (final(fc)@, final(s)@) == old(fc)@.output_linked(g@, old(s)@, types_known),
    {
        let callop = fc.op;
        if let Some(o) = g.get_op(callop) {
            if o.output.is_some() {
                s.push(Edit::UnsetOutput { op: callop });
            }
        }
        if !fc.proto.is_output_locked() {
            fc.init_active_output();
            return ;
        }
        let ghost p = fc@.proto.store->0.output();
        let outparam = fc.proto.get_output();
        let metatype = match outparam.get_type() {
            Some(t) => t.metatype,
            None => {
                return ;
            },
        };
        if metatype == TypeMetatype::Void {
            return ;
        }
        let sz: i32 = outparam.get_size();
        let addr = outparam.get_address();
        if metatype == TypeMetatype::Bool && types_known {
            s.push(Edit::CalculatedBool { op: callop });
        }
        let stack = match addr.space {
            Some(spc) => spc.type_ == SpaceType::Spacebase,
            None => false,
        };
        if stack {
            fc.set_stack_output_lock(true);
            return ;
        }
        let _out = s.new_varnode_out(sz, addr, callop);
        let mut vdata = VarnodeData { space: None, offset: 0, size: 0 };
        let assumed = fc.proto.assumed_output_extension(&addr, sz, &mut vdata);
        let opc = if assumed != OpCode::Piece {
            assumed
        } else if metatype == TypeMetatype::Int {
            OpCode::IntSext
        } else {
            OpCode::IntZext
        };
        if opc != OpCode::Copy {
            let pc = g.get_op(callop).unwrap().addr;
            let ext = s.new_op(1, pc);
            let _whole = s.new_varnode_out(vdata.size as i32, vdata.get_addr(), ext);
            let invn = s.new_varnode(sz, addr);
            s.set_input(ext, invn, 0);
            s.set_opcode(ext, opc);
            s.push(Edit::InsertAfter { op: ext, at: callop });
        }
    }
}

/// Register the trial for a fixed parameter.
fn fix_trial(a: &mut ParamActive, addr: &Address, size: i32, i: i32, varargs: bool)
    requires
        0 <= i <= old(a)@.trial.len(),
    ensures
        final(a)@ == fixed_trial(old(a)@, *addr, size, i as int, varargs),
        final(a)@.trial.len() == old(a)@.trial.len() + 1,
{
    a.register_trial(addr, size);
    let mut t = *a.get_trial(i);
    t.mark_active();
    if varargs {
        t.set_fixed_position(i);
    }
    *a.get_trial_mut(i) = t;
}

/// Is the location on the stack.
fn on_stack(v: &VarnodeData) -> (r: bool)
    ensures
        r == stack_piece(*v),
{
    match v.space {
        Some(spc) => spc.type_ == SpaceType::Spacebase,
        None => false,
    }
}

/// Calls in the abstract.
pub open spec fn calls_view(s: Seq<FuncCallSpecs>) -> Seq<CallView> {
    Seq::new(s.len(), |i: int| s[i]@)
}

/// The first `n` calls with inputs and outputs set up, and the changes.
pub open spec fn calls_linked(
    cs: Seq<CallView>,
    n: int,
    g: GraphView,
    s: ScriptView,
    table: JoinTable,
    remains: Seq<Vec<Option<VarnodeData>>>,
    types_known: bool,
) -> (Seq<CallView>, ScriptView)
    decreases n,
{
    if n <= 0 || n > cs.len() {
        (cs, s)
    } else {
        let (ds, s1) = calls_linked(cs, n - 1, g, s, table, remains, types_known);
        let (c1, s2) = cs[n - 1].inputs_linked(g, s1, table, remains[n - 1]@);
        let (c2, s3) = c1.output_linked(g, s2, types_known);
        (ds.update(n - 1, c2), s3)
    }
}

/// The first `n` calls with outputs set up, and the changes.
pub open spec fn outputs_linked(
    cs: Seq<CallView>,
    n: int,
    g: GraphView,
    s: ScriptView,
    types_known: bool,
) -> (Seq<CallView>, ScriptView)
    decreases n,
{
    if n <= 0 || n > cs.len() {
        (cs, s)
    } else {
        let (ds, s1) = outputs_linked(cs, n - 1, g, s, types_known);
        let (c, s2) = cs[n - 1].output_linked(g, s1, types_known);
        (ds.update(n - 1, c), s2)
    }
}

/// Setting up the inputs leaves the prototype as it is.
proof fn lemma_linked_proto(
    c: CallView,
    g: GraphView,
    s: ScriptView,
    table: JoinTable,
    remains: Seq<Option<VarnodeData>>,
)
    ensures
        c.inputs_linked(g, s, table, remains).0.proto == c.proto,
        c.inputs_linked(g, s, table, remains).0.op == c.op,
        c.output_linkable(g) ==> c.inputs_linked(g, s, table, remains).0.output_linkable(g),
{
}

impl ActionFuncLink {
    /// Set up the inputs and the output of every call.
    pub fn apply(
        &mut self,
        calls: &mut Vec<FuncCallSpecs>,
        g: &Graph,
        s: &mut Script,
        manager: &AddrSpaceManager,
        remains: &Vec<Vec<Option<VarnodeData>>>,
        types_known: bool,
    ) -> (r: i32)
        requires
            manager.wf(),
            remains@.len() >= old(calls)@.len(),
            forall|i: int|
                0 <= i < old(calls)@.len() ==> (#[trigger] old(calls)@[i])@.inputs_linkable(
                    g@,
                    remains@[i]@,
                ) && old(calls)@[i]@.output_linkable(g@),
        ensures
            r == 0,
            final(self).info() == old(self).info(),
            (calls_view(final(calls)@), final(s)@) == calls_linked(
                calls_view(old(calls)@),
                old(calls)@.len() as int,
                g@,
                old(s)@,
                manager.table(),
                remains@,
                types_known,
            ),
    {
        let ghost cs = calls_view(calls@);
        let ghost table = manager.table();
        let ghost s0 = s@;
        let size: usize = calls.len();
        let mut i: usize = 0;
        while i < size
            invariant
                i <= size,
                size == calls@.len(),
                size == cs.len(),
                cs == calls_view(old(calls)@),
                old(calls)@.len() == size,
                s0 == old(s)@,
                manager.wf(),
                table == manager.table(),
                remains@.len() >= size,
                self.info() == old(self).info(),
                forall|k: int|
                    0 <= k < size ==> (#[trigger] old(calls)@[k])@.inputs_linkable(
                        g@,
                        remains@[k]@,
                    ) && old(calls)@[k]@.output_linkable(g@),
                forall|k: int| i <= k < size ==> (#[trigger] calls@[k])@ == old(calls)@[k]@,
                (calls_view(calls@), s@) == calls_linked(
                    cs,
                    i as int,
                    g@,
                    s0,
                    table,
                    remains@,
                    types_known,
                ),
            decreases size - i,
        {
            let ghost before = calls_view(calls@);
            assert(calls@[i as int]@ == old(calls)@[i as int]@);
            assert(cs[i as int] == old(calls)@[i as int]@);
            proof {
                lemma_linked_proto(cs[i as int], g@, s@, table, remains@[i as int]@);
            }
            let fc = &mut calls[i];
            ActionFuncLink::func_link_input(fc, g, s, manager, &remains[i]);
            ActionFuncLink::func_link_output(fc, g, s, types_known);
            assert(calls_view(calls@) =~= before.update(i as int, calls@[i as int]@));
            i += 1;
        }
        0
    }
}

impl ActionFuncLinkOutOnly {
    /// Set up the output of every call.
    pub fn apply(
        &mut self,
        calls: &mut Vec<FuncCallSpecs>,
        g: &Graph,
        s: &mut Script,
        types_known: bool,
    ) -> (r: i32)
        requires
            forall|i: int|
                0 <= i < old(calls)@.len() ==> (#[trigger] old(calls)@[i])@.output_linkable(g@),
        ensures
            r == 0,
            final(self).info() == old(self).info(),
            (calls_view(final(calls)@), final(s)@) == outputs_linked(
                calls_view(old(calls)@),
                old(calls)@.len() as int,
                g@,
                old(s)@,
                types_known,
            ),
    {
        let ghost cs = calls_view(calls@);
        let ghost s0 = s@;
        let size: usize = calls.len();
        let mut i: usize = 0;
        while i < size
            invariant
                i <= size,
                size == calls@.len(),
                size == cs.len(),
                cs == calls_view(old(calls)@),
                old(calls)@.len() == size,
                s0 == old(s)@,
                self.info() == old(self).info(),
                forall|k: int|
                    0 <= k < size ==> (#[trigger] old(calls)@[k])@.output_linkable(g@),
                forall|k: int| i <= k < size ==> (#[trigger] calls@[k])@ == old(calls)@[k]@,
                (calls_view(calls@), s@) == outputs_linked(cs, i as int, g@, s0, types_known),
            decreases size - i,
        {
            let ghost before = calls_view(calls@);
            assert(calls@[i as int]@ == old(calls)@[i as int]@);
            assert(cs[i as int] == old(calls)@[i as int]@);
            let fc = &mut calls[i];
            ActionFuncLink::func_link_output(fc, g, s, types_known);
            assert(calls_view(calls@) =~= before.update(i as int, calls@[i as int]@));
            i += 1;
        }
        0
    }
}

/// The changes that relate the stack pointer `base` before and after a call
/// that pops `pop` bytes: an addition, or an unknown effect.
pub open spec fn pop_script(
    s: ScriptView,
    op: OpId,
    opaddr: Address,
    base: VarnodeData,
    pop: i32,
) -> ScriptView {
    let size = base.size as i32;
    let rel = s.op();
    let s1 = s.new_op(2, opaddr).new_varnode_out(size, base.addr(), rel);
    let s2 = s1.new_varnode(size, base.addr()).set_input(rel, s1.vn(), 0);
    if pop != model::EXTRAPOP_UNKNOWN {
        let s3 = s2.set_opcode(rel, OpCode::IntAdd);
        s3.new_constant(size, (pop as i64) as u64).set_input(rel, s3.vn(), 1).then_do(
            Edit::InsertAfter { op: rel, at: op },
        )
    } else {
        let s3 = s2.set_opcode(rel, OpCode::Indirect);
        s3.new_iop(op).set_input(rel, s3.vn(), 1).then_do(Edit::InsertBefore { op: rel, at: op })
    }
}

/// The first `n` calls with the stack pointer related, and the changes.
pub open spec fn pops_set(
    cs: Seq<CallView>,
    n: int,
    g: GraphView,
    s: ScriptView,
    base: VarnodeData,
) -> (Seq<CallView>, ScriptView)
    decreases n,
{
    if n <= 0 || n > cs.len() {
        (cs, s)
    } else {
        let (ds, s1) = pops_set(cs, n - 1, g, s, base);
        let c = cs[n - 1];
        let pop = c.proto.extrapop;
        if pop == 0 || g.op(c.op) is None {
            (ds, s1)
        } else {
            (
                if pop != model::EXTRAPOP_UNKNOWN {
                    ds.update(n - 1, CallView { effective_extrapop: pop, ..c })
                } else {
                    ds
                },
                pop_script(s1, c.op, g.op(c.op)->0.addr, base, pop),
            )
        }
    }
}

impl ActionExtraPopSetup {
    /// Relate the stack pointer before and after each call. `base` is the
    /// storage of the stack pointer; without it, or without a stack, nothing
    /// is done.
    pub fn apply(
        &mut self,
        calls: &mut Vec<FuncCallSpecs>,
        g: &Graph,
        s: &mut Script,
        base: Option<VarnodeData>,
    ) -> (r: i32)
        ensures
            r == 0,
            *final(self) == *old(self),
            if old(self).stackspace is Some && (base matches Some(b) && b.space is Some) {
                (calls_view(final(calls)@), final(s)@) == pops_set(
                    calls_view(old(calls)@),
                    old(calls)@.len() as int,
                    g@,
                    old(s)@,
                    base->0,
                )
            } else {
                final(calls)@ == old(calls)@ && final(s)@ == old(s)@
            },
    {
        if self.stackspace.is_none() {
            return 0;
        }
        let point = match base {
            Some(b) => b,
            None => {
                return 0;
            },
        };
        if point.space.is_none() {
            return 0;
        }
        let ghost cs = calls_view(calls@);
        let ghost s0 = s@;
        let size: usize = calls.len();
        let mut i: usize = 0;
        while i < size
            invariant
                i <= size,
                size == calls@.len(),
                size == cs.len(),
                cs == calls_view(old(calls)@),
                s0 == old(s)@,
                *self == *old(self),
                forall|k: int| i <= k < size ==> (#[trigger] calls@[k])@ == cs[k],
                (calls_view(calls@), s@) == pops_set(cs, i as int, g@, s0, point),
            decreases size - i,
        {
            let ghost before = calls_view(calls@);
            assert(calls@[i as int]@ == cs[i as int]);
            let pop: i32 = calls[i].get_extra_pop();
            if pop != 0 {
                let op = calls[i].op;
                if let Some(o) = g.get_op(op) {
                    let sb_size: i32 = point.size as i32;
                    let sb_addr = point.get_addr();
                    let rel = s.new_op(2, o.addr);
                    let _out = s.new_varnode_out(sb_size, sb_addr, rel);
                    let in0 = s.new_varnode(sb_size, sb_addr);
                    s.set_input(rel, in0, 0);
                    if pop != model::EXTRAPOP_UNKNOWN {
                        let fc = &mut calls[i];
                        fc.set_effective_extra_pop(pop);
                        s.set_opcode(rel, OpCode::IntAdd);
                        let in1 = s.new_constant(sb_size, (pop as i64) as u64);
                        s.set_input(rel, in1, 1);
                        s.push(Edit::InsertAfter { op: rel, at: op });
                        assert(calls_view(calls@) =~= before.update(
                            i as int,
                            calls@[i as int]@,
                        ));
                    } else {
                        s.set_opcode(rel, OpCode::Indirect);
                        let in1 = s.new_iop(op);
                        s.set_input(rel, in1, 1);
                        s.push(Edit::InsertBefore { op: rel, at: op });
                    }
                }
            }
            i += 1;
        }
        0
    }
}

} // verus!
