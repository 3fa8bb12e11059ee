//! Call sites and functions: arguments and return values recovered from
//! trials, and locked prototypes put into effect.
use kuna_decomp::actions::{
    Action, ActionActiveParam, ActionActiveReturn, ActionDefaultParams, ActionExtraPopSetup,
    ActionFuncLink, ActionInputPrototype, ActionOutputPrototype, ActionPrototypeTypes,
    ActionReturnRecovery,
};
use kuna_decomp::active::ParamActive;
use kuna_decomp::aritylive::PendingExtend;
use kuna_decomp::callpass::{CallEvidence, PassSettings};
use kuna_decomp::callresult;
use kuna_decomp::callsite;
use kuna_decomp::callsite::{Evidence, PendingCallFixup};
use kuna_decomp::callspec::FuncCallSpecs;
use kuna_decomp::dtype::{Datatype, TypeClass, TypeMetatype};
use kuna_decomp::entry::ParamEntry;
use kuna_decomp::entrymap::EntryMap;
use kuna_decomp::error::FspecError;
use kuna_decomp::forced::CalleeDecl;
use kuna_decomp::graph::{BlockId, Graph, OpId, PcodeOp, Varnode, VarnodeId};
use kuna_decomp::joins::AddrSpaceManager;
use kuna_decomp::model::{IdSource, ProtoModel};
use kuna_decomp::opcode::OpCode;
use kuna_decomp::pieces::{ParameterPieces, PrototypePieces};
use kuna_decomp::probe::CalleeEntryDead;
use kuna_decomp::proto::FuncProto;
use kuna_decomp::recover::Ancestry;
use kuna_decomp::script::{Edit, Script};
use kuna_decomp::space::{AddrSpace, Address, SpaceType, VarnodeData};
use kuna_decomp::store::ProtoParameter;
use kuna_decomp::trial::ParamTrial;
use std::rc::Rc;

fn reg() -> AddrSpace {
    AddrSpace::new(SpaceType::Processor, false, 4, 1, 3, 0)
}

fn stack() -> AddrSpace {
    AddrSpace::new(SpaceType::Spacebase, false, 4, 1, 5, 0)
}

fn code() -> AddrSpace {
    AddrSpace::new(SpaceType::Processor, false, 4, 1, 2, 0)
}

fn constant() -> AddrSpace {
    AddrSpace::new(SpaceType::Constant, false, 8, 1, 0, 0)
}

fn manager() -> AddrSpaceManager {
    AddrSpaceManager::new(AddrSpace::new(SpaceType::Join, false, 8, 1, 6, 0))
}

fn at(space: AddrSpace, offset: u64) -> Address {
    Address::new(space, offset)
}

fn entry_of(grp: i32, space: AddrSpace, base: u64, size: i32, align: i32) -> ParamEntry {
    let mgr = manager();
    ParamEntry::seed(
        grp,
        TypeClass::General,
        space,
        base,
        size,
        1,
        align,
        0,
        true,
        false,
        &[],
        &mgr,
    )
    .unwrap()
}

/// Inputs at 0x10 and 0x20 and on the stack from 4 on, the return value at
/// 0x10.
fn model() -> Rc<ProtoModel> {
    let mgr = manager();
    let mut ids = IdSource::new(1);
    let mut m = ProtoModel::new(&mgr, &mut ids);
    m.build_param_list("standard").unwrap();
    {
        let l = m.input_mut();
        l.push_entry(entry_of(0, reg(), 0x10, 4, 0));
        l.push_entry(entry_of(1, reg(), 0x20, 4, 0));
        l.push_entry(entry_of(2, stack(), 4, 0x40, 4));
        l.finish_decode();
    }
    {
        let l = m.output_mut();
        l.push_entry(entry_of(0, reg(), 0x10, 4, 0));
        l.finish_decode();
    }
    Rc::new(m)
}

fn int_of(size: i32) -> Datatype {
    Datatype::new_with_align(size, size, TypeMetatype::Int)
}

fn prototype() -> FuncProto {
    let mut fp = FuncProto::new();
    fp.set_internal(model(), Datatype::new(0, TypeMetatype::Void));
    fp
}

fn call_of(op: OpId) -> FuncCallSpecs {
    let mut fc = FuncCallSpecs::new(op, at(code(), 0x2000));
    fc.proto_mut().copy(&prototype());
    fc
}

fn value(space: AddrSpace, offset: u64, size: i32) -> Varnode {
    Varnode {
        addr: at(space, offset),
        size,
        def: None,
        input: false,
        free: false,
        readers: 1,
        placeholder: false,
        type_: None,
    }
}

fn ids(vns: &[u64]) -> Vec<VarnodeId> {
    vns.iter().map(|v| VarnodeId(*v)).collect()
}

/// A call with a target and values at 0x10 and 0x20.
fn call_graph(opc: OpCode) -> Graph {
    let call = PcodeOp::new(opc, at(code(), 0x1000), ids(&[0, 1, 2]));
    Graph {
        varnodes: vec![value(constant(), 0x2000, 4), value(reg(), 0x10, 4), value(reg(), 0x20, 4)],
        ops: vec![call],
    }
}

/// The inputs that the script gives to the operation, in order.
fn inputs_given(s: &Script, of: OpId) -> Vec<u64> {
    s.edits
        .iter()
        .filter_map(|e| match e {
            Edit::SetInput { op, vn, slot: _ } if *op == of => Some(vn.0),
            _ => None,
        })
        .collect()
}

/// Evidence for or against the argument at `addr`.
fn evidence(addr: Address, slot: i32, favourable: bool) -> Evidence {
    Evidence {
        alias: false,
        outside: false,
        ancestry: Ancestry {
            realistic: favourable,
            solid: favourable,
            only: true,
            trial: ParamTrial::new(addr, 4, slot),
        },
    }
}

fn settings() -> PassSettings {
    PassSettings {
        callee_dead_arg: false,
        vararg_stack_args: false,
        callee_arity: true,
        callee_arity_live: false,
        big_endian: false,
    }
}

fn no_facts() -> EntryMap<CalleeEntryDead> {
    EntryMap::new()
}

/// A direct call with trials at 0x10 and 0x20.
fn call_with_trials(opc: OpCode) -> (Graph, FuncCallSpecs) {
    let g = call_graph(opc);
    let mut fc = call_of(OpId(0));
    fc.init_active_input();
    fc.get_active_input().register_trial(&at(reg(), 0x10), 4);
    fc.get_active_input().register_trial(&at(reg(), 0x20), 4);
    (g, fc)
}

#[test]
fn arguments_that_values_speak_for_are_passed() {
    let (g, fc) = call_with_trials(OpCode::Call);
    let mut calls = vec![fc];
    let mut s = Script::new(100, 100, true);
    let e = CallEvidence {
        trials: Some(vec![evidence(at(reg(), 0x10), 1, true), evidence(at(reg(), 0x20), 2, true)]),
        answers: Vec::new(),
        unified: None,
    };
    let mut act = ActionActiveParam::boxed("g");
    let left = act.apply(&mut calls, &g, &mut s, &vec![e], &settings(), &no_facts());
    assert_eq!(inputs_given(&s, OpId(0)), vec![0, 1, 2]);
    assert!(!calls[0].is_input_active());
    assert_eq!(
        calls[0].final_input_storage().to_vec(),
        vec![(at(reg(), 0x10), 4), (at(reg(), 0x20), 4)]
    );
    assert!(left.rescue.is_empty() && left.extend.is_empty());
    assert!(act.base().count > 0);
    // Afterwards the call is passed over.
    let mut again = Script::new(200, 200, true);
    let none = CallEvidence { trials: None, answers: Vec::new(), unified: None };
    act.apply(&mut calls, &g, &mut again, &vec![none], &settings(), &no_facts());
    assert!(again.edits.is_empty());
}

#[test]
fn arguments_that_values_speak_against_are_given_up() {
    let (g, fc) = call_with_trials(OpCode::Call);
    let mut calls = vec![fc];
    let mut s = Script::new(100, 100, true);
    let e = CallEvidence {
        trials: Some(vec![
            evidence(at(reg(), 0x10), 1, false),
            evidence(at(reg(), 0x20), 2, false),
        ]),
        answers: Vec::new(),
        unified: None,
    };
    let left = ActionActiveParam::boxed("g").apply(
        &mut calls,
        &g,
        &mut s,
        &vec![e],
        &settings(),
        &no_facts(),
    );
    // Their values are replaced by constants, and the call is left without
    // arguments, which other calls may change.
    assert!(s.edits.contains(&Edit::NewConstant { vn: VarnodeId(100), size: 4, value: 0 }));
    assert_eq!(calls[0].active_input().get_num_trials(), 0);
    assert_eq!(left.rescue, vec![OpId(0)]);
}

#[test]
fn indirect_calls_are_settled_later() {
    let (g, fc) = call_with_trials(OpCode::CallInd);
    let mut calls = vec![fc];
    let mut act = ActionActiveParam::boxed("g");
    let e = |first: bool| CallEvidence {
        trials: if first {
            Some(vec![
                evidence(at(reg(), 0x10), 1, true),
                evidence(at(reg(), 0x20), 2, true),
            ])
        } else {
            None
        },
        answers: Vec::new(),
        unified: None,
    };
    let mut s = Script::new(100, 100, true);
    act.apply(&mut calls, &g, &mut s, &vec![e(true)], &settings(), &no_facts());
    assert!(calls[0].is_input_active());
    assert!(inputs_given(&s, OpId(0)).is_empty());
    act.apply(&mut calls, &g, &mut s, &vec![e(false)], &settings(), &no_facts());
    assert!(!calls[0].is_input_active());
    assert_eq!(inputs_given(&s, OpId(0)), vec![0, 1, 2]);
}

#[test]
fn values_of_another_call_are_taken_over() {
    let (g, fc) = call_with_trials(OpCode::Call);
    let mut calls = vec![fc];
    let mut s = Script::new(100, 100, true);
    let mut only = ParamTrial::new(at(reg(), 0x20), 4, 2);
    only.mark_active();
    only.mark_used();
    let e = CallEvidence {
        trials: Some(vec![evidence(at(reg(), 0x10), 1, true), evidence(at(reg(), 0x20), 2, true)]),
        answers: Vec::new(),
        unified: Some(vec![only]),
    };
    ActionActiveParam::boxed("g").apply(
        &mut calls,
        &g,
        &mut s,
        &vec![e],
        &settings(),
        &no_facts(),
    );
    assert_eq!(inputs_given(&s, OpId(0)), vec![0, 2]);
}

#[test]
fn stack_values_are_judged_by_what_is_known_of_them() {
    let call = PcodeOp::new(OpCode::Call, at(code(), 0x1000), ids(&[0, 1]));
    let g = Graph {
        varnodes: vec![value(constant(), 0x2000, 4), value(stack(), 4, 4)],
        ops: vec![call],
    };
    let judge = |e: Evidence| {
        let mut fc = call_of(OpId(0));
        fc.get_active_input().register_trial(&at(stack(), 4), 4);
        let mut s = Script::new(10, 10, true);
        callsite::judge_input_trial(&mut fc, &g, &mut s, 0, &e, false, &no_facts());
        *fc.active_input().get_trial(0)
    };
    assert!(judge(evidence(at(stack(), 4), 1, true)).is_active());
    assert!(judge(evidence(at(stack(), 4), 1, false)).is_definitely_not_used());
    let mut seen = evidence(at(stack(), 4), 1, true);
    seen.alias = true;
    assert!(judge(seen).is_definitely_not_used());
    let mut shared = evidence(at(stack(), 4), 1, true);
    shared.ancestry.only = false;
    let t = judge(shared);
    assert!(t.is_checked() && !t.is_active() && !t.is_definitely_not_used());
}

#[test]
fn wide_values_are_cut_to_their_trial() {
    let call = PcodeOp::new(OpCode::Call, at(code(), 0x1000), ids(&[0, 1]));
    let g = Graph {
        varnodes: vec![value(constant(), 0x2000, 4), value(reg(), 0x10, 8)],
        ops: vec![call],
    };
    let mut fc = call_of(OpId(0));
    fc.get_active_input().register_trial(&at(reg(), 0x10), 4);
    fc.get_active_input().get_trial_mut(0).mark_used();
    let mut s = Script::new(50, 60, true);
    let left = callsite::build_input_from_trials(&mut fc, &g, &mut s, &None, true, false, false);
    // The low bytes of a big endian value are its last ones.
    assert!(s.edits.contains(&Edit::NewVarnodeOut {
        vn: VarnodeId(50),
        size: 4,
        addr: at(reg(), 0x14),
        op: OpId(60),
    }));
    assert_eq!(inputs_given(&s, OpId(0)), vec![0, 50]);
    assert_eq!(inputs_given(&s, OpId(60))[0], 1);
    assert!(left.rescue.is_none() && left.extend.is_none());
}

#[test]
fn nothing_is_left_to_do_by_default() {
    let p = PendingCallFixup::default();
    assert!(p.rescue.is_none());
    let none: Option<PendingExtend> = p.extend;
    assert!(none.is_none());
}

/// A call behind an operation that creates a value at 0x10.
fn call_with_result() -> (Graph, FuncCallSpecs) {
    let mut created = PcodeOp::new(OpCode::Indirect, at(code(), 0x1000), ids(&[1, 2]));
    created.creation = true;
    created.output = Some(VarnodeId(3));
    created.order = 1;
    let mut call = PcodeOp::new(OpCode::Call, at(code(), 0x1000), ids(&[0]));
    call.previous = Some(OpId(0));
    call.order = 2;
    let mut out = value(reg(), 0x10, 4);
    out.def = Some(OpId(0));
    let g = Graph {
        varnodes: vec![
            value(constant(), 0x2000, 4),
            value(constant(), 0, 4),
            value(constant(), 7, 4),
            out,
        ],
        ops: vec![created, call],
    };
    let mut fc = call_of(OpId(1));
    fc.init_active_output();
    fc.get_active_output().register_trial(&at(reg(), 0x10), 4);
    fc.get_active_output().register_trial(&at(reg(), 0x20), 4);
    (g, fc)
}

#[test]
fn values_that_a_call_creates_are_its_output() {
    let (g, fc) = call_with_result();
    let mut calls = vec![fc];
    let mut s = Script::new(10, 10, true);
    let split = ActionActiveReturn::boxed("g").apply(&mut calls, &g, &mut s);
    assert!(split.is_empty());
    assert!(!calls[0].is_output_active());
    assert_eq!(
        s.edits,
        vec![
            Edit::SetOutput { op: OpId(1), vn: VarnodeId(3) },
            Edit::Destroy { op: OpId(0) },
            Edit::DeleteVarnode { vn: VarnodeId(1) },
            Edit::DeleteVarnode { vn: VarnodeId(2) },
        ]
    );
    assert_eq!(calls[0].active_output().get_num_trials(), 1);
}

#[test]
fn output_trials_are_active_where_a_value_is_created() {
    let (g, mut fc) = call_with_result();
    let vns = callresult::check_output_trial_use(&mut fc, &g);
    assert_eq!(vns, vec![Some(VarnodeId(3)), None]);
    assert!(fc.active_output().get_trial(0).is_active());
    assert!(fc.active_output().get_trial(1).is_definitely_not_used());
}

#[test]
fn inputs_of_a_function_become_its_parameters() {
    let mut fp = prototype();
    let mut first = value(reg(), 0x10, 4);
    first.input = true;
    first.type_ = Some(int_of(4));
    let mut third = value(stack(), 4, 4);
    third.input = true;
    let mut other = value(reg(), 0x99, 4);
    other.input = true;
    let g = Graph { varnodes: vec![first, third, other], ops: Vec::new() };
    let mut s = Script::new(10, 10, true);
    let mut act = ActionInputPrototype::boxed("g");
    let taken = vec![false, false, false];
    act.apply(&mut fp, &g, &mut s, &ids(&[0, 1, 2]), false, &taken, true);
    let found: Vec<(u64, TypeMetatype)> = (0..fp.num_params())
        .map(|i| {
            let p = fp.get_param(i).unwrap();
            (p.get_address().get_offset(), p.get_type().unwrap().get_metatype())
        })
        .collect();
    // The register in between has no value and gets a new one.
    assert_eq!(
        found,
        vec![
            (0x10, TypeMetatype::Int),
            (0x20, TypeMetatype::Unknown),
            (4, TypeMetatype::Unknown),
        ]
    );
    assert!(s.edits.contains(&Edit::SetInputVarnode { vn: VarnodeId(10) }));
    assert_eq!(s.edits.last(), Some(&Edit::ClearDeadVarnodes));
}

#[test]
fn locked_parameters_are_left_alone() {
    let mut fp = prototype();
    let p = ParameterPieces { addr: at(reg(), 0x20), type_: Some(int_of(4)), flags: 0 };
    fp.set_param(0, "x", &p);
    fp.set_input_lock(true);
    let mut v = value(reg(), 0x10, 4);
    v.input = true;
    let g = Graph { varnodes: vec![v], ops: Vec::new() };
    let mut s = Script::new(10, 10, true);
    ActionInputPrototype::boxed("g").apply(
        &mut fp,
        &g,
        &mut s,
        &ids(&[0]),
        false,
        &Vec::new(),
        true,
    );
    assert_eq!(fp.num_params(), 1);
    assert_eq!(fp.get_param(0).unwrap().get_name(), "x");
    assert_eq!(s.edits, vec![Edit::ClearDeadVarnodes]);
}

/// A return of the values `vns` behind the return address.
fn return_of(vns: &[u64]) -> PcodeOp {
    PcodeOp::new(OpCode::Return, at(code(), 0x1100), ids(vns))
}

#[test]
fn return_values_are_recovered_from_returns() {
    let fp = prototype();
    let g = Graph {
        varnodes: vec![value(constant(), 0, 4), value(reg(), 0x10, 4)],
        ops: vec![return_of(&[0, 1])],
    };
    let mut active = ParamActive::new(false);
    active.register_trial(&at(reg(), 0x10), 4);
    let mut s = Script::new(10, 10, true);
    let answers = vec![vec![Ancestry {
        realistic: true,
        solid: true,
        only: true,
        trial: ParamTrial::new(at(reg(), 0x10), 4, 1),
    }]];
    let done = ActionReturnRecovery::boxed("g").apply(
        &mut active,
        &fp,
        &g,
        &mut s,
        &vec![OpId(0)],
        &answers,
        false,
        None,
    );
    assert!(done);
    assert!(active.get_trial(0).is_used());
    assert_eq!(inputs_given(&s, OpId(0)), vec![0, 1]);
    assert!(s.edits.contains(&Edit::ClearActiveOutput));
}

#[test]
fn the_first_return_gives_the_return_type() {
    let mut fp = prototype();
    let mut v = value(reg(), 0x10, 4);
    v.type_ = Some(int_of(4));
    let g = Graph { varnodes: vec![value(constant(), 0, 4), v], ops: vec![return_of(&[0, 1])] };
    let mut act = ActionOutputPrototype::boxed("g");
    let mut s = Script::new(10, 10, true);
    assert!(act.prepare(&mut fp, &mut s));
    act.apply(&mut fp, &g, Some(OpId(0)));
    assert_eq!(fp.get_output().get_address(), at(reg(), 0x10));
    assert_eq!(fp.get_output_type(), Some(int_of(4)));
    // A locked return value is not open.
    fp.set_output_lock(true);
    assert!(!act.prepare(&mut fp, &mut s));
}

#[test]
fn locked_return_values_are_forced_on_returns() {
    let mut fp = prototype();
    fp.set_output(&ParameterPieces { addr: at(reg(), 0x10), type_: Some(int_of(4)), flags: 0 });
    fp.set_output_lock(true);
    let g = Graph {
        varnodes: vec![value(reg(), 0x80, 4)],
        ops: vec![return_of(&[0])],
    };
    let mut s = Script::new(10, 10, true);
    ActionPrototypeTypes::boxed("g").apply(
        &mut fp,
        None,
        &g,
        &mut s,
        &vec![OpId(0)],
        Some((BlockId(0), at(code(), 0x1000))),
        &Vec::new(),
    );
    // Each return gets a value at the locked storage.
    assert!(s.edits.iter().any(|e| matches!(
        e,
        Edit::NewVarnode { vn: _, size: 4, addr } if *addr == at(reg(), 0x10)
    )));
    assert!(s
        .edits
        .iter()
        .any(|e| matches!(e, Edit::InsertInput { op: OpId(0), vn: _, slot: 1 })));
}

#[test]
fn locked_parameters_are_forced_unless_in_the_way() {
    let mut fp = prototype();
    let first = ParameterPieces { addr: at(reg(), 0x10), type_: Some(int_of(4)), flags: 0 };
    let second = ParameterPieces { addr: at(reg(), 0x12), type_: Some(int_of(4)), flags: 0 };
    fp.set_param(0, "a", &first);
    fp.set_param(1, "b", &second);
    fp.set_input_lock(true);
    fp.set_output_lock(true);
    let g = Graph { varnodes: Vec::new(), ops: Vec::new() };
    let mut s = Script::new(10, 10, true);
    let mut act = ActionPrototypeTypes::boxed("g");
    act.apply(&mut fp, None, &g, &mut s, &Vec::new(), None, &vec![false, true]);
    assert_eq!(
        s.edits,
        vec![
            Edit::ResetLocalWindow,
            Edit::NewVarnode { vn: VarnodeId(10), size: 4, addr: at(reg(), 0x10) },
            Edit::SetInputVarnode { vn: VarnodeId(10) },
            Edit::LockInput { vn: VarnodeId(10) },
            Edit::LockType { vn: VarnodeId(10), type_: int_of(4) },
            Edit::NewVarnode { vn: VarnodeId(11), size: 4, addr: at(reg(), 0x12) },
        ]
    );
}

fn declaration(types: Vec<Datatype>) -> CalleeDecl {
    let mut d = PrototypePieces::new();
    d.outtype = Some(int_of(4));
    d.intypes = types;
    CalleeDecl { pieces: Some(d), model: None }
}

#[test]
fn declared_callees_get_their_prototypes() {
    let mut known = FuncCallSpecs::new(OpId(0), at(code(), 0x2000));
    known.set_funcdata(at(code(), 0x2000), "f").unwrap();
    let unknown = FuncCallSpecs::new(OpId(1), at(code(), 0x3000));
    let mut calls = vec![known, unknown];
    let decls = vec![declaration(vec![int_of(4)]), declaration(vec![int_of(4)])];
    let mut mgr = manager();
    ActionDefaultParams::boxed("g").apply(
        &mut calls,
        Some(model()),
        Some(Datatype::new(0, TypeMetatype::Void)),
        &decls,
        &Some(model()),
        &mut mgr,
    );
    assert!(calls[0].is_input_locked());
    assert_eq!(calls[0].proto().num_params(), 1);
    assert_eq!(calls[0].proto().get_param(0).unwrap().get_address(), at(reg(), 0x10));
    // Nothing is declared of a callee that is not known.
    assert!(!calls[1].is_input_locked());
    assert_eq!(calls[1].proto().num_params(), 0);
    assert!(calls[1].proto().has_model());
}

#[test]
fn locked_arguments_are_linked_to_calls() {
    let g = Graph {
        varnodes: vec![value(constant(), 0x2000, 4)],
        ops: vec![PcodeOp::new(OpCode::Call, at(code(), 0x1000), ids(&[0]))],
    };
    let mut fc = call_of(OpId(0));
    let first = ParameterPieces { addr: at(reg(), 0x10), type_: Some(int_of(4)), flags: 0 };
    let second = ParameterPieces { addr: at(stack(), 4), type_: Some(int_of(4)), flags: 0 };
    fc.proto_mut().set_param(0, "a", &first);
    fc.proto_mut().set_param(1, "b", &second);
    fc.proto_mut().set_input_lock(true);
    let mut s = Script::new(10, 10, true);
    let mgr = manager();
    ActionFuncLink::func_link_input(&mut fc, &g, &mut s, &mgr, &vec![None, None]);
    assert_eq!(s.edits[0], Edit::NewVarnode { vn: VarnodeId(10), size: 4, addr: at(reg(), 0x10) });
    assert_eq!(s.edits[1], Edit::InsertInput { op: OpId(0), vn: VarnodeId(10), slot: 1 });
    // An argument on the stack is loaded, and stands for the stack pointer.
    assert!(s.edits.contains(&Edit::MarkPlaceholder { vn: VarnodeId(11) }));
    assert!(s.edits.contains(&Edit::InsertInput { op: OpId(0), vn: VarnodeId(11), slot: 2 }));
    assert!(!fc.is_input_active());
    assert_eq!(fc.active_input().get_num_trials(), 2);
}

#[test]
fn popped_bytes_are_added_to_the_stack_pointer() {
    let g = Graph {
        varnodes: vec![value(constant(), 0x2000, 4)],
        ops: vec![PcodeOp::new(OpCode::Call, at(code(), 0x1000), ids(&[0]))],
    };
    let sp = VarnodeData { space: Some(reg()), offset: 0x80, size: 4 };
    let mut fc = call_of(OpId(0));
    fc.proto_mut().set_extra_pop(4);
    let mut calls = vec![fc];
    let mut s = Script::new(10, 10, true);
    let mut act = ActionExtraPopSetup::boxed("g", Some(5));
    act.apply(&mut calls, &g, &mut s, Some(sp));
    assert!(s.edits.contains(&Edit::SetOpcode { op: OpId(10), code: OpCode::IntAdd }));
    assert!(s.edits.iter().any(|e| matches!(e, Edit::NewConstant { vn: _, size: 4, value: 4 })));
    assert_eq!(calls[0].get_effective_extra_pop(), 4);
}

#[test]
fn a_callee_is_set_once() {
    let mut fc = FuncCallSpecs::new(OpId(0), Address::new_invalid());
    assert_eq!(fc.set_funcdata(at(code(), 0x2000), "f"), Ok(()));
    assert_eq!(fc.set_funcdata(at(code(), 0x3000), "g"), Err(FspecError::CalleeAlreadySet));
    assert_eq!(fc.get_name(), "f");
}

#[test]
fn placeholders_need_stack_loads() {
    let g = call_graph(OpCode::Call);
    let mut fc = call_of(OpId(0));
    let mut s = Script::new(10, 10, false);
    assert_eq!(fc.create_placeholder(&g, &mut s, stack()), Err(FspecError::NoStackLoads));
    assert_eq!(fc.get_stack_placeholder_slot(), -1);
    let mut t = Script::new(10, 10, true);
    assert_eq!(fc.create_placeholder(&g, &mut t, stack()), Ok(()));
    assert_eq!(fc.get_stack_placeholder_slot(), 3);
    fc.clear_stack_placeholder_slot();
    assert_eq!(fc.get_stack_placeholder_slot(), -1);
}

#[test]
fn arguments_of_locked_calls_are_not_joined() {
    let (_g, mut fc) = call_with_trials(OpCode::Call);
    assert_eq!(fc.do_input_join(1, Ok(at(reg(), 0x10))), Ok(()));
    assert_eq!(fc.active_input().get_num_trials(), 1);
    assert_eq!(fc.active_input().get_trial(0).get_size(), 8);
    let (_g, mut locked) = call_with_trials(OpCode::Call);
    let p = ParameterPieces { addr: at(reg(), 0x10), type_: Some(int_of(4)), flags: 0 };
    locked.proto_mut().set_param(0, "a", &p);
    locked.proto_mut().set_input_lock(true);
    assert_eq!(
        locked.do_input_join(1, Ok(at(reg(), 0x10))),
        Err(FspecError::JoinLocked)
    );
}

/// A call whose input 1 is loaded from the stack by operation 1.
fn call_with_load() -> Graph {
    let call = PcodeOp::new(OpCode::Call, at(code(), 0x1000), ids(&[0, 2]));
    let mut load = PcodeOp::new(OpCode::Load, at(code(), 0xff8), ids(&[1]));
    load.output = Some(VarnodeId(2));
    let mut loaded = value(reg(), 0x700, 4);
    loaded.def = Some(OpId(1));
    Graph {
        varnodes: vec![value(constant(), 0x2000, 4), value(stack(), 0x18, 4), loaded],
        ops: vec![call, load],
    }
}

#[test]
fn the_stack_pointer_is_found_through_a_locked_parameter() {
    let g = call_with_load();
    let mut s = Script::new(10, 10, true);
    let mut open = call_of(OpId(0));
    assert_eq!(
        open.resolve_spacebase_relative(&g, &mut s, VarnodeId(2)),
        Err(FspecError::PlaceholderUnresolved)
    );
    let locked = |addr: Option<Address>| {
        let mut fc = call_of(OpId(0));
        if let Some(addr) = addr {
            let p = ParameterPieces { addr, type_: Some(int_of(4)), flags: 0 };
            fc.proto_mut().set_param(0, "a", &p);
        }
        fc.proto_mut().set_input_lock(true);
        fc
    };
    // The parameter is 4 bytes above the stack pointer.
    let mut fc = locked(Some(at(stack(), 4)));
    assert_eq!(fc.resolve_spacebase_relative(&g, &mut s, VarnodeId(2)), Ok(()));
    assert_eq!(fc.get_spacebase_offset(), 0x14);
    let mut elsewhere = locked(Some(at(reg(), 0x10)));
    assert_eq!(
        elsewhere.resolve_spacebase_relative(&g, &mut s, VarnodeId(2)),
        Err(FspecError::PlaceholderOtherSpace)
    );
    let mut none = locked(None);
    assert_eq!(
        none.resolve_spacebase_relative(&g, &mut s, VarnodeId(2)),
        Err(FspecError::PlaceholderNotAligned)
    );
}
