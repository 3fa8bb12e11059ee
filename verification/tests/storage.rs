//! Storage handed out by conventions, the verdict on trials, effects, and
//! prototypes set from their components.
use kuna_decomp::active::ParamActive;
use kuna_decomp::dtype::{Datatype, TypeClass, TypeMetatype};
use kuna_decomp::effects;
use kuna_decomp::effects::EffectRecord;
use kuna_decomp::encode::{Attribute, Element, Token};
use kuna_decomp::entry;
use kuna_decomp::entry::ParamEntry;
use kuna_decomp::error::FspecError;
use kuna_decomp::joins::AddrSpaceManager;
use kuna_decomp::model::{IdSource, ProtoModel};
use kuna_decomp::opcode::OpCode;
use kuna_decomp::paramlist::{ParamListKind, ParamListStandard};
use kuna_decomp::pieces;
use kuna_decomp::pieces::{ParameterPieces, PrototypePieces};
use kuna_decomp::proto::FuncProto;
use kuna_decomp::rules::{AssignAction, ModelRule};
use kuna_decomp::space::{AddrSpace, Address, SpaceType, VarnodeData};
use kuna_decomp::store::{ParameterBasic, ProtoParameter, ProtoStore, ProtoStoreInternal};
use kuna_decomp::trial::ParamTrial;
use std::rc::Rc;

fn reg() -> AddrSpace {
    AddrSpace::new(SpaceType::Processor, false, 4, 1, 3, 0)
}

fn big_reg() -> AddrSpace {
    AddrSpace::new(SpaceType::Processor, true, 4, 1, 4, 0)
}

fn stack() -> AddrSpace {
    AddrSpace::new(SpaceType::Spacebase, false, 4, 1, 5, 0)
}

fn join_space() -> AddrSpace {
    AddrSpace::new(SpaceType::Join, false, 8, 1, 6, 0)
}

fn manager() -> AddrSpaceManager {
    AddrSpaceManager::new(join_space())
}

fn at(space: AddrSpace, offset: u64) -> Address {
    Address::new(space, offset)
}

fn place(space: AddrSpace, offset: u64, size: u32) -> VarnodeData {
    VarnodeData { space: Some(space), offset, size }
}

/// An entry of the general class, fitted to nothing.
fn entry_of(grp: i32, space: AddrSpace, base: u64, size: i32, align: i32, flags: u32) -> ParamEntry {
    let mgr = manager();
    ParamEntry::seed(
        grp,
        TypeClass::General,
        space,
        base,
        size,
        1,
        align,
        flags,
        true,
        false,
        &[],
        &mgr,
    )
    .unwrap()
}

/// Registers at 0x10, 0x20 and 0x30 in groups 0 to 2, and a stack from offset
/// 4 on in group 3.
fn registers_and_stack(kind: ParamListKind) -> ParamListStandard {
    let mut l = ParamListStandard::new(kind);
    l.push_entry(entry_of(0, reg(), 0x10, 4, 0, 0));
    l.push_entry(entry_of(1, reg(), 0x20, 4, 0, 0));
    l.push_entry(entry_of(2, reg(), 0x30, 4, 0, 0));
    l.push_entry(entry_of(3, stack(), 4, 0x40, 4, 0));
    l.finish_decode();
    l
}

fn int_of(size: i32) -> Datatype {
    Datatype::new_with_align(size, size, TypeMetatype::Int)
}

fn declared(outtype: Option<Datatype>, intypes: Vec<Datatype>, names: &[&str]) -> PrototypePieces {
    PrototypePieces {
        name: "f".to_string(),
        outtype,
        intypes,
        innames: names.iter().map(|n| n.to_string()).collect(),
        first_var_arg_slot: -1,
        output_storage: None,
        input_storage: Vec::new(),
    }
}

#[test]
fn values_lie_in_the_slots_they_take() {
    let mut mgr = manager();
    let e = entry_of(3, stack(), 4, 0x20, 4, 0);
    let mut slot = 1;
    let a = e.get_addr_by_slot(&mut slot, 6, 1, &mut mgr).unwrap();
    assert_eq!(a, at(stack(), 8));
    assert_eq!(slot, 3);
    // The first byte is in the slot that was asked for, the last in the next.
    assert_eq!(e.get_slot(&a, 0), 3 + 1);
    assert_eq!(e.get_slot(&a, 5), 3 + 2);
    assert_eq!(e.justified_contain(&a, 6), 0);
    // The value behind it starts where the slots end.
    let b = e.get_addr_by_slot(&mut slot, 4, 1, &mut mgr).unwrap();
    assert_eq!(b, at(stack(), 16));
}

#[test]
fn slots_are_aligned_before_they_are_taken() {
    let mut mgr = manager();
    let e = entry_of(0, stack(), 0, 0x20, 4, 0);
    let mut slot = 1;
    let a = e.get_addr_by_slot(&mut slot, 8, 8, &mut mgr).unwrap();
    assert_eq!(a, at(stack(), 8));
    assert_eq!(slot, 4);
}

#[test]
fn reverse_stacks_are_taken_from_the_top() {
    let mut mgr = manager();
    let e = ParamEntry::seed(
        3,
        TypeClass::General,
        stack(),
        0,
        0x20,
        1,
        4,
        entry::REVERSE_STACK,
        false,
        false,
        &[],
        &mgr,
    )
    .unwrap();
    let mut slot = 0;
    let a = e.get_addr_by_slot(&mut slot, 8, 1, &mut mgr).unwrap();
    assert_eq!(a, at(stack(), 0x18));
    assert_eq!(slot, 2);
    assert_eq!(e.get_slot(&a, 0), 3 + 1);
    assert_eq!(e.get_slot(&a, 7), 3);
    let b = e.get_addr_by_slot(&mut slot, 4, 1, &mut mgr).unwrap();
    assert_eq!(b, at(stack(), 0x14));
}

#[test]
fn big_endian_values_end_with_their_slots() {
    let mut mgr = manager();
    let e = entry_of(0, big_reg(), 0x40, 0x10, 4, 0);
    let mut slot = 0;
    let a = e.get_addr_by_slot(&mut slot, 2, 1, &mut mgr).unwrap();
    assert_eq!(a, at(big_reg(), 0x42));
    assert_eq!(e.justified_contain(&a, 2), 0);
    assert_eq!(e.justified_contain(&at(big_reg(), 0x40), 2), 2);
    // Forced to the left, they start with them.
    let f = entry_of(0, big_reg(), 0x40, 0x10, 4, entry::FORCE_LEFT_JUSTIFY);
    let mut slot = 0;
    let b = f.get_addr_by_slot(&mut slot, 2, 1, &mut mgr).unwrap();
    assert_eq!(b, at(big_reg(), 0x40));
    assert_eq!(f.justified_contain(&b, 2), 0);
}

#[test]
fn containers_are_whole_slots() {
    let e = entry_of(0, stack(), 4, 0x20, 4, 0);
    let mut res = VarnodeData::default();
    assert!(e.get_container(&at(stack(), 10), 4, &mut res));
    assert_eq!(res, place(stack(), 8, 8));
    assert!(e.get_container(&at(stack(), 8), 4, &mut res));
    assert_eq!(res, place(stack(), 8, 4));
    assert!(!e.get_container(&at(stack(), 0), 4, &mut res));
    assert!(!e.get_container(&at(stack(), 0x22), 4, &mut res));
}

#[test]
fn small_values_are_extended_into_their_slot() {
    let e = entry_of(0, stack(), 4, 0x20, 4, entry::SMALLSIZE_SEXT);
    let mut res = VarnodeData::default();
    assert_eq!(e.assumed_extension(&at(stack(), 8), 2, &mut res), OpCode::IntSext);
    assert_eq!(res, place(stack(), 8, 4));
    assert_eq!(e.assumed_extension(&at(stack(), 10), 2, &mut res), OpCode::Copy);
    assert_eq!(e.assumed_extension(&at(stack(), 8), 4, &mut res), OpCode::Copy);
    let f = entry_of(0, reg(), 0x10, 4, 0, entry::SMALLSIZE_INTTYPE);
    assert_eq!(f.assumed_extension(&at(reg(), 0x10), 1, &mut res), OpCode::Piece);
    assert_eq!(res, place(reg(), 0x10, 4));
}

#[test]
fn small_floats_are_stored_as_extensions() {
    let mut mgr = manager();
    let e = ParamEntry::seed(
        0,
        TypeClass::Float,
        reg(),
        0x100,
        10,
        4,
        0,
        entry::SMALLSIZE_FLOATEXT,
        true,
        false,
        &[],
        &mgr,
    )
    .unwrap();
    let mut slot = 0;
    let a = e.get_addr_by_slot(&mut slot, 8, 1, &mut mgr).unwrap();
    assert_eq!(a.get_space(), Some(join_space()));
    let mut again = 0;
    assert_eq!(e.get_addr_by_slot(&mut again, 8, 1, &mut mgr).unwrap(), a);
    let mut whole = 0;
    assert_eq!(e.get_addr_by_slot(&mut whole, 10, 1, &mut mgr).unwrap(), at(reg(), 0x100));
    // Too small a value has no place.
    let mut none = 0;
    assert!(e.get_addr_by_slot(&mut none, 2, 1, &mut mgr).unwrap().is_invalid());
}

#[test]
fn parameters_do_not_share_storage() {
    let mut mgr = manager();
    let l = registers_and_stack(ParamListKind::Standard);
    let types = vec![int_of(4), int_of(2), int_of(8), int_of(4), int_of(4), int_of(8)];
    let sizes = [4u64, 2, 8, 4, 4, 8];
    let mut res: Vec<ParameterPieces> = Vec::new();
    l.assign_map(&declared(None, types, &[]), &mut res, &mut mgr).unwrap();
    let places: Vec<(SpaceType, u64)> =
        res.iter().map(|p| (p.addr.get_space().unwrap().get_type(), p.addr.get_offset())).collect();
    assert_eq!(
        places,
        vec![
            (SpaceType::Processor, 0x10),
            (SpaceType::Processor, 0x20),
            (SpaceType::Spacebase, 4),
            (SpaceType::Processor, 0x30),
            (SpaceType::Spacebase, 12),
            (SpaceType::Spacebase, 20),
        ]
    );
    for i in 0..res.len() {
        for j in 0..i {
            let (a, b) = (res[i].addr, res[j].addr);
            assert!(
                a.get_space() != b.get_space()
                    || a.get_offset() + sizes[i] <= b.get_offset()
                    || b.get_offset() + sizes[j] <= a.get_offset()
            );
        }
    }
}

#[test]
fn parameters_without_room_are_refused() {
    let mut mgr = manager();
    let l = registers_and_stack(ParamListKind::Standard);
    let mut res: Vec<ParameterPieces> = Vec::new();
    let wide = Datatype::new_with_align(0x80, 4, TypeMetatype::Struct);
    assert_eq!(
        l.assign_map(&declared(None, vec![wide], &[]), &mut res, &mut mgr),
        Err(FspecError::ParamUnassigned)
    );
    let merged = ParamListStandard::new(ParamListKind::Merged);
    assert_eq!(
        merged.assign_map(&declared(None, vec![int_of(4)], &[]), &mut res, &mut mgr),
        Err(FspecError::UnresolvedModel)
    );
}

#[test]
fn pointers_need_a_data_space() {
    let mut mgr = manager();
    let mut l = registers_and_stack(ParamListKind::Standard);
    l.push_model_rule(ModelRule {
        min_size: 16,
        max_size: i32::MAX,
        action: AssignAction::ConvertToPointer { space: None },
    });
    let wide = Datatype::new_with_align(0x20, 4, TypeMetatype::Struct);
    let mut res: Vec<ParameterPieces> = Vec::new();
    assert_eq!(
        l.assign_map(&declared(None, vec![wide], &[]), &mut res, &mut mgr),
        Err(FspecError::NoDefaultDataSpace)
    );
    mgr.default_data_space = Some(AddrSpace::new(SpaceType::Processor, false, 4, 1, 2, 0));
    let mut res: Vec<ParameterPieces> = Vec::new();
    l.assign_map(&declared(None, vec![wide], &[]), &mut res, &mut mgr).unwrap();
    assert_eq!(res[0].addr, at(reg(), 0x10));
    assert_eq!(res[0].flags, pieces::INDIRECTSTORAGE);
    assert_eq!(res[0].type_.unwrap().get_metatype(), TypeMetatype::Ptr);
}

/// The trials in formal order: offset, whether used, whether ruled out.
fn verdicts(a: &ParamActive) -> Vec<(u64, bool, bool)> {
    (0..a.get_num_trials())
        .map(|i| {
            let t = a.get_trial(i);
            (t.get_address().get_offset(), t.is_used(), t.is_definitely_not_used())
        })
        .collect()
}

#[test]
fn parameters_have_no_gap() {
    let l = registers_and_stack(ParamListKind::Standard);
    let mut a = ParamActive::new(false);
    a.register_trial(&at(reg(), 0x30), 4);
    a.register_trial(&at(reg(), 0x10), 4);
    a.get_trial_mut(0).mark_active();
    a.get_trial_mut(1).mark_active();
    l.fillin_map(&mut a).unwrap();
    // The register in between is filled in, though nothing refers to it.
    assert_eq!(verdicts(&a), vec![(0x10, true, false), (0x20, true, false), (0x30, true, false)]);
    assert_eq!(a.get_trial(0).get_slot(), 2);
    assert!(a.get_trial(1).is_unref());
    assert_eq!(a.get_trial(1).get_slot(), -1);
    assert_eq!(a.get_trial(2).get_slot(), 1);
}

#[test]
fn a_long_run_of_unused_slots_ends_the_list() {
    let l = registers_and_stack(ParamListKind::Standard);
    let mut a = ParamActive::new(false);
    a.register_trial(&at(reg(), 0x10), 4);
    a.get_trial_mut(0).mark_active();
    a.register_trial(&at(reg(), 0x20), 4);
    a.get_trial_mut(1).mark_inactive();
    a.register_trial(&at(reg(), 0x30), 4);
    a.get_trial_mut(2).mark_inactive();
    a.register_trial(&at(stack(), 4), 4);
    a.get_trial_mut(3).mark_inactive();
    a.register_trial(&at(stack(), 8), 4);
    a.get_trial_mut(4).mark_active();
    l.fillin_map(&mut a).unwrap();
    let used: Vec<u64> =
        verdicts(&a).into_iter().filter(|v| v.1).map(|v| v.0).collect();
    assert_eq!(used, vec![0x10]);
    // A run of two does not.
    let mut b = ParamActive::new(false);
    b.register_trial(&at(reg(), 0x10), 4);
    b.get_trial_mut(0).mark_active();
    b.register_trial(&at(reg(), 0x20), 4);
    b.get_trial_mut(1).mark_inactive();
    b.register_trial(&at(reg(), 0x30), 4);
    b.get_trial_mut(2).mark_inactive();
    b.register_trial(&at(stack(), 4), 4);
    b.get_trial_mut(3).mark_active();
    l.fillin_map(&mut b).unwrap();
    assert_eq!(b.get_num_used(), 4);
}

#[test]
fn what_is_ruled_out_stays_ruled_out() {
    let l = registers_and_stack(ParamListKind::Standard);
    let mut a = ParamActive::new(false);
    a.register_trial(&at(reg(), 0x10), 4);
    a.get_trial_mut(0).mark_no_use();
    a.register_trial(&at(reg(), 0x20), 4);
    a.get_trial_mut(1).mark_active();
    a.register_trial(&at(reg(), 0x99), 4);
    a.get_trial_mut(2).mark_active();
    l.fillin_map(&mut a).unwrap();
    let v = verdicts(&a);
    assert_eq!(v[0], (0x10, false, true));
    // A location that the convention does not know is ruled out too.
    assert!(v.contains(&(0x99, false, true)));
    // Everything behind a group that is ruled out is inactive.
    assert_eq!(v[1], (0x20, false, false));
}

#[test]
fn one_parameter_per_exclusive_group() {
    let mgr = manager();
    // Two registers that exclude each other, as for integers and floats.
    let mut l = ParamListStandard::new(ParamListKind::Standard);
    let first = ParamEntry::seed(
        0,
        TypeClass::Float,
        reg(),
        0x100,
        4,
        1,
        0,
        0,
        true,
        true,
        &[],
        &mgr,
    )
    .unwrap();
    l.push_entry(first);
    l.push_entry(entry_of(0, reg(), 0x10, 4, 0, 0));
    l.push_entry(entry_of(1, reg(), 0x20, 4, 0, 0));
    l.finish_decode();
    let mut a = ParamActive::new(false);
    a.register_trial(&at(reg(), 0x100), 4);
    a.get_trial_mut(0).mark_active();
    a.register_trial(&at(reg(), 0x10), 4);
    a.get_trial_mut(1).mark_active();
    a.register_trial(&at(reg(), 0x20), 4);
    a.get_trial_mut(2).mark_active();
    l.fillin_map(&mut a).unwrap();
    assert_eq!(
        verdicts(&a),
        vec![(0x100, true, false), (0x10, false, true), (0x20, true, false)]
    );
    // Of two that look inactive the more likely one is kept.
    let mut b = ParamActive::new(false);
    b.register_trial(&at(reg(), 0x100), 4);
    b.get_trial_mut(0).mark_inactive();
    b.get_trial_mut(0).set_ancestor_realistic();
    b.register_trial(&at(reg(), 0x10), 4);
    b.get_trial_mut(1).mark_inactive();
    b.register_trial(&at(reg(), 0x20), 4);
    b.get_trial_mut(2).mark_active();
    l.fillin_map(&mut b).unwrap();
    assert_eq!(
        verdicts(&b),
        vec![(0x100, true, false), (0x10, false, true), (0x20, true, false)]
    );
}

#[test]
fn lists_that_cannot_decide_say_so() {
    let mut a = ParamActive::new(false);
    a.register_trial(&at(reg(), 0x10), 4);
    let merged = ParamListStandard::new(ParamListKind::Merged);
    assert_eq!(merged.fillin_map(&mut a), Err(FspecError::UnresolvedModel));
    let empty = ParamListStandard::new(ParamListKind::Standard);
    assert_eq!(empty.fillin_map(&mut a), Err(FspecError::NoEntries));
    assert_eq!(a.get_num_trials(), 1);
}

#[test]
fn return_values_lie_in_one_entry() {
    let mut l = ParamListStandard::new(ParamListKind::StandardOut);
    l.push_entry(entry_of(0, reg(), 0x10, 8, 0, 0));
    l.push_entry(entry_of(1, reg(), 0x20, 8, 0, 0));
    l.finish_decode();
    let mut a = ParamActive::new(false);
    a.register_trial(&at(reg(), 0x14), 4);
    a.get_trial_mut(0).mark_active();
    a.register_trial(&at(reg(), 0x20), 8);
    a.get_trial_mut(1).mark_inactive();
    a.register_trial(&at(reg(), 0x10), 4);
    a.get_trial_mut(2).mark_active();
    l.fillin_map(&mut a).unwrap();
    for i in 0..a.get_num_trials() {
        let t = a.get_trial(i);
        if t.is_used() {
            assert_eq!(t.get_entry(), Some(0));
        } else {
            assert!(t.is_definitely_not_used());
        }
    }
    let used: Vec<(u64, i32)> = (0..3)
        .map(|i| a.get_trial(i))
        .filter(|t| t.is_used())
        .map(|t| (t.get_address().get_offset(), t.get_offset()))
        .collect();
    assert_eq!(used, vec![(0x10, 0), (0x14, 4)]);
}

#[test]
fn recorded_effects_are_found() {
    let list = vec![
        EffectRecord::from_varnode(place(reg(), 0x10, 4), effects::UNAFFECTED),
        EffectRecord::from_varnode(place(reg(), 0x20, 8), effects::KILLEDBYCALL),
        EffectRecord::from_varnode(place(reg(), 0x40, 4), effects::RETURN_ADDRESS),
    ];
    assert_eq!(effects::lookup_effect(&list, &at(reg(), 0x20), 8), effects::KILLEDBYCALL);
    assert_eq!(effects::lookup_effect(&list, &at(reg(), 0x24), 4), effects::KILLEDBYCALL);
    assert_eq!(effects::lookup_effect(&list, &at(reg(), 0x24), 8), effects::UNKNOWN_EFFECT);
    assert_eq!(effects::lookup_effect(&list, &at(reg(), 0x40), 4), effects::RETURN_ADDRESS);
    assert_eq!(effects::lookup_effect(&list, &at(reg(), 0x8), 4), effects::UNKNOWN_EFFECT);
    // After a record of size 0 the whole space is unaffected.
    let all = vec![EffectRecord::from_varnode(place(reg(), 0, 0), effects::UNAFFECTED)];
    assert_eq!(effects::lookup_effect(&all, &at(reg(), 0x77), 4), effects::UNAFFECTED);
}

#[test]
fn common_effects_and_locations() {
    let same = EffectRecord::from_varnode(place(reg(), 0x20, 4), effects::UNAFFECTED);
    let a = vec![
        EffectRecord::from_varnode(place(reg(), 0x10, 4), effects::UNAFFECTED),
        same,
        EffectRecord::from_varnode(place(reg(), 0x30, 4), effects::KILLEDBYCALL),
    ];
    let b = vec![
        same,
        EffectRecord::from_varnode(place(reg(), 0x30, 4), effects::UNAFFECTED),
    ];
    let both = effects::intersect_effects(&a, &b);
    assert_eq!(both.len(), 1);
    assert_eq!(both[0].get_address(), at(reg(), 0x20));
    let mut r = vec![place(reg(), 0x10, 4), place(reg(), 0x20, 4), place(reg(), 0x30, 4)];
    let s = vec![place(reg(), 0x20, 4), place(reg(), 0x30, 2), place(reg(), 0x40, 4)];
    effects::intersect_registers(&mut r, &s);
    assert_eq!(r, vec![place(reg(), 0x20, 4)]);
}

#[test]
fn inputs_read_back() {
    let mut s = ProtoStoreInternal::new(Datatype::new(0, TypeMetatype::Void));
    let p = ParameterPieces { addr: at(reg(), 0x10), type_: Some(int_of(4)), flags: 0 };
    let q = ParameterPieces { addr: at(reg(), 0x20), type_: Some(int_of(2)), flags: 0 };
    s.set_input(0, "a", &p);
    s.set_input(2, "c", &q);
    assert_eq!(s.get_num_inputs(), 3);
    assert!(s.get_input(1).is_none());
    assert_eq!(s.get_input(0).unwrap().get_name(), "a");
    assert_eq!(s.get_input(2).unwrap().get_address(), at(reg(), 0x20));
    s.set_input(2, "d", &p);
    assert_eq!(s.get_input(2).unwrap().get_name(), "d");
    assert_eq!(s.get_input(0).unwrap().get_address(), at(reg(), 0x10));
    // Without the last input the missing one before it goes too.
    s.clear_input(2);
    assert_eq!(s.get_num_inputs(), 1);
}

#[test]
fn sizes_locked_keep_their_size() {
    let mut p = ParameterBasic::new("x", at(reg(), 0x10), int_of(4), 0);
    assert_eq!(p.override_size_lock_type(int_of(4)), Err(FspecError::NotSizeLocked));
    let mut q = ParameterBasic::new(
        "x",
        at(reg(), 0x10),
        Datatype::new(4, TypeMetatype::Unknown),
        0,
    );
    q.set_type_lock(true);
    assert!(q.is_size_type_locked());
    assert_eq!(q.override_size_lock_type(int_of(2)), Err(FspecError::DifferentTypeSize));
    assert_eq!(q.override_size_lock_type(int_of(4)), Ok(()));
}

/// A model with inputs in registers and on the stack, and a return value at
/// 0x10.
fn model() -> Rc<ProtoModel> {
    let mgr = manager();
    let mut ids = IdSource::new(1);
    let mut m = ProtoModel::new(&mgr, &mut ids);
    m.build_param_list("standard").unwrap();
    m.set_name("__cdecl");
    {
        let l = m.input_mut();
        l.push_entry(entry_of(0, reg(), 0x10, 4, 0, 0));
        l.push_entry(entry_of(1, reg(), 0x20, 4, 0, 0));
        l.push_entry(entry_of(2, stack(), 4, 0x40, 4, 0));
        l.finish_decode();
    }
    {
        let l = m.output_mut();
        l.push_entry(entry_of(0, reg(), 0x10, 4, 0, 0));
        l.finish_decode();
    }
    m.push_effect(EffectRecord::from_varnode(place(reg(), 0x20, 4), effects::KILLEDBYCALL));
    Rc::new(m)
}

fn prototype() -> FuncProto {
    let mut fp = FuncProto::new();
    fp.set_internal(model(), Datatype::new(0, TypeMetatype::Void));
    fp
}

#[test]
fn declarations_read_back() {
    let mut mgr = manager();
    let mut fp = prototype();
    let m = Rc::clone(fp.model());
    let d = declared(Some(int_of(4)), vec![int_of(4), int_of(2), int_of(8)], &["a", "b", "c"]);
    fp.set_pieces(&d, Some(m), &mut mgr).unwrap();
    assert!(fp.is_input_locked() && fp.is_output_locked() && fp.is_model_locked());
    let places: Vec<(String, u64)> = (0..fp.num_params())
        .map(|i| {
            let p = fp.get_param(i).unwrap();
            (p.get_name().to_string(), p.get_address().get_offset())
        })
        .collect();
    assert_eq!(
        places,
        vec![("a".to_string(), 0x10), ("b".to_string(), 0x20), ("c".to_string(), 4)]
    );
    let mut back = PrototypePieces::new();
    fp.get_pieces(&mut back);
    assert_eq!(back.outtype, Some(int_of(4)));
    assert_eq!(back.intypes, vec![int_of(4), int_of(2), int_of(8)]);
    assert_eq!(back.innames, vec!["a".to_string(), "b".to_string(), "c".to_string()]);
    assert_eq!(back.first_var_arg_slot, -1);
}

#[test]
fn declarations_that_do_not_fit_are_marked() {
    let mut mgr = manager();
    let mut fp = prototype();
    let wide = Datatype::new_with_align(0x80, 4, TypeMetatype::Struct);
    fp.update_all_types(&declared(Some(int_of(4)), vec![wide], &["w"]), &mut mgr).unwrap();
    assert!(fp.has_input_errors());
    assert_eq!(fp.num_params(), 0);
}

#[test]
fn given_storage_takes_precedence() {
    let mut mgr = manager();
    let mut fp = prototype();
    let mut d = declared(Some(int_of(4)), vec![int_of(4), int_of(4)], &["a", "b"]);
    let elsewhere = ParameterPieces { addr: at(reg(), 0x70), type_: Some(int_of(4)), flags: 0 };
    d.input_storage = vec![(1, elsewhere), (9, elsewhere)];
    d.output_storage = Some(elsewhere);
    fp.set_pieces(&d, None, &mut mgr).unwrap();
    assert_eq!(fp.num_params(), 2);
    assert_eq!(fp.get_param(0).unwrap().get_address(), at(reg(), 0x10));
    assert_eq!(fp.get_param(1).unwrap().get_address(), at(reg(), 0x70));
    assert_eq!(fp.get_param(1).unwrap().get_name(), "b");
    assert_eq!(fp.get_output().get_address(), at(reg(), 0x70));
}

#[test]
fn return_types_that_are_not_declared_stay_open() {
    let mut mgr = manager();
    let mut fp = FuncProto::new();
    let void = Datatype::new(0, TypeMetatype::Void);
    let d = declared(None, vec![int_of(4)], &["a"]);
    fp.seed_locked_from_pieces(&d, model(), void, &mut mgr).unwrap();
    assert!(fp.is_input_locked());
    assert!(!fp.is_output_locked());
    let e = declared(Some(int_of(4)), vec![int_of(4)], &["a"]);
    fp.seed_locked_from_pieces(&e, model(), void, &mut mgr).unwrap();
    assert!(fp.is_output_locked());
}

#[test]
fn prototypes_are_written_in_nested_elements() {
    let mut fp = prototype();
    fp.set_no_return(true);
    fp.push_effect_override(EffectRecord::from_varnode(
        place(reg(), 0x20, 4),
        effects::KILLEDBYCALL,
    ));
    fp.push_effect_override(EffectRecord::from_varnode(
        place(reg(), 0x50, 4),
        effects::UNAFFECTED,
    ));
    let mut out: Vec<Token> = Vec::new();
    fp.encode(&mut out).unwrap();
    let mut open: Vec<Element> = Vec::new();
    for t in &out {
        match t {
            Token::Open(e) => open.push(*e),
            Token::Close(e) => assert_eq!(open.pop(), Some(*e)),
            _ => {}
        }
    }
    assert!(open.is_empty());
    // What the model says already is not written again.
    let ranges: Vec<&Token> =
        out.iter().filter(|t| matches!(t, Token::Storage(a, _) if a.get_offset() == 0x20)).collect();
    assert!(ranges.is_empty());
    assert!(out
        .iter()
        .any(|t| matches!(t, Token::Storage(a, 4) if *a == at(reg(), 0x50))));
    assert!(out.iter().any(|t| matches!(t, Token::Flag(Attribute::NoReturn))));
}

#[test]
fn what_cannot_be_written_is_refused() {
    let mut start: Vec<Token> = Vec::new();
    assert_eq!(FuncProto::new().encode(&mut start), Err(FspecError::NoStore));
    let mut out: Vec<Token> = Vec::new();
    let e = EffectRecord::from_varnode(place(reg(), 0x20, 4), effects::UNKNOWN_EFFECT);
    assert_eq!(e.encode(&mut out), Err(FspecError::BadEffectType));
    assert!(out.is_empty());
}

#[test]
fn joins_are_found_again() {
    let mut mgr = manager();
    let parts = vec![place(reg(), 0x14, 4), place(reg(), 0x10, 4)];
    let a = mgr.find_add_join(&parts, 0).unwrap();
    assert_eq!(a.size, 8);
    assert_eq!(mgr.find_add_join(&parts, 0).unwrap(), a);
    let other = vec![place(reg(), 0x10, 4), place(reg(), 0x14, 4)];
    assert_ne!(mgr.find_add_join(&other, 0).unwrap().offset, a.offset);
    assert!(mgr.find_join(a.offset).is_ok());
    assert_eq!(mgr.find_join(0x7777_7777), Err(FspecError::UnlinkedJoin));
    assert_eq!(mgr.find_add_join(&Vec::new(), 0), Err(FspecError::JoinWithoutPieces));
    let one = vec![place(reg(), 0x10, 4)];
    assert_eq!(mgr.find_add_join(&one, 0), Err(FspecError::JoinSinglePiece));
    assert_eq!(mgr.find_add_join(&parts, 4), Err(FspecError::JoinLogicalSize));
    let nothing = vec![place(reg(), 0x10, 0), place(reg(), 0x14, 0)];
    assert_eq!(mgr.find_add_join(&nothing, 0), Err(FspecError::JoinZeroSize));
}

#[test]
fn entries_that_do_not_fit_are_refused() {
    let mgr = manager();
    let first = entry_of(0, reg(), 0x10, 4, 0, 0);
    let prev = [first];
    // Half over an earlier entry.
    let over = ParamEntry::seed(
        1,
        TypeClass::General,
        reg(),
        0x12,
        2,
        1,
        0,
        0,
        true,
        false,
        &prev,
        &mgr,
    );
    assert_eq!(over.err(), Some(FspecError::IllegalOverlap));
    let uneven = ParamEntry::seed(
        1,
        TypeClass::General,
        stack(),
        0,
        10,
        1,
        4,
        0,
        false,
        false,
        &prev,
        &mgr,
    );
    assert_eq!(uneven.err(), Some(FspecError::StackAlignment));
    let mut right = reg();
    right.reverse_justified = true;
    let justified = ParamEntry::seed(
        1,
        TypeClass::General,
        right,
        0x40,
        4,
        1,
        0,
        0,
        true,
        false,
        &prev,
        &mgr,
    );
    assert_eq!(justified.err(), Some(FspecError::RightJustifiedLittleEndian));
    let mut joins = manager();
    let parts = vec![place(reg(), 0x84, 4), place(reg(), 0x80, 4)];
    let join = joins.find_add_join(&parts, 0).unwrap();
    let seed_at = |offset: u64| {
        ParamEntry::seed(
            1,
            TypeClass::General,
            join_space(),
            offset,
            8,
            1,
            0,
            0,
            true,
            false,
            &prev,
            &joins,
        )
        .err()
    };
    assert_eq!(seed_at(join.offset), Some(FspecError::JoinWithoutPrevious));
    assert_eq!(seed_at(0x7777_0000), Some(FspecError::UnlinkedJoin));
}

#[test]
fn return_values_that_fit_nowhere_are_refused() {
    let mut mgr = manager();
    mgr.default_data_space = Some(AddrSpace::new(SpaceType::Processor, false, 8, 1, 2, 0));
    let mut l = ParamListStandard::new(ParamListKind::StandardOut);
    l.push_entry(entry_of(0, reg(), 0x10, 4, 0, 0));
    l.finish_decode();
    // Not even a pointer to the value fits into the register.
    let wide = Datatype::new_with_align(24, 8, TypeMetatype::Struct);
    let mut res: Vec<ParameterPieces> = Vec::new();
    assert_eq!(
        l.assign_map(&declared(Some(wide), Vec::new(), &[]), &mut res, &mut mgr),
        Err(FspecError::ReturnUnassigned)
    );
    // A register list has no pointers to fall back on.
    let mut r = ParamListStandard::new(ParamListKind::RegisterOut);
    r.push_entry(entry_of(0, reg(), 0x10, 4, 0, 0));
    r.finish_decode();
    let mut res: Vec<ParameterPieces> = Vec::new();
    assert_eq!(
        r.assign_map(&declared(Some(wide), Vec::new(), &[]), &mut res, &mut mgr),
        Err(FspecError::ParamUnassigned)
    );
}

#[test]
fn entries_of_a_group_are_told_apart() {
    let general = entry_of(0, reg(), 0x10, 4, 0, 0);
    let again = entry_of(0, reg(), 0x20, 4, 0, 0);
    let mgr = manager();
    let float = ParamEntry::seed(
        0,
        TypeClass::Float,
        reg(),
        0x100,
        4,
        1,
        0,
        0,
        true,
        false,
        &[],
        &mgr,
    )
    .unwrap();
    assert_eq!(
        ParamEntry::order_within_group(&general, &again),
        Err(FspecError::AmbiguousGroup)
    );
    assert_eq!(
        ParamEntry::order_within_group(&general, &float),
        Err(FspecError::GeneralBeforeSpecific)
    );
    assert_eq!(ParamEntry::order_within_group(&float, &general), Ok(()));
}

#[test]
fn trials_are_not_reshaped_around_a_placeholder() {
    let mut a = ParamActive::new(true);
    a.register_trial(&at(reg(), 0x10), 4);
    a.register_trial(&at(reg(), 0x14), 4);
    assert_eq!(a.join_trial(1, &at(reg(), 0x10), 9), Err(FspecError::JoinSizeMismatch));
    a.set_placeholder_slot();
    assert_eq!(a.split_trial(0, 2), Err(FspecError::SplitWithPlaceholder));
    assert_eq!(a.join_trial(1, &at(reg(), 0x10), 8), Err(FspecError::JoinWithPlaceholder));
    a.free_placeholder_slot();
    assert_eq!(a.split_trial(0, 2), Ok(()));
    assert_eq!(a.get_num_trials(), 3);
    assert_eq!(a.join_trial(1, &at(reg(), 0x10), 4), Ok(()));
    assert_eq!(a.get_num_trials(), 2);
}

#[test]
fn pieces_without_a_space_have_no_address() {
    let mut mgr = manager();
    let mut p = ParameterPieces::default();
    let lost = VarnodeData { space: None, offset: 0, size: 4 };
    assert_eq!(
        p.assign_address_from_pieces(&mut vec![lost], true, None, &mut mgr),
        Err(FspecError::PieceWithoutSpace)
    );
    // Without known registers even neighbouring pieces are joined.
    let mut parts = vec![place(reg(), 0x10, 4), place(reg(), 0x14, 4)];
    p.assign_address_from_pieces(&mut parts, false, None, &mut mgr).unwrap();
    assert_eq!(p.addr.get_space(), Some(join_space()));
    assert_eq!(parts, vec![place(reg(), 0x14, 4), place(reg(), 0x10, 4)]);
    // Where they make up a register, that is where the parameter is.
    let whole = vec![place(reg(), 0x10, 8)];
    p.assign_address_from_pieces(&mut parts, true, Some(whole), &mut mgr).unwrap();
    assert_eq!(p.addr, at(reg(), 0x10));
    assert_eq!(parts, vec![place(reg(), 0x10, 8)]);
}

#[test]
fn models_that_differ_too_much_are_not_merged() {
    let mgr = manager();
    let mut ids = IdSource::new(1);
    let mut m = ProtoModel::new_merged(&mgr, &mut ids);
    assert_eq!(m.fold_in_model(&model()), Ok(()));
    let mut inject = ProtoModel::new(&mgr, &mut ids);
    inject.build_param_list("standard").unwrap();
    inject.input_mut().push_entry(entry_of(0, reg(), 0x10, 4, 0, 0));
    inject.input_mut().finish_decode();
    inject.output_mut().push_entry(entry_of(0, reg(), 0x10, 4, 0, 0));
    inject.output_mut().finish_decode();
    inject.set_inject_ids(3, 4);
    assert_eq!(m.fold_in_model(&Rc::new(inject)), Err(FspecError::MergeInjectIds));
    // Another stack.
    let other = AddrSpace::new(SpaceType::Spacebase, false, 4, 1, 8, 0);
    let mut stacked = ProtoModel::new(&mgr, &mut ids);
    stacked.build_param_list("standard").unwrap();
    stacked.input_mut().push_entry(entry_of(0, other, 0, 0x20, 4, 0));
    stacked.input_mut().finish_decode();
    stacked.output_mut().push_entry(entry_of(0, reg(), 0x10, 4, 0, 0));
    stacked.output_mut().finish_decode();
    assert_eq!(m.fold_in_model(&Rc::new(stacked)), Err(FspecError::MergeDifferentStacks));
    // A merged model is not merged again.
    let mut whole = ProtoModel::new_merged(&mgr, &mut ids);
    assert_eq!(whole.fold_in_model(&model()), Ok(()));
    let mut outer = ProtoModel::new_merged(&mgr, &mut ids);
    assert_eq!(outer.fold_in_model(&Rc::new(whole)), Err(FspecError::MergeNonStandard));
    let mut none = ProtoModel::new(&mgr, &mut ids);
    assert_eq!(none.build_param_list("other"), Err(FspecError::UnknownStrategy));
    let a = ParamActive::new(false);
    assert_eq!(model().select_model(&a).err(), Some(FspecError::NotMerged));
    let empty = ProtoModel::new_merged(&mgr, &mut ids);
    assert_eq!(empty.select_model(&a).err(), Some(FspecError::NoModelMatches));
}

#[test]
fn formal_order_is_by_group_then_address() {
    let l = registers_and_stack(ParamListKind::Standard);
    let mut low = ParamTrial::new(at(stack(), 4), 4, 1);
    low.set_entry(Some(3), 0);
    let mut high = ParamTrial::new(at(stack(), 8), 4, 2);
    high.set_entry(Some(3), 0);
    let mut first = ParamTrial::new(at(reg(), 0x10), 4, 3);
    first.set_entry(Some(0), 0);
    assert!(low.is_less(&high, l.get_entry()));
    assert!(!high.is_less(&low, l.get_entry()));
    assert!(first.is_less(&low, l.get_entry()));
    assert!(!low.is_less(&low, l.get_entry()));
}

#[test]
fn trials_are_found_by_any_common_byte() {
    let mut a = ParamActive::new(false);
    a.register_trial(&at(reg(), 0x10), 4);
    a.register_trial(&at(reg(), 0x20), 4);
    // Around the first, from before it, and past its end.
    assert_eq!(a.which_trial(&at(reg(), 0x0c), 12), 0);
    assert_eq!(a.which_trial(&at(reg(), 0x0e), 4), 0);
    assert_eq!(a.which_trial(&at(reg(), 0x12), 4), 0);
    // The first of two, and the second on its own.
    assert_eq!(a.which_trial(&at(reg(), 0x00), 0x40), 0);
    assert_eq!(a.which_trial(&at(reg(), 0x14), 0x10), 1);
    assert_eq!(a.which_trial(&at(reg(), 0x14), 0x0c), -1);
    assert_eq!(a.which_trial(&at(stack(), 0x10), 4), -1);
}

#[test]
fn entries_meet_what_they_share_a_byte_with() {
    let e = entry_of(0, reg(), 0x10, 4, 0, 0);
    assert!(e.intersects(&at(reg(), 0x12), 4));
    assert!(e.intersects(&at(reg(), 0x0e), 4));
    assert!(e.intersects(&at(reg(), 0x0c), 12));
    assert!(e.intersects(&at(reg(), 0x11), 1));
    assert!(!e.intersects(&at(reg(), 0x14), 4));
    assert!(!e.intersects(&at(reg(), 0x0c), 4));
    assert!(!e.intersects(&at(stack(), 0x12), 4));
    // An entry that reaches past an earlier one is no part of it.
    let mgr = manager();
    let prev = [e];
    let over = ParamEntry::seed(
        1,
        TypeClass::General,
        reg(),
        0x12,
        4,
        1,
        0,
        0,
        true,
        false,
        &prev,
        &mgr,
    );
    assert_eq!(over.err(), Some(FspecError::IllegalOverlap));
}

#[test]
fn joined_entries_meet_by_piece_and_are_never_contained() {
    let mut mgr = manager();
    let prev = vec![entry_of(0, reg(), 0x10, 4, 0, 0), entry_of(1, reg(), 0x20, 4, 0, 0)];
    let parts = vec![place(reg(), 0x20, 4), place(reg(), 0x10, 4)];
    let join = mgr.find_add_join(&parts, 0).unwrap();
    let e = ParamEntry::seed(
        2,
        TypeClass::General,
        join_space(),
        join.offset,
        8,
        1,
        0,
        0,
        true,
        false,
        &prev,
        &mgr,
    )
    .unwrap();
    assert!(e.intersects(&at(reg(), 0x22), 4));
    assert!(e.intersects(&at(reg(), 0x0e), 4));
    assert!(!e.intersects(&at(reg(), 0x14), 4));
    assert!(!e.contained_by(&at(join_space(), join.offset), 8));
    assert!(!e.contained_by(&at(reg(), 0x10), 0x20));
}

#[test]
fn entries_found_contain_the_range() {
    let l = registers_and_stack(ParamListKind::Standard);
    assert_eq!(l.find_entry(&at(reg(), 0x12), 2, false), Some(0));
    assert_eq!(l.find_entry(&at(reg(), 0x12), 2, true), None);
    assert_eq!(l.find_entry(&at(reg(), 0x12), 4, false), None);
    assert_eq!(l.find_entry(&at(reg(), 0x10), 8, false), None);
}

#[test]
fn records_that_share_a_byte_are_seen() {
    let list = vec![
        EffectRecord::from_varnode(place(reg(), 0x10, 4), effects::UNAFFECTED),
        EffectRecord::from_varnode(place(reg(), 0x20, 4), effects::KILLEDBYCALL),
    ];
    assert_eq!(ProtoModel::lookup_record(&list, 2, &at(reg(), 0x1e), 4), -2);
    assert_eq!(ProtoModel::lookup_record(&list, 2, &at(reg(), 0x0e), 4), -2);
    assert_eq!(ProtoModel::lookup_record(&list, 2, &at(reg(), 0x20), 8), -2);
    assert_eq!(ProtoModel::lookup_record(&list, 2, &at(reg(), 0x20), 4), 1);
    assert_eq!(ProtoModel::lookup_record(&list, 2, &at(reg(), 0x14), 4), -1);
    // Only the first records count.
    assert_eq!(ProtoModel::lookup_record(&list, 1, &at(reg(), 0x20), 4), -1);
}

#[test]
fn the_biggest_locked_input_is_passed_back() {
    let mut mgr = manager();
    let mut fp = prototype();
    let m = Rc::clone(fp.model());
    let d = declared(Some(int_of(4)), vec![int_of(4)], &["a"]);
    fp.set_pieces(&d, Some(m), &mut mgr).unwrap();
    assert!(fp.is_input_locked());
    let mut res = place(stack(), 0, 1);
    assert!(fp.get_biggest_contained_input_param(&at(reg(), 0x10), 8, &mut res));
    assert_eq!(res, place(reg(), 0x10, 4));
    // Neither a smaller range nor one elsewhere has it inside.
    assert!(!fp.get_biggest_contained_input_param(&at(reg(), 0x10), 2, &mut res));
    assert_eq!(res.size, 0);
    assert!(!fp.get_biggest_contained_input_param(&at(reg(), 0x80), 8, &mut res));
    assert_eq!(res.size, 0);
}

#[test]
fn copies_of_one_model_are_strangers() {
    let mgr = manager();
    let mut ids = IdSource::new(1);
    let base = ProtoModel::new(&mgr, &mut ids);
    let a = ProtoModel::copy_named("a", &base, &mut ids);
    let b = ProtoModel::copy_named("b", &base, &mut ids);
    assert!(a.is_compatible(&base) && base.is_compatible(&b));
    assert!(!a.is_compatible(&b));
    assert!(!b.is_compatible(&a));
}

#[test]
fn models_of_two_sources_are_strangers() {
    let mgr = manager();
    let mut ids = IdSource::new(1);
    let mut others = IdSource::new(2);
    let a = Rc::new(ProtoModel::new(&mgr, &mut ids));
    let b = Rc::new(ProtoModel::new(&mgr, &mut others));
    assert!(!a.is_compatible(&b) && !b.is_compatible(&a));
    let mut fp = FuncProto::new();
    fp.set_internal(Rc::clone(&a), Datatype::new(0, TypeMetatype::Void));
    assert!(fp.has_matching_model(&a));
    assert!(!fp.has_matching_model(&b));
    // A copy may take its identity from anywhere.
    let c = ProtoModel::copy_named("c", &a, &mut others);
    assert!(c.is_compatible(&a) && !c.is_compatible(&b));
}

#[test]
fn return_values_have_no_gap() {
    let mut l = ParamListStandard::new(ParamListKind::StandardOut);
    l.push_entry(entry_of(0, reg(), 0x10, 8, 0, 0));
    l.finish_decode();
    // The upper half alone does not start at the least significant end.
    let mut a = ParamActive::new(false);
    a.register_trial(&at(reg(), 0x14), 4);
    a.get_trial_mut(0).mark_active();
    l.fillin_map(&mut a).unwrap();
    assert!(!a.get_trial(0).is_used() && a.get_trial(0).is_definitely_not_used());
    // Two bytes are missing between the parts.
    let mut b = ParamActive::new(false);
    b.register_trial(&at(reg(), 0x10), 2);
    b.get_trial_mut(0).mark_active();
    b.register_trial(&at(reg(), 0x14), 4);
    b.get_trial_mut(1).mark_active();
    l.fillin_map(&mut b).unwrap();
    assert!(!b.get_trial(0).is_used() && !b.get_trial(1).is_used());
}
