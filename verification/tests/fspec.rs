//! Entries, trials, parameter lists, models, prototypes and call sites.
use kuna_decomp::active::ParamActive;
use kuna_decomp::callspec::{FuncCallSpecs, OFFSET_UNKNOWN};
use kuna_decomp::dtype::{Datatype, TypeClass, TypeMetatype};
use kuna_decomp::effects;
use kuna_decomp::effects::EffectRecord;
use kuna_decomp::entry;
use kuna_decomp::entry::{Containment, ParamEntry};
use kuna_decomp::error::FspecError;
use kuna_decomp::graph::{Graph, OpId, PcodeOp, Varnode, VarnodeId};
use kuna_decomp::joins::AddrSpaceManager;
use kuna_decomp::merge::ScoreProtoModel;
use kuna_decomp::model::{IdSource, ProtoModel, EXTRAPOP_UNKNOWN};
use kuna_decomp::opcode::OpCode;
use kuna_decomp::paramlist::{ParamListKind, ParamListStandard, ParamListType};
use kuna_decomp::pieces;
use kuna_decomp::pieces::{ParameterPieces, PrototypePieces};
use kuna_decomp::proto;
use kuna_decomp::proto::FuncProto;
use kuna_decomp::restrict::NameStyle;
use kuna_decomp::rules::{AssignAction, AssignActionResponse, ModelRule};
use kuna_decomp::script::{Edit, RestartReason, Script};
use kuna_decomp::space::{AddrSpace, Address, SpaceType, VarnodeData};
use kuna_decomp::store::{ParameterBasic, ProtoParameter, ProtoStore, ProtoStoreInternal};
use kuna_decomp::trial::ParamTrial;
use std::rc::Rc;

/// A little-endian register space at index 3.
fn reg_space_le() -> AddrSpace {
    AddrSpace::new(SpaceType::Processor, false, 4, 1, 3, 0)
}

/// A big-endian register space at index 4.
fn reg_space_be() -> AddrSpace {
    AddrSpace::new(SpaceType::Processor, true, 4, 1, 4, 0)
}

/// A little-endian stack space at index 5.
fn stack_space() -> AddrSpace {
    AddrSpace::new(SpaceType::Spacebase, false, 4, 1, 5, 0)
}

fn manager() -> AddrSpaceManager {
    AddrSpaceManager::new(AddrSpace::new(SpaceType::Join, false, 8, 1, 6, 0))
}

fn addr(spc: &AddrSpace, off: u64) -> Address {
    Address::new(*spc, off)
}

fn excl_entry(
    grp: i32,
    space: &AddrSpace,
    base: u64,
    size: i32,
    prev: &[ParamEntry],
    mgr: &AddrSpaceManager,
) -> ParamEntry {
    ParamEntry::seed(grp, TypeClass::General, *space, base, size, 1, 0, 0, true, false, prev, mgr)
        .expect("seed exclusion entry")
}

fn stack_entry(
    grp: i32,
    space: &AddrSpace,
    base: u64,
    size: i32,
    align: i32,
    prev: &[ParamEntry],
    mgr: &AddrSpaceManager,
) -> ParamEntry {
    ParamEntry::seed(
        grp,
        TypeClass::General,
        *space,
        base,
        size,
        1,
        align,
        0,
        true,
        false,
        prev,
        mgr,
    )
    .expect("seed stack entry")
}

#[test]
fn exclusion_entry_basic_properties() {
    let mgr = manager();
    let reg = reg_space_le();
    let e = excl_entry(0, &reg, 0x10, 4, &[], &mgr);
    assert!(e.is_exclusion());
    assert!(!e.is_reverse_stack());
    assert_eq!(e.get_group(), 0);
    assert_eq!(e.get_size(), 4);
    assert_eq!(e.get_base(), 0x10);
    assert!(e.is_first_in_class());
}

#[test]
fn contained_by_matrix() {
    let mgr = manager();
    let reg = reg_space_le();
    let e = excl_entry(0, &reg, 0x10, 4, &[], &mgr);
    assert!(e.contained_by(&addr(&reg, 0x10), 4));
    assert!(e.contained_by(&addr(&reg, 0x10), 8));
    assert!(e.contained_by(&addr(&reg, 0x0c), 8));
    assert!(!e.contained_by(&addr(&reg, 0x10), 2));
    assert!(!e.contained_by(&addr(&reg, 0x11), 4));
    let other = reg_space_be();
    assert!(!e.contained_by(&addr(&other, 0x10), 4));
}

#[test]
fn justified_contain_little_endian() {
    let mgr = manager();
    let reg = reg_space_le();
    let e = excl_entry(0, &reg, 0x10, 4, &[], &mgr);
    assert_eq!(e.justified_contain(&addr(&reg, 0x10), 2), 0);
    assert_eq!(e.justified_contain(&addr(&reg, 0x12), 2), 2);
    assert_eq!(e.justified_contain(&addr(&reg, 0x20), 2), -1);
}

#[test]
fn justified_contain_big_endian() {
    let mgr = manager();
    let reg = reg_space_be();
    let e = excl_entry(0, &reg, 0x10, 4, &[], &mgr);
    assert_eq!(e.justified_contain(&addr(&reg, 0x12), 2), 0);
    assert_eq!(e.justified_contain(&addr(&reg, 0x10), 2), 2);
    assert_eq!(e.justified_contain(&addr(&reg, 0x10), 4), 0);
}

#[test]
fn get_container_exclusion_passes_back_whole_entry() {
    let mgr = manager();
    let reg = reg_space_le();
    let e = excl_entry(0, &reg, 0x10, 4, &[], &mgr);
    let mut res = VarnodeData::default();
    assert!(e.get_container(&addr(&reg, 0x10), 2, &mut res));
    assert_eq!(res.offset, 0x10);
    assert_eq!(res.size, 4);
    assert_eq!(res.space, Some(reg));
}

#[test]
fn assumed_extension_zext_le() {
    let mgr = manager();
    let reg = reg_space_le();
    let e = ParamEntry::seed(
        0,
        TypeClass::General,
        reg,
        0x10,
        4,
        1,
        0,
        entry::SMALLSIZE_ZEXT,
        true,
        false,
        &[],
        &mgr,
    )
    .unwrap();
    let mut res = VarnodeData::default();
    assert_eq!(e.assumed_extension(&addr(&reg, 0x10), 2, &mut res), OpCode::IntZext);
    assert_eq!(res.offset, 0x10);
    assert_eq!(res.size, 4);
    let mut res2 = VarnodeData::default();
    assert_eq!(e.assumed_extension(&addr(&reg, 0x10), 4, &mut res2), OpCode::Copy);
    let mut res3 = VarnodeData::default();
    assert_eq!(e.assumed_extension(&addr(&reg, 0x12), 2, &mut res3), OpCode::Copy);
}

#[test]
fn stack_entry_slots_and_addrs() {
    let mut mgr = manager();
    let stk = stack_space();
    let e = stack_entry(7, &stk, 0x0, 0x20, 4, &[], &mgr);
    assert!(!e.is_exclusion());
    assert_eq!(e.get_align(), 4);
    assert_eq!(e.get_slot(&addr(&stk, 0x0), 0), 7);
    assert_eq!(e.get_slot(&addr(&stk, 0x4), 0), 8);
    assert_eq!(e.get_slot(&addr(&stk, 0x8), 0), 9);
    let mut slot = 0;
    let a = e.get_addr_by_slot(&mut slot, 4, 1, &mut mgr).unwrap();
    assert_eq!(a.get_offset(), 0x0);
    assert_eq!(slot, 1);
    let a2 = e.get_addr_by_slot(&mut slot, 4, 1, &mut mgr).unwrap();
    assert_eq!(a2.get_offset(), 0x4);
    assert_eq!(slot, 2);
    let mut slot2 = 0;
    let a3 = e.get_addr_by_slot(&mut slot2, 8, 1, &mut mgr).unwrap();
    assert_eq!(a3.get_offset(), 0x0);
    assert_eq!(slot2, 2);
}

#[test]
fn get_addr_by_slot_rejects_too_small() {
    let mut mgr = manager();
    let reg = reg_space_le();
    let e = ParamEntry::seed(
        0,
        TypeClass::General,
        reg,
        0x10,
        4,
        4,
        0,
        0,
        true,
        false,
        &[],
        &mgr,
    )
    .unwrap();
    let mut slot = 0;
    let a = e.get_addr_by_slot(&mut slot, 2, 1, &mut mgr).unwrap();
    assert!(a.is_invalid());
}

#[test]
fn intersects_and_contains() {
    let mgr = manager();
    let reg = reg_space_le();
    let big = excl_entry(0, &reg, 0x10, 4, &[], &mgr);
    let small = excl_entry(1, &reg, 0x10, 2, &[], &mgr);
    assert!(big.intersects(&addr(&reg, 0x10), 4));
    assert!(big.contains(&small));
    assert!(!small.contains(&big));
    assert!(!big.intersects(&addr(&reg, 0x20), 4));
}

#[test]
fn group_overlap_via_resolve_overlap() {
    let mgr = manager();
    let reg = reg_space_le();
    let mut list: Vec<ParamEntry> = Vec::new();
    let e0 = excl_entry(0, &reg, 0x10, 2, &list, &mgr);
    list.push(e0);
    let e1 = excl_entry(1, &reg, 0x10, 4, &list, &mgr);
    assert!(e1.is_overlap());
    assert_eq!(e1.get_group(), 0);
    assert!(list[0].group_overlap(&e1));
}

/// A list of two registers, in groups 0 and 1.
fn two_excl_model() -> (ParamListStandard, AddrSpace) {
    let mgr = manager();
    let reg = reg_space_le();
    let mut model = ParamListStandard::new(ParamListKind::Standard);
    let e0 = excl_entry(0, &reg, 0x10, 4, &[], &mgr);
    model.push_entry(e0);
    let e1 = excl_entry(1, &reg, 0x20, 4, model.get_entry(), &mgr);
    model.push_entry(e1);
    model.finish_decode();
    (model, reg)
}

#[test]
fn trial_sort_by_group_order() {
    let (model, reg) = two_excl_model();
    let entries = model.get_entry();
    let mut t_hi = ParamTrial::new(addr(&reg, 0x20), 4, 2);
    t_hi.set_entry(Some(1), 0);
    let mut t_lo = ParamTrial::new(addr(&reg, 0x10), 4, 1);
    t_lo.set_entry(Some(0), 0);
    assert_eq!(t_lo.cmp(&t_hi, entries), std::cmp::Ordering::Less);
    assert_eq!(t_hi.cmp(&t_lo, entries), std::cmp::Ordering::Greater);
}

#[test]
fn trial_null_entry_sorts_last() {
    let (model, reg) = two_excl_model();
    let entries = model.get_entry();
    let mut t_real = ParamTrial::new(addr(&reg, 0x10), 4, 1);
    t_real.set_entry(Some(0), 0);
    let t_null = ParamTrial::new(addr(&reg, 0x30), 4, 2);
    assert_eq!(t_real.cmp(&t_null, entries), std::cmp::Ordering::Less);
    assert_eq!(t_null.cmp(&t_real, entries), std::cmp::Ordering::Greater);
}

#[test]
fn fixed_position_compare_orders_fixed_first() {
    let (model, reg) = two_excl_model();
    let entries = model.get_entry();
    let mut a = ParamTrial::new(addr(&reg, 0x10), 4, 1);
    a.set_entry(Some(0), 0);
    a.set_fixed_position(1);
    let mut b = ParamTrial::new(addr(&reg, 0x20), 4, 2);
    b.set_entry(Some(1), 0);
    assert_eq!(ParamTrial::fixed_position_compare(&a, &b, entries), std::cmp::Ordering::Less);
    b.set_fixed_position(0);
    assert_eq!(ParamTrial::fixed_position_compare(&a, &b, entries), std::cmp::Ordering::Greater);
}

#[test]
fn param_active_sort_reorders_into_group_order() {
    let (model, reg) = two_excl_model();
    let mut active = ParamActive::new(false);
    active.register_trial(&addr(&reg, 0x20), 4);
    active.register_trial(&addr(&reg, 0x10), 4);
    active.get_trial_mut(0).set_entry(Some(1), 0);
    active.get_trial_mut(1).set_entry(Some(0), 0);
    active.sort_trials(model.get_entry());
    assert_eq!(active.get_trial(0).get_address().get_offset(), 0x10);
    assert_eq!(active.get_trial(1).get_address().get_offset(), 0x20);
}

#[test]
fn register_trial_marks_killed_by_call_for_registers() {
    let reg = reg_space_le();
    let stk = stack_space();
    let mut active = ParamActive::new(true);
    active.register_trial(&addr(&reg, 0x10), 4);
    active.register_trial(&addr(&stk, 0x0), 4);
    assert!(active.get_trial(0).is_killed_by_call());
    assert!(!active.get_trial(1).is_killed_by_call());
    assert_eq!(active.get_num_trials(), 2);
    assert_eq!(active.get_trial(0).get_slot(), 1);
    assert_eq!(active.get_trial(1).get_slot(), 2);
}

#[test]
fn split_and_join_trial() {
    let reg = reg_space_le();
    let mut active = ParamActive::new(false);
    active.register_trial(&addr(&reg, 0x10), 8);
    active.split_trial(0, 4).unwrap();
    assert_eq!(active.get_num_trials(), 2);
    assert_eq!(active.get_trial(0).get_size(), 4);
    assert_eq!(active.get_trial(0).get_address().get_offset(), 0x10);
    assert_eq!(active.get_trial(1).get_size(), 4);
    assert_eq!(active.get_trial(1).get_address().get_offset(), 0x14);
    active.join_trial(1, &addr(&reg, 0x10), 8).unwrap();
    assert_eq!(active.get_num_trials(), 1);
    assert_eq!(active.get_trial(0).get_size(), 8);
    assert!(active.get_trial(0).is_used());
}

#[test]
fn delete_unused_trials_reorders_slots() {
    let reg = reg_space_le();
    let mut active = ParamActive::new(false);
    active.register_trial(&addr(&reg, 0x10), 4);
    active.register_trial(&addr(&reg, 0x20), 4);
    active.register_trial(&addr(&reg, 0x30), 4);
    active.get_trial_mut(0).mark_used();
    active.get_trial_mut(2).mark_used();
    active.delete_unused_trials();
    assert_eq!(active.get_num_trials(), 2);
    assert_eq!(active.get_trial(0).get_slot(), 1);
    assert_eq!(active.get_trial(1).get_slot(), 2);
    assert_eq!(active.get_trial(1).get_address().get_offset(), 0x30);
}

#[test]
fn which_trial_finds_overlap() {
    let reg = reg_space_le();
    let mut active = ParamActive::new(false);
    active.register_trial(&addr(&reg, 0x10), 4);
    active.register_trial(&addr(&reg, 0x20), 4);
    assert_eq!(active.which_trial(&addr(&reg, 0x12), 1), 0);
    assert_eq!(active.which_trial(&addr(&reg, 0x20), 4), 1);
    assert_eq!(active.which_trial(&addr(&reg, 0x40), 4), -1);
}

/// A list of three registers of 4 bytes at 0x10, 0x20 and 0x30.
fn three_reg_model() -> (ParamListStandard, AddrSpace) {
    let mgr = manager();
    let reg = reg_space_le();
    let mut model = ParamListStandard::new(ParamListKind::Standard);
    let e0 = excl_entry(0, &reg, 0x10, 4, &[], &mgr);
    model.push_entry(e0);
    let e1 = excl_entry(1, &reg, 0x20, 4, model.get_entry(), &mgr);
    model.push_entry(e1);
    let e2 = excl_entry(2, &reg, 0x30, 4, model.get_entry(), &mgr);
    model.push_entry(e2);
    model.finish_decode();
    (model, reg)
}

#[test]
fn find_entry_resolves_by_offset() {
    let (model, reg) = three_reg_model();
    assert_eq!(model.find_entry(&addr(&reg, 0x10), 4, true), Some(0));
    assert_eq!(model.find_entry(&addr(&reg, 0x20), 4, true), Some(1));
    assert_eq!(model.find_entry(&addr(&reg, 0x30), 4, true), Some(2));
    assert_eq!(model.find_entry(&addr(&reg, 0x40), 4, true), None);
    assert_eq!(model.find_entry(&addr(&reg, 0x10), 2, true), Some(0));
    assert_eq!(model.find_entry(&addr(&reg, 0x12), 2, true), None);
    assert_eq!(model.find_entry(&addr(&reg, 0x12), 2, false), Some(0));
}

#[test]
fn characterize_as_param_codes() {
    let (model, reg) = three_reg_model();
    assert_eq!(
        model.characterize_as_param(&addr(&reg, 0x10), 4),
        Containment::ContainsJustified
    );
    assert_eq!(
        model.characterize_as_param(&addr(&reg, 0x10), 2),
        Containment::ContainsJustified
    );
    assert_eq!(
        model.characterize_as_param(&addr(&reg, 0x12), 2),
        Containment::ContainsUnjustified
    );
    assert_eq!(model.characterize_as_param(&addr(&reg, 0x10), 8), Containment::ContainedBy);
    assert_eq!(model.characterize_as_param(&addr(&reg, 0x40), 4), Containment::NoContainment);
}

#[test]
fn possible_param_and_with_slot() {
    let (model, reg) = three_reg_model();
    assert!(model.possible_param(&addr(&reg, 0x20), 4));
    assert!(!model.possible_param(&addr(&reg, 0x40), 4));
    let mut slot = 0;
    let mut slotsize = 0;
    assert!(model.possible_param_with_slot(&addr(&reg, 0x20), 4, &mut slot, &mut slotsize));
    assert_eq!(slot, 1);
    assert_eq!(slotsize, 1);
}

#[test]
fn biggest_contained_param() {
    let (model, reg) = three_reg_model();
    let mut res = VarnodeData::default();
    assert!(model.get_biggest_contained_param(&addr(&reg, 0x10), 8, &mut res));
    assert_eq!(res.offset, 0x10);
    assert_eq!(res.size, 4);
    assert!(!model.get_biggest_contained_param(&addr(&reg, 0x40), 8, &mut res));
}

#[test]
fn fillin_map_marks_active_used() {
    let (model, reg) = three_reg_model();
    let mut active = ParamActive::new(false);
    active.register_trial(&addr(&reg, 0x10), 4);
    active.register_trial(&addr(&reg, 0x20), 4);
    active.get_trial_mut(0).mark_active();
    active.get_trial_mut(1).mark_active();
    model.fillin_map(&mut active).unwrap();
    let used = (0..active.get_num_trials()).filter(|&i| active.get_trial(i).is_used()).count();
    assert!(used >= 2);
}

#[test]
fn fillin_map_register_kind() {
    let mgr = manager();
    let reg = reg_space_le();
    let mut model = ParamListStandard::new(ParamListKind::Register);
    let e0 = excl_entry(0, &reg, 0x10, 4, &[], &mgr);
    model.push_entry(e0);
    let e1 = excl_entry(1, &reg, 0x20, 4, model.get_entry(), &mgr);
    model.push_entry(e1);
    model.finish_decode();

    let mut active = ParamActive::new(false);
    active.register_trial(&addr(&reg, 0x20), 4);
    active.get_trial_mut(0).mark_active();
    model.fillin_map(&mut active).unwrap();
    let trial = active.get_trial(0);
    assert!(trial.is_used());
    assert_eq!(trial.get_entry(), Some(1));
}

fn int4_type() -> Datatype {
    Datatype::new_with_align(4, 4, TypeMetatype::Int)
}

/// The components of a function `f` without a fixed storage.
fn pieces_of(outtype: Option<Datatype>, intypes: Vec<Datatype>, names: &[&str]) -> PrototypePieces {
    PrototypePieces {
        name: "f".to_string(),
        outtype,
        intypes,
        innames: names.iter().map(|n| n.to_string()).collect(),
        first_var_arg_slot: -1,
        output_storage: None,
        input_storage: Vec::new(),
    }
}

#[test]
fn assign_map_standard_input_walk() {
    let mut mgr = manager();
    let (model, _reg) = three_reg_model();
    let proto = pieces_of(None, vec![int4_type(), int4_type()], &["a", "b"]);
    let mut res: Vec<ParameterPieces> = Vec::new();
    model.assign_map(&proto, &mut res, &mut mgr).unwrap();
    assert_eq!(res.len(), 2);
    assert_eq!(res[0].addr.get_offset(), 0x10);
    assert_eq!(res[1].addr.get_offset(), 0x20);
    assert!(res[0].type_.is_some());
}

#[test]
fn assign_map_standard_out_hidden_return_emits_indirect_output_plus_pointer_param() {
    let reg = AddrSpace::new(SpaceType::Processor, false, 8, 1, 2, 0);
    let mut mgr = manager();
    mgr.default_data_space = Some(reg);
    let mut model = ParamListStandard::new(ParamListKind::StandardOut);
    let e0 = excl_entry(0, &reg, 0x10, 8, &[], &mgr);
    model.push_entry(e0);
    model.finish_decode();
    let outtype = Datatype::new_with_align(24, 8, TypeMetatype::Struct);
    let proto = pieces_of(Some(outtype), Vec::new(), &[]);
    let mut res: Vec<ParameterPieces> = Vec::new();
    model.assign_map(&proto, &mut res, &mut mgr).unwrap();
    assert_eq!(res.len(), 2);
    assert_ne!(res[0].flags & pieces::INDIRECTSTORAGE, 0);
    assert_eq!(res[0].type_.as_ref().unwrap().get_metatype(), TypeMetatype::Ptr);
    assert_eq!(res[0].type_.as_ref().unwrap().get_size(), 8);
    assert_eq!(res[1].type_.as_ref().unwrap().get_metatype(), TypeMetatype::Ptr);
    assert!(res[1].addr.is_invalid());
    assert_eq!(res[1].flags, 0);
}

#[test]
fn assign_address_fallback_exhausts_groups() {
    let mut mgr = manager();
    let (model, _reg) = three_reg_model();
    let tp = int4_type();
    let mut status = vec![0i32; 3];
    let mut p0 = ParameterPieces::default();
    let r0 = model
        .assign_address_fallback(TypeClass::General, &tp, false, &mut status, &mut p0, &mut mgr)
        .unwrap();
    assert_eq!(r0, AssignActionResponse::success);
    assert_eq!(p0.addr.get_offset(), 0x10);
    assert_eq!(status[0], -1);
    let mut p1 = ParameterPieces::default();
    let r1 = model
        .assign_address_fallback(TypeClass::General, &tp, false, &mut status, &mut p1, &mut mgr)
        .unwrap();
    assert_eq!(r1, AssignActionResponse::success);
    assert_eq!(p1.addr.get_offset(), 0x20);
}

#[test]
fn merged_fold_in_dedups() {
    let mgr = manager();
    let reg = reg_space_le();
    let mut a = ParamListStandard::new(ParamListKind::Standard);
    a.push_entry(excl_entry(0, &reg, 0x10, 4, &[], &mgr));
    a.finish_decode();

    let mut b = ParamListStandard::new(ParamListKind::Standard);
    b.push_entry(excl_entry(0, &reg, 0x10, 4, &[], &mgr));
    let e1 = excl_entry(1, &reg, 0x20, 4, b.get_entry(), &mgr);
    b.push_entry(e1);
    b.finish_decode();

    let mut merged = ParamListStandard::new(ParamListKind::Merged);
    merged.fold_in(&a).unwrap();
    merged.fold_in(&b).unwrap();
    merged.finalize();
    assert_eq!(merged.get_entry().len(), 2);
}

#[test]
fn effect_record_from_param_entry() {
    let mgr = manager();
    let reg = reg_space_le();
    let e = excl_entry(0, &reg, 0x10, 4, &[], &mgr);
    let er = EffectRecord::from_param_entry(&e, effects::KILLEDBYCALL);
    assert_eq!(er.get_type(), effects::KILLEDBYCALL);
    assert_eq!(er.get_address().get_offset(), 0x10);
    assert_eq!(er.get_size(), 4);
    let er2 = EffectRecord::from_param_entry(&e, effects::KILLEDBYCALL);
    assert_eq!(er, er2);
    let er3 = EffectRecord::from_param_entry(&e, effects::UNAFFECTED);
    assert_ne!(er, er3);
}

fn vdata(spc: &AddrSpace, off: u64, sz: u32) -> VarnodeData {
    VarnodeData { space: Some(*spc), offset: off, size: sz }
}

/// A model with two input registers at 0x10 and 0x20 and one for the return
/// value at 0x10.
fn three_reg_proto_model(mgr: &AddrSpaceManager, reg: &AddrSpace, ids: &mut IdSource) -> ProtoModel {
    let mut model = ProtoModel::new(mgr, ids);
    model.build_param_list("standard").unwrap();
    model.set_name("__cdecl");
    {
        let input = model.input_mut();
        input.push_entry(excl_entry(0, reg, 0x10, 4, &[], mgr));
        let e1 = excl_entry(1, reg, 0x20, 4, input.get_entry(), mgr);
        input.push_entry(e1);
        input.finish_decode();
    }
    {
        let output = model.output_mut();
        output.push_entry(excl_entry(0, reg, 0x10, 4, &[], mgr));
        output.finish_decode();
    }
    model
}

#[test]
fn proto_model_build_param_list_strategies() {
    let mgr = manager();
    let mut ids = IdSource::new(1);
    let mut model = ProtoModel::new(&mgr, &mut ids);
    model.build_param_list("standard").unwrap();
    assert_eq!(model.input().get_type(), ParamListType::Standard);
    assert_eq!(model.output().get_type(), ParamListType::StandardOut);
    let mut model2 = ProtoModel::new(&mgr, &mut ids);
    model2.build_param_list("register").unwrap();
    assert_eq!(model2.input().get_type(), ParamListType::Register);
    assert_eq!(model2.output().get_type(), ParamListType::RegisterOut);
    let mut model3 = ProtoModel::new(&mgr, &mut ids);
    assert!(model3.build_param_list("nonsense").is_err());
}

#[test]
fn proto_model_thiscall_name_forces_has_this() {
    let mgr = manager();
    let mut ids = IdSource::new(1);
    let mut model = ProtoModel::new(&mgr, &mut ids);
    assert!(!model.has_this_pointer());
    model.set_name("__thiscall");
    assert!(model.has_this_pointer());
}

#[test]
fn proto_model_copy_named_is_compatible() {
    let mgr = manager();
    let reg = reg_space_le();
    let mut ids = IdSource::new(1);
    let base = three_reg_proto_model(&mgr, &reg, &mut ids);
    let copy = ProtoModel::copy_named("__stdcall", &base, &mut ids);
    assert!(copy.is_compatible(&base));
    assert!(base.is_compatible(&copy));
    assert_eq!(copy.get_name(), "__stdcall");
    assert!(base.is_compatible(&base));
    let other = three_reg_proto_model(&mgr, &reg, &mut ids);
    assert!(!base.is_compatible(&other));
}

#[test]
fn proto_model_unknown_flag() {
    let mgr = manager();
    let reg = reg_space_le();
    let mut ids = IdSource::new(1);
    let base = three_reg_proto_model(&mgr, &reg, &mut ids);
    assert!(!base.is_unknown());
    let unk = ProtoModel::new_unknown("weird", &base, &mut ids);
    assert!(unk.is_unknown());
    assert_eq!(unk.get_name(), "weird");
    assert!(unk.is_compatible(&base));
}

#[test]
fn proto_model_lookup_effect_and_record() {
    let reg = reg_space_le();
    let e_low = EffectRecord::from_varnode(vdata(&reg, 0x10, 4), effects::UNAFFECTED);
    let e_high = EffectRecord::from_varnode(vdata(&reg, 0x20, 4), effects::KILLEDBYCALL);
    let mut efflist = vec![e_high, e_low];
    efflist.sort_by(EffectRecord::compare_by_address);

    assert_eq!(ProtoModel::lookup_effect(&efflist, &addr(&reg, 0x10), 4), effects::UNAFFECTED);
    assert_eq!(ProtoModel::lookup_effect(&efflist, &addr(&reg, 0x20), 4), effects::KILLEDBYCALL);
    assert_eq!(
        ProtoModel::lookup_effect(&efflist, &addr(&reg, 0x00), 4),
        effects::UNKNOWN_EFFECT
    );
    let n = efflist.len() as i32;
    assert_eq!(ProtoModel::lookup_record(&efflist, n, &addr(&reg, 0x10), 4), 0);
    assert_eq!(ProtoModel::lookup_record(&efflist, n, &addr(&reg, 0x20), 4), 1);
    assert_eq!(ProtoModel::lookup_record(&efflist, n, &addr(&reg, 0x00), 4), -1);
    assert_eq!(ProtoModel::lookup_record(&efflist, n, &addr(&reg, 0x12), 4), -2);
}

#[test]
fn proto_model_has_effect_internal_space_is_unaffected() {
    let mgr = manager();
    let reg = reg_space_le();
    let mut ids = IdSource::new(1);
    let model = three_reg_proto_model(&mgr, &reg, &mut ids);
    let unique = AddrSpace::new(SpaceType::Internal, false, 4, 1, 9, 0);
    assert_eq!(model.has_effect(&addr(&unique, 0x0), 4), effects::UNAFFECTED);
}

#[test]
fn proto_model_assign_parameter_storage_orders_output_first() {
    let mut mgr = manager();
    let reg = reg_space_le();
    let mut ids = IdSource::new(1);
    let model = three_reg_proto_model(&mgr, &reg, &mut ids);
    let proto = pieces_of(Some(int4_type()), vec![int4_type(), int4_type()], &["a", "b"]);
    let mut res: Vec<ParameterPieces> = Vec::new();
    model.assign_parameter_storage(&proto, &mut res, false, &mut mgr).unwrap();
    assert_eq!(res.len(), 3);
    assert_eq!(res[0].addr.get_offset(), 0x10);
    assert_eq!(res[1].addr.get_offset(), 0x10);
    assert_eq!(res[2].addr.get_offset(), 0x20);
}

#[test]
fn score_proto_model_perfect_fit_is_zero() {
    let mgr = manager();
    let reg = reg_space_le();
    let mut ids = IdSource::new(1);
    let model = three_reg_proto_model(&mgr, &reg, &mut ids);
    let mut score = ScoreProtoModel::new(true, 2);
    score.add_parameter(&model, &addr(&reg, 0x10), 4);
    score.add_parameter(&model, &addr(&reg, 0x20), 4);
    score.do_score();
    assert_eq!(score.get_num_mismatch(), 0);
    assert_eq!(score.get_score(), 0);
}

#[test]
fn score_proto_model_hole_and_mismatch_penalties() {
    let mgr = manager();
    let reg = reg_space_le();
    let mut ids = IdSource::new(1);
    let model = three_reg_proto_model(&mgr, &reg, &mut ids);
    let mut score = ScoreProtoModel::new(true, 1);
    score.add_parameter(&model, &addr(&reg, 0x20), 4);
    score.do_score();
    assert_eq!(score.get_num_mismatch(), 0);
    assert_eq!(score.get_score(), 16);

    let mut score2 = ScoreProtoModel::new(true, 1);
    score2.add_parameter(&model, &addr(&reg, 0x100), 4);
    score2.do_score();
    assert_eq!(score2.get_num_mismatch(), 1);
    assert_eq!(score2.get_score(), 20);
}

#[test]
fn proto_model_intersect_registers_keeps_common() {
    let reg = reg_space_le();
    let mut a = vec![vdata(&reg, 0x10, 4), vdata(&reg, 0x20, 4), vdata(&reg, 0x30, 4)];
    let mut b = vec![vdata(&reg, 0x20, 4), vdata(&reg, 0x30, 4), vdata(&reg, 0x40, 4)];
    a.sort_by_key(|v| v.offset);
    b.sort_by_key(|v| v.offset);
    ProtoModel::intersect_registers(&mut a, &b);
    assert_eq!(a.len(), 2);
    assert_eq!(a[0].offset, 0x20);
    assert_eq!(a[1].offset, 0x30);
}

#[test]
fn proto_model_merged_fold_in_and_select() {
    let mgr = manager();
    let reg = reg_space_le();
    let mut ids = IdSource::new(1);
    let mut m0 = ProtoModel::new(&mgr, &mut ids);
    m0.build_param_list("standard").unwrap();
    m0.set_name("m0");
    {
        let input = m0.input_mut();
        input.push_entry(excl_entry(0, &reg, 0x10, 4, &[], &mgr));
        let e1 = excl_entry(1, &reg, 0x20, 4, input.get_entry(), &mgr);
        input.push_entry(e1);
        input.finish_decode();
        let output = m0.output_mut();
        output.push_entry(excl_entry(0, &reg, 0x10, 4, &[], &mgr));
        output.finish_decode();
    }
    let mut m1 = ProtoModel::new(&mgr, &mut ids);
    m1.build_param_list("standard").unwrap();
    m1.set_name("m1");
    {
        let input = m1.input_mut();
        input.push_entry(excl_entry(0, &reg, 0x20, 4, &[], &mgr));
        let e1 = excl_entry(1, &reg, 0x30, 4, input.get_entry(), &mgr);
        input.push_entry(e1);
        input.finish_decode();
        let output = m1.output_mut();
        output.push_entry(excl_entry(0, &reg, 0x10, 4, &[], &mgr));
        output.finish_decode();
    }
    let m0 = Rc::new(m0);
    let m1 = Rc::new(m1);

    let mut merged = ProtoModel::new_merged(&mgr, &mut ids);
    merged.merged_push(Rc::clone(&m0)).unwrap();
    merged.merged_push(Rc::clone(&m1)).unwrap();
    merged.merged_finalize();
    assert!(merged.is_merged());
    assert_eq!(merged.num_models(), 2);

    let mut active = ParamActive::new(false);
    active.register_trial(&addr(&reg, 0x10), 4);
    active.get_trial_mut(0).mark_active();
    let selected = merged.select_model(&active).unwrap();
    assert_eq!(selected.get_name(), "m0");
}

#[test]
fn parameter_basic_lock_semantics() {
    let reg = reg_space_le();
    let mut p = ParameterBasic::new("a", addr(&reg, 0x10), int4_type(), 0);
    assert!(!p.is_type_locked());
    p.set_type_lock(true);
    assert!(p.is_type_locked());
    assert!(!p.is_size_type_locked());
    p.set_type_lock(false);
    assert!(!p.is_type_locked());

    let unk = Datatype::new_with_align(4, 4, TypeMetatype::Unknown);
    let mut q = ParameterBasic::new("b", addr(&reg, 0x10), unk, 0);
    q.set_type_lock(true);
    assert!(q.is_type_locked());
    assert!(q.is_size_type_locked());
}

#[test]
fn parameter_basic_override_size_lock_type() {
    let reg = reg_space_le();
    let unk = Datatype::new_with_align(4, 4, TypeMetatype::Unknown);
    let mut p = ParameterBasic::new("a", addr(&reg, 0x10), unk, 0);
    p.set_type_lock(true);
    assert!(p.override_size_lock_type(int4_type()).is_ok());
    assert_eq!(p.get_type().unwrap().get_metatype(), TypeMetatype::Int);
    let int8 = Datatype::new_with_align(8, 8, TypeMetatype::Int);
    assert!(p.override_size_lock_type(int8).is_err());

    let mut q = ParameterBasic::new("b", addr(&reg, 0x10), int4_type(), 0);
    let another = int4_type();
    assert!(q.override_size_lock_type(another).is_err());
}

#[test]
fn proto_store_internal_round_trip() {
    let reg = reg_space_le();
    let voidt = Datatype::new(0, TypeMetatype::Void);
    let mut store = ProtoStoreInternal::new(voidt);
    assert_eq!(store.get_num_inputs(), 0);
    assert_eq!(store.get_output().get_type().unwrap().get_metatype(), TypeMetatype::Void);

    let p0 = ParameterPieces { addr: addr(&reg, 0x10), type_: Some(int4_type()), flags: 0 };
    let p1 = ParameterPieces { addr: addr(&reg, 0x20), type_: Some(int4_type()), flags: 0 };
    store.set_input(0, "a", &p0);
    store.set_input(1, "b", &p1);
    let out = ParameterPieces { addr: addr(&reg, 0x10), type_: Some(int4_type()), flags: 0 };
    store.set_output(&out);
    assert_eq!(store.get_num_inputs(), 2);
    assert_eq!(store.get_input(0).unwrap().get_name(), "a");
    assert_eq!(store.get_input(1).unwrap().get_address().get_offset(), 0x20);
    assert_eq!(store.get_output().get_type().unwrap().get_metatype(), TypeMetatype::Int);

    store.clear_input(0);
    assert_eq!(store.get_num_inputs(), 1);
    assert_eq!(store.get_input(0).unwrap().get_name(), "b");

    let cloned = store.copy();
    assert_eq!(cloned.get_num_inputs(), 1);

    store.clear_output();
    assert_eq!(store.get_output().get_type().unwrap().get_metatype(), TypeMetatype::Void);

    store.clear_all_inputs();
    assert_eq!(store.get_num_inputs(), 0);
}

#[test]
fn func_proto_flag_matrix() {
    let mut fp = FuncProto::new();
    assert!(!fp.is_inline());
    assert!(!fp.is_no_return());
    assert!(!fp.is_dotdotdot());
    assert!(!fp.is_constructor());
    assert!(!fp.is_destructor());
    assert!(!fp.is_override());

    fp.set_inline(true);
    assert!(fp.is_inline());
    fp.set_inline(false);
    assert!(!fp.is_inline());

    fp.set_no_return(true);
    assert!(fp.is_no_return());
    fp.set_dotdotdot(true);
    assert!(fp.is_dotdotdot());
    fp.set_constructor(true);
    assert!(fp.is_constructor());
    fp.set_destructor(true);
    assert!(fp.is_destructor());
    fp.set_override(true);
    assert!(fp.is_override());
    fp.set_input_errors(true);
    assert!(fp.has_input_errors());
    fp.set_output_errors(true);
    assert!(fp.has_output_errors());

    let cmp = fp.get_comparable_flags();
    assert_ne!(cmp & proto::DOTDOTDOT, 0);
    assert_ne!(cmp & proto::IS_CONSTRUCTOR, 0);
    assert_eq!(cmp & proto::IS_INLINE, 0);
    assert_eq!(cmp & proto::IS_OVERRIDE, 0);
}

#[test]
fn func_proto_set_model_inherits_properties() {
    let mgr = manager();
    let reg = reg_space_le();
    let mut ids = IdSource::new(1);
    let mut model = three_reg_proto_model(&mgr, &reg, &mut ids);
    model.set_has_this(true);
    model.set_constructor(true);
    model.set_extra_pop(8);
    let model = Rc::new(model);

    let mut fp = FuncProto::new();
    fp.set_model(Some(Rc::clone(&model)));
    assert!(fp.has_this_pointer());
    assert!(fp.is_constructor());
    assert_eq!(fp.get_extra_pop(), 8);
    assert_eq!(fp.get_model_name(), "__cdecl");

    fp.set_model(None);
    assert_eq!(fp.get_extra_pop(), EXTRAPOP_UNKNOWN);
}

#[test]
fn func_proto_inject_id_toggles_inline() {
    let mut fp = FuncProto::new();
    fp.set_inject_id(7);
    assert_eq!(fp.get_inject_id(), 7);
    assert!(fp.is_inline());
    fp.set_inject_id(-1);
    assert_eq!(fp.get_inject_id(), -1);
    assert!(!fp.is_inline());
    fp.set_inject_id(3);
    fp.cancel_inject_id();
    assert_eq!(fp.get_inject_id(), -1);
    assert!(!fp.is_inline());
}

#[test]
fn func_proto_input_lock_void_and_params() {
    let mgr = manager();
    let reg = reg_space_le();
    let mut ids = IdSource::new(1);
    let voidt = Datatype::new(0, TypeMetatype::Void);
    let model = Rc::new(three_reg_proto_model(&mgr, &reg, &mut ids));

    let mut fp = FuncProto::new();
    fp.set_internal(Rc::clone(&model), voidt);
    assert!(!fp.is_input_locked());
    fp.set_input_lock(true);
    assert!(fp.is_input_locked());
    assert!(fp.is_model_locked());
    fp.set_input_lock(false);
    assert!(!fp.is_input_locked());

    let p0 = ParameterPieces { addr: addr(&reg, 0x10), type_: Some(int4_type()), flags: 0 };
    fp.set_param(0, "a", &p0);
    assert!(!fp.is_input_locked());
    fp.set_input_lock(true);
    assert!(fp.is_input_locked());
    assert!(fp.get_param(0).unwrap().is_type_locked());
}

#[test]
fn func_proto_resolve_extra_pop_x86() {
    let mgr = manager();
    let reg = reg_space_le();
    let stack = stack_space();
    let mut ids = IdSource::new(1);
    let voidt = Datatype::new(0, TypeMetatype::Void);
    let model = Rc::new(three_reg_proto_model(&mgr, &reg, &mut ids));

    let mut fp = FuncProto::new();
    fp.set_internal(Rc::clone(&model), voidt);
    let p0 = ParameterPieces { addr: addr(&stack, 0x0), type_: Some(int4_type()), flags: 0 };
    fp.set_param(0, "a", &p0);
    fp.set_input_lock(true);
    fp.resolve_extra_pop();
    assert_eq!(fp.get_extra_pop(), 4);

    let mut fp2 = FuncProto::new();
    fp2.set_internal(Rc::clone(&model), voidt);
    let p1 = ParameterPieces { addr: addr(&stack, 0x4), type_: Some(int4_type()), flags: 0 };
    fp2.set_param(0, "a", &p1);
    fp2.set_input_lock(true);
    fp2.resolve_extra_pop();
    assert_eq!(fp2.get_extra_pop(), 8);
}

#[test]
fn func_proto_copy_and_compatible() {
    let mgr = manager();
    let reg = reg_space_le();
    let mut ids = IdSource::new(1);
    let voidt = Datatype::new(0, TypeMetatype::Void);
    let model = Rc::new(three_reg_proto_model(&mgr, &reg, &mut ids));

    let mut fp = FuncProto::new();
    fp.set_internal(Rc::clone(&model), voidt);
    fp.set_inline(true);
    fp.set_no_return(true);
    fp.set_inject_id(5);

    let mut fp2 = FuncProto::new();
    fp2.copy(&fp);
    assert!(fp2.is_inline());
    assert!(fp2.is_no_return());
    assert_eq!(fp2.get_inject_id(), 5);
    assert!(fp2.has_model());
    assert!(fp.is_compatible(&fp2));

    let mut fp3 = FuncProto::new();
    fp3.set_internal(Rc::clone(&model), voidt);
    fp3.copy_flow_effects(&fp);
    assert!(fp3.is_inline());
    assert!(fp3.is_no_return());
    assert_eq!(fp3.get_inject_id(), 5);
}

#[test]
fn func_proto_return_bytes_consumed_takes_smallest() {
    let mut fp = FuncProto::new();
    assert!(!fp.set_return_bytes_consumed(0));
    assert!(fp.set_return_bytes_consumed(8));
    assert_eq!(fp.get_return_bytes_consumed(), 8);
    assert!(fp.set_return_bytes_consumed(4));
    assert_eq!(fp.get_return_bytes_consumed(), 4);
    assert!(!fp.set_return_bytes_consumed(6));
    assert_eq!(fp.get_return_bytes_consumed(), 4);
}

#[test]
fn func_proto_stub_methods_error() {
    let mut fp = FuncProto::new();
    assert!(fp.set_scope().is_err());
    assert!(fp.update_input_types().is_err());
    assert!(fp.update_output_types().is_err());
    assert!(fp.decode().is_err());
    let mgr = manager();
    let mut ids = IdSource::new(1);
    let mut model = ProtoModel::new(&mgr, &mut ids);
    assert!(model.decode().is_err());
}

fn ram_space() -> AddrSpace {
    AddrSpace::new(SpaceType::Processor, false, 8, 1, 2, 1)
}

fn call_stack_space() -> AddrSpace {
    AddrSpace::new(SpaceType::Spacebase, false, 8, 1, 3, 1)
}

/// A graph with one operation without inputs.
fn one_op_graph(code: OpCode, off: u64) -> (Graph, OpId) {
    let op = PcodeOp::new(code, Address::new(ram_space(), off), Vec::new());
    (Graph { varnodes: Vec::new(), ops: vec![op] }, OpId(0))
}

fn std_model(strategy: &str, mgr: &AddrSpaceManager, ids: &mut IdSource) -> Rc<ProtoModel> {
    let mut model = ProtoModel::new(mgr, ids);
    model.build_param_list(strategy).unwrap();
    Rc::new(model)
}

fn call_with_std_model(mgr: &AddrSpaceManager, call: OpId, ids: &mut IdSource) -> FuncCallSpecs {
    let mut fc = FuncCallSpecs::new(call, Address::new_invalid());
    let mut fp = FuncProto::new();
    fp.set_internal(std_model("standard", mgr, ids), Datatype::new(1, TypeMetatype::Void));
    fc.proto_mut().copy(&fp);
    fc
}

/// The restarts that a script asks for.
fn restarts(s: &Script) -> Vec<RestartReason> {
    s.edits
        .iter()
        .filter_map(|e| match e {
            Edit::Restart { reason, site: _ } => Some(*reason),
            _ => None,
        })
        .collect()
}

#[test]
fn func_call_specs_constructor_defaults() {
    let (_g, call) = one_op_graph(OpCode::CallInd, 0x1010);
    let entry = Address::new(ram_space(), 0x2000);
    let fc = FuncCallSpecs::new(call, entry);

    assert_eq!(fc.get_op(), call);
    assert_eq!(*fc.get_entry_address(), entry);
    assert_eq!(fc.get_effective_extra_pop(), EXTRAPOP_UNKNOWN);
    assert_eq!(fc.get_spacebase_offset(), OFFSET_UNKNOWN);
    assert_eq!(fc.get_stack_placeholder_slot(), -1);
    assert_eq!(fc.get_paramshift(), 0);
    assert!(!fc.is_input_active());
    assert!(!fc.is_output_active());
    assert!(!fc.is_bad_jump_table());
    assert!(!fc.is_stack_output_lock());
    assert!(!fc.has_funcdata());
    assert!(fc.get_name().is_empty());
}

#[test]
fn func_call_specs_state_toggles_and_set_funcdata() {
    let mgr = manager();
    let mut ids = IdSource::new(1);
    let (_g, call) = one_op_graph(OpCode::CallInd, 0x1010);
    let mut fc = call_with_std_model(&mgr, call, &mut ids);

    fc.set_paramshift(2);
    assert_eq!(fc.get_paramshift(), 2);
    fc.set_effective_extra_pop(8);
    assert_eq!(fc.get_effective_extra_pop(), 8);
    fc.set_bad_jump_table(true);
    assert!(fc.is_bad_jump_table());
    fc.set_stack_output_lock(true);
    assert!(fc.is_stack_output_lock());

    fc.init_active_output();
    assert!(fc.is_output_active());
    fc.clear_active_output();
    assert!(!fc.is_output_active());

    fc.init_active_input();
    assert!(fc.is_input_active());
    assert_eq!(fc.get_active_input().get_max_pass(), 0);
    fc.clear_active_input();
    assert!(!fc.is_input_active());

    let entry = Address::new(ram_space(), 0x2000);
    assert!(fc.set_funcdata(entry, "callee").is_ok());
    assert!(fc.has_funcdata());
    assert_eq!(fc.get_name(), "callee");
    assert_eq!(*fc.get_entry_address(), entry);
    assert!(fc.set_funcdata(entry, "callee2").is_err());
}

#[test]
fn func_call_specs_input_bytes_consumed_monotone() {
    let (_g, call) = one_op_graph(OpCode::CallInd, 0x1010);
    let mut fc = FuncCallSpecs::new(call, Address::new_invalid());
    assert_eq!(fc.get_input_bytes_consumed(3), 0);
    assert!(fc.set_input_bytes_consumed(2, 4));
    assert_eq!(fc.get_input_bytes_consumed(2), 4);
    assert_eq!(fc.get_input_bytes_consumed(0), 0);
    assert!(fc.set_input_bytes_consumed(2, 2));
    assert_eq!(fc.get_input_bytes_consumed(2), 2);
    assert!(!fc.set_input_bytes_consumed(2, 6));
    assert_eq!(fc.get_input_bytes_consumed(2), 2);
}

#[test]
fn param_active_trial_for_input_varnode_index_math() {
    let stk = stack_space();
    let mut pa = ParamActive::new(true);
    pa.register_trial(&addr(&stk, 0x0), 4);
    pa.register_trial(&addr(&stk, 0x4), 4);
    pa.register_trial(&addr(&stk, 0x8), 4);

    assert_eq!(pa.get_trial_for_input_varnode(1).get_address().get_offset(), 0x0);
    assert_eq!(pa.get_trial_for_input_varnode(2).get_address().get_offset(), 0x4);

    pa.set_placeholder_slot();
    assert_eq!(pa.get_trial_for_input_varnode(2).get_address().get_offset(), 0x4);
    assert_eq!(pa.get_trial_for_input_varnode(4).get_address().get_offset(), 0x8);
}

#[test]
fn func_call_specs_check_input_join_gates() {
    let mgr = manager();
    let mut ids = IdSource::new(1);
    let (_g, call) = one_op_graph(OpCode::CallInd, 0x1010);
    let mut fc = call_with_std_model(&mgr, call, &mut ids);
    let stk = stack_space();

    fc.get_active_input().register_trial(&addr(&stk, 0x0), 4);
    fc.get_active_input().register_trial(&addr(&stk, 0x4), 4);

    fc.init_active_input();
    assert!(!fc.check_input_join(1, true, 4, 4));
    fc.clear_active_input();

    assert!(!fc.check_input_join(5, true, 4, 4));

    assert!(!fc.check_input_join(1, true, 8, 4));
    assert!(!fc.check_input_join(1, false, 4, 8));
}

#[test]
fn func_call_specs_do_input_join_locked_errs() {
    let mgr = manager();
    let mut ids = IdSource::new(1);
    let (_g, call) = one_op_graph(OpCode::CallInd, 0x1010);
    let mut fc = call_with_std_model(&mgr, call, &mut ids);
    fc.proto_mut().set_input_lock(true);
    let res = fc.do_input_join(1, Ok(Address::new(ram_space(), 0)));
    assert!(res.is_err());
    assert_eq!(res, Err(FspecError::JoinLocked));
}

#[test]
fn func_call_specs_late_restriction_no_model_copies() {
    let (g, call) = one_op_graph(OpCode::CallInd, 0x1010);
    let mut fc = FuncCallSpecs::new(call, Address::new_invalid());
    assert!(!fc.proto().has_model());

    let mut restricted = FuncProto::new();
    restricted.set_extra_pop(12);

    let mut newinput: Vec<Option<VarnodeId>> = Vec::new();
    let mut newoutput: Vec<VarnodeId> = Vec::new();
    let ok = fc.late_restriction(&g, &restricted, &mut newinput, &mut newoutput);
    assert!(ok);
    assert_eq!(fc.proto().get_extra_pop(), 12);
}

#[test]
fn func_call_specs_late_restriction_incompatible_models_false() {
    let mgr = manager();
    let mut ids = IdSource::new(1);
    let (g, call) = one_op_graph(OpCode::CallInd, 0x1010);
    let mut fc = FuncCallSpecs::new(call, Address::new_invalid());
    fc.proto_mut().set_model(Some(std_model("standard", &mgr, &mut ids)));

    let mut restricted = FuncProto::new();
    restricted.set_model(Some(std_model("register", &mgr, &mut ids)));

    let mut ni: Vec<Option<VarnodeId>> = Vec::new();
    let mut no: Vec<VarnodeId> = Vec::new();
    let ok = fc.late_restriction(&g, &restricted, &mut ni, &mut no);
    assert!(!ok);
}

#[test]
fn func_call_specs_deindirect_restart_when_incompatible() {
    let mgr = manager();
    let mut ids = IdSource::new(1);
    let (g, call) = one_op_graph(OpCode::CallInd, 0x1010);
    let mut fc = FuncCallSpecs::new(call, Address::new_invalid());
    fc.proto_mut().set_model(Some(std_model("standard", &mgr, &mut ids)));

    let mut newproto = FuncProto::new();
    newproto.set_model(Some(std_model("register", &mgr, &mut ids)));

    let mut s = Script::new(0, 1, true);
    let new_entry = Address::new(ram_space(), 0x2000);
    fc.deindirect(&g, &mut s, new_entry, "callee", &newproto, false, false, 7).unwrap();

    let all = restarts(&s);
    assert_eq!(all.len(), 1);
    assert!(all[0].message().contains("prototype discovered late at indirect call"));
    assert_eq!(*fc.get_entry_address(), new_entry);
    assert_eq!(fc.get_name(), "callee");
}

#[test]
fn func_call_specs_deindirect_override_short_circuits() {
    let mgr = manager();
    let mut ids = IdSource::new(1);
    let (g, call) = one_op_graph(OpCode::CallInd, 0x1010);
    let mut fc = FuncCallSpecs::new(call, Address::new_invalid());
    fc.proto_mut().set_model(Some(std_model("standard", &mgr, &mut ids)));
    fc.proto_mut().set_override(true);

    let mut newproto = FuncProto::new();
    newproto.set_model(Some(std_model("register", &mgr, &mut ids)));

    let mut s = Script::new(0, 1, true);
    let new_entry = Address::new(ram_space(), 0x2000);
    fc.deindirect(&g, &mut s, new_entry, "callee", &newproto, false, false, 7).unwrap();

    assert!(restarts(&s).is_empty());
}

#[test]
fn func_call_specs_force_set_restart_and_locks() {
    let mgr = manager();
    let mut ids = IdSource::new(1);
    let (g, call) = one_op_graph(OpCode::CallInd, 0x1010);
    let mut fc = call_with_std_model(&mgr, call, &mut ids);

    let mut fp = FuncProto::new();
    fp.set_internal(std_model("register", &mgr, &mut ids), Datatype::new(1, TypeMetatype::Void));
    fp.set_input_errors(true);
    fp.set_output_errors(true);

    let mut s = Script::new(0, 1, true);
    fc.force_set(&g, &mut s, &fp);

    let all = restarts(&s);
    assert_eq!(all.len(), 1);
    assert!(all[0].message().contains("prototype forced late at call site"));
    assert!(fc.proto().is_input_locked());
    assert!(fc.proto().has_input_errors());
    assert!(fc.proto().has_output_errors());
}

/// A call whose input 1 is loaded through the stack location 0x10.
fn call_with_placeholder(mgr: &AddrSpaceManager, ids: &mut IdSource) -> (Graph, FuncCallSpecs, VarnodeId) {
    let stk = call_stack_space();
    let constant = AddrSpace::new(SpaceType::Constant, false, 8, 1, 0, 0);
    let unique = AddrSpace::new(SpaceType::Internal, false, 8, 1, 1, 0);
    let plain = |a: Address, def: Option<OpId>| Varnode {
        addr: a,
        size: 8,
        def,
        input: false,
        free: def.is_none(),
        readers: 1,
        placeholder: false,
        type_: None,
    };
    let target = plain(Address::new(constant, 0x2000), None);
    let refvn = plain(Address::new(stk, 0x10), None);
    let mut phvn = plain(Address::new(unique, 0x0), Some(OpId(1)));
    phvn.placeholder = true;
    let call = PcodeOp::new(
        OpCode::CallInd,
        Address::new(ram_space(), 0x1010),
        vec![VarnodeId(0), VarnodeId(2)],
    );
    let mut load =
        PcodeOp::new(OpCode::Load, Address::new(ram_space(), 0x1008), vec![VarnodeId(1)]);
    load.output = Some(VarnodeId(2));
    let g = Graph { varnodes: vec![target, refvn, phvn], ops: vec![call, load] };
    let mut fc = call_with_std_model(mgr, OpId(0), ids);
    fc.set_paramshift(0);
    (g, fc, VarnodeId(2))
}

#[test]
fn func_call_specs_get_spacebase_relative_no_slot_is_none() {
    let mgr = manager();
    let mut ids = IdSource::new(1);
    let (g, fc, _phvn) = call_with_placeholder(&mgr, &mut ids);
    assert_eq!(fc.get_stack_placeholder_slot(), -1);
    assert!(fc.get_spacebase_relative(&g).is_none());
}

#[test]
fn func_call_specs_resolve_and_abort_spacebase_relative() {
    let mgr = manager();
    let mut ids = IdSource::new(1);
    let (g, mut fc, phvn) = call_with_placeholder(&mgr, &mut ids);
    let mut s = Script::new(3, 2, true);
    let r = fc.resolve_spacebase_relative(&g, &mut s, phvn);
    assert!(r.is_err());
    assert_eq!(fc.get_spacebase_offset(), 0x10);

    fc.abort_spacebase_relative(&g, &mut s);
    assert_eq!(fc.get_stack_placeholder_slot(), -1);
}

#[test]
fn func_call_specs_fspec_registry_roundtrip() {
    let (_g, call) = one_op_graph(OpCode::CallInd, 0x1010);
    let ram = ram_space();
    let mut fc = FuncCallSpecs::new(call, Address::new(ram, 0x2000));
    fc.set_funcdata(Address::new(ram, 0x2000), "my_func").unwrap();
    assert_eq!(fc.fspec_printed_name(NameStyle::Func, "2000"), "my_func");
    assert_eq!(fc.fspec_printed_name(NameStyle::Angr, "2000"), "my_func");

    let fc2 = FuncCallSpecs::new(call, Address::new(ram, 0x3000));
    assert!(fc2.fspec_printed_name(NameStyle::Angr, "3000").starts_with("sub_"));
    assert!(fc2.fspec_printed_name(NameStyle::Func, "3000").starts_with("func_"));

    let info = fc.register_in_fspec_space(NameStyle::Func, "2000");
    assert_eq!(info.printed_name, "my_func");
    assert_eq!(info.entry.get_offset(), 0x2000);
}

#[test]
fn func_call_specs_transfer_locked_output_void_ok() {
    let mgr = manager();
    let mut ids = IdSource::new(1);
    let (g, call) = one_op_graph(OpCode::CallInd, 0x1010);
    let mut fc = FuncCallSpecs::new(call, Address::new_invalid());
    let model = std_model("standard", &mgr, &mut ids);
    let voidt = Datatype::new(1, TypeMetatype::Void);
    fc.proto_mut().set_internal(Rc::clone(&model), voidt);

    let mut restricted = FuncProto::new();
    restricted.set_internal(Rc::clone(&model), voidt);
    restricted.set_output_lock(true);

    let mut ni: Vec<Option<VarnodeId>> = Vec::new();
    let mut no: Vec<VarnodeId> = Vec::new();
    let ok = fc.late_restriction(&g, &restricted, &mut ni, &mut no);
    assert!(ok);
    assert!(no.is_empty());
}

fn float10_type() -> Datatype {
    Datatype::new_with_align(10, 8, TypeMetatype::Float)
}

/// A register and a stack resource, with a rule that sends everything to the
/// stack.
fn reg_plus_stack_gotostack_model(
    mgr: &AddrSpaceManager,
) -> (ParamListStandard, AddrSpace, AddrSpace) {
    let reg = reg_space_le();
    let stk = stack_space();
    let mut model = ParamListStandard::new(ParamListKind::Standard);
    model.push_entry(excl_entry(0, &reg, 0x10, 8, &[], mgr));
    let e1 = stack_entry(1, &stk, 0x0, 0x100, 8, model.get_entry(), mgr);
    model.push_entry(e1);
    model.finish_decode();
    let action = AssignAction::GotoStack { stack_entry: model.get_stack_entry() };
    model.push_model_rule(ModelRule::from_components(0, 0, action));
    (model, reg, stk)
}

#[test]
fn modelrule_gotostack_routes_oversized_float_to_aligned_stack_footprint() {
    let mut mgr = manager();
    let (model, _reg, stk) = reg_plus_stack_gotostack_model(&mgr);
    let proto = pieces_of(None, vec![float10_type(), int4_type()], &["x", "z"]);
    let mut res: Vec<ParameterPieces> = Vec::new();
    model.assign_map(&proto, &mut res, &mut mgr).unwrap();
    assert_eq!(res.len(), 2);
    assert_eq!(res[0].addr.get_space(), Some(stk));
    assert_eq!(res[0].addr.get_offset(), 0x0);
    assert_eq!(res[0].type_.as_ref().unwrap().get_size(), 10);
    assert_eq!(res[1].addr.get_space(), Some(stk));
    assert_eq!(res[1].addr.get_offset(), 0x10);
}

#[test]
fn modelrule_precedes_metatype_fallback() {
    let mut mgr = manager();
    let (model, reg, stk) = reg_plus_stack_gotostack_model(&mgr);
    let proto = pieces_of(None, vec![int4_type()], &["a"]);
    let mut res: Vec<ParameterPieces> = Vec::new();
    model.assign_map(&proto, &mut res, &mut mgr).unwrap();
    assert_eq!(res.len(), 1);
    assert_eq!(res[0].addr.get_space(), Some(stk));
    assert_ne!(res[0].addr.get_space(), Some(reg));
}

#[test]
fn no_modelrule_falls_through_to_metatype_fallback() {
    let mut mgr = manager();
    let reg = reg_space_le();
    let mut model = ParamListStandard::new(ParamListKind::Standard);
    model.push_entry(excl_entry(0, &reg, 0x10, 8, &[], &mgr));
    model.finish_decode();
    assert_eq!(model.num_model_rules(), 0);
    let proto = pieces_of(None, vec![int4_type()], &["a"]);
    let mut res: Vec<ParameterPieces> = Vec::new();
    model.assign_map(&proto, &mut res, &mut mgr).unwrap();
    assert_eq!(res.len(), 1);
    assert_eq!(res[0].addr.get_space(), Some(reg));
    assert_eq!(res[0].addr.get_offset(), 0x10);
}

#[test]
fn push_pointermax_rule_appends_convert_to_pointer() {
    let (mut model, _reg) = three_reg_model();
    assert_eq!(model.num_model_rules(), 0);
    model.push_pointermax_rule(8);
    assert_eq!(model.num_model_rules(), 1);
}

#[test]
fn w10_float_typeclass_failing_rule_does_not_short_circuit_chain() {
    let mut mgr = manager();
    let reg = reg_space_le();
    let stk = stack_space();
    let mut model = ParamListStandard::new(ParamListKind::Standard);
    model.push_entry(excl_entry(0, &reg, 0x10, 8, &[], &mgr));
    let e1 = stack_entry(1, &stk, 0x0, 0x100, 8, model.get_entry(), &mgr);
    model.push_entry(e1);
    model.finish_decode();
    let fail_action = AssignAction::GotoStack { stack_entry: model.get_stack_entry() };
    model.push_model_rule(ModelRule::from_components(20, 0, fail_action));
    let ok_action = AssignAction::GotoStack { stack_entry: model.get_stack_entry() };
    model.push_model_rule(ModelRule::from_components(0, 0, ok_action));
    assert_eq!(model.num_model_rules(), 2);
    let proto = pieces_of(None, vec![int4_type()], &["a"]);
    let mut res: Vec<ParameterPieces> = Vec::new();
    model.assign_map(&proto, &mut res, &mut mgr).unwrap();
    assert_eq!(res.len(), 1);
    assert_eq!(res[0].addr.get_space(), Some(stk));
    assert_ne!(res[0].addr.get_space(), Some(reg));
}

#[test]
fn w10_float_typeclass_pointermax_rule_appends_after_existing_rules() {
    let mut mgr = manager();
    let (mut model, _reg, stk) = reg_plus_stack_gotostack_model(&mgr);
    assert_eq!(model.num_model_rules(), 1);
    model.push_pointermax_rule(8);
    assert_eq!(model.num_model_rules(), 2);
    let proto = pieces_of(None, vec![float10_type()], &["x"]);
    let mut res: Vec<ParameterPieces> = Vec::new();
    model.assign_map(&proto, &mut res, &mut mgr).unwrap();
    assert_eq!(res.len(), 1);
    assert_eq!(res[0].addr.get_space(), Some(stk));
    assert_eq!(res[0].type_.as_ref().unwrap().get_size(), 10);
}
