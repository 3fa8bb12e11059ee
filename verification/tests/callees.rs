//! What the code of a callee shows about the arguments of a call.
use kuna_decomp::aritylive::{plan_tail, uncovered_argument_locations, OptionCalleeArityLive};
use kuna_decomp::byteset::ByteSet;
use kuna_decomp::deadarg::{
    seed_callee_entry_dead, trial_is_dead_in_callee, OptionCalleeDeadArg,
};
use kuna_decomp::callspec::FuncCallSpecs;
use kuna_decomp::effects;
use kuna_decomp::effects::EffectRecord;
use kuna_decomp::entrymap::EntryMap;
use kuna_decomp::error::FspecError;
use kuna_decomp::graph::{Graph, OpId, PcodeOp, Varnode, VarnodeId};
use kuna_decomp::joins::AddrSpaceManager;
use kuna_decomp::model::{IdSource, ProtoModel};
use kuna_decomp::opcode::OpCode;
use kuna_decomp::preserves::{
    callee_preserves_range, seed_callee_preserves, CalleeReturnWrites, OptionCalleePreserves,
};
use kuna_decomp::probe::{
    probe_callee_entry_dead, CalleeEntryDead, Code, EntryEmit, Instruction, Walk,
};
use kuna_decomp::space::{AddrSpace, Address, SpaceType, VarnodeData};
use std::rc::Rc;

fn reg_space() -> AddrSpace {
    AddrSpace::new(SpaceType::Processor, false, 8, 1, 1, 0)
}

#[test]
fn option_name_and_apply() {
    assert_eq!(OptionCalleeArityLive::NAME, "calleearitylive");
    let (on, msg) = OptionCalleeArityLive.apply("on").expect("on");
    assert!(on);
    assert!(msg.contains("turned on"), "{msg}");
    let (off, msg) = OptionCalleeArityLive.apply("off").expect("off");
    assert!(!off);
    assert!(msg.contains("turned off"), "{msg}");
    assert!(OptionCalleeArityLive.apply("").expect("empty").0);
    assert!(OptionCalleeArityLive.apply("bogus").is_err());
}

#[test]
fn the_tail_is_covered_in_order_or_not_at_all() {
    let reg = reg_space();
    let at = |off: u64| (Address::new(reg, off), 8);
    let candidates = vec![at(0x20), at(0x28)];
    assert_eq!(plan_tail(&[at(0x20), at(0x28)], &candidates), Some(vec![0, 1]));
    assert_eq!(plan_tail(&[at(0x28)], &candidates), Some(vec![1]));
    assert_eq!(plan_tail(&[at(0x28), at(0x20)], &candidates), None);
    assert_eq!(plan_tail(&[at(0x20), at(0x30)], &candidates), None);
    let narrow = (Address::new(reg, 0x20), 4);
    assert_eq!(plan_tail(&[narrow], &candidates), None);
}

#[test]
fn a_narrow_trial_covers_the_entry_it_sits_in() {
    let reg = reg_space();
    let entries = vec![
        (Address::new(reg, 0x38), 8),
        (Address::new(reg, 0x30), 8),
        (Address::new(reg, 0x80), 8),
        (Address::new(reg, 0x88), 8),
    ];
    let witness = vec![
        (Address::new(reg, 0x38), 8),
        (Address::new(reg, 0x30), 4),
        (Address::new(reg, 0x80), 1),
    ];
    let left = uncovered_argument_locations(&entries, &witness);
    assert_eq!(left.len(), 1, "{left:?}");
    assert_eq!(left[0].0.get_offset(), 0x88);
}

#[test]
fn an_empty_witness_covers_nothing() {
    let reg = reg_space();
    let entries = vec![(Address::new(reg, 0x38), 8)];
    assert_eq!(uncovered_argument_locations(&entries, &[]).len(), 1);
}

#[test]
fn a_location_in_another_space_covers_nothing() {
    let reg = reg_space();
    let stack = AddrSpace::new(SpaceType::Spacebase, false, 8, 1, 2, 0);
    let entries = vec![(Address::new(reg, 0x38), 8)];
    let witness = vec![(Address::new(stack, 0x38), 8)];
    assert_eq!(uncovered_argument_locations(&entries, &witness).len(), 1);
}

#[test]
fn locations_at_the_end_of_a_space_cover_themselves() {
    let reg = reg_space();
    let entries = vec![(Address::new(reg, u64::MAX - 3), 4), (Address::new(reg, 0x38), 8)];
    let witness = vec![(Address::new(reg, u64::MAX - 1), 2)];
    let left = uncovered_argument_locations(&entries, &witness);
    assert_eq!(left, vec![(Address::new(reg, 0x38), 8)]);
}

#[test]
fn option_parses_on_and_off() {
    assert!(OptionCalleeDeadArg.apply("on").unwrap().0);
    assert!(!OptionCalleeDeadArg.apply("off").unwrap().0);
    assert!(OptionCalleeDeadArg.apply("maybe").is_err());
}

#[test]
fn incomplete_summary_proves_nothing() {
    let d = CalleeEntryDead::default();
    assert!(!d.is_complete());
}

#[test]
fn summary_with_no_terminator_proves_nothing() {
    let reg = AddrSpace::new(SpaceType::Processor, false, 8, 1, 3, 1);
    let complete_no_cuts =
        CalleeEntryDead { reg_idx: 3, reads: Vec::new(), cuts: Vec::new(), complete: true };
    assert!(complete_no_cuts.is_complete());
    assert!(!complete_no_cuts.proves_dead(&Address::new(reg, 8), 8));

    let mut cut = ByteSet::new();
    for b in 8u64..16 {
        cut.insert((3, b));
    }
    let one_cut =
        CalleeEntryDead { reg_idx: 3, reads: Vec::new(), cuts: vec![cut], complete: true };
    assert!(one_cut.proves_dead(&Address::new(reg, 8), 8));
}

#[test]
fn switches_say_what_they_do() {
    assert_eq!(OptionCalleeDeadArg::NAME, "calleedeadarg");
    assert_eq!(OptionCalleePreserves::NAME, "calleepreserves");
    assert_eq!(
        OptionCalleeDeadArg.apply("off").unwrap().1,
        "Callee-body dead-argument veto turned off"
    );
    assert_eq!(
        OptionCalleePreserves.apply("on").unwrap(),
        (true, "Callee-body killed-register narrowing turned on".to_string())
    );
    assert_eq!(OptionCalleePreserves.apply("ON").unwrap_err(), FspecError::BadSetting);
}

/// Registers in space 1, code in space 2.
fn code_space() -> AddrSpace {
    AddrSpace::new(SpaceType::Processor, false, 8, 1, 2, 0)
}

fn reg_loc(off: u64, size: u32) -> VarnodeData {
    VarnodeData { space: Some(reg_space()), offset: off, size }
}

fn code_loc(off: u64) -> VarnodeData {
    VarnodeData { space: Some(code_space()), offset: off, size: 8 }
}

fn at_code(off: u64) -> Address {
    Address::new(code_space(), off)
}

/// An instruction of 4 bytes with these operations.
fn ins(ops: Vec<(OpCode, Option<VarnodeData>, Vec<VarnodeData>)>) -> Instruction {
    let mut emit = EntryEmit::new();
    for (opc, out, vars) in ops {
        emit.dump(opc, out, vars);
    }
    Instruction { emit, len: 4 }
}

fn write_reg(off: u64) -> Instruction {
    ins(vec![(OpCode::Copy, Some(reg_loc(off, 8)), vec![])])
}

fn read_reg(off: u64) -> Instruction {
    ins(vec![(OpCode::Copy, Some(reg_loc(0x100, 8)), vec![reg_loc(off, 8)])])
}

fn ret() -> Instruction {
    ins(vec![(OpCode::Return, None, vec![reg_loc(0x200, 8)])])
}

#[test]
fn register_written_before_the_end_is_dead() {
    let code = Code {
        instructions: vec![(at_code(0), write_reg(8)), (at_code(4), read_reg(8)), (at_code(8), ret())],
    };
    let d = probe_callee_entry_dead(&code, &at_code(0), 1);
    assert!(d.is_complete());
    assert!(d.proves_dead(&Address::new(reg_space(), 8), 8));
    assert!(d.proves_dead(&Address::new(reg_space(), 12), 4));
    assert!(!d.proves_read(&Address::new(reg_space(), 8), 8));
    // A register that is left alone is not shown to be dead.
    assert!(!d.proves_dead(&Address::new(reg_space(), 0x40), 8));
    // Nothing is said of other spaces, of no bytes, or past the end.
    assert!(!d.proves_dead(&at_code(8), 8));
    assert!(!d.proves_dead(&Address::new(reg_space(), 8), 0));
    assert!(!d.proves_dead(&Address::new(reg_space(), u64::MAX), 8));
}

#[test]
fn register_read_first_is_live() {
    let code = Code {
        instructions: vec![(at_code(0), read_reg(8)), (at_code(4), write_reg(8)), (at_code(8), ret())],
    };
    let d = probe_callee_entry_dead(&code, &at_code(0), 1);
    assert!(d.proves_read(&Address::new(reg_space(), 8), 8));
    assert!(d.proves_read(&Address::new(reg_space(), 15), 1));
    assert!(!d.proves_read(&Address::new(reg_space(), 16), 8));
    assert!(!d.proves_dead(&Address::new(reg_space(), 8), 8));
}

#[test]
fn every_path_has_to_write() {
    // A conditional branch over the write.
    let branch = ins(vec![(OpCode::CBranch, None, vec![code_loc(8)])]);
    let code = Code {
        instructions: vec![(at_code(0), branch), (at_code(4), write_reg(8)), (at_code(8), ret())],
    };
    let d = probe_callee_entry_dead(&code, &at_code(0), 1);
    assert!(d.is_complete());
    assert_eq!(d.cuts.len(), 2);
    assert!(!d.proves_dead(&Address::new(reg_space(), 8), 8));
}

#[test]
fn writes_behind_an_inner_branch_do_not_count() {
    let constant = AddrSpace::new(SpaceType::Constant, false, 8, 1, 0, 0);
    let inner = VarnodeData { space: Some(constant), offset: 1, size: 4 };
    let odd = ins(vec![
        (OpCode::CBranch, None, vec![inner]),
        (OpCode::Copy, Some(reg_loc(8, 8)), vec![]),
    ]);
    assert!(odd.emit.internal_flow);
    let code = Code { instructions: vec![(at_code(0), odd), (at_code(4), ret())] };
    let d = probe_callee_entry_dead(&code, &at_code(0), 1);
    assert!(d.is_complete());
    assert!(!d.proves_dead(&Address::new(reg_space(), 8), 8));
}

#[test]
fn a_loop_without_end_shows_nothing() {
    let back = ins(vec![(OpCode::Branch, None, vec![code_loc(0)])]);
    let code = Code { instructions: vec![(at_code(0), write_reg(8)), (at_code(4), back)] };
    let d = probe_callee_entry_dead(&code, &at_code(0), 1);
    assert!(d.is_complete());
    assert!(d.cuts.is_empty());
    assert!(!d.proves_dead(&Address::new(reg_space(), 8), 8));
}

#[test]
fn walks_that_cannot_start_or_go_on_show_nothing() {
    let code = Code { instructions: vec![(at_code(0), ret())] };
    assert!(!probe_callee_entry_dead(&code, &at_code(0), -1).is_complete());
    assert!(!probe_callee_entry_dead(&code, &Address::new_invalid(), 1).is_complete());
    let stack = AddrSpace::new(SpaceType::Spacebase, false, 8, 1, 5, 0);
    assert!(!probe_callee_entry_dead(&code, &Address::new(stack, 0), 1).is_complete());
    // 193 instructions in a row are one too many.
    let many = |n: u64| Code {
        instructions: (0..n).map(|i| (at_code(4 * i), write_reg(8))).collect(),
    };
    assert!(probe_callee_entry_dead(&many(191), &at_code(0), 1).is_complete());
    let long = probe_callee_entry_dead(&many(193), &at_code(0), 1);
    assert!(!long.is_complete());
    assert!(long.cuts.is_empty());
    assert!(long.reads.is_empty());
    // More than 4096 bytes written on one path.
    let wide = ins(vec![(OpCode::Copy, Some(reg_loc(0, 4097)), vec![])]);
    let code2 = Code { instructions: vec![(at_code(0), wide), (at_code(4), ret())] };
    assert!(!probe_callee_entry_dead(&code2, &at_code(0), 1).is_complete());
}

#[test]
fn accesses_through_an_index_end_the_path() {
    let constant = AddrSpace::new(SpaceType::Constant, false, 8, 1, 0, 0);
    let space_id = |i: u64| VarnodeData { space: Some(constant), offset: i, size: 4 };
    let load = |i: u64| {
        ins(vec![(OpCode::Load, Some(reg_loc(8, 8)), vec![space_id(i), reg_loc(0x20, 8)])])
    };
    let into_registers = Code { instructions: vec![(at_code(0), load(1)), (at_code(4), ret())] };
    let d = probe_callee_entry_dead(&into_registers, &at_code(0), 1);
    assert_eq!(d.cuts.len(), 1);
    assert!(!d.proves_dead(&Address::new(reg_space(), 8), 8));
    assert!(d.proves_read(&Address::new(reg_space(), 0x20), 8));
    let into_memory = Code { instructions: vec![(at_code(0), load(2)), (at_code(4), ret())] };
    let d2 = probe_callee_entry_dead(&into_memory, &at_code(0), 1);
    assert!(d2.proves_dead(&Address::new(reg_space(), 8), 8));
}

#[test]
fn a_walk_asks_for_one_instruction_at_a_time() {
    let mut w = Walk::start(&at_code(0), 1);
    assert_eq!(w.ask(), Some(at_code(0)));
    let first = write_reg(8);
    w.answer(Some(&first));
    assert_eq!(w.ask(), Some(at_code(4)));
    w.answer(None);
    assert_eq!(w.ask(), None);
    let d = w.finish();
    assert!(d.is_complete());
    assert_eq!(d.cuts.len(), 1);
    assert!(d.proves_dead(&Address::new(reg_space(), 8), 8));
}

fn vn(a: Address, size: i32, def: Option<OpId>, input: bool) -> Varnode {
    Varnode {
        addr: a,
        size,
        def,
        input,
        free: false,
        readers: 1,
        placeholder: false,
        type_: None,
    }
}

/// Operation 0 calls with input 1 taken from the output of operation 1.
fn call_fed_by(code: OpCode) -> Graph {
    let r = Address::new(reg_space(), 8);
    let call = PcodeOp::new(OpCode::Call, at_code(0x40), vec![VarnodeId(0), VarnodeId(1)]);
    let mut feed = PcodeOp::new(code, at_code(0x3c), vec![VarnodeId(2)]);
    feed.output = Some(VarnodeId(1));
    Graph {
        varnodes: vec![
            vn(at_code(0x100), 8, None, false),
            vn(r, 8, Some(OpId(1)), false),
            vn(r, 8, None, true),
        ],
        ops: vec![call, feed],
    }
}

#[test]
fn only_leftovers_of_calls_are_vetoed() {
    let code = Code { instructions: vec![(at_code(0), write_reg(8)), (at_code(4), ret())] };
    let calls = vec![
        FuncCallSpecs::new(OpId(0), at_code(0)),
        FuncCallSpecs::new(OpId(1), Address::new_invalid()),
    ];
    let mut cache = EntryMap::new();
    let mut facts = EntryMap::new();
    seed_callee_entry_dead(true, &calls, &code, 1, &mut cache, &mut facts);
    assert!(cache.get(&at_code(0)).is_some());
    let r = Address::new(reg_space(), 8);
    let ask = |on: bool, g: &Graph| trial_is_dead_in_callee(on, &calls[0], &facts, g, 1, &r, 8);
    assert!(ask(true, &call_fed_by(OpCode::Call)));
    assert!(!ask(false, &call_fed_by(OpCode::Call)));
    // The value was put there, or comes from a function input.
    assert!(!ask(true, &call_fed_by(OpCode::Load)));
    assert!(!ask(true, &call_fed_by(OpCode::Copy)));
    // Another register is not shown to be dead.
    let other = Address::new(reg_space(), 0x40);
    let g = call_fed_by(OpCode::Call);
    assert!(!trial_is_dead_in_callee(true, &calls[0], &facts, &g, 1, &other, 8));
    assert!(!trial_is_dead_in_callee(true, &calls[1], &facts, &g, 1, &r, 8));
}

#[test]
fn one_call_alone_is_not_looked_into() {
    let code = Code { instructions: vec![(at_code(0), ret())] };
    let calls = vec![FuncCallSpecs::new(OpId(0), at_code(0))];
    let mut cache = EntryMap::new();
    let mut facts = EntryMap::new();
    seed_callee_entry_dead(true, &calls, &code, 1, &mut cache, &mut facts);
    assert!(cache.get(&at_code(0)).is_none());
    assert!(facts.get(&at_code(0)).is_none());
}

/// A call whose model keeps register 0x30 and kills register 0x10.
fn modelled_call() -> FuncCallSpecs {
    let mgr = AddrSpaceManager::new(AddrSpace::new(SpaceType::Join, false, 8, 1, 9, 0));
    let mut ids = IdSource::new(1);
    let mut m = ProtoModel::new(&mgr, &mut ids);
    m.push_effect(EffectRecord::from_varnode(reg_loc(0x30, 8), effects::UNAFFECTED));
    m.push_effect(EffectRecord::from_varnode(reg_loc(0x10, 8), effects::KILLEDBYCALL));
    let mut fc = FuncCallSpecs::new(OpId(0), at_code(0));
    fc.proto_mut().set_model(Some(Rc::new(m)));
    fc
}

#[test]
fn code_that_breaks_the_convention_keeps_registers() {
    let fc = modelled_call();
    let calls = vec![modelled_call()];
    let spaces = vec![reg_space(), code_space()];
    let killed = Address::new(reg_space(), 0x10);
    let keeps = |written: Vec<(i32, u64, i32)>, complete: bool, on: bool| {
        let mut image = EntryMap::new();
        image.set(&at_code(0), Rc::new(CalleeReturnWrites { written, complete }));
        let mut facts = EntryMap::new();
        seed_callee_preserves(on, &calls, &image, &mut facts);
        callee_preserves_range(on, &fc, &facts, &spaces, Some(reg_loc(0x28, 8)), &killed, 8)
    };
    // It writes the register that the convention keeps, and no other.
    assert!(keeps(vec![(1, 0x30, 8)], true, true));
    // It writes nothing, only the stack pointer, or the range itself.
    assert!(!keeps(vec![], true, true));
    assert!(!keeps(vec![(1, 0x28, 8)], true, true));
    assert!(!keeps(vec![(1, 0x30, 8), (1, 0x14, 1)], true, true));
    assert!(!keeps(vec![(1, 0x30, 8)], false, true));
    assert!(!keeps(vec![(1, 0x30, 8)], true, false));
}
