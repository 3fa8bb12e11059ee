//! Arguments that a call only seems to pass: a register that an earlier call
//! left behind and that the callee overwrites before it reads it.
use crate::callspec::{CallView, FuncCallSpecs};
use crate::entrymap;
use crate::entrymap::EntryMap;
use crate::error::FspecError;
use crate::graph::{Graph, GraphView, OpView, PcodeOp, VarnodeId};
use crate::link;
use crate::opcode::OpCode;
use crate::options;
use crate::probe;
use crate::probe::{CalleeEntryDead, Code, CodeView, DeadView};
use crate::space::Address;
use std::rc::Rc;
use vstd::prelude::*;

verus! {

/// The switch that lets the code of a callee veto arguments.
#[derive(Debug)]
pub struct OptionCalleeDeadArg;

impl OptionCalleeDeadArg {
    /// The name of the switch.
    pub const NAME: &'static str = "calleedeadarg";

    /// The setting that the word stands for, and what is said of it.
    pub fn apply(&self, p1: &str) -> (r: Result<(bool, String), FspecError>)
        ensures
            match (options::setting(p1@), r) {
                (Some(b), Ok((v, m))) => v == b && m@ == options::turned(
                    "Callee-body dead-argument veto"@,
                    b,
                ),
                (None, Err(e)) => e == FspecError::BadSetting,
                _ => false,
            },
    {
        options::turn("Callee-body dead-argument veto", p1)
    }
}

/// How many operations back from a call the source of a value is looked for.
pub const MAX_LEFTOVER_DEPTH: u32 = 12;

/// Does every chain back from `vn` end at a call that left the value behind,
/// through operations that only move it or change its width.
pub open spec fn leftover(g: GraphView, vn: VarnodeId, depth: int) -> bool
    decreases MAX_LEFTOVER_DEPTH - depth, 1int, 0int,
{
    depth < MAX_LEFTOVER_DEPTH && (g.vn(vn) matches Some(v) && (v.def matches Some(def) && (g.op(
        def,
    ) matches Some(op) && (match op.code {
        OpCode::Call | OpCode::CallInd => true,
        OpCode::Copy | OpCode::SubPiece | OpCode::IntZext | OpCode::IntSext => all_leftover(
            g,
            op,
            1,
            depth,
        ),
        OpCode::Indirect => op.creation || all_leftover(g, op, 1, depth),
        OpCode::Piece => all_leftover(g, op, 2, depth),
        OpCode::MultiEqual => all_leftover(g, op, op.inputs.len() as int, depth),
        _ => false,
    }))))
}

/// Are the first `n` inputs of an operation there and left behind by calls.
pub open spec fn all_leftover(g: GraphView, op: OpView, n: int, depth: int) -> bool
    decreases MAX_LEFTOVER_DEPTH - depth, 0int, n,
{
    n <= 0 || (all_leftover(g, op, n - 1, depth) && depth < MAX_LEFTOVER_DEPTH && (op.input(
        n - 1,
    ) matches Some(x) && leftover(g, x, depth + 1)))
}

/// Is `vn` a value that an earlier call left behind, and not one that was put
/// there.
fn is_leftover_call_result(g: &Graph, vn: VarnodeId, depth: u32) -> (r: bool)
    requires
        depth <= MAX_LEFTOVER_DEPTH,
    ensures
        r == leftover(g@, vn, depth as int),
    decreases MAX_LEFTOVER_DEPTH - depth, 1int, 0int,
{
    if depth >= MAX_LEFTOVER_DEPTH {
        return false;
    }
    let v = match g.get_vn(vn) {
        Some(v) => v,
        None => {
            return false;
        },
    };
    let def = match v.def {
        Some(d) => d,
        None => {
            return false;
        },
    };
    let op = match g.get_op(def) {
        Some(o) => o,
        None => {
            return false;
        },
    };
    match op.code {
        OpCode::Call | OpCode::CallInd => true,
        OpCode::Copy | OpCode::SubPiece | OpCode::IntZext | OpCode::IntSext => are_leftover(
            g,
            op,
            1,
            depth,
        ),
        OpCode::Indirect => op.creation || are_leftover(g, op, 1, depth),
        OpCode::Piece => are_leftover(g, op, 2, depth),
        OpCode::MultiEqual => are_leftover(g, op, op.inputs.len(), depth),
        _ => false,
    }
}

/// Are the first `n` inputs there and left behind by calls.
fn are_leftover(g: &Graph, op: &PcodeOp, n: usize, depth: u32) -> (r: bool)
    requires
        depth < MAX_LEFTOVER_DEPTH,
    ensures
        r == all_leftover(g@, op@, n as int, depth as int),
    decreases MAX_LEFTOVER_DEPTH - depth, 0int, n as int,
{
    if n == 0 {
        return true;
    }
    if !are_leftover(g, op, n - 1, depth) {
        return false;
    }
    if n - 1 >= op.inputs.len() {
        return false;
    }
    is_leftover_call_result(g, op.inputs[n - 1], depth + 1)
}

/// The cache and the facts of a function after the first `n` calls: each
/// entry is looked at once, and what the cache holds of it is noted.
pub open spec fn entries_seeded(
    cache: Map<(i32, u64), DeadView>,
    facts: Map<(i32, u64), DeadView>,
    calls: Seq<CallView>,
    n: int,
    code: CodeView,
    reg: i32,
) -> (Map<(i32, u64), DeadView>, Map<(i32, u64), DeadView>)
    decreases n,
{
    if n <= 0 || n > calls.len() {
        (cache, facts)
    } else {
        let (c, f) = entries_seeded(cache, facts, calls, n - 1, code, reg);
        let entry = calls[n - 1].entryaddress;
        match entry.space {
            None => (c, f),
            Some(s) => {
                let key = (s.index, entry.offset);
                let c2 = if c.dom().contains(key) {
                    c
                } else {
                    c.insert(key, probe::probed(code, entry, reg))
                };
                (c2, f.insert(key, c2[key]))
            },
        }
    }
}

/// Looks at the code of every callee that is called directly, unless `cache`
/// holds what it shows, and notes what it shows for the function. With fewer
/// than two calls no call can leave an argument for another one behind.
pub fn seed_callee_entry_dead(
    on: bool,
    calls: &Vec<FuncCallSpecs>,
    code: &Code,
    reg_idx: i32,
    cache: &mut EntryMap<CalleeEntryDead>,
    facts: &mut EntryMap<CalleeEntryDead>,
)
    requires
        code@.wf(),
        old(cache).wf(),
        old(facts).wf(),
    ensures
        final(cache).wf(),
        final(facts).wf(),
        (final(cache)@, final(facts)@) == (if on && calls.len() >= 2 && reg_idx >= 0 {
            entries_seeded(
                old(cache)@,
                old(facts)@,
                link::calls_view(calls@),
                calls.len() as int,
                code@,
                reg_idx,
            )
        } else {
            (old(cache)@, old(facts)@)
        }),
{
    if !on || calls.len() < 2 || reg_idx < 0 {
        return;
    }
    let ghost cv = link::calls_view(calls@);
    let mut i: usize = 0;
    while i < calls.len()
        invariant
            i <= calls.len(),
            code@.wf(),
            cache.wf(),
            facts.wf(),
            cv == link::calls_view(calls@),
            (cache@, facts@) == entries_seeded(
                old(cache)@,
                old(facts)@,
                cv,
                i as int,
                code@,
                reg_idx,
            ),
        decreases calls.len() - i,
    {
        let e = *calls[i].get_entry_address();
        assert(cv[i as int].entryaddress == e);
        if !e.is_invalid() {
            if cache.get(&e).is_none() {
                let probed = probe::probe_callee_entry_dead(code, &e, reg_idx);
                cache.set(&e, Rc::new(probed));
            }
            match cache.get(&e) {
                Some(d) => {
                    facts.set(&e, Rc::clone(d));
                },
                None => {},
            }
        }
        i += 1;
    }
}

/// Is the register not an argument: an earlier call left its value behind,
/// and the callee overwrites it before it reads it.
pub open spec fn dead_in_callee(
    on: bool,
    c: CallView,
    facts: Map<(i32, u64), DeadView>,
    g: GraphView,
    slot: int,
    addr: Address,
    size: int,
) -> bool {
    on && (entrymap::fact_at(facts, c.entryaddress) matches Some(d) && d.dead(addr, size)) && (g.input(
        c.op,
        slot,
    ) matches Some(vn) && leftover(g, vn, 0))
}

/// Does the code of the callee show that a register is not an argument.
pub fn trial_is_dead_in_callee(
    on: bool,
    fc: &FuncCallSpecs,
    facts: &EntryMap<CalleeEntryDead>,
    g: &Graph,
    slot: i32,
    trial_addr: &Address,
    trial_size: i32,
) -> (r: bool)
    requires
        facts.wf(),
    ensures
        r == dead_in_callee(
            on,
            fc@,
            facts@,
            g@,
            slot as int,
            *trial_addr,
            trial_size as int,
        ),
{
    if !on {
        return false;
    }
    match facts.get(fc.get_entry_address()) {
        Some(d) => {
            if !d.proves_dead(trial_addr, trial_size) {
                return false;
            }
        },
        None => {
            return false;
        },
    }
    match g.get_in(fc.get_op(), slot) {
        Some(vn) => is_leftover_call_result(g, vn, 0),
        None => false,
    }
}

/// The code of a callee vetoes no argument that the caller put there: with a
/// function input, a constant or any value that no operation moved there from
/// a call, the argument stays.
pub proof fn law_placed_argument_stays(
    on: bool,
    c: CallView,
    facts: Map<(i32, u64), DeadView>,
    g: GraphView,
    slot: int,
    addr: Address,
    size: int,
    vn: VarnodeId,
)
    requires
        g.input(c.op, slot) == Some(vn),
        g.vn(vn) matches Some(v) ==> (v.def matches Some(def) ==> (g.op(def) matches Some(op) ==> (
        match op.code {
            OpCode::Load | OpCode::IntAdd | OpCode::CallOther | OpCode::Other => true,
            _ => false,
        }))),
    ensures
        !dead_in_callee(on, c, facts, g, slot, addr, size),
{
}

} // verus!
