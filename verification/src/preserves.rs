//! Registers that survive a call although the calling convention lets the
//! callee overwrite them, because the code of the callee does not.
use crate::callspec::{CallView, FuncCallSpecs};
use crate::effects;
use crate::entrymap;
use crate::entrymap::{EntryMap, Fact};
use crate::error::FspecError;
use crate::link;
use crate::options;
use crate::probe;
use crate::space::{AddrSpace, Address, SpaceType, VarnodeData};
use std::rc::Rc;
use vstd::prelude::*;

verus! {

/// The switch that lets the code of a callee keep registers.
#[derive(Debug)]
pub struct OptionCalleePreserves;

impl OptionCalleePreserves {
    /// The name of the switch.
    pub const NAME: &'static str = "calleepreserves";

    /// The setting that the word stands for, and what is said of it.
    pub fn apply(&self, p1: &str) -> (r: Result<(bool, String), FspecError>)
        ensures
            match (options::setting(p1@), r) {
                (Some(b), Ok((v, m))) => v == b && m@ == options::turned(
                    "Callee-body killed-register narrowing"@,
                    b,
                ),
                (None, Err(e)) => e == FspecError::BadSetting,
                _ => false,
            },
    {
        options::turn("Callee-body killed-register narrowing", p1)
    }
}

/// The ranges that the code of a callee writes, as space index, offset and
/// size, and whether all of its code was read.
#[derive(Debug)]
pub struct CalleeReturnWrites {
    pub written: Vec<(i32, u64, i32)>,
    pub complete: bool,
}

/// What a callee writes, in the abstract.
#[verifier::ext_equal]
pub struct WritesView {
    pub written: Seq<(i32, u64, i32)>,
    pub complete: bool,
}

impl View for CalleeReturnWrites {
    type V = WritesView;

    open spec fn view(&self) -> WritesView {
        WritesView { written: self.written@, complete: self.complete }
    }
}

impl WritesView {
    /// The ranges are within the address range.
    pub open spec fn wf(self) -> bool {
        forall|i: int|
            0 <= i < self.written.len() ==> 0 <= (#[trigger] self.written[i]).2 && self.written[i].1
                + self.written[i].2 <= u64::MAX
    }

    /// Is it shown that no byte of a range is written.
    pub open spec fn untouched(self, addr: Address, size: int) -> bool {
        self.complete && size > 0 && addr.offset + size <= u64::MAX && (addr.space matches Some(s)
            && forall|i: int|
            0 <= i < self.written.len() ==> !probe::touches(
                #[trigger] self.written[i],
                s.index,
                addr.offset,
                size,
            ))
    }
}

impl Fact for CalleeReturnWrites {
    open spec fn holds(&self) -> bool {
        self@.wf()
    }
}

impl CalleeReturnWrites {
    /// Is it shown that the callee writes no byte of the range.
    pub fn proves_untouched(&self, addr: &Address, size: i32) -> (r: bool)
        requires
            self@.wf(),
        ensures
            r == self@.untouched(*addr, size as int),
    {
        if !self.complete || size <= 0 || addr.offset > u64::MAX - size as u64 {
            return false;
        }
        let idx: i32 = match addr.space {
            Some(s) => s.index,
            None => {
                return false;
            },
        };
        let end: u64 = addr.offset + size as u64;
        let mut i: usize = 0;
        while i < self.written.len()
            invariant
                i <= self.written.len(),
                self@.wf(),
                addr.space matches Some(s) && s.index == idx,
                end == addr.offset + size,
                forall|k: int|
                    0 <= k < i ==> !probe::touches(
                        #[trigger] self@.written[k],
                        idx,
                        addr.offset,
                        size as int,
                    ),
            decreases self.written.len() - i,
        {
            let (widx, woff, wsz) = self.written[i];
            assert(self@.written[i as int] == (widx, woff, wsz));
            if widx == idx && woff < end && addr.offset < woff + wsz as u64 {
                return false;
            }
            i += 1;
        }
        true
    }
}

/// What is known of the callees of the first `n` calls, noted for a function.
pub open spec fn writes_seeded(
    image: Map<(i32, u64), WritesView>,
    facts: Map<(i32, u64), WritesView>,
    calls: Seq<CallView>,
    n: int,
) -> Map<(i32, u64), WritesView>
    decreases n,
{
    if n <= 0 || n > calls.len() {
        facts
    } else {
        let f = writes_seeded(image, facts, calls, n - 1);
        let entry = calls[n - 1].entryaddress;
        match entrymap::fact_at(image, entry) {
            Some(w) => f.insert((entry.space->0.index, entry.offset), w),
            None => f,
        }
    }
}

/// Notes, for the callees of a function, what their code was seen to write.
pub fn seed_callee_preserves(
    on: bool,
    calls: &Vec<FuncCallSpecs>,
    image: &EntryMap<CalleeReturnWrites>,
    facts: &mut EntryMap<CalleeReturnWrites>,
)
    requires
        image.wf(),
        old(facts).wf(),
    ensures
        final(facts).wf(),
        final(facts)@ == (if on {
            writes_seeded(
                image@,
                old(facts)@,
                link::calls_view(calls@),
                calls@.len() as int,
            )
        } else {
            old(facts)@
        }),
{
    if !on {
        return;
    }
    let ghost cv = link::calls_view(calls@);
    let mut i: usize = 0;
    while i < calls.len()
        invariant
            i <= calls.len(),
            image.wf(),
            facts.wf(),
            cv == link::calls_view(calls@),
            facts@ == writes_seeded(image@, old(facts)@, cv, i as int),
        decreases calls.len() - i,
    {
        let e = *calls[i].get_entry_address();
        assert(cv[i as int].entryaddress == e);
        match image.get(&e) {
            Some(w) => {
                facts.set(&e, Rc::clone(w));
            },
            None => {},
        }
        i += 1;
    }
}

/// The first space with an index from the `i`-th one on.
pub open spec fn space_with(spaces: Seq<AddrSpace>, index: i32, i: int) -> Option<AddrSpace>
    decreases spaces.len() - i,
{
    if i < 0 || i >= spaces.len() {
        None
    } else if spaces[i].index == index {
        Some(spaces[i])
    } else {
        space_with(spaces, index, i + 1)
    }
}

fn find_space(spaces: &Vec<AddrSpace>, index: i32) -> (r: Option<AddrSpace>)
    ensures
        r == space_with(spaces@, index, 0),
{
    let mut i: usize = 0;
    while i < spaces.len()
        invariant
            i <= spaces.len(),
            space_with(spaces@, index, 0) == space_with(spaces@, index, i as int),
        decreases spaces.len() - i,
    {
        if spaces[i].index == index {
            return Some(spaces[i]);
        }
        i += 1;
    }
    None
}

/// Is the range part of the stack pointer.
pub open spec fn on_pointer(w: (i32, u64, i32), pointer: Option<VarnodeData>) -> bool {
    pointer matches Some(p) && (p.space matches Some(s) && probe::touches(
        w,
        s.index,
        p.offset,
        p.size as int,
    ))
}

/// Is the range one that the convention says to survive, and not the stack
/// pointer.
pub open spec fn departs(
    w: (i32, u64, i32),
    c: CallView,
    spaces: Seq<AddrSpace>,
    pointer: Option<VarnodeData>,
) -> bool {
    !on_pointer(w, pointer) && (space_with(spaces, w.0, 0) matches Some(sp) && c.proto.effect(
        Address { space: Some(sp), offset: w.1 },
        w.2 as int,
    ) == effects::UNAFFECTED)
}

/// Does the code of a callee write a register that the convention says to
/// survive, so that it does not follow the convention.
pub open spec fn some_departs(
    w: WritesView,
    c: CallView,
    spaces: Seq<AddrSpace>,
    pointer: Option<VarnodeData>,
) -> bool {
    exists|i: int| 0 <= i < w.written.len() && departs(#[trigger] w.written[i], c, spaces, pointer)
}

/// Does a range survive a call against the convention: a register that the
/// code of the callee does not write, while it breaks the convention
/// elsewhere. A prototype with effects of its own is believed.
pub open spec fn preserved(
    on: bool,
    c: CallView,
    facts: Map<(i32, u64), WritesView>,
    spaces: Seq<AddrSpace>,
    pointer: Option<VarnodeData>,
    addr: Address,
    size: int,
) -> bool {
    on && (addr.space matches Some(s) && s.type_ == SpaceType::Processor)
        && c.proto.effectlist.len() == 0 && (entrymap::fact_at(
        facts,
        c.entryaddress,
    ) matches Some(w) && w.untouched(addr, size) && some_departs(w, c, spaces, pointer))
}

fn body_departs_from_convention(
    fc: &FuncCallSpecs,
    w: &CalleeReturnWrites,
    spaces: &Vec<AddrSpace>,
    pointer: Option<VarnodeData>,
) -> (r: bool)
    requires
        effects::by_address(fc@.proto.own_effects()),
        w@.wf(),
        pointer matches Some(p) ==> probe::ranged(p),
    ensures
        r == some_departs(w@, fc@, spaces@, pointer),
{
    let mut i: usize = 0;
    while i < w.written.len()
        invariant
            i <= w.written.len(),
            effects::by_address(fc@.proto.own_effects()),
            w@.wf(),
            pointer matches Some(p) ==> probe::ranged(p),
            forall|k: int|
                0 <= k < i ==> !departs(#[trigger] w@.written[k], fc@, spaces@, pointer),
        decreases w.written.len() - i,
    {
        let (idx, off, sz) = w.written[i];
        assert(w@.written[i as int] == (idx, off, sz));
        let skip: bool = match pointer {
            Some(p) => match p.space {
                Some(s) => idx == s.index && off < p.offset + p.size as u64 && p.offset < off
                    + sz as u64,
                None => false,
            },
            None => false,
        };
        if !skip {
            match find_space(spaces, idx) {
                Some(sp) => {
                    if fc.proto.has_effect(&Address::new(sp, off), sz) == effects::UNAFFECTED {
                        return true;
                    }
                },
                None => {},
            }
        }
        i += 1;
    }
    false
}

/// Does the code of the callee show that it leaves a range alone. `spaces` are
/// the spaces of the processor, `pointer` is the stack pointer.
pub fn callee_preserves_range(
    on: bool,
    fc: &FuncCallSpecs,
    facts: &EntryMap<CalleeReturnWrites>,
    spaces: &Vec<AddrSpace>,
    pointer: Option<VarnodeData>,
    addr: &Address,
    size: i32,
) -> (r: bool)
    requires
        effects::by_address(fc@.proto.own_effects()),
        facts.wf(),
        pointer matches Some(p) ==> probe::ranged(p),
    ensures
        r == preserved(on, fc@, facts@, spaces@, pointer, *addr, size as int),
{
    if !on {
        return false;
    }
    match addr.space {
        Some(sp) => {
            if sp.type_ != SpaceType::Processor {
                return false;
            }
        },
        None => {
            return false;
        },
    }
    if fc.proto.has_effect_override() {
        return false;
    }
    match facts.get(fc.get_entry_address()) {
        Some(w) => w.proves_untouched(addr, size) && body_departs_from_convention(
            fc,
            w,
            spaces,
            pointer,
        ),
        None => false,
    }
}

/// Code that writes nothing is no evidence that anything survives a call.
pub proof fn law_silent_code_preserves_nothing(
    on: bool,
    c: CallView,
    facts: Map<(i32, u64), WritesView>,
    spaces: Seq<AddrSpace>,
    pointer: Option<VarnodeData>,
    addr: Address,
    size: int,
)
    requires
        entrymap::fact_at(facts, c.entryaddress) matches Some(w) ==> w.written.len() == 0
            || !w.complete,
    ensures
        !preserved(on, c, facts, spaces, pointer, addr, size),
{
}

/// What is kept across a call against the convention is a register of which
/// the whole code of the callee writes no byte, at a call whose prototype has
/// no effects of its own.
pub proof fn law_preserved_is_unwritten(
    on: bool,
    c: CallView,
    facts: Map<(i32, u64), WritesView>,
    spaces: Seq<AddrSpace>,
    pointer: Option<VarnodeData>,
    addr: Address,
    size: int,
    i: int,
    byte: int,
)
    requires
        preserved(on, c, facts, spaces, pointer, addr, size),
        addr.offset <= byte < addr.offset + size,
    ensures
        on,
        addr.space matches Some(s) && s.type_ == SpaceType::Processor,
        c.proto.effectlist.len() == 0,
        entrymap::fact_at(facts, c.entryaddress) matches Some(w) && w.complete && (0 <= i
            < w.written.len() && w.written[i].0 == addr.space->0.index ==> !(w.written[i].1 <= byte
            < w.written[i].1 + w.written[i].2)),
{
    let w = entrymap::fact_at(facts, c.entryaddress)->0;
    if 0 <= i < w.written.len() {
        assert(!probe::touches(w.written[i], addr.space->0.index, addr.offset, size));
    }
}

} // verus!
