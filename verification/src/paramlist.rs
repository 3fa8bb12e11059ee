//! The ordered list of entries through which a convention passes parameters
//! in one direction, and the questions asked of it about storage locations.
use crate::dtype::TypeClass;
use crate::entry;
use crate::entry::{Containment, EntryView, ParamEntry};
use crate::num;
use crate::opcode::OpCode;
use crate::rules::ModelRule;
use crate::space;
use crate::space::{AddrSpace, Address, JoinRecord, SpaceType, VarnodeData};
use vstd::prelude::*;

verus! {

/// The type of a parameter list.
#[derive(Debug, Clone, Copy, PartialEq, Eq, Structural)]
pub enum ParamListType {
    /// Inputs, in order.
    Standard,
    /// Return values.
    StandardOut,
    /// Inputs, in no order.
    Register,
    /// Return values with several possible locations.
    RegisterOut,
    /// Several lists merged.
    Merged,
}

/// The kind of a parameter list, which selects its algorithms.
#[derive(Debug, Clone, Copy, PartialEq, Eq, Structural)]
pub enum ParamListKind {
    Standard,
    StandardOut,
    RegisterOut,
    Register,
    Merged,
}

/// A range of offsets, in the space of the given index, that belongs to the
/// entry at position `entry` of the list.
#[derive(Debug, Clone, Copy, PartialEq, Eq, Structural)]
pub struct ParamEntryRange {
    pub index: i32,
    pub first: u64,
    pub last: u64,
    pub entry: usize,
}

/// A parameter list. `resource_start` holds the first group of each section
/// and, once the list is complete, the number of groups; `resolver` the
/// ranges of the entries, in order.
#[derive(Debug)]
pub struct ParamListStandard {
    pub kind: ParamListKind,
    pub numgroup: i32,
    pub maxdelay: i32,
    pub thisbeforeret: bool,
    pub auto_killed_by_call: bool,
    pub resource_start: Vec<i32>,
    pub entry: Vec<ParamEntry>,
    pub resolver: Vec<ParamEntryRange>,
    pub model_rules: Vec<ModelRule>,
    pub spacebase: Option<AddrSpace>,
    pub use_fillin_fallback: bool,
}

/// A parameter list in the abstract.
#[verifier::ext_equal]
pub struct ListView {
    pub kind: ParamListKind,
    pub numgroup: i32,
    pub maxdelay: i32,
    pub thisbeforeret: bool,
    pub auto_killed_by_call: bool,
    pub resource_start: Seq<i32>,
    pub entry: Seq<EntryView>,
    pub resolver: Seq<ParamEntryRange>,
    pub model_rules: Seq<ModelRule>,
    pub spacebase: Option<AddrSpace>,
    pub use_fillin_fallback: bool,
}

impl View for ParamListStandard {
    type V = ListView;

    open spec fn view(&self) -> ListView {
        ListView {
            kind: self.kind,
            numgroup: self.numgroup,
            maxdelay: self.maxdelay,
            thisbeforeret: self.thisbeforeret,
            auto_killed_by_call: self.auto_killed_by_call,
            resource_start: self.resource_start@,
            entry: entry::entries_view(self.entry@),
            resolver: self.resolver@,
            model_rules: self.model_rules@,
            spacebase: self.spacebase,
            use_fillin_fallback: self.use_fillin_fallback,
        }
    }
}

/// The number under which the ranges of a space are kept.
pub open spec fn resolver_index(s: AddrSpace) -> i32 {
    if s.index < 0 {
        0
    } else {
        s.index
    }
}

/// The ranges of the first `n` pieces of the join entry at position `i`.
pub open spec fn piece_ranges(pieces: Seq<VarnodeData>, n: int, i: int) -> Seq<ParamEntryRange>
    decreases n,
{
    if n <= 0 || n > pieces.len() {
        Seq::empty()
    } else {
        let p = pieces[n - 1];
        piece_ranges(pieces, n - 1, i).push(
            ParamEntryRange {
                index: resolver_index(p.space->0),
                first: p.offset,
                last: num::last_byte(p.offset, p.size as int),
                entry: i as usize,
            },
        )
    }
}

/// The ranges of the entry at position `i`.
pub open spec fn ranges_of(e: EntryView, i: int) -> Seq<ParamEntryRange> {
    match e.joinrec {
        Some(j) => piece_ranges(j.pieces, j.pieces.len() as int, i),
        None => seq![
            ParamEntryRange {
                index: resolver_index(e.spaceid->0),
                first: e.addressbase,
                last: num::last_byte(e.addressbase, e.size as int),
                entry: i as usize,
            },
        ],
    }
}

/// The ranges of the first `n` entries, in order.
pub open spec fn all_ranges(s: Seq<EntryView>, n: int) -> Seq<ParamEntryRange>
    decreases n,
{
    if n <= 0 || n > s.len() {
        Seq::empty()
    } else {
        all_ranges(s, n - 1) + ranges_of(s[n - 1], n - 1)
    }
}

/// How well an entry suits an unreferenced slot for the preferred class.
pub open spec fn unref_score(e: EntryView, pref: TypeClass) -> int {
    if e.type_ == pref {
        2
    } else if pref == TypeClass::General {
        1
    } else {
        0
    }
}

/// The entry of a group, among the first `n`, that suits the preferred class
/// best, the first of several.
pub open spec fn best_unref(s: Seq<EntryView>, n: int, grp: int, pref: TypeClass) -> Option<int>
    decreases n,
{
    if n <= 0 || n > s.len() {
        None
    } else {
        let rest = best_unref(s, n - 1, grp, pref);
        if s[n - 1].group() != grp {
            rest
        } else {
            match rest {
                Some(b) => if unref_score(s[n - 1], pref) > unref_score(s[b], pref) {
                    Some(n - 1)
                } else {
                    rest
                },
                None => Some(n - 1),
            }
        }
    }
}

/// Is the entry at `a` a bigger part of a range than the one at `b`: by size,
/// then by the lower start.
pub open spec fn bigger(a: EntryView, b: EntryView) -> bool {
    a.size > b.size || (a.size == b.size && a.addressbase < b.addressbase)
}

impl ListView {
    /// All entries are in use, with groups counted from 0.
    pub open spec fn wf(self) -> bool {
        &&& forall|i: int|
            0 <= i < self.entry.len() ==> (#[trigger] self.entry[i]).wf()
                && self.entry[i].group_set[0] >= 0
        &&& forall|i: int|
            0 <= i < self.resolver.len() ==> (#[trigger] self.resolver[i]).entry < self.entry.len()
    }

    /// The groups of all entries are below the number of groups.
    pub open spec fn groups_ok(self) -> bool {
        &&& self.numgroup >= 0
        &&& forall|i: int|
            0 <= i < self.entry.len() ==> (#[trigger] self.entry[i]).group_set.last()
                < self.numgroup
    }

    /// The sections are complete: the last boundary is the number of groups.
    pub open spec fn sections_ok(self) -> bool {
        self.resource_start.len() >= 2 && self.resource_start.last() == self.numgroup
    }

    /// The ranges are those of the entries.
    pub open spec fn resolved(self) -> bool {
        self.resolver == all_ranges(self.entry, self.entry.len() as int)
    }

    /// Is the location in a space that can hold ranges.
    pub open spec fn searchable(self, loc: Address) -> bool {
        loc.space matches Some(s) && s.index >= 0
    }

    /// The range at `k` covers the first byte of the location.
    pub open spec fn covers(self, k: int, loc: Address) -> bool {
        &&& self.resolver[k].index == loc.space->0.index
        &&& self.resolver[k].first <= loc.offset <= self.resolver[k].last
    }

    /// The entry that the range at `k` belongs to.
    pub open spec fn owner(self, k: int) -> EntryView {
        self.entry[self.resolver[k].entry as int]
    }

    /// Can the range at `k` hold the `size` bytes at `loc`: its entry contains
    /// them, at its least significant end if `just`.
    pub open spec fn matches_at(self, k: int, loc: Address, size: int, just: bool) -> bool {
        let pos = self.owner(k).justified(loc, size);
        self.covers(k, loc) && self.owner(k).minsize <= size && (if just {
            pos == 0
        } else {
            pos >= 0
        })
    }

    /// The entry of the first range from `k` on that can hold the location.
    pub open spec fn find_from(self, k: int, loc: Address, size: int, just: bool) -> Option<usize>
        decreases self.resolver.len() - k,
    {
        if k < 0 || k >= self.resolver.len() {
            None
        } else if self.matches_at(k, loc, size, just) {
            Some(self.resolver[k].entry)
        } else {
            self.find_from(k + 1, loc, size, just)
        }
    }

    /// The first entry that contains the `size` bytes at `loc`, at its least
    /// significant end if `just`.
    pub open spec fn found(self, loc: Address, size: int, just: bool) -> Option<usize> {
        if self.searchable(loc) {
            self.find_from(0, loc, size, just)
        } else {
            None
        }
    }

    /// Some entry holds the location, justified.
    pub open spec fn holds_justified(self, loc: Address, size: int) -> bool {
        exists|k: int|
            0 <= k < self.resolver.len() && #[trigger] self.covers(k, loc) && self.owner(
                k,
            ).justified(loc, size) == 0
    }

    /// Some entry holds the location, away from its least significant end.
    pub open spec fn holds_unjustified(self, loc: Address, size: int) -> bool {
        exists|k: int|
            0 <= k < self.resolver.len() && #[trigger] self.covers(k, loc) && self.owner(
                k,
            ).justified(loc, size) > 0
    }

    /// The range at `k` is in the space of `loc` and its entry lies within the
    /// `size` bytes there.
    pub open spec fn inside_at(self, k: int, loc: Address, size: int) -> bool {
        self.resolver[k].index == loc.space->0.index && self.owner(k).within(loc, size)
    }

    /// Some exclusive entry lies within the location.
    pub open spec fn lies_within(self, loc: Address, size: int) -> bool {
        exists|k: int|
            0 <= k < self.resolver.len() && #[trigger] self.inside_at(k, loc, size) && self.owner(
                k,
            ).exclusion()
    }

    /// How the `size` bytes at `loc` relate to the entries.
    pub open spec fn characterized(self, loc: Address, size: int) -> Containment {
        if !self.searchable(loc) {
            Containment::NoContainment
        } else if self.holds_justified(loc, size) {
            Containment::ContainsJustified
        } else if self.holds_unjustified(loc, size) {
            Containment::ContainsUnjustified
        } else if self.lies_within(loc, size) {
            Containment::ContainedBy
        } else {
            Containment::NoContainment
        }
    }

    /// Can the location pass a parameter at all.
    pub open spec fn possible(self, loc: Address, size: int) -> bool {
        if self.kind == ParamListKind::StandardOut || self.kind == ParamListKind::RegisterOut {
            exists|i: int|
                0 <= i < self.entry.len() && (#[trigger] self.entry[i]).justified(loc, size) >= 0
        } else {
            self.found(loc, size, true) is Some
        }
    }

    /// How many slots the `size` bytes take in the entry at `i`.
    pub open spec fn slot_size(self, i: int, size: int) -> i32 {
        if self.entry[i].exclusion() {
            self.entry[i].group_set.len() as i32
        } else {
            (num::tdiv(size - 1, self.entry[i].alignment as int) + 1) as i32
        }
    }

    /// Of the first `n` ranges, the entry that is the biggest within the
    /// `size` bytes at `loc`.
    pub open spec fn biggest(self, n: int, loc: Address, size: int) -> Option<usize>
        decreases n,
    {
        if n <= 0 || n > self.resolver.len() {
            None
        } else {
            let rest = self.biggest(n - 1, loc, size);
            if !self.inside_at(n - 1, loc, size) {
                rest
            } else {
                match rest {
                    Some(b) => if bigger(self.owner(n - 1), self.entry[b as int]) {
                        Some(self.resolver[n - 1].entry)
                    } else {
                        rest
                    },
                    None => Some(self.resolver[n - 1].entry),
                }
            }
        }
    }

    /// The biggest entry within the `size` bytes at `loc`, provided that it is
    /// exclusive.
    pub open spec fn biggest_contained(self, loc: Address, size: int) -> Option<VarnodeData> {
        if !self.searchable(loc) || loc.plus(size - 1).offset < loc.offset {
            None
        } else {
            match self.biggest(self.resolver.len() as int, loc, size) {
                Some(b) => if self.entry[b as int].exclusion() {
                    Some(self.entry[b as int].whole())
                } else {
                    None
                },
                None => None,
            }
        }
    }

    /// The first entry from `i` on that holds the location at all.
    pub open spec fn first_holder(self, i: int, loc: Address, size: int) -> Option<int>
        decreases self.entry.len() - i,
    {
        if i < 0 || i >= self.entry.len() {
            None
        } else if self.entry[i].minsize <= size && self.entry[i].justified(loc, size) >= 0 {
            Some(i)
        } else {
            self.first_holder(i + 1, loc, size)
        }
    }

    /// Does the first entry that holds the location hold it away from its
    /// least significant end.
    pub open spec fn unjustified(self, loc: Address, size: int) -> bool {
        self.first_holder(0, loc, size) matches Some(i) && self.entry[i].justified(loc, size) != 0
    }

    /// The first entry from `i` on that extends the value at the location.
    pub open spec fn first_extender(self, i: int, loc: Address, size: int) -> Option<int>
        decreases self.entry.len() - i,
    {
        if i < 0 || i >= self.entry.len() {
            None
        } else if self.entry[i].minsize <= size && self.entry[i].extends(loc, size) {
            Some(i)
        } else {
            self.first_extender(i + 1, loc, size)
        }
    }

    /// Are the two locations the halves of an aligned value in one resource, or
    /// of a value in one larger entry.
    pub open spec fn joinable(self, hi: Address, hisize: int, lo: Address, losize: int) -> bool {
        match (self.found(hi, hisize, true), self.found(lo, losize, true)) {
            (Some(a), Some(b)) => {
                let x = self.entry[a as int];
                let y = self.entry[b as int];
                if x.group() == y.group() {
                    &&& !x.exclusion() && !y.exclusion()
                    &&& hi.contiguous(hisize, lo, losize)
                    &&& num::wadd(hi.offset, -(x.addressbase as int)) as int % x.alignment as int
                        == 0
                    &&& num::wadd(lo.offset, -(y.addressbase as int)) as int % y.alignment as int
                        == 0
                } else {
                    exists|i: int|
                        0 <= i < self.entry.len() && (#[trigger] self.entry[i]).size >= hisize
                            + losize && self.entry[i].justified(lo, losize) == 0
                            && self.entry[i].justified(hi, hisize) == losize
                }
            },
            _ => false,
        }
    }

    /// Can the location be split into two parameters.
    pub open spec fn splittable(self, loc: Address, size: int, splitpoint: int) -> bool {
        self.found(loc, splitpoint, true) is Some && self.found(
            loc.plus(splitpoint),
            size - splitpoint,
            true,
        ) is Some
    }

    /// The stack resource, if it closes the list.
    pub open spec fn stack_entry(self) -> Option<usize> {
        if self.entry.len() > 0 && !self.entry.last().exclusion() && (
        self.entry.last().spaceid matches Some(s) && s.type_ == SpaceType::Spacebase) {
            Some((self.entry.len() - 1) as usize)
        } else {
            None
        }
    }
}

/// The largest delay of the spaces of the first `n` entries, at least 0.
pub open spec fn delay_of(s: Seq<EntryView>, n: int) -> i32
    decreases n,
{
    if n <= 0 || n > s.len() {
        0
    } else {
        let rest = delay_of(s, n - 1);
        let d = s[n - 1].spaceid->0.delay;
        if d > rest {
            d
        } else {
            rest
        }
    }
}

/// Positions, among the first `n`, of the exclusive entries of one class with
/// a single group.
pub open spec fn tiles_of(s: Seq<EntryView>, n: int, class: TypeClass) -> Seq<usize>
    decreases n,
{
    if n <= 0 || n > s.len() {
        Seq::empty()
    } else if s[n - 1].exclusion() && s[n - 1].type_ == class && s[n - 1].group_set.len() == 1 {
        tiles_of(s, n - 1, class).push((n - 1) as usize)
    } else {
        tiles_of(s, n - 1, class)
    }
}

impl ParamListStandard {
    pub fn new(kind: ParamListKind) -> (r: ParamListStandard)
        ensures
            r@ == (ListView {
                kind,
                numgroup: 0,
                maxdelay: 0,
                thisbeforeret: false,
                auto_killed_by_call: false,
                resource_start: Seq::empty(),
                entry: Seq::empty(),
                resolver: Seq::empty(),
                model_rules: Seq::empty(),
                spacebase: None,
                use_fillin_fallback: true,
            }),
    {
        let r = ParamListStandard {
            kind,
            numgroup: 0,
            maxdelay: 0,
            thisbeforeret: false,
            auto_killed_by_call: false,
            resource_start: Vec::new(),
            entry: Vec::new(),
            resolver: Vec::new(),
            model_rules: Vec::new(),
            spacebase: None,
            use_fillin_fallback: true,
        };
        assert(r@.entry =~= Seq::empty());
        r
    }

    pub fn get_entry(&self) -> (r: &[ParamEntry])
        ensures
            r@ == self.entry@,
    {
        self.entry.as_slice()
    }

    pub fn get_type(&self) -> (r: ParamListType)
        ensures
            r == (match self.kind {
                ParamListKind::Standard => ParamListType::Standard,
                ParamListKind::StandardOut => ParamListType::StandardOut,
                ParamListKind::RegisterOut => ParamListType::RegisterOut,
                ParamListKind::Register => ParamListType::Register,
                ParamListKind::Merged => ParamListType::Merged,
            }),
    {
        match self.kind {
            ParamListKind::Standard => ParamListType::Standard,
            ParamListKind::StandardOut => ParamListType::StandardOut,
            ParamListKind::RegisterOut => ParamListType::RegisterOut,
            ParamListKind::Register => ParamListType::Register,
            ParamListKind::Merged => ParamListType::Merged,
        }
    }

    /// Are the resources big endian: as the first entry is.
    pub fn is_big_endian(&self) -> (r: bool)
        requires
            self@.entry.len() > 0,
            self@.entry[0].spaceid is Some,
        ensures
            r == self@.entry[0].base().big_endian(),
    {
        self.entry[0].get_space().is_big_endian()
    }

    pub fn get_spacebase(&self) -> (r: Option<AddrSpace>)
        ensures
            r == self.spacebase,
    {
        self.spacebase
    }

    pub fn is_this_before_ret_pointer(&self) -> (r: bool)
        ensures
            r == self.thisbeforeret,
    {
        self.thisbeforeret
    }

    pub fn get_max_delay(&self) -> (r: i32)
        ensures
            r == self.maxdelay,
    {
        self.maxdelay
    }

    pub fn is_auto_killed_by_call(&self) -> (r: bool)
        ensures
            r == self.auto_killed_by_call,
    {
        self.auto_killed_by_call
    }

    /// Append the positions of the exclusive, single-group entries of a class.
    pub fn extract_tiles(&self, tiles: &mut Vec<usize>, type_: TypeClass)
        ensures
            final(tiles)@ == old(tiles)@ + tiles_of(self@.entry, self@.entry.len() as int, type_),
    {
        let mut i: usize = 0;
        assert(tiles@ =~= old(tiles)@ + tiles_of(self@.entry, 0, type_));
        while i < self.entry.len()
            invariant
                i <= self.entry.len(),
                tiles@ == old(tiles)@ + tiles_of(self@.entry, i as int, type_),
            decreases self.entry.len() - i,
        {
            let e = &self.entry[i];
            assert(self@.entry[i as int] == e@);
            if e.is_exclusion() && e.get_type() == type_ && e.group_set.len() == 1 {
                tiles.push(i);
            }
            i += 1;
            assert(tiles@ =~= old(tiles)@ + tiles_of(self@.entry, i as int, type_));
        }
    }

    /// The position of the stack resource, if it closes the list.
    pub fn get_stack_entry(&self) -> (r: Option<usize>)
        requires
            self@.wf(),
        ensures
            r == self@.stack_entry(),
    {
        if self.entry.len() == 0 {
            return None;
        }
        let last = &self.entry[self.entry.len() - 1];
        assert(self@.entry.last() == last@);
        if !last.is_exclusion() && last.get_space().type_ == SpaceType::Spacebase {
            return Some(self.entry.len() - 1);
        }
        None
    }

    /// The first entry that contains the `size` bytes at `loc`, at its least
    /// significant end if `just`.
    pub fn find_entry(&self, loc: &Address, size: i32, just: bool) -> (r: Option<usize>)
        requires
            self@.wf(),
        ensures
            r == self@.found(*loc, size as int, just),
            r matches Some(i) ==> i < self@.entry.len(),
    {
        let index: i32 = match loc.space {
            Some(s) => s.index,
            None => return None,
        };
        if index < 0 {
            return None;
        }
        let mut k: usize = 0;
        while k < self.resolver.len()
            invariant
                k <= self.resolver.len(),
                self@.wf(),
                self@.searchable(*loc),
                index == loc.space->0.index,
                self@.find_from(0, *loc, size as int, just) == self@.find_from(
                    k as int,
                    *loc,
                    size as int,
                    just,
                ),
            decreases self.resolver.len() - k,
        {
            let rec = self.resolver[k];
            assert(self@.resolver[k as int] == rec);
            if rec.index == index && rec.first <= loc.offset && loc.offset <= rec.last {
                let e = &self.entry[rec.entry];
                assert(self@.entry[rec.entry as int] == e@);
                if e.minsize <= size {
                    let pos: i32 = e.justified_contain(loc, size);
                    if pos == 0 || (!just && pos > 0) {
                        return Some(rec.entry);
                    }
                }
            }
            k += 1;
        }
        None
    }

    /// The entry of group `grp` that suits the preferred class best.
    pub fn select_unreference_entry(&self, grp: i32, pref_type: TypeClass) -> (r: Option<usize>)
        requires
            self@.wf(),
        ensures
            match (r, best_unref(self@.entry, self@.entry.len() as int, grp as int, pref_type)) {
                (Some(i), Some(k)) => i == k && i < self@.entry.len(),
                (None, None) => true,
                _ => false,
            },
    {
        let mut best: Option<usize> = None;
        let mut best_score: i32 = -1;
        let mut i: usize = 0;
        while i < self.entry.len()
            invariant
                i <= self.entry.len(),
                self@.wf(),
                match (best, best_unref(self@.entry, i as int, grp as int, pref_type)) {
                    (Some(b), Some(k)) => b == k && b < i && best_score == unref_score(
                        self@.entry[k],
                        pref_type,
                    ),
                    (None, None) => best_score == -1,
                    _ => false,
                },
            decreases self.entry.len() - i,
        {
            let e = &self.entry[i];
            assert(self@.entry[i as int] == e@);
            assert(self@.entry[i as int].wf());
            if e.get_group() == grp {
                let score: i32 = if e.type_ == pref_type {
                    2
                } else if pref_type == TypeClass::General {
                    1
                } else {
                    0
                };
                if score > best_score {
                    best_score = score;
                    best = Some(i);
                }
            }
            i += 1;
        }
        best
    }

    /// How the `size` bytes at `loc` relate to parameter storage.
    pub fn characterize_as_param(&self, loc: &Address, size: i32) -> (r: Containment)
        requires
            self@.wf(),
        ensures
            r == self@.characterized(*loc, size as int),
    {
        let index: i32 = match loc.space {
            Some(s) => s.index,
            None => return Containment::NoContainment,
        };
        if index < 0 {
            return Containment::NoContainment;
        }
        let mut contains = false;
        let mut contained_by = false;
        let mut k: usize = 0;
        while k < self.resolver.len()
            invariant
                k <= self.resolver.len(),
                self@.wf(),
                self@.searchable(*loc),
                index == loc.space->0.index,
                forall|m: int|
                    0 <= m < k ==> !(#[trigger] self@.covers(m, *loc) && self@.owner(m).justified(
                        *loc,
                        size as int,
                    ) == 0),
                contains == exists|m: int|
                    0 <= m < k && #[trigger] self@.covers(m, *loc) && self@.owner(m).justified(
                        *loc,
                        size as int,
                    ) > 0,
                contained_by == exists|m: int|
                    0 <= m < k && #[trigger] self@.inside_at(m, *loc, size as int) && self@.owner(
                        m,
                    ).exclusion(),
            decreases self.resolver.len() - k,
        {
            let rec = self.resolver[k];
            assert(self@.resolver[k as int] == rec);
            if rec.index == index {
                let e = &self.entry[rec.entry];
                assert(self@.owner(k as int) == e@);
                assert(self@.entry[rec.entry as int].wf());
                if rec.first <= loc.offset && loc.offset <= rec.last {
                    assert(self@.covers(k as int, *loc));
                    let off: i32 = e.justified_contain(loc, size);
                    if off == 0 {
                        return Containment::ContainsJustified;
                    } else if off > 0 {
                        contains = true;
                    }
                }
                if e.is_exclusion() && e.contained_by(loc, size) {
                    assert(self@.inside_at(k as int, *loc, size as int));
                    contained_by = true;
                }
            }
            k += 1;
        }
        if contains {
            return Containment::ContainsUnjustified;
        }
        if contained_by {
            return Containment::ContainedBy;
        }
        Containment::NoContainment
    }

    /// Can the `size` bytes at `loc` pass a parameter.
    pub fn possible_param(&self, loc: &Address, size: i32) -> (r: bool)
        requires
            self@.wf(),
        ensures
            r == self@.possible(*loc, size as int),
    {
        match self.kind {
            ParamListKind::StandardOut | ParamListKind::RegisterOut => {
                let mut i: usize = 0;
                while i < self.entry.len()
                    invariant
                        i <= self.entry.len(),
                        self@.wf(),
                        self.kind == ParamListKind::StandardOut || self.kind
                            == ParamListKind::RegisterOut,
                        forall|k: int|
                            0 <= k < i ==> (#[trigger] self@.entry[k]).justified(*loc, size as int)
                                < 0,
                    decreases self.entry.len() - i,
                {
                    assert(self@.entry[i as int] == self.entry@[i as int]@);
                    if self.entry[i].justified_contain(loc, size) >= 0 {
                        return true;
                    }
                    i += 1;
                }
                false
            },
            _ => self.find_entry(loc, size, true).is_some(),
        }
    }

    /// Pass back the slot of the location and how many slots it takes; false,
    /// changing nothing, if no entry holds it.
    pub fn possible_param_with_slot(
        &self,
        loc: &Address,
        size: i32,
        slot: &mut i32,
        slotsize: &mut i32,
    ) -> (r: bool)
        requires
            self@.wf(),
        ensures
            match self@.found(*loc, size as int, true) {
                Some(i) => r && *final(slot) == self@.entry[i as int].slot_at(*loc, 0) as i32
                    && *final(slotsize) == self@.slot_size(i as int, size as int),
                None => !r && *final(slot) == *old(slot) && *final(slotsize) == *old(slotsize),
            },
    {
        let idx: usize = match self.find_entry(loc, size, true) {
            Some(i) => i,
            None => return false,
        };
        let e = &self.entry[idx];
        assert(self@.entry[idx as int] == e@);
        *slot = e.get_slot(loc, 0);
        if e.is_exclusion() {
            *slotsize = e.group_set.len() as i32;
        } else {
            proof {
                entry::lemma_tdiv_bound(size - 1, e.alignment as int);
            }
            *slotsize = (num::trunc_div(size as i64 - 1, e.alignment as i64) + 1) as i32;
        }
        true
    }

    /// Pass back the biggest entry within the `size` bytes at `loc`; false,
    /// changing nothing, if there is none or it is not exclusive.
    pub fn get_biggest_contained_param(
        &self,
        loc: &Address,
        size: i32,
        res: &mut VarnodeData,
    ) -> (r: bool)
        requires
            self@.wf(),
        ensures
            r == (self@.biggest_contained(*loc, size as int) is Some),
            *final(res) == (match self@.biggest_contained(*loc, size as int) {
                Some(v) => v,
                None => *old(res),
            }),
    {
        let index: i32 = match loc.space {
            Some(s) => s.index,
            None => return false,
        };
        if index < 0 {
            return false;
        }
        let end_loc = loc.advance(size as i64 - 1);
        if end_loc.offset < loc.offset {
            return false;
        }
        let mut max_entry: Option<usize> = None;
        let mut k: usize = 0;
        while k < self.resolver.len()
            invariant
                k <= self.resolver.len(),
                self@.wf(),
                self@.searchable(*loc),
                index == loc.space->0.index,
                max_entry == self@.biggest(k as int, *loc, size as int),
                max_entry matches Some(m) ==> m < self.entry.len(),
            decreases self.resolver.len() - k,
        {
            let rec = self.resolver[k];
            assert(self@.resolver[k as int] == rec);
            if rec.index == index {
                let e = &self.entry[rec.entry];
                assert(self@.owner(k as int) == e@);
                if e.contained_by(loc, size) {
                    match max_entry {
                        None => {
                            max_entry = Some(rec.entry);
                        },
                        Some(m) => {
                            let b = &self.entry[m];
                            assert(self@.entry[m as int] == b@);
                            if e.size > b.size || (e.size == b.size && e.addressbase
                                < b.addressbase) {
                                max_entry = Some(rec.entry);
                            }
                        },
                    }
                }
            }
            k += 1;
        }
        if let Some(m) = max_entry {
            let me = &self.entry[m];
            assert(self@.entry[m as int] == me@);
            if !me.is_exclusion() {
                return false;
            }
            *res = VarnodeData {
                space: me.spaceid,
                offset: me.addressbase,
                size: me.size as u32,
            };
            return true;
        }
        false
    }

    /// Is the location held away from the least significant end of the first
    /// entry that holds it. Then what surrounds it there, if it can be told,
    /// is passed back.
    pub fn unjustified_container(&self, loc: &Address, size: i32, res: &mut VarnodeData) -> (r:
        bool)
        requires
            self@.wf(),
        ensures
            r == self@.unjustified(*loc, size as int),
            *final(res) == (if r {
                match self@.entry[self@.first_holder(0, *loc, size as int)->0].container(
                    *loc,
                    size as int,
                ) {
                    Some(v) => v,
                    None => *old(res),
                }
            } else {
                *old(res)
            }),
    {
        let mut i: usize = 0;
        while i < self.entry.len()
            invariant
                i <= self.entry.len(),
                self@.wf(),
                *res == *old(res),
                self@.first_holder(0, *loc, size as int) == self@.first_holder(
                    i as int,
                    *loc,
                    size as int,
                ),
            decreases self.entry.len() - i,
        {
            let e = &self.entry[i];
            assert(self@.entry[i as int] == e@);
            if e.minsize <= size {
                let just: i32 = e.justified_contain(loc, size);
                if just == 0 {
                    return false;
                }
                if just > 0 {
                    e.get_container(loc, size, res);
                    return true;
                }
            }
            i += 1;
        }
        false
    }

    /// The extension to expect for the value at the location; where there is
    /// one, the extended container is passed back.
    pub fn assumed_extension(&self, addr: &Address, size: i32, res: &mut VarnodeData) -> (r: OpCode)
        requires
            self@.wf(),
        ensures
            match self@.first_extender(0, *addr, size as int) {
                Some(i) => r == self@.entry[i].extension_op(*addr, size as int) && *final(res)
                    == self@.entry[i].extension_container(*addr),
                None => r == OpCode::Copy && *final(res) == *old(res),
            },
    {
        let mut i: usize = 0;
        while i < self.entry.len()
            invariant
                i <= self.entry.len(),
                self@.wf(),
                *res == *old(res),
                self@.first_extender(0, *addr, size as int) == self@.first_extender(
                    i as int,
                    *addr,
                    size as int,
                ),
            decreases self.entry.len() - i,
        {
            let e = &self.entry[i];
            assert(self@.entry[i as int] == e@);
            if e.minsize <= size {
                let ext = e.assumed_extension(addr, size, res);
                if ext != OpCode::Copy {
                    return ext;
                }
            }
            i += 1;
        }
        OpCode::Copy
    }

    /// Can the two locations be the halves of one parameter.
    pub fn check_join(&self, hiaddr: &Address, hisize: i32, loaddr: &Address, losize: i32) -> (r:
        bool)
        requires
            self@.wf(),
        ensures
            r == self@.joinable(*hiaddr, hisize as int, *loaddr, losize as int),
    {
        let entry_hi: usize = match self.find_entry(hiaddr, hisize, true) {
            Some(i) => i,
            None => return false,
        };
        let entry_lo: usize = match self.find_entry(loaddr, losize, true) {
            Some(i) => i,
            None => return false,
        };
        let e_hi = &self.entry[entry_hi];
        let e_lo = &self.entry[entry_lo];
        assert(self@.entry[entry_hi as int] == e_hi@);
        assert(self@.entry[entry_lo as int] == e_lo@);
        if e_hi.get_group() == e_lo.get_group() {
            if e_hi.is_exclusion() || e_lo.is_exclusion() {
                return false;
            }
            if !hiaddr.is_contiguous(hisize, loaddr, losize) {
                return false;
            }
            if hiaddr.offset.wrapping_sub(e_hi.addressbase) % (e_hi.alignment as u64) != 0 {
                return false;
            }
            if loaddr.offset.wrapping_sub(e_lo.addressbase) % (e_lo.alignment as u64) != 0 {
                return false;
            }
            return true;
        }
        let sizesum: i64 = hisize as i64 + losize as i64;
        let mut i: usize = 0;
        while i < self.entry.len()
            invariant
                i <= self.entry.len(),
                self@.wf(),
                sizesum == hisize + losize,
                forall|k: int|
                    0 <= k < i ==> !((#[trigger] self@.entry[k]).size >= sizesum
                        && self@.entry[k].justified(*loaddr, losize as int) == 0
                        && self@.entry[k].justified(*hiaddr, hisize as int) == losize),
                self@.found(*hiaddr, hisize as int, true) matches Some(a) && self@.found(
                    *loaddr,
                    losize as int,
                    true,
                ) matches Some(b) && self@.entry[a as int].group() != self@.entry[b as int].group(),
            decreases self.entry.len() - i,
        {
            let e = &self.entry[i];
            assert(self@.entry[i as int] == e@);
            if e.size as i64 >= sizesum && e.justified_contain(loaddr, losize) == 0
                && e.justified_contain(hiaddr, hisize) == losize {
                return true;
            }
            i += 1;
        }
        false
    }

    /// Can the location be split into two parameters at `splitpoint`.
    pub fn check_split(&self, loc: &Address, size: i32, splitpoint: i32) -> (r: bool)
        requires
            self@.wf(),
            i32::MIN <= size - splitpoint <= i32::MAX,
        ensures
            r == self@.splittable(*loc, size as int, splitpoint as int),
    {
        let loc2 = loc.advance(splitpoint as i64);
        let size2: i32 = size - splitpoint;
        if self.find_entry(loc, splitpoint, true).is_none() {
            return false;
        }
        self.find_entry(&loc2, size2, true).is_some()
    }

    /// Recompute the largest delay of the entries' spaces.
    pub fn calc_delay(&mut self)
        requires
            old(self)@.wf(),
        ensures
            final(self)@ == (ListView {
                maxdelay: delay_of(old(self)@.entry, old(self)@.entry.len() as int),
                ..old(self)@
            }),
            final(self).entry@ == old(self).entry@,
    {
        let mut d: i32 = 0;
        let mut i: usize = 0;
        while i < self.entry.len()
            invariant
                i <= self.entry.len(),
                *self == *old(self),
                self@.wf(),
                d == delay_of(self@.entry, i as int),
            decreases self.entry.len() - i,
        {
            assert(self@.entry[i as int] == self.entry@[i as int]@);
            let delay: i32 = self.entry[i].get_space().delay;
            if delay > d {
                d = delay;
            }
            i += 1;
        }
        self.maxdelay = d;
    }

    /// Add a range of the entry at position `param_entry`.
    fn add_resolver_range(&mut self, spc: &AddrSpace, first: u64, last: u64, param_entry: usize)
        ensures
            final(self)@ == (ListView {
                resolver: old(self)@.resolver.push(
                    ParamEntryRange {
                        index: resolver_index(*spc),
                        first,
                        last,
                        entry: param_entry,
                    },
                ),
                ..old(self)@
            }),
            final(self).entry@ == old(self).entry@,
    {
        let index: i32 = if spc.index < 0 {
            0
        } else {
            spc.index
        };
        self.resolver.push(ParamEntryRange { index, first, last, entry: param_entry });
    }

    /// Rebuild the ranges from the entries.
    pub fn populate_resolver(&mut self)
        requires
            forall|i: int|
                0 <= i < old(self)@.entry.len() ==> (#[trigger] old(self)@.entry[i]).wf(),
        ensures
            final(self)@ == (ListView {
                resolver: all_ranges(old(self)@.entry, old(self)@.entry.len() as int),
                ..old(self)@
            }),
            final(self)@.resolved(),
            final(self).entry@ == old(self).entry@,
    {
        let ghost es = self@.entry;
        self.resolver = Vec::new();
        let mut i: usize = 0;
        while i < self.entry.len()
            invariant
                i <= self.entry.len(),
                es == old(self)@.entry,
                self.entry@ == old(self).entry@,
                self@ == (ListView { resolver: all_ranges(es, i as int), ..old(self)@ }),
                forall|k: int| 0 <= k < es.len() ==> (#[trigger] es[k]).wf(),
            decreases self.entry.len() - i,
        {
            let ghost done = self@.resolver;
            assert(es[i as int] == self.entry@[i as int]@);
            assert(es[i as int].wf());
            let join: Option<JoinRecord> = match &self.entry[i].joinrec {
                Some(j) => Some(j.copy()),
                None => None,
            };
            if let Some(j) = join {
                let ghost pieces = j.pieces@;
                assert(es[i as int].joinrec matches Some(v) && v.pieces == pieces);
                let mut k: usize = 0;
                assert(done =~= done + piece_ranges(pieces, 0, i as int));
                while k < j.pieces.len()
                    invariant
                        k <= j.pieces.len(),
                        pieces == j.pieces@,
                        i < self.entry.len(),
                        space::pieces_ok(pieces),
                        es == old(self)@.entry,
                        self.entry@ == old(self).entry@,
                        self@ == (ListView {
                            resolver: done + piece_ranges(pieces, k as int, i as int),
                            ..old(self)@
                        }),
                    decreases j.pieces.len() - k,
                {
                    let p = j.pieces[k];
                    assert(pieces[k as int].space is Some);
                    proof {
                        space::lemma_pieces_size_step(pieces, k as int);
                    }
                    let last: u64 = num::last_byte_of(p.offset, p.size as i32);
                    let spc = p.space.unwrap();
                    self.add_resolver_range(&spc, p.offset, last, i);
                    k += 1;
                    assert(self@.resolver =~= done + piece_ranges(pieces, k as int, i as int));
                }
            } else {
                let spc = self.entry[i].get_space();
                let first: u64 = self.entry[i].addressbase;
                let last: u64 = num::last_byte_of(first, self.entry[i].size);
                self.add_resolver_range(&spc, first, last, i);
                assert(self@.resolver =~= done + ranges_of(es[i as int], i as int));
            }
            i += 1;
        }
    }
}

} // verus!
