//! Building parameter lists: declaring entries and rules, closing the list,
//! copying it and merging it with another.
use crate::dtype;
use crate::dtype::TypeClass;
use crate::entry;
use crate::entry::{EntryView, ParamEntry};
use crate::error::FspecError;
use crate::num;
use crate::paramlist;
use crate::paramlist::{ListView, ParamListStandard};
use crate::rules::{AssignAction, ModelRule};
use crate::space;
use crate::space::{AddrSpace, SpaceType};
use vstd::prelude::*;

verus! {

/// A range of offsets in a space, both ends included.
#[derive(Debug, Clone, Copy, PartialEq, Eq, Structural)]
pub struct Range {
    pub space: AddrSpace,
    pub first: u64,
    pub last: u64,
}

/// A set of offsets, held as ranges.
#[derive(Debug)]
pub struct RangeList {
    pub ranges: Vec<Range>,
}

impl Range {
    pub open spec fn has(self, spc: AddrSpace, off: u64) -> bool {
        self.space == spc && self.first <= off <= self.last
    }
}

impl RangeList {
    /// Is the offset in the set.
    pub open spec fn has(self, spc: AddrSpace, off: u64) -> bool {
        exists|i: int| 0 <= i < self.ranges@.len() && (#[trigger] self.ranges@[i]).has(spc, off)
    }

    pub fn new() -> (r: RangeList)
        ensures
            r.ranges@ == Seq::<Range>::empty(),
    {
        RangeList { ranges: Vec::new() }
    }

    /// Add the offsets from `first` to `last`.
    pub fn insert_range(&mut self, spc: AddrSpace, first: u64, last: u64)
        ensures
            final(self).ranges@ == old(self).ranges@.push(Range { space: spc, first, last }),
    {
        self.ranges.push(Range { space: spc, first, last });
    }
}

/// The class that an entry counts for in the sections of a list.
pub open spec fn section_class(e: EntryView) -> TypeClass {
    if e.flags.is_grouped {
        TypeClass::General
    } else {
        e.type_
    }
}

/// The class of the section that the next entry continues.
pub open spec fn last_class(s: Seq<EntryView>) -> TypeClass {
    if s.len() == 0 {
        TypeClass::Class4
    } else {
        section_class(s.last())
    }
}

/// Does the entry open a section: its class differs and does not rank above
/// the last one.
pub open spec fn opens_section(s: Seq<EntryView>, e: EntryView) -> bool {
    last_class(s) != section_class(e) && dtype::class_rank(last_class(s)) >= dtype::class_rank(
        section_class(e),
    )
}

/// The list with the entry `e` appended.
pub open spec fn with_entry(l: ListView, e: EntryView) -> ListView {
    ListView {
        resource_start: if opens_section(l.entry, e) {
            l.resource_start.push(e.group_set[0])
        } else {
            l.resource_start
        },
        spacebase: if e.spaceid->0.type_ == SpaceType::Spacebase {
            e.spaceid
        } else {
            l.spacebase
        },
        numgroup: if e.group_set.last() + 1 > l.numgroup {
            (e.group_set.last() + 1) as i32
        } else {
            l.numgroup
        },
        entry: l.entry.push(e),
        ..l
    }
}

/// Does one of the rules from `k` on recognise return values.
pub open spec fn some_output_rule(rules: Seq<ModelRule>) -> bool {
    exists|i: int| 0 <= i < rules.len() && (#[trigger] rules[i]).affects_output()
}

/// The list after its rules have been looked through.
pub open spec fn initialized(l: ListView) -> ListView {
    ListView {
        use_fillin_fallback: !some_output_rule(l.model_rules),
        auto_killed_by_call: l.auto_killed_by_call || !some_output_rule(l.model_rules),
        ..l
    }
}

/// The list once all entries have been declared.
pub open spec fn finished(l: ListView) -> ListView {
    initialized(
        ListView {
            resource_start: l.resource_start.push(l.numgroup),
            maxdelay: paramlist::delay_of(l.entry, l.entry.len() as int),
            resolver: paramlist::all_ranges(l.entry, l.entry.len() as int),
            ..l
        },
    )
}

/// The first entry from `i` on that subsumes `e` or is subsumed by it.
pub open spec fn related(s: Seq<EntryView>, i: int, e: EntryView) -> Option<int>
    decreases s.len() - i,
{
    if i < 0 || i >= s.len() {
        None
    } else if s[i].subsumes(e) || e.subsumes(s[i]) {
        Some(i)
    } else {
        related(s, i + 1, e)
    }
}

/// The entries with `e` merged in: dropped if an entry of the same minimum
/// size subsumes it, in the place of one that it subsumes, else appended.
pub open spec fn merge_one(s: Seq<EntryView>, e: EntryView) -> Seq<EntryView> {
    match related(s, 0, e) {
        Some(i) => if s[i].minsize != e.minsize {
            s.push(e)
        } else if s[i].subsumes(e) {
            s
        } else {
            s.update(i, e)
        },
        None => s.push(e),
    }
}

/// The entries with the first `n` of `op` merged in.
pub open spec fn merge_all(s: Seq<EntryView>, op: Seq<EntryView>, n: int) -> Seq<EntryView>
    decreases n,
{
    if n <= 0 || n > op.len() {
        s
    } else {
        merge_one(merge_all(s, op, n - 1), op[n - 1])
    }
}

/// An equal list of entries.
pub fn copy_entries(v: &Vec<ParamEntry>) -> (r: Vec<ParamEntry>)
    ensures
        entry::entries_view(r@) == entry::entries_view(v@),
{
    let mut out: Vec<ParamEntry> = Vec::new();
    let mut i: usize = 0;
    while i < v.len()
        invariant
            i <= v.len(),
            out@.len() == i,
            forall|k: int| 0 <= k < i ==> (#[trigger] out@[k])@ == v@[k]@,
        decreases v.len() - i,
    {
        out.push(v[i].copy());
        i += 1;
    }
    assert(entry::entries_view(out@) =~= entry::entries_view(v@));
    out
}

/// Ranges belong to entries of the list.
pub(crate) proof fn lemma_ranges_bound(s: Seq<EntryView>, n: int)
    requires
        0 <= n <= s.len() <= usize::MAX,
    ensures
        forall|k: int|
            0 <= k < paramlist::all_ranges(s, n).len() ==> (#[trigger] paramlist::all_ranges(
                s,
                n,
            )[k]).entry < n,
    decreases n,
{
    if n > 0 {
        lemma_ranges_bound(s, n - 1);
        match s[n - 1].joinrec {
            Some(j) => lemma_piece_ranges(j.pieces, j.pieces.len() as int, n - 1),
            None => {},
        }
        let a = paramlist::all_ranges(s, n - 1);
        let b = paramlist::ranges_of(s[n - 1], n - 1);
        assert forall|k: int| 0 <= k < (a + b).len() implies (#[trigger] (a + b)[k]).entry < n by {
            if k < a.len() {
                assert((a + b)[k] == a[k]);
            } else {
                assert((a + b)[k] == b[k - a.len()]);
            }
        }
    }
}

proof fn lemma_piece_ranges(pieces: Seq<space::VarnodeData>, n: int, i: int)
    requires
        0 <= i < usize::MAX,
        0 <= n <= pieces.len(),
    ensures
        forall|k: int|
            0 <= k < paramlist::piece_ranges(pieces, n, i).len() ==> (
            #[trigger] paramlist::piece_ranges(pieces, n, i)[k]).entry == i,
    decreases n,
{
    if n > 0 {
        lemma_piece_ranges(pieces, n - 1, i);
        let a = paramlist::piece_ranges(pieces, n - 1, i);
        let b = paramlist::piece_ranges(pieces, n, i);
        assert forall|k: int| 0 <= k < b.len() implies (#[trigger] b[k]).entry == i by {
            if k < a.len() {
                assert(b[k] == a[k]);
            }
        }
    }
}

impl ListView {
    /// All entries are in use, with groups counted from 0.
    pub open spec fn entries_ok(self) -> bool {
        forall|i: int|
            0 <= i < self.entry.len() ==> (#[trigger] self.entry[i]).wf()
                && self.entry[i].group_set[0] >= 0
    }
}

impl ParamListStandard {
    /// Lists are not restored from a document.
    pub fn decode(&mut self, _normalstack: bool) -> (r: Result<(), FspecError>)
        ensures
            r == Err::<(), FspecError>(FspecError::Unsupported),
            *final(self) == *old(self),
    {
        Err(FspecError::Unsupported)
    }

    /// Append an entry, keeping count of sections and groups.
    pub fn push_entry(&mut self, e: ParamEntry)
        requires
            e@.wf(),
            e@.group_set[0] >= 0,
            e@.group_set.last() < i32::MAX,
        ensures
            final(self)@ == with_entry(old(self)@, e@),
            old(self)@.wf() ==> final(self)@.wf(),
            old(self)@.groups_ok() ==> final(self)@.groups_ok(),
    {
        let last: TypeClass = if self.entry.len() == 0 {
            TypeClass::Class4
        } else {
            let back = &self.entry[self.entry.len() - 1];
            assert(self@.entry.last() == back@);
            if back.is_grouped() {
                TypeClass::General
            } else {
                back.type_
            }
        };
        let groupid: i32 = e.get_group();
        let current: TypeClass = if e.is_grouped() {
            TypeClass::General
        } else {
            e.type_
        };
        if last != current && dtype::rank_of(last) >= dtype::rank_of(current) {
            self.resource_start.push(groupid);
        }
        let spc = e.get_space();
        if spc.type_ == SpaceType::Spacebase {
            self.spacebase = Some(spc);
        }
        let maxgroup: i32 = e.group_set[e.group_set.len() - 1] + 1;
        if maxgroup > self.numgroup {
            self.numgroup = maxgroup;
        }
        let ghost ev = e@;
        let ghost before = self@.entry;
        self.entry.push(e);
        assert(self@.entry =~= before.push(ev));
        proof {
            let l = self@;
            assert forall|i: int| 0 <= i < l.entry.len() && old(self)@.wf() implies (
            #[trigger] l.entry[i]).wf() && l.entry[i].group_set[0] >= 0 by {
                if i < before.len() {
                    assert(before[i].wf());
                }
            }
        }
    }

    /// Look the rules through for one that recognises return values. Without
    /// one, the locations of the list are taken not to survive a call.
    pub fn initialize(&mut self)
        ensures
            final(self)@ == initialized(old(self)@),
            final(self).entry@ == old(self).entry@,
    {
        let mut fallback = true;
        let mut i: usize = 0;
        while i < self.model_rules.len() && fallback
            invariant
                i <= self.model_rules.len(),
                *self == *old(self),
                fallback == !(exists|k: int|
                    0 <= k < i && (#[trigger] self.model_rules@[k]).affects_output()),
            decreases self.model_rules.len() - i,
        {
            if self.model_rules[i].can_affect_fillin_output() {
                fallback = false;
            }
            i += 1;
        }
        self.use_fillin_fallback = fallback;
        if fallback {
            self.auto_killed_by_call = true;
        }
    }

    /// Close the list: set the last section boundary, the delay and the ranges.
    pub fn finish_decode(&mut self)
        requires
            old(self)@.entries_ok(),
        ensures
            final(self)@ == finished(old(self)@),
            final(self)@.wf(),
            final(self).entry@ == old(self).entry@,
    {
        let ng: i32 = self.numgroup;
        self.populate_resolver();
        proof {
            assert(self.entry.len() <= usize::MAX);
            lemma_ranges_bound(self@.entry, self@.entry.len() as int);
        }
        self.resource_start.push(ng);
        self.calc_delay();
        self.initialize();
    }

    /// Add a section boundary.
    pub fn push_resource_start(&mut self, group: i32)
        ensures
            final(self)@ == (ListView {
                resource_start: old(self)@.resource_start.push(group),
                ..old(self)@
            }),
    {
        self.resource_start.push(group);
    }

    /// Append a rule.
    pub fn push_model_rule(&mut self, rule: ModelRule)
        ensures
            final(self)@ == (ListView {
                model_rules: old(self)@.model_rules.push(rule),
                ..old(self)@
            }),
    {
        self.model_rules.push(rule);
    }

    /// Append the rule that passes everything larger than `pointermax` bytes
    /// by pointer.
    pub fn push_pointermax_rule(&mut self, pointermax: i32)
        requires
            pointermax < i32::MAX,
        ensures
            final(self)@ == (ListView {
                model_rules: old(self)@.model_rules.push(
                    ModelRule {
                        min_size: (pointermax + 1) as i32,
                        max_size: 0,
                        action: AssignAction::ConvertToPointer { space: old(self).spacebase },
                    },
                ),
                ..old(self)@
            }),
    {
        let action = AssignAction::ConvertToPointer { space: self.spacebase };
        self.model_rules.push(ModelRule::from_components(pointermax + 1, 0, action));
    }

    pub fn num_model_rules(&self) -> (r: usize)
        ensures
            r == self@.model_rules.len(),
    {
        self.model_rules.len()
    }

    /// Add the ranges of the entries in the space `spc`.
    pub fn get_range_list(&self, spc: &AddrSpace, res: &mut RangeList)
        requires
            self@.wf(),
        ensures
            forall|s: AddrSpace, off: u64| #[trigger]
                final(res).has(s, off) == (old(res).has(s, off) || (s == *spc && exists|i: int|
                    0 <= i < self@.entry.len() && (#[trigger] self@.entry[i]).spaceid == Some(
                        *spc,
                    ) && self@.entry[i].addressbase <= off <= num::last_byte(
                        self@.entry[i].addressbase,
                        self@.entry[i].size as int,
                    ))),
    {
        let mut i: usize = 0;
        while i < self.entry.len()
            invariant
                i <= self.entry.len(),
                self@.wf(),
                forall|s: AddrSpace, off: u64| #[trigger]
                    res.has(s, off) == (old(res).has(s, off) || (s == *spc && exists|k: int|
                        0 <= k < i && (#[trigger] self@.entry[k]).spaceid == Some(*spc)
                            && self@.entry[k].addressbase <= off <= num::last_byte(
                            self@.entry[k].addressbase,
                            self@.entry[k].size as int,
                        ))),
            decreases self.entry.len() - i,
        {
            let e = &self.entry[i];
            assert(self@.entry[i as int] == e@);
            if e.get_space() == *spc {
                let ghost before = res.ranges@;
                let ghost old_res = *res;
                let end: u64 = num::last_byte_of(e.addressbase, e.size);
                res.insert_range(*spc, e.addressbase, end);
                proof {
                    let n = Range { space: *spc, first: e.addressbase, last: end };
                    assert forall|s: AddrSpace, off: u64| #[trigger]
                        res.has(s, off) == (old_res.has(s, off) || n.has(s, off)) by {
                        if old_res.has(s, off) {
                            let w = choose|w: int|
                                0 <= w < before.len() && (#[trigger] before[w]).has(s, off);
                            assert(res.ranges@[w] == before[w]);
                        }
                        if n.has(s, off) {
                            assert(res.ranges@[before.len() as int].has(s, off));
                        }
                        if res.has(s, off) {
                            let w = choose|w: int|
                                0 <= w < res.ranges@.len() && (#[trigger] res.ranges@[w]).has(
                                    s,
                                    off,
                                );
                            if w < before.len() {
                                assert(before[w].has(s, off));
                            }
                        }
                    }
                    assert forall|s: AddrSpace, off: u64| #[trigger]
                        res.has(s, off) == (old(res).has(s, off) || (s == *spc && exists|k: int|
                            0 <= k < i + 1 && (#[trigger] self@.entry[k]).spaceid == Some(*spc)
                                && self@.entry[k].addressbase <= off <= num::last_byte(
                                self@.entry[k].addressbase,
                                self@.entry[k].size as int,
                            ))) by {
                        assert(old_res.has(s, off) || !old_res.has(s, off));
                        if n.has(s, off) {
                            assert(self@.entry[i as int].addressbase <= off);
                        }
                    }
                }
            } else {
                assert(self@.entry[i as int].spaceid != Some(*spc));
            }
            i += 1;
        }
    }

    /// An equal list, with its ranges rebuilt.
    pub fn copy(&self) -> (r: ParamListStandard)
        requires
            self@.entries_ok(),
        ensures
            r@ == (ListView {
                resolver: paramlist::all_ranges(self@.entry, self@.entry.len() as int),
                ..self@
            }),
            r@.wf(),
    {
        let mut r = ParamListStandard {
            kind: self.kind,
            numgroup: self.numgroup,
            maxdelay: self.maxdelay,
            thisbeforeret: self.thisbeforeret,
            auto_killed_by_call: self.auto_killed_by_call,
            resource_start: entry::copy_groups(&self.resource_start),
            entry: copy_entries(&self.entry),
            resolver: Vec::new(),
            model_rules: copy_rules(&self.model_rules),
            spacebase: self.spacebase,
            use_fillin_fallback: self.use_fillin_fallback,
        };
        r.populate_resolver();
        proof {
            assert(r.entry.len() <= usize::MAX);
            lemma_ranges_bound(r@.entry, r@.entry.len() as int);
        }
        r
    }

    /// Merge the entries of another list into this one. The lists may not have
    /// different stacks.
    pub fn fold_in(&mut self, op2: &ParamListStandard) -> (r: Result<(), FspecError>)
        requires
            old(self)@.entries_ok(),
            op2@.entries_ok(),
        ensures
            ({
                let l = old(self)@;
                let o = op2@;
                match r {
                    Ok(_) => if l.entry.len() == 0 {
                        final(self)@ == (ListView { spacebase: o.spacebase, entry: o.entry, ..l })
                    } else {
                        (l.spacebase == o.spacebase || o.spacebase is None) && final(self)@ == (
                        ListView { entry: merge_all(l.entry, o.entry, o.entry.len() as int), ..l })
                    },
                    Err(e) => e == FspecError::MergeDifferentStacks && l.entry.len() > 0
                        && l.spacebase != o.spacebase && o.spacebase is Some && final(self)@ == l,
                }
            }),
            final(self)@.entries_ok(),
    {
        if self.entry.len() == 0 {
            self.spacebase = op2.spacebase;
            self.entry = copy_entries(&op2.entry);
            return Ok(());
        }
        if !space::same_space(&self.spacebase, &op2.spacebase) && op2.spacebase.is_some() {
            return Err(FspecError::MergeDifferentStacks);
        }
        let mut i: usize = 0;
        while i < op2.entry.len()
            invariant
                i <= op2.entry.len(),
                op2@.entries_ok(),
                self@.entries_ok(),
                self@ == (ListView {
                    entry: merge_all(old(self)@.entry, op2@.entry, i as int),
                    ..old(self)@
                }),
            decreases op2.entry.len() - i,
        {
            assert(op2@.entry[i as int] == op2.entry@[i as int]@);
            self.merge_entry(&op2.entry[i]);
            i += 1;
        }
        Ok(())
    }

    fn merge_entry(&mut self, e: &ParamEntry)
        requires
            old(self)@.entries_ok(),
            e@.wf(),
            e@.group_set[0] >= 0,
        ensures
            final(self)@ == (ListView { entry: merge_one(old(self)@.entry, e@), ..old(self)@ }),
            final(self)@.entries_ok(),
    {
        let ghost s = self@.entry;
        let mut i: usize = 0;
        while i < self.entry.len()
            invariant
                i <= self.entry.len(),
                *self == *old(self),
                s == self@.entry,
                self@.entries_ok(),
                e@.wf(),
                e@.group_set[0] >= 0,
                related(s, 0, e@) == related(s, i as int, e@),
            decreases self.entry.len() - i,
        {
            let x = &self.entry[i];
            assert(s[i as int] == x@);
            let over = x.subsumes_definition(e);
            let under = e.subsumes_definition(x);
            if over || under {
                if x.minsize != e.minsize {
                    self.entry.push(e.copy());
                    assert(self@.entry =~= s.push(e@));
                } else if !over {
                    self.entry.set(i, e.copy());
                    assert(self@.entry =~= s.update(i as int, e@));
                }
                return;
            }
            i += 1;
        }
        self.entry.push(e.copy());
        assert(self@.entry =~= s.push(e@));
    }

    /// Merging is complete: build the ranges.
    pub fn finalize(&mut self)
        requires
            old(self)@.entries_ok(),
        ensures
            final(self)@ == (ListView {
                resolver: paramlist::all_ranges(old(self)@.entry, old(self)@.entry.len() as int),
                ..old(self)@
            }),
            final(self)@.wf(),
    {
        self.populate_resolver();
        proof {
            assert(self.entry.len() <= usize::MAX);
            lemma_ranges_bound(self@.entry, self@.entry.len() as int);
        }
    }
}

/// An equal list of rules.
pub fn copy_rules(v: &Vec<ModelRule>) -> (r: Vec<ModelRule>)
    ensures
        r@ == v@,
{
    let mut out: Vec<ModelRule> = Vec::new();
    let mut i: usize = 0;
    while i < v.len()
        invariant
            i <= v.len(),
            out@ == v@.subrange(0, i as int),
        decreases v.len() - i,
    {
        out.push(v[i]);
        i += 1;
    }
    assert(out@ == v@);
    out
}

/// An entry of the list passes all that `e` can pass.
pub open spec fn represented(s: Seq<EntryView>, e: EntryView) -> bool {
    exists|i: int|
        0 <= i < s.len() && (#[trigger] s[i]).subsumes(e) && s[i].minsize == e.minsize
}

proof fn lemma_related(s: Seq<EntryView>, i: int, e: EntryView)
    requires
        0 <= i <= s.len(),
    ensures
        related(s, i, e) matches Some(k) ==> i <= k < s.len() && (s[k].subsumes(e) || e.subsumes(
            s[k],
        )),
    decreases s.len() - i,
{
    if i < s.len() {
        lemma_related(s, i + 1, e);
    }
}

proof fn lemma_merge_one(s: Seq<EntryView>, e: EntryView)
    ensures
        represented(merge_one(s, e), e),
        forall|x: EntryView| represented(s, x) ==> #[trigger] represented(merge_one(s, e), x),
{
    let t = merge_one(s, e);
    lemma_related(s, 0, e);
    assert(e.subsumes(e));
    match related(s, 0, e) {
        Some(i) => {
            if s[i].minsize != e.minsize {
                assert(t[s.len() as int] == e);
            } else if s[i].subsumes(e) {
                assert(t[i] == s[i]);
            } else {
                assert(t[i] == e);
            }
        },
        None => {
            assert(t[s.len() as int] == e);
        },
    }
    assert forall|x: EntryView| represented(s, x) implies #[trigger] represented(t, x) by {
        let k = choose|k: int|
            0 <= k < s.len() && (#[trigger] s[k]).subsumes(x) && s[k].minsize == x.minsize;
        if t[k] == s[k] {
            assert(t[k].subsumes(x));
        } else {
            assert(t[k] == e && e.subsumes(s[k]));
            assert(t[k].subsumes(x));
        }
    }
}

/// Merging two lists loses nothing: whatever an entry of either could pass, an
/// entry of the merged list can pass.
pub proof fn law_merge_represents(s: Seq<EntryView>, op: Seq<EntryView>, n: int)
    requires
        0 <= n <= op.len(),
    ensures
        forall|k: int| 0 <= k < n ==> represented(merge_all(s, op, n), #[trigger] op[k]),
        forall|x: EntryView| represented(s, x) ==> #[trigger] represented(merge_all(s, op, n), x),
    decreases n,
{
    if n > 0 {
        law_merge_represents(s, op, n - 1);
        let before = merge_all(s, op, n - 1);
        lemma_merge_one(before, op[n - 1]);
        assert forall|k: int| 0 <= k < n implies represented(
            merge_all(s, op, n),
            #[trigger] op[k],
        ) by {
            if k < n - 1 {
                assert(represented(before, op[k]));
            }
        }
        assert forall|x: EntryView| represented(s, x) implies #[trigger] represented(
            merge_all(s, op, n),
            x,
        ) by {
            assert(represented(before, x));
        }
    }
}

} // verus!
