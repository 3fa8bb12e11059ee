//! Building a parameter entry and fitting it to the entries declared before
//! it: joined entries take the groups of their pieces, overlapping entries
//! those of the entries that they contain.
use crate::dtype::TypeClass;
use crate::entry;
use crate::entry::{EntryFlags, EntryView, ParamEntry};
use crate::error::FspecError;
use crate::joins::{AddrSpaceManager, JoinTable, JoinView};
use crate::sort;
use crate::space;
use crate::space::{AddrSpace, Address, SpaceType, VarnodeData};
use vstd::prelude::*;

verus! {

/// Does the entry occupy exactly the location `vn`.
pub open spec fn stored_at(e: EntryView, vn: VarnodeData) -> bool {
    e.spaceid == vn.space && e.addressbase == vn.offset && e.size as u32 == vn.size
}

/// The last of the first `n` entries stored exactly at `vn`.
pub open spec fn storage_position(list: Seq<EntryView>, vn: VarnodeData, n: int) -> Option<int>
    decreases n,
{
    if n <= 0 || n > list.len() {
        None
    } else if stored_at(list[n - 1], vn) {
        Some(n - 1)
    } else {
        storage_position(list, vn, n - 1)
    }
}

/// The groups of the entry stored at `vn`, or none.
pub open spec fn piece_groups(list: Seq<EntryView>, vn: VarnodeData) -> Seq<i32> {
    match storage_position(list, vn, list.len() as int) {
        Some(i) => list[i].group_set,
        None => Seq::empty(),
    }
}

/// The groups of the first `n` pieces, in order.
pub open spec fn join_groups(list: Seq<EntryView>, pieces: Seq<VarnodeData>, n: int) -> Seq<i32>
    decreases n,
{
    if n <= 0 || n > pieces.len() {
        Seq::empty()
    } else {
        join_groups(list, pieces, n - 1) + piece_groups(list, pieces[n - 1])
    }
}

/// Is some of the pieces `lo..hi` stored at an earlier entry.
pub open spec fn piece_known(list: Seq<EntryView>, pieces: Seq<VarnodeData>, lo: int, hi: int) -> bool {
    exists|i: int|
        lo <= i < hi && storage_position(list, #[trigger] pieces[i], list.len() as int) is Some
}

/// The entry `x` lies in `e` and counts resources of its own.
pub open spec fn covers(e: EntryView, x: EntryView) -> bool {
    x.meets(e.base(), e.size as int) && e.holds(x) && !x.flags.overlapping
}

/// Some earlier entry shares a byte with `e` without lying in it.
pub open spec fn overlap_illegal(e: EntryView, list: Seq<EntryView>) -> bool {
    exists|i: int|
        0 <= i < list.len() && (#[trigger] list[i]).meets(e.base(), e.size as int) && !e.holds(
            list[i],
        )
}

/// The groups of those of the first `n` entries that `e` covers, in order.
pub open spec fn covered_groups(e: EntryView, list: Seq<EntryView>, n: int) -> Seq<i32>
    decreases n,
{
    if n <= 0 || n > list.len() {
        Seq::empty()
    } else if covers(e, list[n - 1]) {
        covered_groups(e, list, n - 1) + list[n - 1].group_set
    } else {
        covered_groups(e, list, n - 1)
    }
}

/// `e` covers one of the first `n` entries, with the same start or with
/// another one.
pub open spec fn covers_some(e: EntryView, list: Seq<EntryView>, n: int, same_start: bool) -> bool {
    exists|i: int|
        0 <= i < n && covers(e, #[trigger] list[i]) && (list[i].addressbase == e.addressbase)
            == same_start
}

/// The alignment of a resource; one slot for the whole range is no alignment.
pub open spec fn seed_alignment(size: i32, alignment: i32) -> i32 {
    if alignment == size {
        0
    } else {
        alignment
    }
}

/// The entry as declared, before it is fitted to the earlier ones.
pub open spec fn declared(
    grp: i32,
    type_: TypeClass,
    spc: AddrSpace,
    addressbase: u64,
    size: i32,
    minsize: i32,
    alignment: i32,
    flags: u32,
    normalstack: bool,
    grouped: bool,
    prev: Seq<EntryView>,
) -> EntryView {
    let given = EntryFlags::of_bits(flags);
    let al = seed_alignment(size, alignment);
    EntryView {
        flags: EntryFlags {
            force_left_justify: given.force_left_justify || (spc.reverse_justified
                && spc.big_endian),
            reverse_stack: given.reverse_stack || !normalstack,
            is_grouped: given.is_grouped || grouped,
            first_storage: given.first_storage || prev.len() == 0 || prev.last().type_ != type_,
            ..given
        },
        type_,
        group_set: seq![grp],
        spaceid: Some(spc),
        addressbase,
        size,
        minsize,
        alignment: al,
        numslots: if al != 0 {
            (size as int / al as int) as i32
        } else {
            1
        },
        joinrec: None,
    }
}

/// The record of a joined entry.
pub open spec fn seed_join(e: EntryView, t: JoinTable) -> JoinView {
    t.joins[t.position(e.addressbase, 0)]
}

/// Is the entry a join.
pub open spec fn is_join(e: EntryView) -> bool {
    e.spaceid matches Some(s) && s.type_ == SpaceType::Join
}

/// Why the declared entry `e` is refused after the entries `prev`.
pub open spec fn seed_error(
    e: EntryView,
    normalstack: bool,
    prev: Seq<EntryView>,
    t: JoinTable,
) -> Option<FspecError> {
    let spc = e.spaceid->0;
    if spc.reverse_justified && !spc.big_endian {
        Some(FspecError::RightJustifiedLittleEndian)
    } else if !normalstack && e.alignment != 0 && e.size as int % e.alignment as int != 0 {
        Some(FspecError::StackAlignment)
    } else if is_join(e) {
        if t.position(e.addressbase, 0) >= t.joins.len() {
            Some(FspecError::UnlinkedJoin)
        } else if join_groups(
            prev,
            seed_join(e, t).pieces,
            seed_join(e, t).pieces.len() as int,
        ).len() == 0 {
            Some(FspecError::JoinWithoutPrevious)
        } else {
            None
        }
    } else if overlap_illegal(e, prev) {
        Some(FspecError::IllegalOverlap)
    } else {
        None
    }
}

/// The groups that a covering entry takes, in the order in which they are met.
pub open spec fn overlap_groups(e: EntryView, prev: Seq<EntryView>) -> Seq<i32> {
    if covered_groups(e, prev, prev.len() as int).len() > 0 {
        covered_groups(e, prev, prev.len() as int)
    } else {
        e.group_set
    }
}

/// The properties of a joined entry.
pub open spec fn join_flags(
    e: EntryView,
    prev: Seq<EntryView>,
    pieces: Seq<VarnodeData>,
) -> EntryFlags {
    EntryFlags {
        extracheck_low: e.flags.extracheck_low || piece_known(prev, pieces, 0, 1),
        extracheck_high: e.flags.extracheck_high || piece_known(
            prev,
            pieces,
            1,
            pieces.len() as int,
        ),
        overlapping: true,
        ..e.flags
    }
}

/// The properties of an entry that is no join.
pub open spec fn overlap_flags(e: EntryView, prev: Seq<EntryView>) -> EntryFlags {
    let n = prev.len() as int;
    let big = e.base().big_endian();
    EntryFlags {
        extracheck_low: e.flags.extracheck_low || covers_some(e, prev, n, big),
        extracheck_high: e.flags.extracheck_high || covers_some(e, prev, n, !big),
        overlapping: e.flags.overlapping || covered_groups(e, prev, n).len() > 0,
        ..e.flags
    }
}

/// `r` is the joined entry `e` with the record `j`, fitted to `prev`.
pub open spec fn join_fitted(r: EntryView, e: EntryView, prev: Seq<EntryView>, j: JoinView) -> bool {
    &&& sort::ascending(r.group_set)
    &&& r.group_set.to_multiset() == join_groups(
        prev,
        j.pieces,
        j.pieces.len() as int,
    ).to_multiset()
    &&& r == (EntryView {
        flags: join_flags(e, prev, j.pieces),
        group_set: r.group_set,
        joinrec: Some(j),
        ..e
    })
}

/// `r` is the entry `e`, which is no join, fitted to `prev`.
pub open spec fn overlap_fitted(r: EntryView, e: EntryView, prev: Seq<EntryView>) -> bool {
    &&& sort::ascending(r.group_set)
    &&& r.group_set.to_multiset() == overlap_groups(e, prev).to_multiset()
    &&& r == (EntryView {
        flags: overlap_flags(e, prev),
        group_set: r.group_set,
        joinrec: None,
        ..e
    })
}

/// `r` is the declared entry `e` fitted to the entries `prev`.
pub open spec fn fitted(r: EntryView, e: EntryView, prev: Seq<EntryView>, t: JoinTable) -> bool {
    if is_join(e) {
        join_fitted(r, e, prev, seed_join(e, t))
    } else {
        overlap_fitted(r, e, prev)
    }
}

/// Why two entries of one group, in this order, are refused.
pub open spec fn group_order_error(entry1: EntryView, entry2: EntryView) -> Option<FspecError> {
    if entry2.minsize > entry1.size || entry1.minsize > entry2.size {
        None
    } else if entry1.type_ == entry2.type_ {
        Some(FspecError::AmbiguousGroup)
    } else if entry1.type_ == TypeClass::General {
        Some(FspecError::GeneralBeforeSpecific)
    } else {
        None
    }
}

/// Append a list of groups.
fn append_groups(dst: &mut Vec<i32>, src: &Vec<i32>)
    ensures
        final(dst)@ == old(dst)@ + src@,
{
    let mut i: usize = 0;
    while i < src.len()
        invariant
            i <= src.len(),
            dst@ == old(dst)@ + src@.subrange(0, i as int),
        decreases src.len() - i,
    {
        dst.push(src[i]);
        i += 1;
    }
    assert(src@.subrange(0, i as int) =~= src@);
}

impl ParamEntry {
    /// The last entry stored exactly at `vn`.
    fn find_entry_by_storage(entry_list: &[ParamEntry], vn: &VarnodeData) -> (r: Option<usize>)
        ensures
            match (r, storage_position(
                entry::entries_view(entry_list@),
                *vn,
                entry_list@.len() as int,
            )) {
                (Some(i), Some(k)) => i == k && i < entry_list@.len(),
                (None, None) => true,
                _ => false,
            },
    {
        let ghost list = entry::entries_view(entry_list@);
        let mut i: usize = entry_list.len();
        while i > 0
            invariant
                i <= entry_list@.len(),
                list == entry::entries_view(entry_list@),
                storage_position(list, *vn, list.len() as int) == storage_position(
                    list,
                    *vn,
                    i as int,
                ),
            decreases i,
        {
            let e = &entry_list[i - 1];
            assert(list[i - 1] == e@);
            if space::same_space(&e.spaceid, &vn.space) && e.addressbase == vn.offset && e.size
                as u32 == vn.size {
                return Some(i - 1);
            }
            i -= 1;
        }
        None
    }

    /// Mark the entry if it is the first of its storage class.
    fn resolve_first(&mut self, prev_list: &[ParamEntry])
        ensures
            final(self)@ == (EntryView {
                flags: EntryFlags {
                    first_storage: old(self).flags.first_storage || prev_list@.len() == 0
                        || prev_list@.last().type_ != old(self).type_,
                    ..old(self).flags
                },
                ..old(self)@
            }),
    {
        if prev_list.len() == 0 {
            self.flags.first_storage = true;
            return;
        }
        let prev = &prev_list[prev_list.len() - 1];
        if self.type_ != prev.type_ {
            self.flags.first_storage = true;
        }
    }

    /// Attach the join record of a joined entry and take the groups of its
    /// pieces.
    fn resolve_join(&mut self, prev_list: &[ParamEntry], manager: &AddrSpaceManager) -> (r: Result<
        (),
        FspecError,
    >)
        requires
            old(self).spaceid is Some,
            old(self).joinrec is None,
            manager.wf(),
        ensures
            !is_join(old(self)@) ==> r is Ok && final(self)@ == old(self)@,
            is_join(old(self)@) ==> {
                let t = manager.table();
                let prev = entry::entries_view(prev_list@);
                let pieces = seed_join(old(self)@, t).pieces;
                match r {
                    Ok(_) => t.position(old(self).addressbase, 0) < t.joins.len() && join_groups(
                        prev,
                        pieces,
                        pieces.len() as int,
                    ).len() > 0 && space::pieces_ok(pieces) && join_fitted(
                        final(self)@,
                        old(self)@,
                        prev,
                        seed_join(old(self)@, t),
                    ),
                    Err(x) => if t.position(old(self).addressbase, 0) >= t.joins.len() {
                        x == FspecError::UnlinkedJoin
                    } else {
                        x == FspecError::JoinWithoutPrevious && join_groups(
                            prev,
                            pieces,
                            pieces.len() as int,
                        ).len() == 0
                    },
                }
            },
    {
        let spc = self.get_space();
        if spc.type_ != SpaceType::Join {
            return Ok(());
        }
        let ghost t = manager.table();
        let ghost prev = entry::entries_view(prev_list@);
        let idx: usize = match manager.find_join(self.addressbase) {
            Ok(i) => i,
            Err(e) => return Err(e),
        };
        let joinrec = manager.joins[idx].copy();
        let ghost pieces = joinrec.pieces@;
        assert(manager.joins@[idx as int].wf());
        assert(t.joins[idx as int] == (JoinView { pieces, unified: joinrec.unified }));
        let mut groups: Vec<i32> = Vec::new();
        let mut i: usize = 0;
        let mut low = false;
        let mut high = false;
        while i < joinrec.pieces.len()
            invariant
                i <= joinrec.pieces.len(),
                pieces == joinrec.pieces@,
                prev == entry::entries_view(prev_list@),
                groups@ == join_groups(prev, pieces, i as int),
                low == (i > 0 && piece_known(prev, pieces, 0, 1)),
                high == piece_known(prev, pieces, 1, i as int),
            decreases joinrec.pieces.len() - i,
        {
            let ghost known = storage_position(prev, pieces[i as int], prev.len() as int);
            let ghost high0 = high;
            if let Some(k) = ParamEntry::find_entry_by_storage(prev_list, &joinrec.pieces[i]) {
                assert(prev[k as int] == prev_list@[k as int]@);
                append_groups(&mut groups, &prev_list[k].group_set);
                if i == 0 {
                    low = true;
                } else {
                    high = true;
                }
            } else {
                assert(groups@ =~= groups@ + Seq::<i32>::empty());
            }
            proof {
                if i > 0 {
                    if piece_known(prev, pieces, 1, i + 1) {
                        let w = choose|w: int|
                            1 <= w < i + 1 && storage_position(
                                prev,
                                #[trigger] pieces[w],
                                prev.len() as int,
                            ) is Some;
                        assert(w == i || (1 <= w < i && piece_known(prev, pieces, 1, i as int)));
                    }
                }
            }
            i += 1;
        }
        if groups.len() == 0 {
            return Err(FspecError::JoinWithoutPrevious);
        }
        sort::sort_groups(&mut groups);
        self.group_set = groups;
        self.flags.extracheck_low = self.flags.extracheck_low || low;
        self.flags.extracheck_high = self.flags.extracheck_high || high;
        self.flags.overlapping = true;
        self.joinrec = Some(joinrec);
        Ok(())
    }

    /// The groups of the earlier entries that this one covers, and whether one
    /// of them starts where this one does, or elsewhere.
    fn find_overlaps(&self, prev_list: &[ParamEntry]) -> (r: Result<
        (Vec<i32>, bool, bool),
        FspecError,
    >)
        requires
            self.joinrec is None,
            forall|i: int| 0 <= i < prev_list@.len() ==> (#[trigger] prev_list@[i])@.wf(),
        ensures
            ({
                let prev = entry::entries_view(prev_list@);
                let n = prev.len() as int;
                match r {
                    Ok((groups, same, other)) => !overlap_illegal(self@, prev) && groups@
                        == covered_groups(self@, prev, n) && same == covers_some(
                        self@,
                        prev,
                        n,
                        true,
                    ) && other == covers_some(self@, prev, n, false) && (same || other
                        ==> groups@.len() > 0),
                    Err(x) => x == FspecError::IllegalOverlap && overlap_illegal(self@, prev),
                }
            }),
    {
        let ghost e = self@;
        let ghost prev = entry::entries_view(prev_list@);
        let mut groups: Vec<i32> = Vec::new();
        let addr = Address { space: self.spaceid, offset: self.addressbase };
        let mut same = false;
        let mut other = false;
        let mut i: usize = 0;
        while i < prev_list.len()
            invariant
                i <= prev_list@.len(),
                e == self@,
                e.joinrec is None,
                prev == entry::entries_view(prev_list@),
                forall|k: int| 0 <= k < prev_list@.len() ==> (#[trigger] prev_list@[k])@.wf(),
                addr == e.base(),
                groups@ == covered_groups(e, prev, i as int),
                same == covers_some(e, prev, i as int, true),
                other == covers_some(e, prev, i as int, false),
                (same || other) ==> groups@.len() > 0,
                forall|k: int|
                    0 <= k < i ==> !((#[trigger] prev[k]).meets(e.base(), e.size as int)
                        && !e.holds(prev[k])),
            decreases prev_list@.len() - i,
        {
            let x = &prev_list[i];
            assert(prev[i as int] == x@);
            assert(x@.wf());
            if x.intersects(&addr, self.size) {
                if !self.contains(x) {
                    return Err(FspecError::IllegalOverlap);
                }
                if !x.flags.overlapping {
                    append_groups(&mut groups, &x.group_set);
                    if self.addressbase == x.addressbase {
                        same = true;
                    } else {
                        other = true;
                    }
                }
            }
            proof {
                lemma_covers_some_step(e, prev, i as int, true);
                lemma_covers_some_step(e, prev, i as int, false);
            }
            i += 1;
        }
        Ok((groups, same, other))
    }

    /// Take the groups of the earlier entries that this one covers.
    fn resolve_overlap(&mut self, prev_list: &[ParamEntry]) -> (r: Result<(), FspecError>)
        requires
            old(self).joinrec is None,
            sort::ascending(old(self)@.group_set),
            forall|i: int| 0 <= i < prev_list@.len() ==> (#[trigger] prev_list@[i])@.wf(),
        ensures
            match r {
                Ok(_) => !overlap_illegal(old(self)@, entry::entries_view(prev_list@))
                    && overlap_fitted(
                    final(self)@,
                    old(self)@,
                    entry::entries_view(prev_list@),
                ),
                Err(x) => x == FspecError::IllegalOverlap && overlap_illegal(
                    old(self)@,
                    entry::entries_view(prev_list@),
                ),
            },
    {
        let (mut groups, same, other) = match self.find_overlaps(prev_list) {
            Ok(found) => found,
            Err(x) => return Err(x),
        };
        let addr = Address { space: self.spaceid, offset: self.addressbase };
        let big = addr.is_big_endian();
        let low = if big {
            same
        } else {
            other
        };
        let high = if big {
            other
        } else {
            same
        };
        let taken = groups.len() > 0;
        self.flags = EntryFlags {
            extracheck_low: self.flags.extracheck_low || low,
            extracheck_high: self.flags.extracheck_high || high,
            overlapping: self.flags.overlapping || taken,
            ..self.flags
        };
        if taken {
            sort::sort_groups(&mut groups);
            self.group_set = groups;
        }
        Ok(())
    }

    /// Within a group, entries must be told apart by size or class, and a
    /// specific class must come before the general one.
    pub fn order_within_group(entry1: &ParamEntry, entry2: &ParamEntry) -> (r: Result<
        (),
        FspecError,
    >)
        ensures
            match r {
                Ok(_) => group_order_error(entry1@, entry2@) is None,
                Err(x) => group_order_error(entry1@, entry2@) == Some(x),
            },
    {
        if entry2.minsize > entry1.size || entry1.minsize > entry2.size {
            return Ok(());
        }
        if entry1.type_ != entry2.type_ {
            if entry1.type_ == TypeClass::General {
                return Err(FspecError::GeneralBeforeSpecific);
            }
            return Ok(());
        }
        Err(FspecError::AmbiguousGroup)
    }

    /// The entry as declared, before it is fitted to the earlier ones.
    fn declare(
        grp: i32,
        type_: TypeClass,
        spc: AddrSpace,
        addressbase: u64,
        size: i32,
        minsize: i32,
        alignment: i32,
        flags: u32,
        normalstack: bool,
        grouped: bool,
        prev_list: &[ParamEntry],
    ) -> (r: ParamEntry)
        requires
            size > 0,
            alignment >= 0,
        ensures
            r@ == declared(
                grp,
                type_,
                spc,
                addressbase,
                size,
                minsize,
                alignment,
                flags,
                normalstack,
                grouped,
                entry::entries_view(prev_list@),
            ),
            r.joinrec is None,
            r@.wf(),
    {
        let al: i32 = if alignment == size {
            0
        } else {
            alignment
        };
        let mut numslots: i32 = 1;
        if al != 0 {
            proof {
                vstd::arithmetic::div_mod::lemma_div_pos_is_pos(size as int, al as int);
                vstd::arithmetic::div_mod::lemma_div_is_ordered_by_denominator(
                    size as int,
                    1,
                    al as int,
                );
            }
            numslots = size / al;
        }
        let given = EntryFlags::from_bits(flags);
        let mut group_set: Vec<i32> = Vec::new();
        group_set.push(grp);
        let mut e = ParamEntry {
            flags: EntryFlags {
                force_left_justify: given.force_left_justify || (spc.reverse_justified
                    && spc.big_endian),
                reverse_stack: given.reverse_stack || !normalstack,
                is_grouped: given.is_grouped || grouped,
                ..given
            },
            type_,
            group_set,
            spaceid: Some(spc),
            addressbase,
            size,
            minsize,
            alignment: al,
            numslots,
            joinrec: None,
        };
        e.resolve_first(prev_list);
        proof {
            if prev_list@.len() > 0 {
                assert(entry::entries_view(prev_list@).last() == prev_list@.last()@);
            }
            assert(e@.group_set =~= seq![grp]);
        }
        e
    }

    /// Fit a declared entry to the entries before it.
    fn fit(&mut self, normalstack: bool, prev_list: &[ParamEntry], manager: &AddrSpaceManager)
        -> (r: Result<(), FspecError>)
        requires
            old(self)@.wf(),
            old(self).joinrec is None,
            manager.wf(),
            forall|i: int| 0 <= i < prev_list@.len() ==> (#[trigger] prev_list@[i])@.wf(),
        ensures
            match r {
                Ok(_) => final(self)@.wf() && seed_error(
                    old(self)@,
                    normalstack,
                    entry::entries_view(prev_list@),
                    manager.table(),
                ) is None && fitted(
                    final(self)@,
                    old(self)@,
                    entry::entries_view(prev_list@),
                    manager.table(),
                ),
                Err(x) => seed_error(
                    old(self)@,
                    normalstack,
                    entry::entries_view(prev_list@),
                    manager.table(),
                ) == Some(x),
            },
    {
        let ghost d = self@;
        let ghost prev = entry::entries_view(prev_list@);
        let spc = self.get_space();
        if spc.reverse_justified && !spc.big_endian {
            return Err(FspecError::RightJustifiedLittleEndian);
        }
        if !normalstack && self.alignment != 0 && (self.size % self.alignment) != 0 {
            return Err(FspecError::StackAlignment);
        }
        if spc.type_ == SpaceType::Join {
            if let Err(x) = self.resolve_join(prev_list, manager) {
                return Err(x);
            }
            proof {
                let pieces = seed_join(d, manager.table()).pieces;
                lemma_same_multiset_len(
                    self@.group_set,
                    join_groups(prev, pieces, pieces.len() as int),
                );
            }
        } else {
            if let Err(x) = self.resolve_overlap(prev_list) {
                return Err(x);
            }
            proof {
                lemma_same_multiset_len(self@.group_set, overlap_groups(d, prev));
            }
        }
        Ok(())
    }

    /// Build an entry and fit it to the entries declared before it.
    pub fn seed(
        grp: i32,
        type_: TypeClass,
        spc: AddrSpace,
        addressbase: u64,
        size: i32,
        minsize: i32,
        alignment: i32,
        flags: u32,
        normalstack: bool,
        grouped: bool,
        prev_list: &[ParamEntry],
        manager: &AddrSpaceManager,
    ) -> (r: Result<ParamEntry, FspecError>)
        requires
            size > 0,
            alignment >= 0,
            manager.wf(),
            forall|i: int| 0 <= i < prev_list@.len() ==> (#[trigger] prev_list@[i])@.wf(),
        ensures
            ({
                let prev = entry::entries_view(prev_list@);
                let d = declared(
                    grp,
                    type_,
                    spc,
                    addressbase,
                    size,
                    minsize,
                    alignment,
                    flags,
                    normalstack,
                    grouped,
                    prev,
                );
                match r {
                    Ok(e) => e@.wf() && seed_error(d, normalstack, prev, manager.table()) is None
                        && fitted(e@, d, prev, manager.table()),
                    Err(x) => seed_error(d, normalstack, prev, manager.table()) == Some(x),
                }
            }),
    {
        let mut e = ParamEntry::declare(
            grp,
            type_,
            spc,
            addressbase,
            size,
            minsize,
            alignment,
            flags,
            normalstack,
            grouped,
            prev_list,
        );
        match e.fit(normalstack, prev_list, manager) {
            Ok(_) => Ok(e),
            Err(x) => Err(x),
        }
    }
}

proof fn lemma_same_multiset_len(a: Seq<i32>, b: Seq<i32>)
    requires
        a.to_multiset() == b.to_multiset(),
    ensures
        a.len() == b.len(),
{
    broadcast use vstd::seq_lib::group_to_multiset_ensures;

    assert(a.to_multiset().len() == a.len());
    assert(b.to_multiset().len() == b.len());
}

proof fn lemma_covers_some_step(e: EntryView, list: Seq<EntryView>, n: int, same_start: bool)
    requires
        0 <= n < list.len(),
    ensures
        covers_some(e, list, n + 1, same_start) == (covers_some(e, list, n, same_start) || (covers(
            e,
            list[n],
        ) && (list[n].addressbase == e.addressbase) == same_start)),
{
    if covers(e, list[n]) && (list[n].addressbase == e.addressbase) == same_start {
        assert(covers_some(e, list, n + 1, same_start));
    }
}

} // verus!
