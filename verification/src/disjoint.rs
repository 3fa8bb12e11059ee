//! Parameters that a convention assigns do not share storage.
use crate::assign;
use crate::dtype;
use crate::dtype::{Datatype, TypeClass};
use crate::entry::EntryView;
use crate::joins::JoinTable;
use crate::paramlist::ListView;
use crate::pieces;
use crate::pieces::ParameterPieces;
use crate::rules::AssignActionResponse;
use crate::space::AddrSpace;
use crate::storage;
use vstd::prelude::*;

verus! {

/// The entry is one range of bytes in one group, and values are stored in it
/// as they are.
pub open spec fn plain_entry(e: EntryView) -> bool {
    &&& storage::one_range(e)
    &&& e.group_set.len() == 1
    &&& !e.flags.smallsize_floatext
}

/// Two entries stand in different bytes, or else in one group and exclude each
/// other.
pub open spec fn compatible_entries(a: EntryView, b: EntryView) -> bool {
    if a.group() == b.group() {
        a.exclusion() && b.exclusion()
    } else {
        storage::bytes_apart(a.base(), a.size as int, b.base(), b.size as int)
    }
}

/// A convention of plain entries, no two of which hand out the same bytes
/// unless they exclude each other, and which assigns by its entries alone.
pub open spec fn orderly(l: ListView) -> bool {
    &&& l.wf()
    &&& l.groups_ok()
    &&& l.model_rules.len() == 0
    &&& forall|k: int| 0 <= k < l.entry.len() ==> plain_entry(#[trigger] l.entry[k])
    &&& forall|j: int, k: int|
        0 <= j < l.entry.len() && 0 <= k < l.entry.len() && j != k ==> compatible_entries(
            #[trigger] l.entry[j],
            #[trigger] l.entry[k],
        )
}

/// No entry has more than `top` bytes.
pub open spec fn no_larger(l: ListView, top: int) -> bool {
    forall|k: int| 0 <= k < l.entry.len() ==> (#[trigger] l.entry[k]).size <= top
}

/// A data-type that takes storage.
pub open spec fn storable(dt: Datatype) -> bool {
    0 < dt.size <= dt.align_size && 0 <= dt.alignment
}

/// The parameter was allocated from the entry at `k` and its slot `slot`, and
/// its slots are counted as taken.
pub open spec fn claims(l: ListView, p: ParameterPieces, status: Seq<i32>, k: int, slot: i32) -> bool {
    let e = l.entry[k];
    let tp = p.type_->0;
    let sz = tp.align_size as int;
    let al = tp.alignment as int;
    &&& 0 <= k < l.entry.len()
    &&& p.type_ is Some
    &&& storable(tp)
    &&& storage::allocatable(e, slot, sz, al)
    &&& p.addr == e.plain_addr(slot, sz, al, !e.left_justified())
    &&& if e.exclusion() {
        status[e.group()] == -1
    } else {
        status[e.group()] >= e.next_slot(slot, sz, al)
    }
}

/// The parameter has storage that is counted as taken.
pub open spec fn held(l: ListView, p: ParameterPieces, status: Seq<i32>) -> bool {
    exists|k: int, slot: i32| #[trigger] claims(l, p, status, k, slot)
}

/// The slots counted as taken before an assignment are counted after it.
pub open spec fn advanced(l: ListView, before: Seq<i32>, after: Seq<i32>) -> bool {
    &&& before.len() == after.len()
    &&& forall|k: int|
        0 <= k < l.entry.len() ==> if (#[trigger] l.entry[k]).exclusion() {
            before[l.entry[k].group()] == -1 ==> after[l.entry[k].group()] == -1
        } else {
            after[l.entry[k].group()] >= before[l.entry[k].group()]
        }
}

/// The status is one that assigning leads to: an exclusive group is free or
/// taken, and the slot numbers of the others are at most `cap`, or `cap` and
/// `more` for the entries before `k`.
pub open spec fn reached(l: ListView, status: Seq<i32>, k: int, cap: int, more: int) -> bool {
    &&& status.len() >= l.numgroup
    &&& forall|j: int|
        0 <= j < l.entry.len() ==> if (#[trigger] l.entry[j]).exclusion() {
            status[l.entry[j].group()] == 0 || status[l.entry[j].group()] == -1
        } else {
            0 <= status[l.entry[j].group()] <= (if j < k {
                cap + more
            } else {
                cap
            })
        }
}

/// The next slot is no lower, and higher by no more than the alignment unless
/// it is one of the entry's own.
proof fn lemma_next_slot(e: EntryView, slot: i32, sz: int, al: int, cap: int)
    requires
        plain_entry(e),
        e.alignment > 0,
        0 <= slot <= cap,
        e.size <= cap,
        0 <= al,
        cap + al <= i32::MAX,
        0 < sz <= i32::MAX,
    ensures
        slot <= e.next_slot(slot, sz, al) <= cap + al,
{
    storage::lemma_aligned(e, slot, al);
    let a = e.alignment as int;
    assert(e.numslots <= e.size) by (nonlinear_arith)
        requires
            e.numslots == e.size as int / a,
            a > 0,
            e.size > 0,
    ;
    assert(e.slots_for(sz) >= 0) by {
        assert(sz / a >= 0) by (nonlinear_arith)
            requires
                sz > 0,
                a > 0,
        ;
    }
}

/// What is held stays held.
proof fn lemma_held_advances(l: ListView, p: ParameterPieces, before: Seq<i32>, after: Seq<i32>)
    requires
        advanced(l, before, after),
        held(l, p, before),
    ensures
        held(l, p, after),
{
    let (k, slot) = choose|k: int, slot: i32| #[trigger] claims(l, p, before, k, slot);
    assert(claims(l, p, before, k, slot));
    let e = l.entry[k];
    assert(claims(l, p, after, k, slot));
}

/// A value allocated from the slot that the status names has no byte in common
/// with a parameter that is held.
proof fn lemma_apart(l: ListView, p: ParameterPieces, status: Seq<i32>, k: int, tp: Datatype)
    requires
        orderly(l),
        held(l, p, status),
        0 <= k < l.entry.len(),
        storable(tp),
        status[l.entry[k].group()] >= 0,
        storage::allocatable(
            l.entry[k],
            status[l.entry[k].group()],
            tp.align_size as int,
            tp.alignment as int,
        ),
    ensures
        storage::bytes_apart(
            p.addr,
            p.type_->0.size as int,
            l.entry[k].plain_addr(
                status[l.entry[k].group()],
                tp.align_size as int,
                tp.alignment as int,
                !l.entry[k].left_justified(),
            ),
            tp.size as int,
        ),
{
    let (j, slot) = choose|j: int, slot: i32| #[trigger] claims(l, p, status, j, slot);
    assert(claims(l, p, status, j, slot));
    let a = l.entry[j];
    let b = l.entry[k];
    let t = p.type_->0;
    storage::law_allocated_within(
        a,
        slot,
        t.align_size as int,
        t.alignment as int,
        !a.left_justified(),
    );
    storage::law_allocated_within(
        b,
        status[b.group()],
        tp.align_size as int,
        tp.alignment as int,
        !b.left_justified(),
    );
    if j == k {
        storage::law_allocations_apart(
            a,
            slot,
            t.align_size as int,
            t.alignment as int,
            status[b.group()],
            tp.align_size as int,
            tp.alignment as int,
            !a.left_justified(),
        );
    } else {
        assert(compatible_entries(a, b));
    }
}

/// What trying the entry at `k` does to the status.
proof fn lemma_try(l: ListView, k: int, tp: Datatype, status: Seq<i32>, cap: int, more: int)
    requires
        orderly(l),
        storable(tp),
        0 <= k < l.entry.len(),
        no_larger(l, cap),
        tp.alignment <= more,
        cap + more + more <= i32::MAX,
        reached(l, status, k, cap, more),
        status[l.entry[k].group()] >= 0,
    ensures
        ({
            let e = l.entry[k];
            let g = e.group();
            let after = status.update(
                g,
                e.next_slot(status[g], tp.align_size as int, tp.alignment as int),
            );
            &&& 0 <= g < status.len()
            &&& reached(l, after, k + 1, cap, more)
            &&& advanced(l, status, after)
            &&& e.exclusion() ==> reached(l, after.update(g, -1i32), k + 1, cap, more)
                && advanced(l, status, after.update(g, -1i32))
        }),
{
    let e = l.entry[k];
    let g = e.group();
    assert(plain_entry(e));
    assert(e.group_set.last() == e.group_set[0]);
    assert(e.size <= cap);
    if e.alignment > 0 {
        lemma_next_slot(
            e,
            status[g],
            tp.align_size as int,
            tp.alignment as int,
            cap,
        );
    }
    let after = status.update(g, e.next_slot(status[g], tp.align_size as int, tp.alignment as int));
    assert forall|j: int| 0 <= j < l.entry.len() && j != k && (#[trigger] l.entry[j]).group()
        == g implies l.entry[j].exclusion() && e.exclusion() by {
        assert(compatible_entries(l.entry[j], l.entry[k]));
    }
}

/// What assigning one parameter to the entries from `k` on does.
proof fn lemma_fallback(
    l: ListView,
    k: int,
    resource: TypeClass,
    tp: Datatype,
    status: Seq<i32>,
    piece: ParameterPieces,
    table: JoinTable,
    cap: int,
    more: int,
)
    requires
        orderly(l),
        storable(tp),
        0 <= k <= l.entry.len(),
        no_larger(l, cap),
        tp.alignment <= more,
        cap + more + more <= i32::MAX,
        reached(l, status, k, cap, more),
    ensures
        ({
            let out = assign::fallback_from(
                l.entry,
                k,
                resource,
                tp,
                false,
                status,
                piece,
                table,
            );
            &&& reached(l, out.status, l.entry.len() as int, cap, more)
            &&& advanced(l, status, out.status)
            &&& out.res is Ok
            &&& out.res->Ok_0 == AssignActionResponse::success ==> {
                &&& held(l, out.piece, out.status)
                &&& out.piece.type_ == Some(tp)
                &&& forall|p: ParameterPieces| #[trigger]
                    held(l, p, status) ==> storage::bytes_apart(
                        p.addr,
                        p.type_->0.size as int,
                        out.piece.addr,
                        tp.size as int,
                    )
            }
            &&& out.res->Ok_0 == AssignActionResponse::success || out.res->Ok_0
                == AssignActionResponse::fail
        }),
    decreases l.entry.len() - k,
{
    if k < l.entry.len() {
        let e = l.entry[k];
        let g = e.group();
        let sz = tp.align_size as int;
        let al = tp.alignment as int;
        assert(plain_entry(e));
        if !assign::eligible(e, resource, false, status) {
            lemma_fallback(l, k + 1, resource, tp, status, piece, table, cap, more);
        } else {
            lemma_try(l, k, tp, status, cap, more);
            let status2 = status.update(g, e.next_slot(status[g], sz, al));
            let addr = e.plain_addr(status[g], sz, al, !e.left_justified());
            let table2 = e.next_table(status[g], sz, al, table);
            if !e.has_room(status[g], sz, al) {
                let piece2 = ParameterPieces { addr, ..piece };
                lemma_fallback(l, k + 1, resource, tp, status2, piece2, table2, cap, more);
                assert forall|p: ParameterPieces| #[trigger] held(l, p, status) implies held(
                    l,
                    p,
                    status2,
                ) by {
                    lemma_held_advances(l, p, status, status2);
                }
            } else {
                let out = ParameterPieces { addr, type_: Some(tp), flags: 0 };
                assert(storage::allocatable(e, status[g], sz, al));
                storage::law_allocated_within(e, status[g], sz, al, !e.left_justified());
                let status3 = if e.exclusion() {
                    status2.update(g, -1i32)
                } else {
                    status2
                };
                reveal_with_fuel(assign::take_groups, 2);
                assert(claims(l, out, status3, k, status[g]));
                assert forall|p: ParameterPieces| #[trigger] held(l, p, status) implies
                    storage::bytes_apart(
                    p.addr,
                    p.type_->0.size as int,
                    addr,
                    tp.size as int,
                ) by {
                    lemma_apart(l, p, status, k, tp);
                }
            }
        }
    }
}

/// No two of the parameters from `start` on share a byte.
pub open spec fn all_apart(s: Seq<ParameterPieces>, start: int) -> bool {
    forall|i: int, j: int|
        start <= i < j < s.len() ==> storage::bytes_apart(
            (#[trigger] s[i]).addr,
            s[i].type_->0.size as int,
            (#[trigger] s[j]).addr,
            s[j].type_->0.size as int,
        )
}

proof fn lemma_inputs_apart(
    l: ListView,
    intypes: Seq<Datatype>,
    i: int,
    data_space: Option<AddrSpace>,
    status: Seq<i32>,
    done: Seq<ParameterPieces>,
    start: int,
    table: JoinTable,
    cap: int,
    al: int,
)
    requires
        orderly(l),
        0 <= i <= intypes.len(),
        forall|k: int|
            0 <= k < intypes.len() ==> storable(#[trigger] intypes[k]) && intypes[k].alignment
                <= al,
        no_larger(l, cap),
        0 <= al,
        cap + (intypes.len() - i) * al + al <= i32::MAX,
        reached(l, status, l.entry.len() as int, cap, 0),
        0 <= start <= done.len(),
        forall|k: int| start <= k < done.len() ==> held(l, #[trigger] done[k], status),
        all_apart(done, start),
    ensures
        ({
            let out = assign::inputs_from(l, intypes, i, data_space, status, done, table);
            out.res is Ok ==> all_apart(out.pieces, start)
        }),
    decreases intypes.len() - i,
{
    if i < intypes.len() {
        let tp = intypes[i];
        let class = dtype::class_of(tp.metatype);
        assert(storable(intypes[i]));
        let rest = intypes.len() - i;
        assert(rest * al == (rest - 1) * al + al && (rest - 1) * al >= 0) by (nonlinear_arith)
            requires
                rest >= 1,
                al >= 0,
        ;
        lemma_fallback(l, 0, class, tp, status, pieces::no_pieces(), table, cap, al);
        let out = assign::assign_from(
            l,
            0,
            tp,
            true,
            data_space,
            status,
            pieces::no_pieces(),
            table,
        );
        if out.res->Ok_0 == AssignActionResponse::success {
            let next = done.push(out.piece);
            assert forall|k: int| start <= k < next.len() implies held(
                l,
                #[trigger] next[k],
                out.status,
            ) by {
                if k < done.len() {
                    assert(next[k] == done[k]);
                    lemma_held_advances(l, done[k], status, out.status);
                }
            }
            assert forall|a: int, b: int| start <= a < b < next.len() implies storage::bytes_apart(
                (#[trigger] next[a]).addr,
                next[a].type_->0.size as int,
                (#[trigger] next[b]).addr,
                next[b].type_->0.size as int,
            ) by {
                assert(next[a] == done[a]);
                if b < done.len() {
                    assert(next[b] == done[b]);
                } else {
                    assert(held(l, done[a], status));
                }
            }
            lemma_inputs_apart(
                l,
                intypes,
                i + 1,
                data_space,
                out.status,
                next,
                start,
                out.table,
                cap + al,
                al,
            );
        }
    }
}

/// Which of the assigned parameters are inputs: all but the return value,
/// which stands first where there is one.
pub open spec fn first_input(before: Seq<ParameterPieces>) -> int {
    if before.len() == 2 {
        1
    } else {
        before.len() as int
    }
}

/// No two inputs of a prototype are assigned the same byte, the hidden return
/// parameter among them, under a convention whose entries hand out different
/// bytes. The entries have at most `top` bytes and the types are aligned to at
/// most `al`, so that no slot number leaves its range.
pub proof fn law_parameters_apart(
    l: ListView,
    intypes: Seq<Datatype>,
    data_space: Option<AddrSpace>,
    before: Seq<ParameterPieces>,
    table: JoinTable,
    top: int,
    al: int,
)
    requires
        orderly(l),
        forall|k: int|
            0 <= k < intypes.len() ==> storable(#[trigger] intypes[k]) && intypes[k].alignment
                <= al,
        before.len() == 2 ==> before[1].type_ is Some && storable(before[1].type_->0)
            && before[1].type_->0.alignment <= al,
        no_larger(l, top),
        0 <= top,
        0 <= al,
        top + (intypes.len() + 2) * al <= i32::MAX,
    ensures
        ({
            let out = assign::standard_map(l, intypes, data_space, before, table);
            out.res is Ok ==> all_apart(out.pieces, first_input(before))
        }),
{
    let free = assign::free_status(l.numgroup);
    let n = l.entry.len() as int;
    let m = intypes.len() as int;
    assert((m + 2) * al == m * al + al + al && m * al >= 0) by (nonlinear_arith)
        requires
            m >= 0,
            al >= 0,
    ;
    assert forall|j: int| 0 <= j < l.entry.len() implies free[(
    #[trigger] l.entry[j]).group()] == 0 by {
        assert(plain_entry(l.entry[j]));
        assert(l.entry[j].group_set.last() == l.entry[j].group_set[0]);
    }
    assert(reached(l, free, 0, top, al));
    assert(reached(l, free, n, top, 0));
    if before.len() == 2 {
        let p = before[1];
        let tp = p.type_->0;
        lemma_fallback(l, 0, TypeClass::HiddenRet, tp, free, p, table, top, al);
        lemma_fallback(l, 0, dtype::class_of(tp.metatype), tp, free, p, table, top, al);
        let out = assign::hidden_out(l, p, data_space, table);
        if out.res->Ok_0 == AssignActionResponse::success {
            let q = ParameterPieces {
                flags: out.piece.flags | pieces::HIDDENRETPARM,
                ..out.piece
            };
            let (k, slot) = choose|k: int, slot: i32| #[trigger]
                claims(l, out.piece, out.status, k, slot);
            assert(claims(l, out.piece, out.status, k, slot));
            assert(claims(l, q, out.status, k, slot));
            assert(held(l, q, out.status));
            lemma_inputs_apart(
                l,
                intypes,
                0,
                data_space,
                out.status,
                before.take(1).push(q),
                1,
                out.table,
                top + al,
                al,
            );
        }
    } else {
        lemma_inputs_apart(
            l,
            intypes,
            0,
            data_space,
            free,
            before,
            before.len() as int,
            table,
            top,
            al,
        );
    }
}

} // verus!
