//! What the rules of a convention do with a parameter, and how a return value
//! that does not fit is passed.
use crate::assign;
use crate::classes;
use crate::dtype::{Datatype, TypeClass, TypeMetatype};
use crate::entry::EntryView;
use crate::error::FspecError;
use crate::joins::JoinTable;
use crate::num;
use crate::paramlist::ListView;
use crate::pieces;
use crate::pieces::ParameterPieces;
use crate::rules::{AssignAction, AssignActionResponse};
use crate::space::AddrSpace;
use crate::storage;
use vstd::prelude::*;

verus! {

/// The rule at `k` is the first that is made for types of `size` bytes.
pub open spec fn first_rule(l: ListView, size: int, k: int) -> bool {
    &&& 0 <= k < l.model_rules.len()
    &&& made_for(l, size, k)
    &&& forall|j: int| 0 <= j < k ==> !#[trigger] made_for(l, size, j)
}

/// The rule at `k` is made for types of `size` bytes: no fewer than its least
/// size and, if it has a greatest one, no more than that.
pub open spec fn made_for(l: ListView, size: int, k: int) -> bool {
    let r = l.model_rules[k];
    r.min_size <= size && (r.max_size != 0 ==> size <= r.max_size)
}

proof fn lemma_passed_over(
    l: ListView,
    i: int,
    k: int,
    dt: Datatype,
    convert: bool,
    data_space: Option<AddrSpace>,
    status: Seq<i32>,
    piece: ParameterPieces,
    table: JoinTable,
)
    requires
        0 <= i <= k <= l.model_rules.len(),
        forall|j: int| i <= j < k ==> !#[trigger] made_for(l, dt.size as int, j),
    ensures
        assign::assign_from(l, i, dt, convert, data_space, status, piece, table)
            == assign::assign_from(l, k, dt, convert, data_space, status, piece, table),
    decreases k - i,
{
    reveal_with_fuel(assign::assign_from, 2);
    reveal_with_fuel(assign::rule_out, 2);
    if i < k {
        assert(!made_for(l, dt.size as int, i));
        lemma_passed_over(l, i + 1, k, dt, convert, data_space, status, piece, table);
    }
}

/// Where no rule is made for the size of a type, the entries decide, by the
/// class that the kind of the type asks for.
pub proof fn law_no_rule(
    l: ListView,
    dt: Datatype,
    data_space: Option<AddrSpace>,
    status: Seq<i32>,
    piece: ParameterPieces,
    table: JoinTable,
    c: TypeClass,
)
    requires
        forall|j: int| 0 <= j < l.model_rules.len() ==> !#[trigger] made_for(l, dt.size as int, j),
        classes::asks_for(dt.metatype, c),
    ensures
        assign::assign_from(l, 0, dt, true, data_space, status, piece, table)
            == assign::fallback_from(l.entry, 0, c, dt, false, status, piece, table),
{
    lemma_passed_over(
        l,
        0,
        l.model_rules.len() as int,
        dt,
        true,
        data_space,
        status,
        piece,
        table,
    );
}

/// A rule that sends types to the stack gives them the next slots of its stack
/// entry, as they are.
pub proof fn law_sent_to_stack(
    l: ListView,
    dt: Datatype,
    data_space: Option<AddrSpace>,
    status: Seq<i32>,
    piece: ParameterPieces,
    table: JoinTable,
    k: int,
    i: usize,
)
    requires
        classes::counted(l.entry, status),
        first_rule(l, dt.size as int, k),
        l.model_rules[k].action == (AssignAction::GotoStack { stack_entry: Some(i) }),
        i < l.entry.len(),
        classes::stores_plainly(l.entry[i as int]),
        l.entry[i as int].alignment > 0,
        0 <= dt.alignment <= l.entry[i as int].alignment,
        0 < dt.size,
        l.entry[i as int].minsize <= dt.size,
        ({
            let e = l.entry[i as int];
            let free = status[e.group_set[0] as int];
            &&& 0 <= free
            &&& free + dt.alignment <= i32::MAX
            &&& free + classes::slots_needed(dt.size as int, e.alignment as int) <= e.numslots
        }),
    ensures
        ({
            let out = assign::assign_from(l, 0, dt, true, data_space, status, piece, table);
            let e = l.entry[i as int];
            let free = status[e.group_set[0] as int];
            &&& out.res == Ok::<AssignActionResponse, FspecError>(AssignActionResponse::success)
            &&& out.piece.type_ == Some(dt)
            &&& out.piece.flags == 0
            &&& classes::slotted_at(e, free as int, dt.size as int, out.piece.addr)
            &&& out.status[e.group_set[0] as int] == free + classes::slots_needed(
                dt.size as int,
                e.alignment as int,
            )
        }),
{
    reveal_with_fuel(assign::assign_from, 2);
    reveal_with_fuel(assign::rule_out, 2);
    lemma_passed_over(l, 0, k, dt, true, data_space, status, piece, table);
    let e = l.entry[i as int];
    assert(made_for(l, dt.size as int, k));
    assert(e.wf() && e.group_set[0] <= e.group_set.last());
    let free = status[e.group_set[0] as int];
    let sz = dt.size as int;
    classes::lemma_needed(e, sz);
    storage::lemma_placed(e, free, sz, dt.alignment as int, !e.left_justified());
}

/// A rule that passes types by pointer gives, for a type that it is made for,
/// the storage that a pointer to it gets, which has the size of an address of
/// the space that the rule names, or of the data space, and marks the parameter
/// as passed by pointer. A pointer is not passed by pointer again.
pub proof fn law_passed_by_pointer(
    l: ListView,
    dt: Datatype,
    data_space: Option<AddrSpace>,
    status: Seq<i32>,
    piece: ParameterPieces,
    table: JoinTable,
    k: int,
    space: Option<AddrSpace>,
    s: AddrSpace,
    p: Datatype,
)
    requires
        first_rule(l, dt.size as int, k),
        l.model_rules[k].action == (AssignAction::ConvertToPointer { space }),
        space == Some(s) || (space is None && data_space == Some(s)),
        p.metatype == TypeMetatype::Ptr,
        p.id == dt.id,
        p.size == s.addr_size as i32,
        p.alignment == p.size,
        p.align_size == p.size,
        dt.ptr_depth < u64::MAX,
        p.ptr_depth == dt.ptr_depth + 1,
        forall|j: int| 0 <= j < l.model_rules.len() ==> !#[trigger] made_for(l, p.size as int, j),
    ensures
        ({
            let out = assign::assign_from(l, 0, dt, true, data_space, status, piece, table);
            let ptr = assign::fallback_from(
                l.entry,
                0,
                TypeClass::Ptr,
                p,
                false,
                status,
                piece,
                table,
            );
            ptr.res == Ok::<AssignActionResponse, FspecError>(AssignActionResponse::success) ==> {
                &&& out.res == ptr.res
                &&& out.piece.addr == ptr.piece.addr
                &&& out.piece.type_ == Some(p)
                &&& out.piece.flags == pieces::INDIRECTSTORAGE
                &&& out.status == ptr.status
                &&& out.table == ptr.table
            }
        }),
{
    reveal_with_fuel(assign::assign_from, 2);
    reveal_with_fuel(assign::rule_out, 2);
    lemma_passed_over(l, 0, k, dt, true, data_space, status, piece, table);
    assert(made_for(l, dt.size as int, k));
    let n = l.model_rules.len() as int;
    assert(p == crate::dtype::pointer_to(dt, s.addr_size as i32));
    lemma_passed_over(l, 0, n, p, false, data_space, status, piece, table);
    lemma_typed(l.entry, 0, TypeClass::Ptr, p, status, piece, table);
}

proof fn lemma_typed(
    es: Seq<EntryView>,
    k: int,
    resource: TypeClass,
    tp: Datatype,
    status: Seq<i32>,
    piece: ParameterPieces,
    table: JoinTable,
)
    ensures
        ({
            let out = assign::fallback_from(es, k, resource, tp, false, status, piece, table);
            out.res == Ok::<AssignActionResponse, FspecError>(AssignActionResponse::success)
                ==> out.piece.type_ == Some(tp) && out.piece.flags == 0 && out.piece.addr.space
                is Some
        }),
    decreases es.len() - k,
{
    if 0 <= k < es.len() {
        let e = es[k];
        let g = e.group();
        if !assign::eligible(e, resource, false, status) {
            lemma_typed(es, k + 1, resource, tp, status, piece, table);
        } else {
            let sz = tp.align_size as int;
            let al = tp.alignment as int;
            let status2 = status.update(g, e.next_slot(status[g], sz, al));
            let table2 = e.next_table(status[g], sz, al, table);
            if let Ok(addr) = e.slot_addr(status[g], sz, al, !e.left_justified(), table) {
                if addr.space is None {
                    lemma_typed(
                        es,
                        k + 1,
                        resource,
                        tp,
                        status2,
                        ParameterPieces { addr, ..piece },
                        table2,
                    );
                }
            }
        }
    }
}

/// All groups are free.
pub open spec fn all_free(status: Seq<i32>, n: int) -> bool {
    status.len() == n && forall|i: int| 0 <= i < n ==> #[trigger] status[i] == 0
}

/// A function that returns nothing has a return value without storage.
pub proof fn law_nothing_returned(
    l: ListView,
    outtype: Datatype,
    data_space: Option<AddrSpace>,
    before: Seq<ParameterPieces>,
    table: JoinTable,
)
    requires
        outtype.metatype == TypeMetatype::Void,
    ensures
        ({
            let a = assign::standard_out_map(l, outtype, data_space, before, table);
            let b = assign::register_out_map(l, outtype, data_space, before, table);
            &&& a == b
            &&& a.res is Ok
            &&& a.table == table
            &&& a.pieces.len() == before.len() + 1
            &&& a.pieces.take(before.len() as int) =~= before
            &&& a.pieces.last().addr.space is None
            &&& a.pieces.last().type_ == Some(outtype)
            &&& a.pieces.last().flags == 0
        }),
{
}

/// A return value gets the storage that the entries have for its class while all
/// groups are free. Where they have none, it is passed through a pointer, as big
/// as an address of the stack or of the data space: the pointer gets the storage
/// that the entries then have for pointers and is marked as pointing to the
/// value, and a second parameter of the same type, without storage, stands for
/// the input that it comes in by.
pub proof fn law_value_returned(
    l: ListView,
    outtype: Datatype,
    data_space: Option<AddrSpace>,
    before: Seq<ParameterPieces>,
    table: JoinTable,
    free: Seq<i32>,
    c: TypeClass,
)
    requires
        l.model_rules.len() == 0,
        outtype.metatype != TypeMetatype::Void,
        l.numgroup >= 0,
        all_free(free, l.numgroup as int),
        classes::asks_for(outtype.metatype, c),
    ensures
        ({
            let none = ParameterPieces {
                addr: crate::space::Address { space: None, offset: 0 },
                type_: None,
                flags: 0,
            };
            let direct = assign::fallback_from(l.entry, 0, c, outtype, false, free, none, table);
            let out = assign::standard_out_map(l, outtype, data_space, before, table);
            let spc = if l.spacebase is Some {
                l.spacebase
            } else {
                data_space
            };
            let n = before.len() as int;
            &&& direct.res == Ok::<AssignActionResponse, FspecError>(AssignActionResponse::success)
                ==> {
                &&& out.res is Ok
                &&& out.pieces =~= before.push(direct.piece)
                &&& out.table == direct.table
            }
            &&& direct.res == Ok::<AssignActionResponse, FspecError>(AssignActionResponse::fail)
                && spc is None ==> out.res == Err::<(), FspecError>(
                FspecError::NoDefaultDataSpace,
            )
            &&& direct.res == Ok::<AssignActionResponse, FspecError>(AssignActionResponse::fail)
                && spc is Some && out.res is Ok ==> {
                let p = out.pieces[n].type_->0;
                &&& out.pieces.len() == n + 2
                &&& out.pieces.take(n) =~= before
                &&& out.pieces[n].type_ is Some
                &&& p.metatype == TypeMetatype::Ptr
                &&& p.size == spc->0.addr_size as i32
                &&& p.id == outtype.id
                &&& out.pieces[n].addr.space is Some
                &&& out.pieces[n].flags == pieces::INDIRECTSTORAGE
                &&& out.pieces[n].addr == assign::fallback_from(
                    l.entry,
                    0,
                    TypeClass::Ptr,
                    p,
                    false,
                    direct.status,
                    direct.piece,
                    direct.table,
                ).piece.addr
                &&& out.pieces[n + 1].type_ == Some(p)
                &&& out.pieces[n + 1].addr.space is None
                &&& out.pieces[n + 1].flags == 0
            }
        }),
{
    assert(assign::free_status(l.numgroup) =~= free);
    let none = pieces::no_pieces();
    let direct = assign::fallback_from(l.entry, 0, c, outtype, false, free, none, table);
    assert(direct == assign::assign_from(l, 0, outtype, true, data_space, free, none, table));
    lemma_typed(l.entry, 0, c, outtype, free, none, table);
    let spc = if l.spacebase is Some {
        l.spacebase
    } else {
        data_space
    };
    if direct.res == Ok::<AssignActionResponse, FspecError>(AssignActionResponse::fail) && spc
        is Some {
        let p = crate::dtype::pointer_to(outtype, spc->0.addr_size as i32);
        let q = ParameterPieces { type_: Some(p), ..direct.piece };
        lemma_typed(l.entry, 0, TypeClass::Ptr, p, direct.status, q, direct.table);
        lemma_verdict(l.entry, 0, TypeClass::Ptr, p, direct.status, q, direct.table);
        lemma_same_storage(
            l.entry,
            0,
            TypeClass::Ptr,
            p,
            direct.status,
            q,
            direct.piece,
            direct.table,
        );
        let second = assign::assign_from(
            l,
            0,
            p,
            true,
            data_space,
            direct.status,
            q,
            direct.table,
        );
        assert(second == assign::fallback_from(
            l.entry,
            0,
            TypeClass::Ptr,
            p,
            false,
            direct.status,
            q,
            direct.table,
        ));
        let out = assign::standard_out_map(l, outtype, data_space, before, table);
        assert(out == assign::hidden_return(
            l,
            outtype,
            data_space,
            before,
            direct,
            AssignActionResponse::hiddenret_ptrparam,
        ));
        if out.res is Ok {
            let n = before.len() as int;
            assert(out.pieces[n] == (ParameterPieces {
                flags: pieces::INDIRECTSTORAGE,
                ..second.piece
            }));
            assert(out.pieces.len() == n + 2);
            assert(out.pieces.take(n) =~= before);
        }
    }
    lemma_verdict(l.entry, 0, c, outtype, free, none, table);
}

proof fn lemma_verdict(
    es: Seq<EntryView>,
    k: int,
    resource: TypeClass,
    tp: Datatype,
    status: Seq<i32>,
    piece: ParameterPieces,
    table: JoinTable,
)
    ensures
        ({
            let out = assign::fallback_from(es, k, resource, tp, false, status, piece, table);
            out.res is Ok ==> out.res->Ok_0 == AssignActionResponse::success || out.res->Ok_0
                == AssignActionResponse::fail
        }),
    decreases es.len() - k,
{
    if 0 <= k < es.len() {
        let e = es[k];
        let g = e.group();
        if !assign::eligible(e, resource, false, status) {
            lemma_verdict(es, k + 1, resource, tp, status, piece, table);
        } else {
            let sz = tp.align_size as int;
            let al = tp.alignment as int;
            let status2 = status.update(g, e.next_slot(status[g], sz, al));
            let table2 = e.next_table(status[g], sz, al, table);
            if let Ok(addr) = e.slot_addr(status[g], sz, al, !e.left_justified(), table) {
                if addr.space is None {
                    lemma_verdict(
                        es,
                        k + 1,
                        resource,
                        tp,
                        status2,
                        ParameterPieces { addr, ..piece },
                        table2,
                    );
                }
            }
        }
    }
}

/// What the parameter held before does not matter for where it is put.
proof fn lemma_same_storage(
    es: Seq<EntryView>,
    k: int,
    resource: TypeClass,
    tp: Datatype,
    status: Seq<i32>,
    a: ParameterPieces,
    b: ParameterPieces,
    table: JoinTable,
)
    requires
        a.addr == b.addr,
    ensures
        ({
            let x = assign::fallback_from(es, k, resource, tp, false, status, a, table);
            let y = assign::fallback_from(es, k, resource, tp, false, status, b, table);
            x.res == y.res && x.piece.addr == y.piece.addr && x.status == y.status && x.table
                == y.table
        }),
    decreases es.len() - k,
{
    if 0 <= k < es.len() {
        let e = es[k];
        let g = e.group();
        if !assign::eligible(e, resource, false, status) {
            lemma_same_storage(es, k + 1, resource, tp, status, a, b, table);
        } else {
            let sz = tp.align_size as int;
            let al = tp.alignment as int;
            let status2 = status.update(g, e.next_slot(status[g], sz, al));
            let table2 = e.next_table(status[g], sz, al, table);
            if let Ok(addr) = e.slot_addr(status[g], sz, al, !e.left_justified(), table) {
                if addr.space is None {
                    lemma_same_storage(
                        es,
                        k + 1,
                        resource,
                        tp,
                        status2,
                        ParameterPieces { addr, ..a },
                        ParameterPieces { addr, ..b },
                        table2,
                    );
                }
            }
        }
    }
}

/// Where a pointer to the return value comes in, it is the first of the inputs:
/// one that has a class of its own lies in an entry of that class or of the
/// general one, any other gets what pointers get, and either way it is marked.
/// The other inputs come behind it, in order, each in an entry of its class.
pub proof fn law_hidden_input_first(
    l: ListView,
    intypes: Seq<Datatype>,
    data_space: Option<AddrSpace>,
    before: Seq<ParameterPieces>,
    table: JoinTable,
    j: int,
    c: TypeClass,
)
    requires
        l.wf(),
        l.groups_ok(),
        l.model_rules.len() == 0,
        before.len() == 2,
        before[1].type_ is Some,
        if before[1].flags == pieces::HIDDENRETPARM {
            c == TypeClass::HiddenRet
        } else {
            before[1].flags == 0 && classes::asks_for(before[1].type_->0.metatype, c)
        },
    ensures
        ({
            let out = assign::standard_map(l, intypes, data_space, before, table);
            out.res is Ok ==> {
                &&& out.pieces.len() == 2 + intypes.len()
                &&& out.pieces[0] == before[0]
                &&& out.pieces[1].type_ == before[1].type_
                &&& out.pieces[1].addr.space is Some
                &&& out.pieces[1].flags == pieces::HIDDENRETPARM
                &&& exists|k: int|
                    0 <= k < l.entry.len() && #[trigger] classes::suits(l.entry[k], c, false) && (
                    l.entry[k].alignment == 0 && classes::stores_plainly(l.entry[k])
                        && before[1].type_->0.align_size > 0 ==> classes::alone_at(
                        l.entry[k],
                        before[1].type_->0.align_size as int,
                        out.pieces[1].addr,
                    ))
                &&& 0 <= j < intypes.len() ==> classes::in_class(l, out.pieces[2 + j], intypes[j])
            }
        }),
{
    let free = assign::free_status(l.numgroup);
    let p = before[1];
    let tp = p.type_->0;
    assert(classes::counted(l.entry, free)) by {
        assert forall|k: int| 0 <= k < l.entry.len() implies (#[trigger] l.entry[k]).wf() && 0
            <= l.entry[k].group_set[0] && l.entry[k].group_set.last() < free.len() by {
            assert(l.entry[k].wf());
        }
    }
    assert(num::bit(2u32, 2u32) && !num::bit(0u32, 2u32) && (0u32 | 2u32) == 2u32) by {
        assert(2u32 & 2u32 != 0) by (bit_vector);
        assert(0u32 & 2u32 == 0) by (bit_vector);
        assert(0u32 | 2u32 == 2u32) by (bit_vector);
    }
    let one = assign::hidden_out(l, p, data_space, table);
    assert(one == assign::fallback_from(l.entry, 0, c, tp, false, free, p, table));
    classes::lemma_search(l.entry, 0, c, tp, false, free, free, p, table);
    lemma_verdict(l.entry, 0, c, tp, free, p, table);
    if one.res == Ok::<AssignActionResponse, FspecError>(AssignActionResponse::success) {
        let k = choose|k: int|
            0 <= k && #[trigger] classes::given_from(l.entry, k, c, tp, false, free, one);
        assert(classes::given_from(l.entry, k, c, tp, false, free, one));
        assert(classes::suits(l.entry[k], c, false));
        let q = ParameterPieces { flags: one.piece.flags | pieces::HIDDENRETPARM, ..one.piece };
        let done = before.take(1).push(q);
        classes::lemma_inputs(l, intypes, 0, data_space, one.status, done, one.table);
        let out = assign::standard_map(l, intypes, data_space, before, table);
        if out.res is Ok {
            assert(out.pieces.take(2) =~= done);
            assert(out.pieces[0] == out.pieces.take(2)[0]);
            assert(out.pieces[1] == out.pieces.take(2)[1]);
        }
    }
}

/// The slot that an alignment asks for is the next one, from a given slot on,
/// whose start is aligned, counted from the start of the entry.
pub proof fn law_slot_aligned(e: EntryView, slot: i32, align: int, m: int)
    requires
        e.alignment > 0,
        align == m * e.alignment,
        m >= 1,
        0 <= slot,
        slot + align <= i32::MAX,
    ensures
        ({
            let r = e.aligned_slot(slot, align);
            &&& slot <= r < slot + m
            &&& exists|q: int| r * e.alignment == #[trigger] (q * align)
        }),
{
    let al = e.alignment as int;
    let r = e.aligned_slot(slot, align);
    let k = slot as int / m;
    let d = slot as int % m;
    vstd::arithmetic::div_mod::lemma_fundamental_div_mod(slot as int, m);
    assert(slot * al == k * align + d * al) by (nonlinear_arith)
        requires
            slot == m * k + d,
            align == m * al,
    ;
    assert(0 <= d * al < align) by (nonlinear_arith)
        requires
            0 <= d < m,
            al > 0,
            align == m * al,
    ;
    vstd::arithmetic::div_mod::lemma_fundamental_div_mod_converse(slot * al, align, k, d * al);
    assert(slot * al >= 0) by (nonlinear_arith)
        requires
            slot >= 0,
            al > 0,
    ;
    if m == 1 {
        assert(align == al) by (nonlinear_arith)
            requires
                align == m * al,
                m == 1,
        ;
        assert(r * al == slot * align);
    } else {
        assert(align > al) by (nonlinear_arith)
            requires
                align == m * al,
                m > 1,
                al > 0,
        ;
        if d == 0 {
            assert(d * al == 0) by (nonlinear_arith)
                requires
                    d == 0,
            ;
            assert(r * al == k * align);
        } else {
            assert(d * al != 0) by (nonlinear_arith)
                requires
                    d > 0,
                    al > 0,
            ;
            assert(align - d * al == (m - d) * al) by (nonlinear_arith)
                requires
                    align == m * al,
            ;
            vstd::arithmetic::div_mod::lemma_fundamental_div_mod_converse(
                align - d * al,
                al,
                m - d,
                0,
            );
            assert(m <= align) by (nonlinear_arith)
                requires
                    align == m * al,
                    al >= 1,
                    m >= 1,
            ;
            assert(r == slot + (m - d));
            assert(r * al == (k + 1) * align) by (nonlinear_arith)
                requires
                    r == slot + (m - d),
                    slot == m * k + d,
                    align == m * al,
            ;
        }
    }
}

} // verus!
