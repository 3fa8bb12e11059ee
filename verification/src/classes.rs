//! A parameter gets storage of its own class, in the first entry with room.
use crate::assign;
use crate::assign::AssignOut;
use crate::dtype::{Datatype, TypeClass, TypeMetatype};
use crate::entry::EntryView;
use crate::error::FspecError;
use crate::joins::JoinTable;
use crate::paramlist::ListView;
use crate::pieces;
use crate::pieces::ParameterPieces;
use crate::rules::AssignActionResponse;
use crate::space::{AddrSpace, Address};
use crate::storage;
use vstd::prelude::*;

verus! {

/// The entry passes values of the class: it is of that class, or, unless that
/// is asked for exactly, of the general one.
pub open spec fn suits(e: EntryView, resource: TypeClass, exact: bool) -> bool {
    e.type_ == resource || (!exact && e.type_ == TypeClass::General)
}

/// The entry has room for the type, stored as it is, when `free` is its next
/// free slot: all of it for an exclusive entry, enough bytes behind that slot
/// otherwise.
pub open spec fn roomy(e: EntryView, free: i32, tp: Datatype) -> bool {
    let sz = tp.align_size as int;
    &&& !e.flags.smallsize_floatext
    &&& 0 < sz
    &&& e.minsize <= sz
    &&& if e.alignment == 0 {
        free == 0 && sz <= e.size
    } else {
        free >= 0 && tp.alignment <= e.alignment && free * e.alignment + sz <= e.numslots
            * e.alignment
    }
}

/// The entry stores values as they are, in one range of bytes.
pub open spec fn stores_plainly(e: EntryView) -> bool {
    storage::one_range(e) && !e.flags.smallsize_floatext
}

/// Values are put at the low end of their slots.
pub open spec fn low_end(e: EntryView) -> bool {
    e.flags.force_left_justify || !(e.spaceid matches Some(s) && s.big_endian)
}

/// How many slots of `al` bytes hold `sz` bytes.
pub open spec fn slots_needed(sz: int, al: int) -> int {
    (sz + al - 1) / al
}

/// The address is that of a value of `sz` bytes alone in an exclusive entry.
pub open spec fn alone_at(e: EntryView, sz: int, a: Address) -> bool {
    a.space == e.spaceid && a.offset == e.addressbase + (if low_end(e) {
        0
    } else {
        e.size - sz
    })
}

/// The address is that of a value of `sz` bytes in the slots from `free` on, in
/// the order in which the entry hands them out.
pub open spec fn slotted_at(e: EntryView, free: int, sz: int, a: Address) -> bool {
    let al = e.alignment as int;
    let n = slots_needed(sz, al);
    let first = if e.flags.reverse_stack {
        e.numslots - free - n
    } else {
        free
    };
    a.space == e.spaceid && a.offset == e.addressbase + first * al + (if low_end(e) {
        0
    } else {
        n * al - sz
    })
}

/// No entry in front of the one at `k` shares its group, but for exclusive
/// ones.
pub open spec fn own_group(es: Seq<EntryView>, k: int) -> bool {
    forall|i: int|
        0 <= i < k ==> (#[trigger] es[i]).alignment == 0 || es[i].group_set[0]
            != es[k].group_set[0]
}

/// The type was given storage from the entry at `k`, which suits its class and
/// was free.
pub open spec fn given_from(
    es: Seq<EntryView>,
    k: int,
    resource: TypeClass,
    tp: Datatype,
    exact: bool,
    status: Seq<i32>,
    out: AssignOut,
) -> bool {
    let e = es[k];
    let free = status[e.group_set[0] as int];
    let sz = tp.align_size as int;
    &&& 0 <= k < es.len()
    &&& out.res == Ok::<AssignActionResponse, FspecError>(AssignActionResponse::success)
    &&& suits(e, resource, exact)
    &&& e.minsize <= sz
    &&& out.piece.type_ == Some(tp)
    &&& out.piece.flags == 0
    &&& out.piece.addr.space is Some
    &&& own_group(es, k) ==> free >= 0
    &&& e.alignment == 0 ==> sz <= e.size && forall|i: int|
        0 <= i < e.group_set.len() ==> out.status[#[trigger] e.group_set[i] as int] == -1
    &&& e.alignment == 0 && stores_plainly(e) && sz > 0 ==> alone_at(e, sz, out.piece.addr)
    &&& e.alignment > 0 ==> out.piece.addr.space == e.spaceid
    &&& e.alignment > 0 && stores_plainly(e) && own_group(es, k) && 0 <= tp.alignment <= e.alignment
        && free + tp.alignment <= i32::MAX && sz > 0 ==> {
        &&& slotted_at(e, free as int, sz, out.piece.addr)
        &&& out.status[e.group_set[0] as int] == free + slots_needed(sz, e.alignment as int)
    }
}

/// The groups of the entries are counted in the status.
pub open spec fn counted(es: Seq<EntryView>, status: Seq<i32>) -> bool {
    forall|k: int|
        0 <= k < es.len() ==> (#[trigger] es[k]).wf() && 0 <= es[k].group_set[0]
            && es[k].group_set.last() < status.len()
}

pub(crate) proof fn lemma_needed(e: EntryView, sz: int)
    requires
        e.alignment > 0,
        sz > 0,
    ensures
        e.slots_for(sz) == slots_needed(sz, e.alignment as int),
        (slots_needed(sz, e.alignment as int) - 1) * e.alignment < sz,
        sz <= slots_needed(sz, e.alignment as int) * e.alignment,
{
    let al = e.alignment as int;
    let q = sz / al;
    let r = sz % al;
    vstd::arithmetic::div_mod::lemma_fundamental_div_mod(sz, al);
    assert(q >= 0) by (nonlinear_arith)
        requires
            q == sz / al,
            sz > 0,
            al > 0,
    ;
    if r == 0 {
        vstd::arithmetic::div_mod::lemma_fundamental_div_mod_converse(sz + al - 1, al, q, al - 1);
    } else {
        assert((q + 1) * al == al * q + al) by (nonlinear_arith);
        vstd::arithmetic::div_mod::lemma_fundamental_div_mod_converse(
            sz + al - 1,
            al,
            q + 1,
            r - 1,
        );
    }
    assert((q + 1) * al == al * q + al) by (nonlinear_arith);
    assert((q - 1) * al == al * q - al) by (nonlinear_arith);
    assert(q * al == al * q) by (nonlinear_arith);
}

/// Room in bytes is room in slots.
proof fn lemma_roomy(e: EntryView, free: i32, tp: Datatype)
    requires
        e.wf(),
        roomy(e, free, tp),
    ensures
        e.has_room(free, tp.align_size as int, tp.alignment as int),
{
    if e.alignment > 0 {
        let al = e.alignment as int;
        let sz = tp.align_size as int;
        let n = slots_needed(sz, al);
        lemma_needed(e, sz);
        assert(free + n <= e.numslots) by (nonlinear_arith)
            requires
                (n - 1) * al < sz,
                free * al + sz <= e.numslots * al,
                al > 0,
        ;
    }
}

/// What the entry at `k` gives when it has room.
proof fn lemma_given(
    es: Seq<EntryView>,
    k: int,
    resource: TypeClass,
    tp: Datatype,
    exact: bool,
    status0: Seq<i32>,
    status: Seq<i32>,
    piece: ParameterPieces,
    table: JoinTable,
)
    requires
        counted(es, status),
        status0.len() == status.len(),
        0 <= k < es.len(),
        assign::eligible(es[k], resource, exact, status),
        own_group(es, k) ==> status[es[k].group()] == status0[es[k].group()],
        ({
            let e = es[k];
            let a = e.slot_addr(
                status[e.group()],
                tp.align_size as int,
                tp.alignment as int,
                !e.left_justified(),
                table,
            );
            a matches Ok(x) && x.space is Some
        }),
    ensures
        given_from(
            es,
            k,
            resource,
            tp,
            exact,
            status0,
            assign::fallback_from(es, k, resource, tp, exact, status, piece, table),
        ),
{
    let e = es[k];
    let g = e.group();
    let sz = tp.align_size as int;
    let al = tp.alignment as int;
    let status2 = status.update(g, e.next_slot(status[g], sz, al));
    let out = assign::fallback_from(es, k, resource, tp, exact, status, piece, table);
    assert(es[k].wf());
    assert(e.group_set[0] <= e.group_set.last()) by {
        assert(e.group_set[0] <= e.group_set[e.group_set.len() - 1]);
    }
    if e.alignment == 0 {
        lemma_taken(status2, e, e.group_set.len() as int);
    } else {
        let free = status[g];
        if stores_plainly(e) && own_group(es, k) && 0 <= al <= e.alignment && free + al <= i32::MAX
            && sz > 0 {
            storage::lemma_placed(e, free, sz, al, !e.left_justified());
            lemma_needed(e, sz);
        }
    }
}

/// Taking all groups of an entry takes each of them.
proof fn lemma_taken(status: Seq<i32>, e: EntryView, n: int)
    requires
        e.wf(),
        0 <= e.group_set[0],
        e.group_set.last() < status.len(),
        0 <= n <= e.group_set.len(),
    ensures
        ({
            let after = assign::take_groups(status, e.group_set, n);
            &&& after.len() == status.len()
            &&& forall|i: int|
                0 <= i < n ==> after[#[trigger] e.group_set[i] as int] == -1
        }),
    decreases n,
{
    if n > 0 {
        lemma_taken(status, e, n - 1);
        assert(e.group_set[0] <= e.group_set[n - 1]);
        assert(e.group_set[n - 1] <= e.group_set[e.group_set.len() - 1]);
        assert forall|i: int| 0 <= i < n implies assign::take_groups(
            status,
            e.group_set,
            n,
        )[#[trigger] e.group_set[i] as int] == -1 by {
            assert(e.group_set[0] <= e.group_set[i]);
            assert(e.group_set[i] <= e.group_set[e.group_set.len() - 1]);
        }
    }
}

/// The search from the entry at `k` on, the ones before it tried.
pub(crate) proof fn lemma_search(
    es: Seq<EntryView>,
    k: int,
    resource: TypeClass,
    tp: Datatype,
    exact: bool,
    status0: Seq<i32>,
    status: Seq<i32>,
    piece: ParameterPieces,
    table: JoinTable,
)
    requires
        counted(es, status0),
        status0.len() == status.len(),
        0 <= k <= es.len(),
        forall|j: int|
            k <= j < es.len() && own_group(es, j) ==> status[(#[trigger] es[j]).group()]
                == status0[es[j].group()],
    ensures
        ({
            let out = assign::fallback_from(es, k, resource, tp, exact, status, piece, table);
            &&& out.res is Ok ==> out.res->Ok_0 == AssignActionResponse::success || out.res->Ok_0
                == AssignActionResponse::fail
            &&& out.res == Ok::<AssignActionResponse, FspecError>(AssignActionResponse::success)
                ==> exists|i: int|
                k <= i && #[trigger] given_from(es, i, resource, tp, exact, status0, out)
            &&& found_by(es, k, resource, tp, exact, status0, out)
            &&& out.status.len() == status.len()
        }),
    decreases es.len() - k,
{
    if k < es.len() {
        let e = es[k];
        let g = e.group();
        let sz = tp.align_size as int;
        let al = tp.alignment as int;
        assert(es[k].wf());
        assert(e.group_set[0] <= e.group_set.last()) by {
            assert(e.group_set[0] <= e.group_set[e.group_set.len() - 1]);
        }
        let out = assign::fallback_from(es, k, resource, tp, exact, status, piece, table);
        let wanted = own_group(es, k) && suits(e, resource, exact) && roomy(e, status0[g], tp);
        if wanted {
            lemma_roomy(e, status0[g], tp);
            assert(status[g] == status0[g]);
        }
        if !assign::eligible(e, resource, exact, status) {
            assert(!wanted);
            lemma_search(es, k + 1, resource, tp, exact, status0, status, piece, table);
            lemma_later(es, k, resource, tp, exact, status0, out);
        } else {
            let status2 = status.update(g, e.next_slot(status[g], sz, al));
            let table2 = e.next_table(status[g], sz, al, table);
            match e.slot_addr(status[g], sz, al, !e.left_justified(), table) {
                Err(x) => {},
                Ok(addr) => {
                    if addr.space is None {
                        assert(!wanted);
                        assert forall|j: int| k + 1 <= j < es.len() && own_group(es, j) implies
                            status2[(#[trigger] es[j]).group()] == status0[es[j].group()] by {
                            assert(es[k].alignment == 0 || es[k].group_set[0] != es[j].group_set[0]);
                        }
                        lemma_search(
                            es,
                            k + 1,
                            resource,
                            tp,
                            exact,
                            status0,
                            status2,
                            ParameterPieces { addr, ..piece },
                            table2,
                        );
                        lemma_later(es, k, resource, tp, exact, status0, out);
                    } else {
                        lemma_given(
                            es,
                            k,
                            resource,
                            tp,
                            exact,
                            status0,
                            status,
                            piece,
                            table,
                        );
                        if e.exclusion() {
                            lemma_taken(status2, e, e.group_set.len() as int);
                        }
                        assert(given_from(es, k, resource, tp, exact, status0, out));
                        assert(found_by(es, k, resource, tp, exact, status0, out)) by {
                            assert forall|j: int|
                                k <= j < es.len() && suits(#[trigger] es[j], resource, exact)
                                    && own_group(es, j) && roomy(
                                    es[j],
                                    status0[es[j].group()],
                                    tp,
                                ) && out.res is Ok implies given_by(
                                es,
                                k,
                                j,
                                resource,
                                tp,
                                exact,
                                status0,
                                out,
                            ) by {
                                assert(k <= j && given_from(
                                    es,
                                    k,
                                    resource,
                                    tp,
                                    exact,
                                    status0,
                                    out,
                                ));
                            }
                        }
                    }
                },
            }
        }
    }
}

/// Some entry from `k` to `j` gave the storage.
pub open spec fn given_by(
    es: Seq<EntryView>,
    k: int,
    j: int,
    resource: TypeClass,
    tp: Datatype,
    exact: bool,
    status: Seq<i32>,
    out: AssignOut,
) -> bool {
    exists|i: int| k <= i <= j && #[trigger] given_from(es, i, resource, tp, exact, status, out)
}

/// An entry from `k` on that has room gives the storage, or one before it does.
pub open spec fn found_by(
    es: Seq<EntryView>,
    k: int,
    resource: TypeClass,
    tp: Datatype,
    exact: bool,
    status: Seq<i32>,
    out: AssignOut,
) -> bool {
    forall|j: int|
        k <= j < es.len() && suits(#[trigger] es[j], resource, exact) && own_group(es, j) && roomy(
            es[j],
            status[es[j].group_set[0] as int],
            tp,
        ) && out.res is Ok ==> given_by(es, k, j, resource, tp, exact, status, out)
}

proof fn lemma_later(
    es: Seq<EntryView>,
    k: int,
    resource: TypeClass,
    tp: Datatype,
    exact: bool,
    status: Seq<i32>,
    out: AssignOut,
)
    requires
        0 <= k < es.len(),
        found_by(es, k + 1, resource, tp, exact, status, out),
        !(own_group(es, k) && suits(es[k], resource, exact) && roomy(
            es[k],
            status[es[k].group_set[0] as int],
            tp,
        )),
    ensures
        found_by(es, k, resource, tp, exact, status, out),
{
    assert forall|j: int|
        k <= j < es.len() && suits(#[trigger] es[j], resource, exact) && own_group(es, j) && roomy(
            es[j],
            status[es[j].group_set[0] as int],
            tp,
        ) && out.res is Ok implies given_by(es, k, j, resource, tp, exact, status, out) by {
        assert(j != k);
        assert(given_by(es, k + 1, j, resource, tp, exact, status, out));
        let i = choose|i: int|
            k + 1 <= i <= j && #[trigger] given_from(es, i, resource, tp, exact, status, out);
        assert(k <= i <= j && given_from(es, i, resource, tp, exact, status, out));
    }
}

/// A type gets storage from an entry of its own class, or of the general one
/// unless its class is asked for exactly, and from no other; and it gets it
/// from the first such entry with room. In an exclusive entry it lies alone, at
/// the end that the byte order asks for, and takes all groups of the entry;
/// otherwise it takes the next slots.
pub proof fn law_first_of_class(
    es: Seq<EntryView>,
    resource: TypeClass,
    tp: Datatype,
    exact: bool,
    status: Seq<i32>,
    piece: ParameterPieces,
    table: JoinTable,
)
    requires
        counted(es, status),
    ensures
        ({
            let out = assign::fallback_from(es, 0, resource, tp, exact, status, piece, table);
            &&& out.res is Ok ==> out.res->Ok_0 == AssignActionResponse::success || out.res->Ok_0
                == AssignActionResponse::fail
            &&& out.res == Ok::<AssignActionResponse, FspecError>(AssignActionResponse::success)
                ==> exists|i: int|
                0 <= i && #[trigger] given_from(es, i, resource, tp, exact, status, out)
            &&& found_by(es, 0, resource, tp, exact, status, out)
        }),
{
    lemma_search(es, 0, resource, tp, exact, status, status, piece, table);
}

/// The class that a kind of type asks for.
pub open spec fn asks_for(m: TypeMetatype, c: TypeClass) -> bool {
    &&& m == TypeMetatype::Float ==> c == TypeClass::Float
    &&& m == TypeMetatype::Ptr ==> c == TypeClass::Ptr
    &&& m != TypeMetatype::Float && m != TypeMetatype::Ptr ==> c == TypeClass::General
}

/// The parameter lies in an entry of the list that passes values of its class.
pub open spec fn in_class(l: ListView, p: ParameterPieces, dt: Datatype) -> bool {
    exists|k: int, c: TypeClass|
        0 <= k < l.entry.len() && asks_for(dt.metatype, c) && #[trigger] suits(
            l.entry[k],
            c,
            false,
        ) && p.type_ == Some(dt) && p.addr.space is Some && (l.entry[k].alignment == 0
            && stores_plainly(l.entry[k]) && dt.align_size > 0 ==> alone_at(
            l.entry[k],
            dt.align_size as int,
            p.addr,
        )) && (l.entry[k].alignment > 0 ==> p.addr.space == l.entry[k].spaceid)
}

pub(crate) proof fn lemma_inputs(
    l: ListView,
    intypes: Seq<Datatype>,
    i: int,
    data_space: Option<AddrSpace>,
    status: Seq<i32>,
    done: Seq<ParameterPieces>,
    table: JoinTable,
)
    requires
        counted(l.entry, status),
        l.model_rules.len() == 0,
        0 <= i <= intypes.len(),
    ensures
        ({
            let out = assign::inputs_from(l, intypes, i, data_space, status, done, table);
            out.res is Ok ==> {
                &&& out.pieces.len() == done.len() + intypes.len() - i
                &&& out.pieces.take(done.len() as int) =~= done
                &&& forall|j: int|
                    i <= j < intypes.len() ==> in_class(
                        l,
                        out.pieces[done.len() + j - i],
                        #[trigger] intypes[j],
                    )
            }
        }),
    decreases intypes.len() - i,
{
    if i < intypes.len() {
        let dt = intypes[i];
        let c = crate::dtype::class_of(dt.metatype);
        let np = pieces::no_pieces();
        let one = assign::assign_from(l, 0, dt, true, data_space, status, np, table);
        assert(one == assign::fallback_from(l.entry, 0, c, dt, false, status, np, table));
        lemma_search(l.entry, 0, c, dt, false, status, status, np, table);
        if one.res == Ok::<AssignActionResponse, FspecError>(AssignActionResponse::success) {
            let k = choose|k: int|
                0 <= k && #[trigger] given_from(l.entry, k, c, dt, false, status, one);
            assert(given_from(l.entry, k, c, dt, false, status, one));
            assert(suits(l.entry[k], c, false));
            assert(asks_for(dt.metatype, c));
            assert(in_class(l, one.piece, dt));
            let next = done.push(one.piece);
            lemma_inputs(l, intypes, i + 1, data_space, one.status, next, one.table);
            let out = assign::inputs_from(l, intypes, i, data_space, status, done, table);
            if out.res is Ok {
                let ps = out.pieces;
                assert(ps.take(done.len() as int) =~= ps.take(next.len() as int).drop_last());
                assert forall|j: int| i <= j < intypes.len() implies in_class(
                    l,
                    ps[done.len() + j - i],
                    #[trigger] intypes[j],
                ) by {
                    if j == i {
                        assert(ps[done.len() as int] == ps.take(next.len() as int)[done.len() as int]);
                    } else {
                        assert(done.len() + j - i == next.len() + j - (i + 1));
                    }
                }
            }
        }
    }
}

/// Under a convention without rules every input of a prototype lies in an entry
/// of its class, in the order of the types: a float in one for floats, a
/// pointer in one for pointers, or each in one of the general class, and
/// anything else in one of the general class.
pub proof fn law_inputs_of_class(
    l: ListView,
    intypes: Seq<Datatype>,
    data_space: Option<AddrSpace>,
    before: Seq<ParameterPieces>,
    table: JoinTable,
    j: int,
)
    requires
        l.wf(),
        l.groups_ok(),
        l.model_rules.len() == 0,
        before.len() != 2,
        0 <= j < intypes.len(),
    ensures
        ({
            let out = assign::standard_map(l, intypes, data_space, before, table);
            out.res is Ok ==> out.pieces.len() == before.len() + intypes.len() && in_class(
                l,
                out.pieces[before.len() + j],
                intypes[j],
            )
        }),
{
    let free = assign::free_status(l.numgroup);
    assert(counted(l.entry, free)) by {
        assert forall|k: int| 0 <= k < l.entry.len() implies (#[trigger] l.entry[k]).wf() && 0
            <= l.entry[k].group_set[0] && l.entry[k].group_set.last() < free.len() by {
            assert(l.entry[k].wf());
        }
    }
    lemma_inputs(l, intypes, 0, data_space, free, before, table);
    assert(intypes[j] == intypes[j]);
}

} // verus!
