//! What is known of the parameters that a model lays out.
use crate::assign;
use crate::assign::AssignOut;
use crate::dtype::{Datatype, TypeClass};
use crate::entry::EntryView;
use crate::error::FspecError;
use crate::joins::JoinTable;
use crate::model;
use crate::model::ModelView;
use crate::num;
use crate::paramlist::{ListView, ParamListKind};
use crate::pieces;
use crate::pieces::ParameterPieces;
use crate::rules::AssignActionResponse;
use crate::space::AddrSpace;
use vstd::prelude::*;

verus! {

/// An assignment that succeeded gave a data-type, and one that found nothing
/// gave no address.
pub open spec fn conclusive(out: AssignOut) -> bool {
    match out.res {
        Err(_) => true,
        Ok(r) => (r == AssignActionResponse::success && out.piece.type_ is Some) || (r
            == AssignActionResponse::fail && out.piece.addr.space is None),
    }
}

proof fn lemma_fallback_conclusive(
    es: Seq<EntryView>,
    k: int,
    resource: TypeClass,
    tp: Datatype,
    exact: bool,
    status: Seq<i32>,
    piece: ParameterPieces,
    table: JoinTable,
)
    requires
        piece.addr.space is None,
    ensures
        conclusive(assign::fallback_from(es, k, resource, tp, exact, status, piece, table)),
    decreases es.len() - k,
{
    if 0 <= k < es.len() {
        let e = es[k];
        let g = e.group();
        if !assign::eligible(e, resource, exact, status) {
            lemma_fallback_conclusive(es, k + 1, resource, tp, exact, status, piece, table);
        } else {
            let sz = tp.align_size as int;
            let al = tp.alignment as int;
            let status2 = status.update(g, e.next_slot(status[g], sz, al));
            let table2 = e.next_table(status[g], sz, al, table);
            if let Ok(addr) = e.slot_addr(status[g], sz, al, !e.left_justified(), table) {
                if addr.space is None {
                    lemma_fallback_conclusive(
                        es,
                        k + 1,
                        resource,
                        tp,
                        exact,
                        status2,
                        ParameterPieces { addr, ..piece },
                        table2,
                    );
                }
            }
        }
    }
}

proof fn lemma_assign_conclusive(
    l: ListView,
    k: int,
    dt: Datatype,
    convert: bool,
    data_space: Option<AddrSpace>,
    status: Seq<i32>,
    piece: ParameterPieces,
    table: JoinTable,
)
    requires
        piece.addr.space is None,
    ensures
        conclusive(assign::assign_from(l, k, dt, convert, data_space, status, piece, table)),
    decreases (if convert { 1int } else { 0int }), l.model_rules.len() - k, 1int,
{
    if k < 0 || k >= l.model_rules.len() {
        lemma_fallback_conclusive(
            l.entry,
            0,
            crate::dtype::class_of(dt.metatype),
            dt,
            false,
            status,
            piece,
            table,
        );
    } else {
        lemma_rule_conclusive(l, k, dt, convert, data_space, status, piece, table);
        let out = assign::rule_out(l, k, dt, convert, data_space, status, piece, table);
        if out.res == Ok::<AssignActionResponse, FspecError>(AssignActionResponse::fail) {
            lemma_assign_conclusive(
                l,
                k + 1,
                dt,
                convert,
                data_space,
                out.status,
                out.piece,
                out.table,
            );
        }
    }
}

proof fn lemma_rule_conclusive(
    l: ListView,
    k: int,
    dt: Datatype,
    convert: bool,
    data_space: Option<AddrSpace>,
    status: Seq<i32>,
    piece: ParameterPieces,
    table: JoinTable,
)
    requires
        piece.addr.space is None,
    ensures
        conclusive(assign::rule_out(l, k, dt, convert, data_space, status, piece, table)),
    decreases (if convert { 1int } else { 0int }), l.model_rules.len() - k, 0int,
{
    if convert {
        if let Some(s) = data_space {
            lemma_assign_conclusive(
                l,
                0,
                crate::dtype::pointer_to(dt, s.addr_size as i32),
                false,
                data_space,
                status,
                piece,
                table,
            );
        }
        if let crate::rules::AssignAction::ConvertToPointer { space: Some(s) } =
            l.model_rules[k].action {
            lemma_assign_conclusive(
                l,
                0,
                crate::dtype::pointer_to(dt, s.addr_size as i32),
                false,
                data_space,
                status,
                piece,
                table,
            );
        }
    }
}

/// Every parameter has a data-type.
pub open spec fn typed(s: Seq<ParameterPieces>) -> bool {
    forall|i: int| 0 <= i < s.len() ==> (#[trigger] s[i]).type_ is Some
}

proof fn lemma_inputs_typed(
    l: ListView,
    intypes: Seq<Datatype>,
    i: int,
    data_space: Option<AddrSpace>,
    status: Seq<i32>,
    done: Seq<ParameterPieces>,
    table: JoinTable,
)
    requires
        typed(done),
        0 <= i <= intypes.len(),
    ensures
        ({
            let out = assign::inputs_from(l, intypes, i, data_space, status, done, table);
            out.res is Ok ==> typed(out.pieces) && out.pieces.len() == done.len() + intypes.len()
                - i
        }),
    decreases intypes.len() - i,
{
    if i < intypes.len() {
        lemma_assign_conclusive(
            l,
            0,
            intypes[i],
            true,
            data_space,
            status,
            pieces::no_pieces(),
            table,
        );
        let out = assign::assign_from(
            l,
            0,
            intypes[i],
            true,
            data_space,
            status,
            pieces::no_pieces(),
            table,
        );
        if out.res == Ok::<AssignActionResponse, FspecError>(AssignActionResponse::success) {
            assert(typed(done.push(out.piece)));
            lemma_inputs_typed(
                l,
                intypes,
                i + 1,
                data_space,
                out.status,
                done.push(out.piece),
                out.table,
            );
        }
    }
}

/// The return value laid out, and perhaps the parameter that points to it,
/// which has no address yet.
pub open spec fn first_half(s: Seq<ParameterPieces>) -> bool {
    typed(s) && (s.len() == 1 || (s.len() == 2 && s[1].addr.space is None))
}

proof fn lemma_return_typed(
    l: ListView,
    outtype: Datatype,
    data_space: Option<AddrSpace>,
    table: JoinTable,
)
    ensures
        ({
            let a = assign::standard_out_map(l, outtype, data_space, Seq::empty(), table);
            let b = assign::register_out_map(l, outtype, data_space, Seq::empty(), table);
            (a.res is Ok ==> first_half(a.pieces)) && (b.res is Ok ==> first_half(b.pieces))
        }),
{
    let st = assign::free_status(l.numgroup);
    let np = pieces::no_pieces();
    lemma_assign_conclusive(l, 0, outtype, true, data_space, st, np, table);
    let out = assign::assign_from(l, 0, outtype, true, data_space, st, np, table);
    if out.res == Ok::<AssignActionResponse, FspecError>(AssignActionResponse::fail) {
        let spc = if l.spacebase is Some {
            l.spacebase
        } else {
            data_space
        };
        if let Some(s) = spc {
            let p = crate::dtype::pointer_to(outtype, s.addr_size as i32);
            lemma_assign_conclusive(
                l,
                0,
                p,
                true,
                data_space,
                out.status,
                ParameterPieces { type_: Some(p), ..out.piece },
                out.table,
            );
        }
    }
}

/// A prototype that could be laid out has one parameter for the return value,
/// perhaps one that points to it, and one for each input, all with a data-type.
pub proof fn law_layout_typed(
    m: ModelView,
    outtype: Datatype,
    intypes: Seq<Datatype>,
    ignore: bool,
    data_space: Option<AddrSpace>,
    table: JoinTable,
)
    requires
        m.lays_out(),
    ensures
        ({
            let out = m.storage(Some(outtype), intypes, ignore, data_space, table);
            out.res is Ok ==> typed(out.pieces) && intypes.len() + 1 <= out.pieces.len()
                <= intypes.len() + 2
        }),
{
    lemma_return_typed(m.outs(), outtype, data_space, table);
    let first = assign::map_out(
        m.outs(),
        Some(outtype),
        intypes,
        data_space,
        Seq::empty(),
        table,
    );
    let dropped = first.res matches Err(e) && ignore && model::is_unassigned(e);
    if first.res is Ok || dropped {
        let before = if dropped {
            model::void_return()
        } else {
            first.pieces
        };
        assert(first_half(before));
        let l = m.ins();
        if l.kind != ParamListKind::Merged {
            if before.len() == 2 {
                let out = assign::hidden_out(l, before[1], data_space, first.table);
                lemma_fallback_conclusive(
                    l.entry,
                    0,
                    TypeClass::HiddenRet,
                    before[1].type_->0,
                    false,
                    assign::free_status(l.numgroup),
                    before[1],
                    first.table,
                );
                lemma_assign_conclusive(
                    l,
                    0,
                    before[1].type_->0,
                    true,
                    data_space,
                    assign::free_status(l.numgroup),
                    before[1],
                    first.table,
                );
                assert(conclusive(out));
                if out.res == Ok::<AssignActionResponse, FspecError>(
                    AssignActionResponse::success,
                ) {
                    let done = before.take(1).push(
                        ParameterPieces {
                            flags: out.piece.flags | pieces::HIDDENRETPARM,
                            ..out.piece
                        },
                    );
                    assert(typed(done));
                    lemma_inputs_typed(l, intypes, 0, data_space, out.status, done, out.table);
                }
            } else {
                lemma_inputs_typed(
                    l,
                    intypes,
                    0,
                    data_space,
                    assign::free_status(l.numgroup),
                    before,
                    first.table,
                );
            }
        }
        let second = assign::map_out(
            l,
            Some(outtype),
            intypes,
            data_space,
            before,
            first.table,
        );
        assert(second.res is Ok ==> typed(second.pieces));
        if second.res is Ok && m.has_this {
            lemma_this_typed(second.pieces, l.thisbeforeret);
        }
    }
}

proof fn lemma_this_typed(s: Seq<ParameterPieces>, this_first: bool)
    requires
        typed(s),
    ensures
        typed(model::this_marked(s, this_first)),
        model::this_marked(s, this_first).len() == s.len(),
{
}

/// No rule passes a value by a pointer to it.
pub open spec fn by_value(l: ListView) -> bool {
    forall|k: int|
        0 <= k < l.model_rules.len() ==> (#[trigger] l.model_rules[k]).action is GotoStack
}

proof fn lemma_fallback_keeps(
    es: Seq<EntryView>,
    k: int,
    resource: TypeClass,
    tp: Datatype,
    exact: bool,
    status: Seq<i32>,
    piece: ParameterPieces,
    table: JoinTable,
)
    ensures
        ({
            let out = assign::fallback_from(es, k, resource, tp, exact, status, piece, table);
            out.res == Ok::<AssignActionResponse, FspecError>(AssignActionResponse::success)
                ==> out.piece.type_ == Some(tp) && out.piece.flags == 0
        }),
    decreases es.len() - k,
{
    if 0 <= k < es.len() {
        let e = es[k];
        let g = e.group();
        if !assign::eligible(e, resource, exact, status) {
            lemma_fallback_keeps(es, k + 1, resource, tp, exact, status, piece, table);
        } else {
            let sz = tp.align_size as int;
            let al = tp.alignment as int;
            let status2 = status.update(g, e.next_slot(status[g], sz, al));
            let table2 = e.next_table(status[g], sz, al, table);
            if let Ok(addr) = e.slot_addr(status[g], sz, al, !e.left_justified(), table) {
                lemma_fallback_keeps(
                    es,
                    k + 1,
                    resource,
                    tp,
                    exact,
                    status2,
                    ParameterPieces { addr, ..piece },
                    table2,
                );
            }
        }
    }
}

proof fn lemma_assign_keeps(
    l: ListView,
    k: int,
    dt: Datatype,
    data_space: Option<AddrSpace>,
    status: Seq<i32>,
    piece: ParameterPieces,
    table: JoinTable,
)
    requires
        by_value(l),
    ensures
        ({
            let out = assign::assign_from(l, k, dt, true, data_space, status, piece, table);
            out.res == Ok::<AssignActionResponse, FspecError>(AssignActionResponse::success)
                ==> out.piece.type_ == Some(dt) && out.piece.flags == 0
        }),
    decreases l.model_rules.len() - k,
{
    if k < 0 || k >= l.model_rules.len() {
        lemma_fallback_keeps(
            l.entry,
            0,
            crate::dtype::class_of(dt.metatype),
            dt,
            false,
            status,
            piece,
            table,
        );
    } else {
        assert(l.model_rules[k].action is GotoStack);
        let out = assign::rule_out(l, k, dt, true, data_space, status, piece, table);
        if out.res == Ok::<AssignActionResponse, FspecError>(AssignActionResponse::fail) {
            lemma_assign_keeps(l, k + 1, dt, data_space, out.status, out.piece, out.table);
        }
    }
}

/// The parameters in front are `done`, and behind them each has one of the
/// data-types from `i` on, and no mark.
pub open spec fn follows_types(
    s: Seq<ParameterPieces>,
    done: Seq<ParameterPieces>,
    intypes: Seq<Datatype>,
    i: int,
) -> bool {
    &&& s.len() == done.len() + intypes.len() - i
    &&& forall|k: int| 0 <= k < done.len() ==> #[trigger] s[k] == done[k]
    &&& forall|k: int|
        done.len() <= k < s.len() ==> (#[trigger] s[k]).type_ == Some(
            intypes[k - done.len() + i],
        ) && s[k].flags == 0
}

proof fn lemma_inputs_keep(
    l: ListView,
    intypes: Seq<Datatype>,
    i: int,
    data_space: Option<AddrSpace>,
    status: Seq<i32>,
    done: Seq<ParameterPieces>,
    table: JoinTable,
)
    requires
        by_value(l),
        0 <= i <= intypes.len(),
    ensures
        ({
            let out = assign::inputs_from(l, intypes, i, data_space, status, done, table);
            out.res is Ok ==> follows_types(out.pieces, done, intypes, i)
        }),
    decreases intypes.len() - i,
{
    if i < intypes.len() {
        let np = pieces::no_pieces();
        lemma_assign_conclusive(l, 0, intypes[i], true, data_space, status, np, table);
        lemma_assign_keeps(l, 0, intypes[i], data_space, status, np, table);
        let out = assign::assign_from(l, 0, intypes[i], true, data_space, status, np, table);
        if out.res == Ok::<AssignActionResponse, FspecError>(AssignActionResponse::success) {
            let next = done.push(out.piece);
            lemma_inputs_keep(l, intypes, i + 1, data_space, out.status, next, out.table);
            let all = assign::inputs_from(
                l,
                intypes,
                i + 1,
                data_space,
                out.status,
                next,
                out.table,
            );
            if all.res is Ok {
                assert forall|k: int| 0 <= k < done.len() implies #[trigger] all.pieces[k]
                    == done[k] by {
                    assert(all.pieces[k] == next[k]);
                }
                assert(all.pieces[done.len() as int] == next[done.len() as int]);
            }
        }
    }
}

/// The return value laid out under a list that passes by value: on its own it
/// has its data-type.
proof fn lemma_return_keeps(
    l: ListView,
    outtype: Datatype,
    data_space: Option<AddrSpace>,
    table: JoinTable,
)
    requires
        by_value(l),
    ensures
        ({
            let a = assign::standard_out_map(l, outtype, data_space, Seq::empty(), table);
            let b = assign::register_out_map(l, outtype, data_space, Seq::empty(), table);
            &&& a.res is Ok && a.pieces.len() == 1 ==> a.pieces[0].type_ == Some(outtype)
            &&& b.res is Ok && b.pieces.len() == 1 ==> b.pieces[0].type_ == Some(outtype)
        }),
{
    let st = assign::free_status(l.numgroup);
    let np = pieces::no_pieces();
    lemma_assign_conclusive(l, 0, outtype, true, data_space, st, np, table);
    lemma_assign_keeps(l, 0, outtype, data_space, st, np, table);
}

/// A parameter that is passed by value keeps its data-type: each input has the
/// declared one, and so has the return value where no parameter points to it.
pub proof fn law_layout_keeps_types(
    m: ModelView,
    outtype: Datatype,
    intypes: Seq<Datatype>,
    data_space: Option<AddrSpace>,
    table: JoinTable,
)
    requires
        m.lays_out(),
        by_value(m.ins()),
        by_value(m.outs()),
    ensures
        ({
            let out = m.storage(Some(outtype), intypes, false, data_space, table);
            let first = out.pieces.len() - intypes.len();
            out.res is Ok ==> {
                &&& first == 1 || first == 2
                &&& first == 1 ==> out.pieces[0].type_ == Some(outtype) && forall|k: int|
                    1 <= k < out.pieces.len() ==> !num::bit(
                        (#[trigger] out.pieces[k]).flags,
                        pieces::HIDDENRETPARM,
                    )
                &&& first == 1 || !m.has_this || !m.ins().thisbeforeret ==> forall|k: int|
                    first <= k < out.pieces.len() ==> (#[trigger] out.pieces[k]).type_ == Some(
                        intypes[k - first],
                    )
            }
        }),
{
    law_layout_typed(m, outtype, intypes, false, data_space, table);
    lemma_return_typed(m.outs(), outtype, data_space, table);
    lemma_return_keeps(m.outs(), outtype, data_space, table);
    let out = m.storage(Some(outtype), intypes, false, data_space, table);
    let first = assign::map_out(
        m.outs(),
        Some(outtype),
        intypes,
        data_space,
        Seq::empty(),
        table,
    );
    if out.res is Ok {
        let l = m.ins();
        let before = first.pieces;
        let free = assign::free_status(l.numgroup);
        assert(first_half(before));
        let second = assign::map_out(
            l,
            Some(outtype),
            intypes,
            data_space,
            before,
            first.table,
        );
        let done = if before.len() == 2 {
            let hid = assign::hidden_out(l, before[1], data_space, first.table);
            let d = before.take(1).push(
                ParameterPieces {
                    flags: hid.piece.flags | pieces::HIDDENRETPARM,
                    ..hid.piece
                },
            );
            lemma_inputs_keep(l, intypes, 0, data_space, hid.status, d, hid.table);
            d
        } else {
            lemma_inputs_keep(l, intypes, 0, data_space, free, before, first.table);
            before
        };
        assert(follows_types(second.pieces, done, intypes, 0));
        assert(second.pieces[0] == done[0]);
        assert(0u32 & pieces::HIDDENRETPARM == 0) by (bit_vector);
        assert((0u32 | pieces::ISTHIS) & pieces::HIDDENRETPARM == 0) by (bit_vector);
        assert(before.len() == 1 && intypes.len() > 0 ==> second.pieces[1].flags == 0);
        assert forall|k: int| 1 <= k < out.pieces.len() && done.len() == 1 implies !num::bit(
            (#[trigger] out.pieces[k]).flags,
            pieces::HIDDENRETPARM,
        ) by {
            assert(second.pieces[k].flags == 0);
        }
        assert forall|k: int|
            done.len() <= k < out.pieces.len() && (done.len() == 1 || !m.has_this
                || !l.thisbeforeret) implies (#[trigger] out.pieces[k]).type_ == Some(
            intypes[k - done.len()],
        ) by {
            assert(second.pieces[k].type_ == Some(intypes[k - done.len() + 0]));
        }
    }
}

} // verus!
