//! What follows for a prototype from its parameters and its model.
use crate::declare;
use crate::dtype::Datatype;
use crate::error::FspecError;
use crate::joins::JoinTable;
use crate::model;
use crate::model::ProtoModel;
use crate::pieces;
use crate::pieces::ParameterPieces;
use crate::proto;
use crate::proto::ProtoView;
use crate::space::{AddrSpace, Address, SpaceType, VarnodeData};
use crate::store::ParamView;
use std::rc::Rc;
use vstd::prelude::*;

verus! {

/// The parameter lies on the stack, not too far up for its end to be counted.
pub open spec fn stacked(p: Option<ParamView>) -> bool {
    p matches Some(q) && (q.addr.space matches Some(s) && s.type_ == SpaceType::Spacebase)
}

/// Where a parameter ends, counted from the stack pointer.
pub open spec fn end_of(p: Option<ParamView>) -> int {
    p->0.addr.offset + p->0.size()
}

/// The ends of the stack parameters can be counted.
pub open spec fn ends_countable(s: Seq<Option<ParamView>>) -> bool {
    forall|k: int|
        0 <= k < s.len() && stacked(#[trigger] s[k]) ==> s[k]->0.size() >= 0 && end_of(s[k])
            <= 0x7fffff0
}

proof fn lemma_end(p: ParamView)
    requires
        p.size() >= 0,
        p.addr.offset + p.size() <= 0x7fffff0,
    ensures
        p.addr.offset + p.size() <= proto::stack_end(p) <= p.addr.offset + p.size() + 3,
        proto::stack_end(p) % 4 == 0,
{
    let x = (p.addr.offset + p.size() + 3) as i32;
    assert(0 <= x <= 0x7fffff3 ==> x - 3 <= (x & 0xffffffci32) && (x & 0xffffffci32) <= x && (x
        & 0xffffffci32) % 4 == 0) by (bit_vector);
}

proof fn lemma_popped(s: Seq<Option<ParamView>>, n: int)
    requires
        0 <= n <= s.len(),
        ends_countable(s),
    ensures
        ({
            let r = proto::popped(s, n);
            &&& r >= 4
            &&& r % 4 == 0
            &&& forall|k: int| 0 <= k < n && stacked(#[trigger] s[k]) ==> end_of(s[k]) <= r
            &&& r == 4 || exists|k: int|
                0 <= k < n && stacked(#[trigger] s[k]) && r <= end_of(s[k]) + 3
        }),
    decreases n,
{
    if n > 0 {
        lemma_popped(s, n - 1);
        if stacked(s[n - 1]) {
            lemma_end(s[n - 1]->0);
        }
        let b = proto::popped(s, n - 1);
        let r = proto::popped(s, n);
        if r == b && r != 4 {
            let k = choose|k: int|
                0 <= k < n - 1 && stacked(#[trigger] s[k]) && b <= end_of(s[k]) + 3;
            assert(stacked(s[k]));
        } else if r != 4 {
            assert(stacked(s[n - 1]));
        }
    }
}

/// A function with locked inputs pops, in whole words, the return address and no
/// less than all of its stack parameters, and no word more; one with more inputs
/// than it declares pops the return address alone.
pub proof fn law_locked_inputs_popped(p: ProtoView)
    requires
        p.input_locked(),
        p.store is Some,
        ends_countable(p.store->0.inparam),
    ensures
        ({
            let r = p.with_resolved_pop();
            let s = p.store->0.inparam;
            &&& r == (ProtoView { extrapop: r.extrapop, ..p })
            &&& p.flag(proto::DOTDOTDOT) && s.len() > 0 ==> r.extrapop == 4
            &&& p.flag(proto::DOTDOTDOT) && s.len() == 0 ==> r.extrapop == p.extrapop
            &&& !p.flag(proto::DOTDOTDOT) ==> {
                &&& r.extrapop >= 4
                &&& r.extrapop % 4 == 0
                &&& forall|k: int|
                    0 <= k < s.len() && stacked(#[trigger] s[k]) ==> end_of(s[k]) <= r.extrapop
                &&& r.extrapop == 4 || exists|k: int|
                    0 <= k < s.len() && stacked(#[trigger] s[k]) && r.extrapop <= end_of(s[k]) + 3
            }
        }),
{
    lemma_popped(p.store->0.inparam, p.store->0.inparam.len() as int);
}

/// The pointer to the object of a method is its first input, or the second if the
/// first points to the return value; only that one is marked, and only for a model
/// of methods.
pub proof fn law_object_pointer_marked(p: ProtoView, k: int)
    requires
        p.store is Some,
        p.model is Some,
        0 <= k < p.store->0.inparam.len(),
        p.store->0.inparam[k] is Some,
    ensures
        ({
            let s = p.store->0.inparam;
            let r = p.with_this_marked().store->0.inparam;
            let behind = s[0] is Some && s[0]->0.flags & pieces::HIDDENRETPARM != 0;
            let here = (*p.model->0)@.has_this && k == (if behind {
                1int
            } else {
                0int
            });
            &&& r.len() == s.len()
            &&& !here ==> r[k] == s[k]
            &&& here ==> {
                &&& r[k] is Some
                &&& r[k]->0.flags & pieces::ISTHIS != 0
                &&& r[k]->0.addr == s[k]->0.addr && r[k]->0.type_ == s[k]->0.type_ && r[k]->0.name
                    == s[k]->0.name
                &&& forall|m: u32|
                    m & pieces::ISTHIS == 0 ==> #[trigger] (r[k]->0.flags & m) == s[k]->0.flags & m
            }
        }),
{
    let f = p.store->0.inparam[k]->0.flags;
    assert((f | 1u32) & 1u32 != 0) by (bit_vector);
    assert forall|m: u32| m & 1u32 == 0 implies #[trigger] ((f | 1u32) & m) == f & m by {
        assert(m & 1u32 == 0 ==> (f | 1u32) & m == f & m) by (bit_vector);
    }
}

/// A prototype that is given a model follows it, and pops what the model says;
/// where the model does not say, it pops what it did under the model before, and
/// an unknown number if there was none. Without a model it is not known what it
/// pops.
pub proof fn law_model_followed(p: ProtoView, m: Rc<ProtoModel>)
    ensures
        ({
            let r = p.with_model(Some(m));
            let pops = (*m)@.extrapop;
            &&& r.model == Some(m)
            &&& pops != model::EXTRAPOP_UNKNOWN ==> r.extrapop == pops
            &&& pops == model::EXTRAPOP_UNKNOWN && p.model is Some ==> r.extrapop == p.extrapop
            &&& pops == model::EXTRAPOP_UNKNOWN && p.model is None ==> r.extrapop
                == model::EXTRAPOP_UNKNOWN
            &&& r.store == p.store
            &&& r.effectlist == p.effectlist
            &&& r.likelytrash == p.likelytrash
            &&& r.injectid == p.injectid
            &&& (*m)@.has_this ==> r.flag(proto::HAS_THISPTR)
            &&& (*m)@.is_construct ==> r.flag(proto::IS_CONSTRUCTOR)
        }),
        p.with_model(None).model is None,
        p.with_model(None).extrapop == model::EXTRAPOP_UNKNOWN,
{
    let f = p.flags;
    let a = proto::HAS_THISPTR;
    let b = proto::IS_CONSTRUCTOR;
    let c = proto::AUTO_KILLEDBYCALL;
    assert(a != 0 && b != 0 ==> (f | a) & a != 0 && ((f | a) | b) & a != 0 && (f | b) & b != 0 && ((f
        | a) | b) & b != 0 && ((f | a) | c) & a != 0 && (((f | a) | b) | c) & a != 0 && ((f | b)
        | c) & b != 0 && (((f | a) | b) | c) & b != 0) by (bit_vector);
}

/// The pieces of a parameter are joined with the most significant one first,
/// whichever way they are listed, unless neighbours were put together before. A
/// single piece is not joined: the parameter lies where it does.
pub proof fn law_pieces_joined(
    ps: Seq<VarnodeData>,
    most_to_least: bool,
    merged: Option<Seq<VarnodeData>>,
    table: JoinTable,
)
    ensures
        ({
            let r = pieces::joined_pieces(ps, most_to_least, merged);
            &&& merged matches Some(m) ==> r == m
            &&& merged is None ==> r.len() == ps.len()
            &&& merged is None && most_to_least ==> r == ps
            &&& merged is None && !most_to_least ==> forall|k: int|
                0 <= k < ps.len() ==> #[trigger] r[k] == ps[ps.len() - 1 - k]
            &&& r.len() == 1 && r[0].space is Some ==> pieces::pieces_address(r, table) == Ok::<
                Address,
                FspecError,
            >(Address { space: r[0].space, offset: r[0].offset })
        }),
{
}

proof fn lemma_first_shown(ps: Seq<ParameterPieces>, i: int, k: int)
    requires
        0 <= i <= k < ps.len(),
        ps[k].flags & pieces::HIDDENRETPARM == 0,
        forall|j: int| i <= j < k ==> (#[trigger] ps[j]).flags & pieces::HIDDENRETPARM != 0,
    ensures
        declare::first_shown(ps, i) == ps[k].addr,
    decreases k - i,
{
    if i < k {
        assert(ps[i].flags & pieces::HIDDENRETPARM != 0);
        lemma_first_shown(ps, i + 1, k);
    }
}

/// The pointer to the object of a method is found in the first parameter of its
/// layout that is not the pointer to the return value. Without such a pointer
/// there is no address.
pub proof fn law_object_pointer_found(
    p: ProtoView,
    dt: Datatype,
    data_space: Option<AddrSpace>,
    table: JoinTable,
    k: int,
)
    ensures
        !p.model_view().has_this ==> p.this_storage(dt, data_space, table) == Ok::<
            Address,
            FspecError,
        >(Address::invalid()),
        ({
            let out = p.model_view().storage(
                p.store->0.output().type_,
                seq![dt],
                true,
                data_space,
                table,
            );
            &&& p.model_view().has_this && out.res is Ok && 1 <= k < out.pieces.len()
                && out.pieces[k].flags & pieces::HIDDENRETPARM == 0 && (forall|j: int|
                1 <= j < k ==> (#[trigger] out.pieces[j]).flags & pieces::HIDDENRETPARM != 0)
                ==> p.this_storage(dt, data_space, table) == Ok::<Address, FspecError>(
                out.pieces[k].addr,
            )
            &&& p.model_view().has_this && out.res is Err ==> p.this_storage(
                dt,
                data_space,
                table,
            ) is Err
        }),
{
    let out = p.model_view().storage(
        p.store->0.output().type_,
        seq![dt],
        true,
        data_space,
        table,
    );
    if 1 <= k < out.pieces.len() && out.pieces[k].flags & pieces::HIDDENRETPARM == 0 && (forall|
        j: int,
    |
        1 <= j < k ==> (#[trigger] out.pieces[j]).flags & pieces::HIDDENRETPARM != 0) {
        lemma_first_shown(out.pieces, 1, k);
    }
}

} // verus!
