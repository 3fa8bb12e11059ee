//! Prototypes set from, and broken down into, declared components.
use crate::dtype::Datatype;
use crate::error::FspecError;
use crate::joins::{AddrSpaceManager, JoinTable};
use crate::layout;
use crate::model;
use crate::model::ProtoModel;
use crate::num;
use crate::pieces;
use crate::pieces::{ParameterPieces, PiecesView, PrototypePieces};
use crate::proto;
use crate::proto::{FuncProto, ProtoView};
use crate::space::{AddrSpace, Address};
use crate::store;
use crate::store::{ParamView, ProtoParameter, StoreView};
use std::rc::Rc;
use vstd::prelude::*;

verus! {

/// The data-types of the first `n` inputs.
pub open spec fn input_types(s: Seq<Option<ParamView>>, n: int) -> Seq<Datatype>
    decreases n,
{
    if n <= 0 || n > s.len() {
        Seq::empty()
    } else if s[n - 1] matches Some(p) && p.type_ is Some {
        input_types(s, n - 1).push(s[n - 1]->0.type_->0)
    } else {
        input_types(s, n - 1)
    }
}

/// The names of the first `n` inputs.
pub open spec fn input_names(s: Seq<Option<ParamView>>, n: int) -> Seq<Seq<char>>
    decreases n,
{
    if n <= 0 || n > s.len() {
        Seq::empty()
    } else if s[n - 1] is Some {
        input_names(s, n - 1).push(s[n - 1]->0.name)
    } else {
        input_names(s, n - 1)
    }
}

/// The name at position `j`, empty past the end.
pub open spec fn name_at(names: Seq<Seq<char>>, j: int) -> Seq<char> {
    if 0 <= j < names.len() {
        names[j]
    } else {
        Seq::empty()
    }
}

/// The collection with the parameters 1 to `n - 1` of a layout as inputs, and
/// the number of names given out: a pointer to the return value takes none.
pub open spec fn filled(
    s: StoreView,
    ps: Seq<ParameterPieces>,
    names: Seq<Seq<char>>,
    n: int,
) -> (StoreView, int)
    decreases n,
{
    if n <= 1 || n > ps.len() {
        (s, 0)
    } else {
        let (t, j) = filled(s, ps, names, n - 1);
        let p = ps[n - 1];
        if num::bit(p.flags, pieces::HIDDENRETPARM) {
            (t.with_input(n - 2, "rethidden"@, p), j)
        } else {
            (t.with_input(n - 2, name_at(names, j), p), j + 1)
        }
    }
}

/// The collection with the first `n` of the explicitly given inputs in place
/// of those among the first `count` that they name.
pub open spec fn customized(
    s: StoreView,
    given: Seq<(i32, ParameterPieces)>,
    names: Seq<Seq<char>>,
    count: int,
    n: int,
) -> StoreView
    decreases n,
{
    if n <= 0 || n > given.len() {
        s
    } else {
        let t = customized(s, given, names, count, n - 1);
        let (slot, p) = given[n - 1];
        if 0 <= slot < count {
            t.with_input(slot as int, name_at(names, slot as int), p)
        } else {
            t
        }
    }
}

/// The outcome of setting a prototype.
#[verifier::ext_equal]
pub struct ProtoOut {
    pub res: Result<(), FspecError>,
    pub proto: ProtoView,
    pub table: JoinTable,
}

impl ProtoView {
    /// Without parameters, ready for others of the same model.
    pub open spec fn stripped(self, first_var_arg_slot: i32) -> ProtoView {
        let p = self.with_model(self.model);
        ProtoView {
            store: Some(p.store->0.without_inputs().without_output()),
            ..p.with_flag(proto::VOIDINPUTLOCK, false).with_flag(
                proto::DOTDOTDOT,
                first_var_arg_slot >= 0,
            )
        }
    }

    /// With parameters laid out by the model. Where one gets no storage, the
    /// inputs are marked as wrong instead.
    #[verifier::opaque]
    pub open spec fn retyped(
        self,
        d: PiecesView,
        data_space: Option<AddrSpace>,
        table: JoinTable,
    ) -> ProtoOut {
        let base = self.stripped(d.first_var_arg_slot);
        let out = base.model_view().storage(d.outtype, d.intypes, false, data_space, table);
        match out.res {
            Ok(_) => ProtoOut {
                res: Ok(()),
                proto: ProtoView {
                    store: Some(
                        filled(
                            base.store->0.with_output(out.pieces[0]),
                            out.pieces,
                            d.innames,
                            out.pieces.len() as int,
                        ).0,
                    ),
                    ..base
                }.with_this_marked(),
                table: out.table,
            },
            Err(e) => if model::is_unassigned(e) {
                ProtoOut {
                    res: Ok(()),
                    proto: base.with_flag(proto::ERROR_INPUTPARAM, true).with_this_marked(),
                    table: out.table,
                }
            } else {
                ProtoOut { res: Err(e), proto: base, table: out.table }
            },
        }
    }

    /// With storage that was given explicitly.
    pub open spec fn with_custom(self, d: PiecesView) -> ProtoView {
        let s0 = self.store->0;
        let s1 = match d.output_storage {
            Some(p) => s0.with_output(p),
            None => s0,
        };
        ProtoView {
            store: Some(
                customized(
                    s1,
                    d.input_storage,
                    d.innames,
                    s0.inparam.len() as int,
                    d.input_storage.len() as int,
                ),
            ),
            ..self
        }
    }

    /// Set from its components and locked, under the model `m` if one is given.
    pub open spec fn declared(
        self,
        d: PiecesView,
        m: Option<Rc<ProtoModel>>,
        data_space: Option<AddrSpace>,
        table: JoinTable,
    ) -> ProtoOut {
        let out = (if m is Some {
            self.with_model(m)
        } else {
            self
        }).retyped(d, data_space, table);
        if out.res is Err {
            out
        } else {
            ProtoOut {
                proto: out.proto.with_custom(d).with_input_lock(true).with_output_lock(
                    true,
                ).with_flag(proto::MODELLOCK, true),
                ..out
            }
        }
    }

    /// A declared return type, void, or the type of its explicit storage. A
    /// return type that is not declared is not locked.
    pub open spec fn seeded(
        self,
        d: PiecesView,
        m: Rc<ProtoModel>,
        void_type: Datatype,
        data_space: Option<AddrSpace>,
        table: JoinTable,
    ) -> ProtoOut {
        let p = if self.store is Some {
            self
        } else {
            ProtoView { store: Some(store::empty_store(void_type)), ..self }
        };
        if d.outtype is None && d.output_storage is None {
            let out = p.declared(
                PiecesView { outtype: Some(void_type), ..d },
                Some(m),
                data_space,
                table,
            );
            if out.res is Ok {
                ProtoOut { proto: out.proto.with_output_lock(false), ..out }
            } else {
                out
            }
        } else if d.outtype is None {
            p.declared(
                PiecesView { outtype: d.output_storage->0.type_, ..d },
                Some(m),
                data_space,
                table,
            )
        } else {
            p.declared(d, Some(m), data_space, table)
        }
    }

    /// The address of the "this" pointer of type `dt`.
    pub open spec fn this_storage(
        self,
        dt: Datatype,
        data_space: Option<AddrSpace>,
        table: JoinTable,
    ) -> Result<Address, FspecError> {
        if !self.model_view().has_this {
            Ok(Address::invalid())
        } else {
            let out = self.model_view().storage(
                self.store->0.output().type_,
                seq![dt],
                true,
                data_space,
                table,
            );
            match out.res {
                Ok(_) => Ok(first_shown(out.pieces, 1)),
                Err(e) => Err(e),
            }
        }
    }
}

/// The address of the first parameter from `i` on that does not point to the
/// return value.
pub open spec fn first_shown(ps: Seq<ParameterPieces>, i: int) -> Address
    decreases ps.len() - i,
{
    if i < 0 || i >= ps.len() {
        Address::invalid()
    } else if num::bit(ps[i].flags, pieces::HIDDENRETPARM) {
        first_shown(ps, i + 1)
    } else {
        ps[i].addr
    }
}

/// The explicitly given inputs among the first `count` have a data-type.
pub open spec fn custom_ok(d: PiecesView, count: int) -> bool {
    &&& d.output_storage matches Some(p) ==> p.type_ is Some
    &&& forall|k: int|
        0 <= k < d.input_storage.len() ==> (0 <= (#[trigger] d.input_storage[k]).0 < count
            ==> d.input_storage[k].1.type_ is Some)
}

/// The collection after the parameters 1 to `n - 1` of a layout were set.
proof fn lemma_filled(s: StoreView, ps: Seq<ParameterPieces>, names: Seq<Seq<char>>, n: int)
    requires
        s.inparam.len() == 0,
        1 <= n <= ps.len(),
    ensures
        filled(s, ps, names, n).0.inparam.len() == n - 1,
        filled(s, ps, names, n).0.outparam == s.outparam,
        0 <= filled(s, ps, names, n).1 <= n - 1,
    decreases n,
{
    if n > 1 {
        lemma_filled(s, ps, names, n - 1);
    }
}

/// Replacing inputs adds none.
proof fn lemma_customized(
    s: StoreView,
    given: Seq<(i32, ParameterPieces)>,
    names: Seq<Seq<char>>,
    n: int,
)
    requires
        0 <= n <= given.len(),
    ensures
        customized(s, given, names, s.inparam.len() as int, n).inparam.len() == s.inparam.len(),
        customized(s, given, names, s.inparam.len() as int, n).outparam == s.outparam,
    decreases n,
{
    if n > 0 {
        lemma_customized(s, given, names, n - 1);
    }
}

impl FuncProto {
    /// Add the components of the prototype to a declaration.
    pub fn get_pieces(&self, pieces: &mut PrototypePieces)
        requires
            self@.wf(),
        ensures
            final(pieces)@ == (match self@.store {
                None => old(pieces)@,
                Some(s) => PiecesView {
                    outtype: s.output().type_,
                    intypes: old(pieces)@.intypes + input_types(
                        s.inparam,
                        s.inparam.len() as int,
                    ),
                    innames: old(pieces)@.innames + input_names(
                        s.inparam,
                        s.inparam.len() as int,
                    ),
                    first_var_arg_slot: if self@.flag(proto::DOTDOTDOT) {
                        s.inparam.len() as i32
                    } else {
                        -1i32
                    },
                    ..old(pieces)@
                },
            }),
    {
        if !self.has_store() {
            return ;
        }
        pieces.outtype = self.get_output_type();
        let num: i32 = self.num_params();
        let ghost s = self@.store->0.inparam;
        let mut i: i32 = 0;
        assert(pieces.intypes@ =~= old(pieces)@.intypes + input_types(s, 0));
        assert(pieces@.innames =~= old(pieces)@.innames + input_names(s, 0));
        while i < num
            invariant
                0 <= i <= num,
                self@.store is Some,
                s == self@.store->0.inparam,
                num == s.len(),
                pieces@ == (PiecesView {
                    outtype: self@.store->0.output().type_,
                    intypes: old(pieces)@.intypes + input_types(s, i as int),
                    innames: old(pieces)@.innames + input_names(s, i as int),
                    ..old(pieces)@
                }),
            decreases num - i,
        {
            if let Some(p) = self.get_param(i) {
                if let Some(t) = p.get_type() {
                    pieces.intypes.push(t);
                }
                let ghost before = pieces@.innames;
                pieces.innames.push(p.get_name().to_owned());
                assert(pieces@.innames =~= before.push(p@.name));
            }
            i += 1;
            assert(pieces@.intypes =~= old(pieces)@.intypes + input_types(s, i as int));
            assert(pieces@.innames =~= old(pieces)@.innames + input_names(s, i as int));
        }
        pieces.first_var_arg_slot = if self.is_dotdotdot() {
            num
        } else {
            -1
        };
    }

    /// Set the parameters of a layout as the return value and the inputs.
    fn fill_from_layout(&mut self, ps: &Vec<ParameterPieces>, names: &Vec<String>)
        requires
            old(self)@.store matches Some(s) && s.inparam.len() == 0,
            1 <= ps@.len() < i32::MAX,
            layout::typed(ps@),
        ensures
            final(self)@ == (ProtoView {
                store: Some(
                    filled(
                        old(self)@.store->0.with_output(ps@[0]),
                        ps@,
                        pieces::names_view(names@),
                        ps@.len() as int,
                    ).0,
                ),
                ..old(self)@
            }),
            final(self)@.store->0.inparam.len() == ps@.len() - 1,
            final(self)@.store->0.outparam is Some,
    {
        let ghost nv = pieces::names_view(names@);
        self.set_output(&ps[0]);
        let ghost s1 = self@.store->0;
        let mut j: usize = 0;
        let mut i: usize = 1;
        while i < ps.len()
            invariant
                1 <= i <= ps.len(),
                ps@.len() < i32::MAX,
                layout::typed(ps@),
                nv == pieces::names_view(names@),
                s1.inparam.len() == 0,
                self@.store matches Some(s) && (s, j as int) == filled(s1, ps@, nv, i as int),
                self@ == (ProtoView { store: self@.store, ..old(self)@ }),
                j < i,
            decreases ps.len() - i,
        {
            let piece = ps[i];
            if num::has_bit(piece.flags, pieces::HIDDENRETPARM) {
                self.set_param((i - 1) as i32, "rethidden", &piece);
            } else {
                if j >= names.len() {
                    let nm = String::new();
                    self.set_param((i - 1) as i32, nm.as_str(), &piece);
                } else {
                    self.set_param((i - 1) as i32, names[j].as_str(), &piece);
                }
                j += 1;
            }
            i += 1;
        }
        proof {
            lemma_filled(s1, ps@, nv, ps@.len() as int);
        }
    }

    /// Set the parameters from declared components under the present model.
    pub fn update_all_types(&mut self, d: &PrototypePieces, manager: &mut AddrSpaceManager) -> (r:
        Result<(), FspecError>)
        requires
            old(self)@.wf(),
            old(self)@.model is Some,
            old(self)@.model_view().lays_out(),
            old(self)@.store is Some,
            d@.outtype is Some,
            d@.intypes.len() + 2 < i32::MAX,
        ensures
            (ProtoOut { res: r, proto: final(self)@, table: final(manager).table() }) == old(
                self,
            )@.retyped(d@, old(manager).default_data_space, old(manager).table()),
            final(self)@.wf(),
            final(self)@.store is Some,
            final(manager).default_data_space == old(manager).default_data_space,
            final(manager).stack_space == old(manager).stack_space,
            old(manager).wf() ==> final(manager).wf(),
    {
        reveal(ProtoView::retyped);
        let m = Rc::clone(self.model());
        self.set_model(Some(m));
        if let Some(s) = &mut self.store {
            crate::store::ProtoStore::clear_all_inputs(s);
            crate::store::ProtoStore::clear_output(s);
        }
        self.flags = self.flags & !proto::VOIDINPUTLOCK;
        self.set_dotdotdot(d.first_var_arg_slot >= 0);
        let ghost base = old(self)@.stripped(d.first_var_arg_slot);
        assert(self@ =~= base);
        let model = Rc::clone(self.model());
        let mut ps: Vec<ParameterPieces> = Vec::new();
        let res = model.assign_parameter_storage(d, &mut ps, false, manager);
        proof {
            layout::law_layout_typed(
                base.model_view(),
                d@.outtype->0,
                d@.intypes,
                false,
                old(manager).default_data_space,
                old(manager).table(),
            );
        }
        match res {
            Ok(_) => {
                self.fill_from_layout(&ps, &d.innames);
                self.update_this_pointer();
                Ok(())
            },
            Err(e) => {
                if e == FspecError::ParamUnassigned || e == FspecError::ReturnUnassigned {
                    self.flags = self.flags | proto::ERROR_INPUTPARAM;
                    self.update_this_pointer();
                    Ok(())
                } else {
                    res
                }
            },
        }
    }

    /// Put explicitly given storage in the place of the model's.
    fn apply_custom(&mut self, d: &PrototypePieces)
        requires
            old(self)@.store matches Some(s) && s.wf(),
            custom_ok(d@, old(self)@.store->0.inparam.len() as int),
        ensures
            final(self)@ == old(self)@.with_custom(d@),
            final(self)@.store matches Some(s) && s.wf(),
            old(self)@.wf() ==> final(self)@.wf(),
    {
        let ghost s0 = self@.store->0;
        if let Some(p) = d.output_storage {
            self.set_output(&p);
        }
        let ghost s1 = self@.store->0;
        let assigned: i32 = self.num_params();
        let mut i: usize = 0;
        while i < d.input_storage.len()
            invariant
                i <= d.input_storage.len(),
                assigned == s1.inparam.len(),
                assigned == s0.inparam.len(),
                custom_ok(d@, s0.inparam.len() as int),
                self@.store == Some(
                    customized(s1, d@.input_storage, d@.innames, s1.inparam.len() as int, i as int),
                ),
                self@ == (ProtoView { store: self@.store, ..old(self)@ }),
            decreases d.input_storage.len() - i,
        {
            let (slot, p) = d.input_storage[i];
            assert(d@.input_storage[i as int] == (slot, p));
            if slot >= 0 && slot < assigned {
                if (slot as usize) < d.innames.len() {
                    self.set_param(slot, d.innames[slot as usize].as_str(), &p);
                } else {
                    let nm = String::new();
                    self.set_param(slot, nm.as_str(), &p);
                }
            }
            i += 1;
        }
        proof {
            lemma_customized(s1, d@.input_storage, d@.innames, d@.input_storage.len() as int);
        }
        assert(self@ =~= old(self)@.with_custom(d@));
    }

    /// Set the prototype from declared components, under a model if one is
    /// given, and lock it.
    pub fn set_pieces(
        &mut self,
        d: &PrototypePieces,
        model: Option<Rc<ProtoModel>>,
        manager: &mut AddrSpaceManager,
    ) -> (r: Result<(), FspecError>)
        requires
            old(self)@.wf(),
            match model {
                Some(m) => (*m)@.lays_out(),
                None => old(self)@.model is Some && old(self)@.model_view().lays_out(),
            },
            old(self)@.store is Some,
            d@.outtype is Some,
            d@.intypes.len() + 2 < i32::MAX,
            custom_ok(
                d@,
                old(self)@.declared(
                    d@,
                    model,
                    old(manager).default_data_space,
                    old(manager).table(),
                ).proto.store->0.inparam.len() as int,
            ),
        ensures
            (ProtoOut { res: r, proto: final(self)@, table: final(manager).table() }) == old(
                self,
            )@.declared(d@, model, old(manager).default_data_space, old(manager).table()),
            final(self)@.wf(),
            final(self)@.store is Some,
            final(manager).default_data_space == old(manager).default_data_space,
            final(manager).stack_space == old(manager).stack_space,
            old(manager).wf() ==> final(manager).wf(),
    {
        if model.is_some() {
            self.set_model(model);
        }
        let ghost mid = self@;
        let res = self.update_all_types(d, manager);
        proof {
            lemma_declared_count(
                old(self)@,
                mid,
                d@,
                model,
                old(manager).default_data_space,
                old(manager).table(),
            );
        }
        if res.is_err() {
            return res;
        }
        self.apply_custom(d);
        self.set_input_lock(true);
        self.set_output_lock(true);
        self.set_model_lock(true);
        res
    }

    /// Set a prototype from declared components and lock it, starting a
    /// collection of parameters if there is none. A return type that is not
    /// declared is left open.
    pub fn seed_locked_from_pieces(
        &mut self,
        d: &PrototypePieces,
        defaultfp: Rc<ProtoModel>,
        void_type: Datatype,
        manager: &mut AddrSpaceManager,
    ) -> (r: Result<(), FspecError>)
        requires
            old(self)@.wf(),
            (*defaultfp)@.lays_out(),
            d@.intypes.len() + 2 < i32::MAX,
            custom_ok(
                d@,
                old(self)@.seeded(
                    d@,
                    defaultfp,
                    void_type,
                    old(manager).default_data_space,
                    old(manager).table(),
                ).proto.store->0.inparam.len() as int,
            ),
            d@.outtype is None ==> (d@.output_storage matches Some(p) ==> p.type_ is Some),
        ensures
            (ProtoOut { res: r, proto: final(self)@, table: final(manager).table() }) == old(
                self,
            )@.seeded(
                d@,
                defaultfp,
                void_type,
                old(manager).default_data_space,
                old(manager).table(),
            ),
            final(self)@.wf(),
            final(self)@.store is Some,
            final(manager).default_data_space == old(manager).default_data_space,
            final(manager).stack_space == old(manager).stack_space,
            old(manager).wf() ==> final(manager).wf(),
    {
        self.attach_internal_store(void_type);
        if d.outtype.is_none() && d.output_storage.is_none() {
            let input_only = d.with_outtype(void_type);
            let res = self.set_pieces(&input_only, Some(defaultfp), manager);
            if res.is_err() {
                return res;
            }
            self.set_output_lock(false);
            return res;
        }
        if d.outtype.is_none() {
            if let Some(given) = d.output_storage {
                if let Some(t) = given.type_ {
                    let with_type = d.with_outtype(t);
                    return self.set_pieces(&with_type, Some(defaultfp), manager);
                }
            }
        }
        self.set_pieces(d, Some(defaultfp), manager)
    }

    /// Where the "this" pointer of type `dt` is passed: nowhere unless the
    /// model has one.
    pub fn get_this_pointer_storage(&self, dt: Datatype, manager: &mut AddrSpaceManager) -> (r:
        Result<Address, FspecError>)
        requires
            self@.model is Some,
            self@.model_view().has_this ==> self@.model_view().lays_out() && (
            self@.store matches Some(s) && s.outparam is Some && s.output().type_ is Some),
        ensures
            r == self@.this_storage(dt, old(manager).default_data_space, old(manager).table()),
            final(manager).table() == (if self@.model_view().has_this {
                self@.model_view().storage(
                    self@.store->0.output().type_,
                    seq![dt],
                    true,
                    old(manager).default_data_space,
                    old(manager).table(),
                ).table
            } else {
                old(manager).table()
            }),
    {
        if !self.model().has_this_pointer() {
            return Ok(Address::new_invalid());
        }
        let mut d = PrototypePieces::new();
        d.outtype = self.get_output_type();
        d.intypes.push(dt);
        assert(d.intypes@ =~= seq![dt]);
        let mut ps: Vec<ParameterPieces> = Vec::new();
        match self.model().assign_parameter_storage(&d, &mut ps, true, manager) {
            Ok(_) => {},
            Err(e) => {
                return Err(e);
            },
        }
        Ok(shown_address(&ps))
    }
}

/// The address of the first parameter after the return value that does not
/// point to the return value.
fn shown_address(ps: &Vec<ParameterPieces>) -> (r: Address)
    ensures
        r == first_shown(ps@, 1),
{
    let mut i: usize = 1;
    while i < ps.len()
        invariant
            1 <= i,
            first_shown(ps@, 1) == first_shown(ps@, i as int),
        decreases ps.len() - i,
    {
        if !num::has_bit(ps[i].flags, pieces::HIDDENRETPARM) {
            return ps[i].addr;
        }
        i += 1;
    }
    Address::new_invalid()
}

/// Explicit storage and locks leave the number of inputs as the layout gave it.
proof fn lemma_declared_count(
    p: ProtoView,
    q: ProtoView,
    d: PiecesView,
    m: Option<Rc<ProtoModel>>,
    data_space: Option<AddrSpace>,
    table: JoinTable,
)
    requires
        q == (if m is Some {
            p.with_model(m)
        } else {
            p
        }),
    ensures
        p.declared(d, m, data_space, table).proto.store->0.inparam.len() == q.retyped(
            d,
            data_space,
            table,
        ).proto.store->0.inparam.len(),
{
    let out = q.retyped(d, data_space, table);
    let s0 = out.proto.store->0;
    let s1 = match d.output_storage {
        Some(x) => s0.with_output(x),
        None => s0,
    };
    lemma_customized(s1, d.input_storage, d.innames, d.input_storage.len() as int);
}

/// How many of the parameters 1 to `n - 1` are shown, that is, do not point to
/// the return value.
pub open spec fn shown(ps: Seq<ParameterPieces>, n: int) -> int
    decreases n,
{
    if n <= 1 || n > ps.len() {
        0
    } else if num::bit(ps[n - 1].flags, pieces::HIDDENRETPARM) {
        shown(ps, n - 1)
    } else {
        shown(ps, n - 1) + 1
    }
}

/// The name of the parameter at position `k` of a layout.
pub open spec fn layout_name(ps: Seq<ParameterPieces>, names: Seq<Seq<char>>, k: int) -> Seq<char> {
    if num::bit(ps[k].flags, pieces::HIDDENRETPARM) {
        "rethidden"@
    } else {
        name_at(names, shown(ps, k))
    }
}

proof fn lemma_filled_reads_back(
    s: StoreView,
    ps: Seq<ParameterPieces>,
    names: Seq<Seq<char>>,
    n: int,
)
    requires
        s.inparam.len() == 0,
        1 <= n <= ps.len(),
    ensures
        filled(s, ps, names, n).1 == shown(ps, n),
        forall|k: int|
            0 <= k < n - 1 ==> #[trigger] filled(s, ps, names, n).0.inparam[k] == Some(
                store::made_of(layout_name(ps, names, k + 1), ps[k + 1]),
            ),
    decreases n,
{
    if n > 1 {
        lemma_filled(s, ps, names, n - 1);
        lemma_filled_reads_back(s, ps, names, n - 1);
        let t = filled(s, ps, names, n - 1).0;
        assert forall|k: int| 0 <= k < n - 1 implies #[trigger] filled(
            s,
            ps,
            names,
            n,
        ).0.inparam[k] == Some(store::made_of(layout_name(ps, names, k + 1), ps[k + 1])) by {
            if k < n - 2 {
                assert(t.inparam[k] == Some(
                    store::made_of(layout_name(ps, names, k + 1), ps[k + 1]),
                ));
            }
        }
    }
}

/// A parameter with other locks and marks.
pub open spec fn same_but_flags(a: Option<ParamView>, b: Option<ParamView>) -> bool {
    a matches Some(x) && b matches Some(y) && x == (ParamView { flags: x.flags, ..y })
}

/// The storage given explicitly for an input, if any: the last of the first
/// `n` that name it.
pub open spec fn explicit(given: Seq<(i32, ParameterPieces)>, slot: int, n: int) -> Option<
    ParameterPieces,
>
    decreases n,
{
    if n <= 0 || n > given.len() {
        None
    } else if given[n - 1].0 == slot {
        Some(given[n - 1].1)
    } else {
        explicit(given, slot, n - 1)
    }
}

/// The input at position `k` of a declared prototype whose parameters were
/// laid out as `ps`.
pub open spec fn declared_input(d: PiecesView, ps: Seq<ParameterPieces>, k: int) -> ParamView {
    match explicit(d.input_storage, k, d.input_storage.len() as int) {
        Some(x) => store::made_of(name_at(d.innames, k), x),
        None => store::made_of(layout_name(ps, d.innames, k + 1), ps[k + 1]),
    }
}

/// The return value of a declared prototype whose parameters were laid out as
/// `ps`.
pub open spec fn declared_output(d: PiecesView, ps: Seq<ParameterPieces>) -> ParamView {
    store::made_of(
        Seq::empty(),
        match d.output_storage {
            Some(x) => x,
            None => ps[0],
        },
    )
}

proof fn lemma_customized_reads_back(
    s: StoreView,
    given: Seq<(i32, ParameterPieces)>,
    names: Seq<Seq<char>>,
    n: int,
)
    requires
        0 <= n <= given.len(),
    ensures
        forall|k: int|
            0 <= k < s.inparam.len() ==> #[trigger] customized(
                s,
                given,
                names,
                s.inparam.len() as int,
                n,
            ).inparam[k] == (match explicit(given, k, n) {
                Some(x) => Some(store::made_of(name_at(names, k), x)),
                None => s.inparam[k],
            }),
    decreases n,
{
    if n > 0 {
        lemma_customized(s, given, names, n - 1);
        lemma_customized_reads_back(s, given, names, n - 1);
    }
}

/// A declared prototype reads back: every parameter and the return value have
/// the storage and the data-type that were given explicitly, or else those that
/// the model laid out, and the names are the declared ones in order. The
/// prototype is locked.
pub proof fn law_declaration_reads_back(
    p: ProtoView,
    d: PiecesView,
    m: Rc<ProtoModel>,
    data_space: Option<AddrSpace>,
    table: JoinTable,
)
    requires
        p.store is Some,
        (*m)@.storage(d.outtype, d.intypes, false, data_space, table).res is Ok,
        (*m)@.storage(d.outtype, d.intypes, false, data_space, table).pieces.len() > 0,
    ensures
        ({
            let ps = (*m)@.storage(d.outtype, d.intypes, false, data_space, table).pieces;
            let q = p.declared(d, Some(m), data_space, table);
            &&& q.res is Ok
            &&& q.proto.store is Some
            &&& q.proto.store->0.inparam.len() == ps.len() - 1
            &&& forall|k: int|
                0 <= k < ps.len() - 1 ==> same_but_flags(
                    #[trigger] q.proto.store->0.inparam[k],
                    Some(declared_input(d, ps, k)),
                )
            &&& same_but_flags(q.proto.store->0.outparam, Some(declared_output(d, ps)))
            &&& q.proto.input_locked()
            &&& q.proto.output_locked()
        }),
{
    reveal(ProtoView::retyped);
    let base = p.with_model(Some(m)).stripped(d.first_var_arg_slot);
    let out = base.model_view().storage(d.outtype, d.intypes, false, data_space, table);
    let ps = out.pieces;
    let n = ps.len() as int;
    assert(base.model == Some(m));
    let s0 = base.store->0.with_output(ps[0]);
    lemma_filled(s0, ps, d.innames, n);
    lemma_filled_reads_back(s0, ps, d.innames, n);
    let laid = ProtoView { store: Some(filled(s0, ps, d.innames, n).0), ..base };
    let marked = laid.with_this_marked();
    let s1 = match d.output_storage {
        Some(x) => marked.store->0.with_output(x),
        None => marked.store->0,
    };
    lemma_customized(s1, d.input_storage, d.innames, d.input_storage.len() as int);
    lemma_customized_reads_back(s1, d.input_storage, d.innames, d.input_storage.len() as int);
    let custom = marked.with_custom(d);
    assert forall|k: int| 0 <= k < n - 1 implies same_but_flags(
        #[trigger] custom.store->0.inparam[k],
        Some(declared_input(d, ps, k)),
    ) by {
        assert(same_but_flags(
            marked.store->0.inparam[k],
            filled(s0, ps, d.innames, n).0.inparam[k],
        ));
    }
    if n > 1 {
        assert(same_but_flags(custom.store->0.inparam[0], Some(declared_input(d, ps, 0))));
    }
    let locked = custom.with_input_lock(true);
    proto::law_input_lock(custom);
    store::law_type_lock_undone(locked.store->0.output());
    let done = locked.with_output_lock(true).with_flag(proto::MODELLOCK, true);
    assert forall|k: int| 0 <= k < n - 1 implies same_but_flags(
        #[trigger] done.store->0.inparam[k],
        Some(declared_input(d, ps, k)),
    ) by {
        assert(same_but_flags(custom.store->0.inparam[k], Some(declared_input(d, ps, k))));
    }
    assert(proto::MODELLOCK & proto::VOIDINPUTLOCK == 0) by (bit_vector);
    proto::law_flag_reads_back(locked, proto::MODELLOCK, proto::VOIDINPUTLOCK, true);
    proto::law_flag_reads_back(
        locked.with_output_lock(true),
        proto::MODELLOCK,
        proto::VOIDINPUTLOCK,
        true,
    );
    assert(p.declared(d, Some(m), data_space, table).proto == done);
    assert(done.input_locked());
    assert(done.output_locked());
}

proof fn lemma_components(s: Seq<Option<ParamView>>, d: PiecesView, n: int)
    requires
        0 <= n <= s.len(),
        s.len() == d.intypes.len(),
        s.len() == d.innames.len(),
        forall|k: int|
            0 <= k < s.len() ==> (#[trigger] s[k] matches Some(x) && x.type_ == Some(d.intypes[k])
                && x.name == d.innames[k]),
    ensures
        input_types(s, n) =~= d.intypes.take(n),
        input_names(s, n) =~= d.innames.take(n),
    decreases n,
{
    if n > 0 {
        lemma_components(s, d, n - 1);
        assert(s[n - 1] is Some);
    }
}

/// The parameters 1 to `k - 1` are all shown where none points to the return
/// value.
proof fn lemma_all_shown(ps: Seq<ParameterPieces>, k: int)
    requires
        1 <= k <= ps.len(),
        forall|j: int|
            1 <= j < ps.len() ==> !num::bit((#[trigger] ps[j]).flags, pieces::HIDDENRETPARM),
    ensures
        shown(ps, k) == k - 1,
    decreases k,
{
    if k > 1 {
        lemma_all_shown(ps, k - 1);
    }
}

/// The components of a declared prototype are those that were declared, where
/// values are passed as they are, without a parameter that points to the return
/// value and without explicit storage.
pub proof fn law_components_read_back(
    p: ProtoView,
    d: PiecesView,
    m: Rc<ProtoModel>,
    data_space: Option<AddrSpace>,
    table: JoinTable,
)
    requires
        p.store is Some,
        (*m)@.lays_out(),
        layout::by_value((*m)@.ins()),
        layout::by_value((*m)@.outs()),
        d.outtype is Some,
        d.output_storage is None,
        d.input_storage.len() == 0,
        d.innames.len() == d.intypes.len(),
        (*m)@.storage(d.outtype, d.intypes, false, data_space, table).res is Ok,
        (*m)@.storage(d.outtype, d.intypes, false, data_space, table).pieces.len()
            == d.intypes.len() + 1,
    ensures
        ({
            let q = p.declared(d, Some(m), data_space, table).proto;
            let s = q.store->0;
            &&& s.output().type_ == d.outtype
            &&& input_types(s.inparam, s.inparam.len() as int) == d.intypes
            &&& input_names(s.inparam, s.inparam.len() as int) == d.innames
        }),
{
    let ps = (*m)@.storage(d.outtype, d.intypes, false, data_space, table).pieces;
    let s = p.declared(d, Some(m), data_space, table).proto.store->0;
    law_declaration_reads_back(p, d, m, data_space, table);
    layout::law_layout_keeps_types((*m)@, d.outtype->0, d.intypes, data_space, table);
    assert forall|k: int| 0 <= k < s.inparam.len() implies (
    #[trigger] s.inparam[k] matches Some(x) && x.type_ == Some(d.intypes[k]) && x.name
        == d.innames[k]) by {
        assert(same_but_flags(s.inparam[k], Some(declared_input(d, ps, k))));
        lemma_all_shown(ps, k + 1);
        assert(ps[k + 1].type_ == Some(d.intypes[k + 1 - 1]));
    }
    lemma_components(s.inparam, d, s.inparam.len() as int);
    assert(d.intypes.take(d.intypes.len() as int) =~= d.intypes);
    assert(d.innames.take(d.innames.len() as int) =~= d.innames);
}

} // verus!
