//! Assigning storage to the parameters of a prototype under a convention.
use crate::dtype;
use crate::dtype::{Datatype, TypeClass, TypeMetatype};
use crate::entry::EntryView;
use crate::error::FspecError;
use crate::joins::{AddrSpaceManager, JoinTable};
use crate::num;
use crate::paramlist::{ListView, ParamListKind, ParamListStandard};
use crate::pieces;
use crate::pieces::{ParameterPieces, PrototypePieces};
use crate::rules::{AssignAction, AssignActionResponse};
use crate::space::{AddrSpace, Address};
use vstd::prelude::*;

verus! {

/// The outcome of assigning one parameter: the response, the next free slot of
/// each group (-1 for a group that is taken), the parameter and the join table.
#[verifier::ext_equal]
pub struct AssignOut {
    pub res: Result<AssignActionResponse, FspecError>,
    pub status: Seq<i32>,
    pub piece: ParameterPieces,
    pub table: JoinTable,
}

/// The outcome of assigning a whole list of parameters.
#[verifier::ext_equal]
pub struct MapOut {
    pub res: Result<(), FspecError>,
    pub pieces: Seq<ParameterPieces>,
    pub table: JoinTable,
}

/// The status with the first `n` groups taken.
pub open spec fn take_groups(status: Seq<i32>, groups: Seq<i32>, n: int) -> Seq<i32>
    decreases n,
{
    if n <= 0 || n > groups.len() {
        status
    } else {
        take_groups(status, groups, n - 1).update(groups[n - 1] as int, -1i32)
    }
}

/// Can the entry be considered for a resource class, given its group's status.
pub open spec fn eligible(e: EntryView, resource: TypeClass, exact: bool, status: Seq<i32>) -> bool {
    status[e.group()] >= 0 && (resource == e.type_ || (!exact && e.type_ == TypeClass::General))
}

/// Assigning `tp` to the first of the entries from `k` on that is eligible and
/// has room.
pub open spec fn fallback_from(
    es: Seq<EntryView>,
    k: int,
    resource: TypeClass,
    tp: Datatype,
    exact: bool,
    status: Seq<i32>,
    piece: ParameterPieces,
    table: JoinTable,
) -> AssignOut
    decreases es.len() - k,
{
    if k < 0 || k >= es.len() {
        AssignOut { res: Ok(AssignActionResponse::fail), status, piece, table }
    } else {
        let e = es[k];
        let g = e.group();
        if !eligible(e, resource, exact, status) {
            fallback_from(es, k + 1, resource, tp, exact, status, piece, table)
        } else {
            let sz = tp.align_size as int;
            let al = tp.alignment as int;
            let status2 = status.update(g, e.next_slot(status[g], sz, al));
            let table2 = e.next_table(status[g], sz, al, table);
            match e.slot_addr(status[g], sz, al, !e.left_justified(), table) {
                Err(x) => AssignOut { res: Err(x), status: status2, piece, table: table2 },
                Ok(addr) => if addr.space is None {
                    fallback_from(
                        es,
                        k + 1,
                        resource,
                        tp,
                        exact,
                        status2,
                        ParameterPieces { addr, ..piece },
                        table2,
                    )
                } else {
                    AssignOut {
                        res: Ok(AssignActionResponse::success),
                        status: if e.exclusion() {
                            take_groups(status2, e.group_set, e.group_set.len() as int)
                        } else {
                            status2
                        },
                        piece: ParameterPieces { addr, type_: Some(tp), flags: 0 },
                        table: table2,
                    }
                },
            }
        }
    }
}

/// Assigning `dt` by the rules from `k` on, and by the entries if none of them
/// applies. `data_space` is the default data space; a pointer made by a rule
/// is not converted again.
pub open spec fn assign_from(
    l: ListView,
    k: int,
    dt: Datatype,
    convert: bool,
    data_space: Option<AddrSpace>,
    status: Seq<i32>,
    piece: ParameterPieces,
    table: JoinTable,
) -> AssignOut
    decreases (if convert { 1int } else { 0int }), l.model_rules.len() - k, 1int,
{
    if k < 0 || k >= l.model_rules.len() {
        fallback_from(
            l.entry,
            0,
            dtype::class_of(dt.metatype),
            dt,
            false,
            status,
            piece,
            table,
        )
    } else {
        let out = rule_out(l, k, dt, convert, data_space, status, piece, table);
        if out.res == Ok::<AssignActionResponse, FspecError>(AssignActionResponse::fail) {
            assign_from(l, k + 1, dt, convert, data_space, out.status, out.piece, out.table)
        } else {
            out
        }
    }
}

/// Assigning `dt` by the rule at `k`.
pub open spec fn rule_out(
    l: ListView,
    k: int,
    dt: Datatype,
    convert: bool,
    data_space: Option<AddrSpace>,
    status: Seq<i32>,
    piece: ParameterPieces,
    table: JoinTable,
) -> AssignOut
    decreases (if convert { 1int } else { 0int }), l.model_rules.len() - k, 0int,
{
    let rule = l.model_rules[k];
    let failed = AssignOut { res: Ok(AssignActionResponse::fail), status, piece, table };
    if !rule.selects(dt.size as int) {
        failed
    } else {
        match rule.action {
            AssignAction::GotoStack { stack_entry } => match stack_entry {
                None => failed,
                Some(i) => {
                    let e = l.entry[i as int];
                    let g = e.group();
                    let sz = dt.size as int;
                    let al = dt.alignment as int;
                    let status2 = status.update(g, e.next_slot(status[g], sz, al));
                    let table2 = e.next_table(status[g], sz, al, table);
                    match e.slot_addr(status[g], sz, al, !e.left_justified(), table) {
                        Err(x) => AssignOut { res: Err(x), status: status2, piece, table: table2 },
                        Ok(addr) => AssignOut {
                            res: Ok(AssignActionResponse::success),
                            status: status2,
                            piece: ParameterPieces { addr, type_: Some(dt), flags: 0 },
                            table: table2,
                        },
                    }
                },
            },
            AssignAction::ConvertToPointer { space } => if !convert {
                failed
            } else {
                match (if space is Some {
                    space
                } else {
                    data_space
                }) {
                    None => AssignOut { res: Err(FspecError::NoDefaultDataSpace), ..failed },
                    Some(s) => {
                        let p = dtype::pointer_to(dt, s.addr_size as i32);
                        let out = assign_from(l, 0, p, false, data_space, status, piece, table);
                        AssignOut {
                            piece: ParameterPieces { flags: pieces::INDIRECTSTORAGE, ..out.piece },
                            ..out
                        }
                    },
                }
            },
        }
    }
}

/// The status before anything is assigned.
pub open spec fn free_status(numgroup: i32) -> Seq<i32> {
    Seq::new(numgroup as nat, |i: int| 0i32)
}

/// Assigning the input types from `i` on, after the parameters `done`.
pub open spec fn inputs_from(
    l: ListView,
    intypes: Seq<Datatype>,
    i: int,
    data_space: Option<AddrSpace>,
    status: Seq<i32>,
    done: Seq<ParameterPieces>,
    table: JoinTable,
) -> MapOut
    decreases intypes.len() - i,
{
    if i < 0 || i >= intypes.len() {
        MapOut { res: Ok(()), pieces: done, table }
    } else {
        let out = assign_from(
            l,
            0,
            intypes[i],
            true,
            data_space,
            status,
            pieces::no_pieces(),
            table,
        );
        match out.res {
            Err(e) => MapOut { res: Err(e), pieces: done, table: out.table },
            Ok(resp) => if resp == AssignActionResponse::fail || resp
                == AssignActionResponse::no_assignment {
                MapOut {
                    res: Err(FspecError::ParamUnassigned),
                    pieces: done.push(out.piece),
                    table: out.table,
                }
            } else {
                inputs_from(
                    l,
                    intypes,
                    i + 1,
                    data_space,
                    out.status,
                    done.push(out.piece),
                    out.table,
                )
            },
        }
    }
}

/// Assigning the hidden return parameter `p`, from the class of such
/// parameters if it is marked as one.
pub open spec fn hidden_out(
    l: ListView,
    p: ParameterPieces,
    data_space: Option<AddrSpace>,
    table: JoinTable,
) -> AssignOut {
    if num::bit(p.flags, pieces::HIDDENRETPARM) {
        fallback_from(
            l.entry,
            0,
            TypeClass::HiddenRet,
            p.type_->0,
            false,
            free_status(l.numgroup),
            p,
            table,
        )
    } else {
        assign_from(l, 0, p.type_->0, true, data_space, free_status(l.numgroup), p, table)
    }
}

/// Assigning the inputs: where two parameters are there already, the second
/// is the hidden return parameter and comes first.
pub open spec fn standard_map(
    l: ListView,
    intypes: Seq<Datatype>,
    data_space: Option<AddrSpace>,
    before: Seq<ParameterPieces>,
    table: JoinTable,
) -> MapOut {
    if before.len() == 2 {
        let out = hidden_out(l, before[1], data_space, table);
        match out.res {
            Err(e) => MapOut { res: Err(e), pieces: before.take(1), table: out.table },
            Ok(resp) => if resp == AssignActionResponse::fail {
                MapOut {
                    res: Err(FspecError::ParamUnassigned),
                    pieces: before.take(1).push(out.piece),
                    table: out.table,
                }
            } else {
                inputs_from(
                    l,
                    intypes,
                    0,
                    data_space,
                    out.status,
                    before.take(1).push(
                        ParameterPieces {
                            flags: out.piece.flags | pieces::HIDDENRETPARM,
                            ..out.piece
                        },
                    ),
                    out.table,
                )
            },
        }
    } else {
        inputs_from(l, intypes, 0, data_space, free_status(l.numgroup), before, table)
    }
}

/// A parameter of the data-type `dt` with no storage.
pub open spec fn unstored(dt: Datatype) -> ParameterPieces {
    ParameterPieces { addr: Address::invalid(), type_: Some(dt), flags: 0 }
}

/// Assigning the return value to a register.
pub open spec fn register_out_map(
    l: ListView,
    outtype: Datatype,
    data_space: Option<AddrSpace>,
    before: Seq<ParameterPieces>,
    table: JoinTable,
) -> MapOut {
    if outtype.metatype == TypeMetatype::Void {
        MapOut { res: Ok(()), pieces: before.push(unstored(outtype)), table }
    } else {
        let out = assign_from(
            l,
            0,
            outtype,
            true,
            data_space,
            free_status(l.numgroup),
            pieces::no_pieces(),
            table,
        );
        match out.res {
            Err(e) => MapOut { res: Err(e), pieces: before, table: out.table },
            Ok(_) => if out.piece.addr.space is None {
                MapOut {
                    res: Err(FspecError::ParamUnassigned),
                    pieces: before,
                    table: out.table,
                }
            } else {
                MapOut { res: Ok(()), pieces: before.push(out.piece), table: out.table }
            },
        }
    }
}

/// Assigning a return value that is passed through a hidden pointer, after the
/// attempt `out` to assign it directly, which gave the response `resp`: the
/// pointer is returned too unless the response says that nothing is, and a
/// second parameter, its storage still open, stands for the hidden input.
pub open spec fn hidden_return(
    l: ListView,
    outtype: Datatype,
    data_space: Option<AddrSpace>,
    before: Seq<ParameterPieces>,
    out: AssignOut,
    resp: AssignActionResponse,
) -> MapOut {
    match (if l.spacebase is Some {
        l.spacebase
    } else {
        data_space
    }) {
        None => MapOut {
            res: Err(FspecError::NoDefaultDataSpace),
            pieces: before,
            table: out.table,
        },
        Some(s) => {
            let p = dtype::pointer_to(outtype, s.addr_size as i32);
            let special = resp == AssignActionResponse::hiddenret_specialreg || resp
                == AssignActionResponse::hiddenret_specialreg_void;
            let extra = ParameterPieces {
                addr: Address::invalid(),
                type_: Some(p),
                flags: if special {
                    pieces::HIDDENRETPARM
                } else {
                    0
                },
            };
            if resp == AssignActionResponse::hiddenret_specialreg_void {
                MapOut {
                    res: Ok(()),
                    pieces: before.push(
                        ParameterPieces {
                            type_: Some(dtype::void_type()),
                            flags: pieces::INDIRECTSTORAGE,
                            ..out.piece
                        },
                    ).push(extra),
                    table: out.table,
                }
            } else {
                let out2 = assign_from(
                    l,
                    0,
                    p,
                    true,
                    data_space,
                    out.status,
                    ParameterPieces { type_: Some(p), ..out.piece },
                    out.table,
                );
                match out2.res {
                    Err(e) => MapOut { res: Err(e), pieces: before, table: out2.table },
                    Ok(r2) => if r2 == AssignActionResponse::fail {
                        MapOut {
                            res: Err(FspecError::ReturnUnassigned),
                            pieces: before,
                            table: out2.table,
                        }
                    } else {
                        MapOut {
                            res: Ok(()),
                            pieces: before.push(
                                ParameterPieces { flags: pieces::INDIRECTSTORAGE, ..out2.piece },
                            ).push(extra),
                            table: out2.table,
                        }
                    },
                }
            }
        },
    }
}

/// Assigning the return value, through a hidden pointer if it does not fit.
pub open spec fn standard_out_map(
    l: ListView,
    outtype: Datatype,
    data_space: Option<AddrSpace>,
    before: Seq<ParameterPieces>,
    table: JoinTable,
) -> MapOut {
    if outtype.metatype == TypeMetatype::Void {
        MapOut { res: Ok(()), pieces: before.push(unstored(outtype)), table }
    } else {
        let out = assign_from(
            l,
            0,
            outtype,
            true,
            data_space,
            free_status(l.numgroup),
            pieces::no_pieces(),
            table,
        );
        match out.res {
            Err(e) => MapOut { res: Err(e), pieces: before, table: out.table },
            Ok(resp) => if resp == AssignActionResponse::fail {
                hidden_return(
                    l,
                    outtype,
                    data_space,
                    before,
                    out,
                    AssignActionResponse::hiddenret_ptrparam,
                )
            } else if resp == AssignActionResponse::hiddenret_ptrparam || resp
                == AssignActionResponse::hiddenret_specialreg || resp
                == AssignActionResponse::hiddenret_specialreg_void {
                hidden_return(l, outtype, data_space, before, out, resp)
            } else {
                MapOut { res: Ok(()), pieces: before.push(out.piece), table: out.table }
            },
        }
    }
}

/// Assigning the parameters of one direction under the list.
pub open spec fn map_out(
    l: ListView,
    outtype: Option<Datatype>,
    intypes: Seq<Datatype>,
    data_space: Option<AddrSpace>,
    before: Seq<ParameterPieces>,
    table: JoinTable,
) -> MapOut {
    match l.kind {
        ParamListKind::Merged => MapOut {
            res: Err(FspecError::UnresolvedModel),
            pieces: before,
            table,
        },
        ParamListKind::Standard | ParamListKind::Register => standard_map(
            l,
            intypes,
            data_space,
            before,
            table,
        ),
        ParamListKind::StandardOut => standard_out_map(
            l,
            outtype->0,
            data_space,
            before,
            table,
        ),
        ParamListKind::RegisterOut => register_out_map(
            l,
            outtype->0,
            data_space,
            before,
            table,
        ),
    }
}

impl ListView {
    /// The stack entries that the rules name are entries of the list.
    pub open spec fn rules_ok(self) -> bool {
        forall|k: int|
            0 <= k < self.model_rules.len() ==> (
            (#[trigger] self.model_rules[k]).action matches AssignAction::GotoStack {
                stack_entry: Some(i),
            } ==> i < self.entry.len())
    }

    /// Storage can be assigned under the list.
    pub open spec fn assignable(self) -> bool {
        self.wf() && self.groups_ok() && self.rules_ok()
    }
}

impl ParamListStandard {
    /// Assign storage for `tp` to the first entry of a fitting class that has
    /// room for it.
    pub fn assign_address_fallback(
        &self,
        resource: TypeClass,
        tp: &Datatype,
        match_exact: bool,
        status: &mut Vec<i32>,
        param: &mut ParameterPieces,
        manager: &mut AddrSpaceManager,
    ) -> (r: Result<AssignActionResponse, FspecError>)
        requires
            self@.wf(),
            self@.groups_ok(),
            old(status)@.len() >= self.numgroup,
        ensures
            (AssignOut {
                res: r,
                status: final(status)@,
                piece: *final(param),
                table: final(manager).table(),
            }) == fallback_from(
                self@.entry,
                0,
                resource,
                *tp,
                match_exact,
                old(status)@,
                *old(param),
                old(manager).table(),
            ),
            final(status)@.len() == old(status)@.len(),
            final(manager).default_data_space == old(manager).default_data_space,
            final(manager).stack_space == old(manager).stack_space,
            old(manager).wf() ==> final(manager).wf(),
    {
        let mut k: usize = 0;
        while k < self.entry.len()
            invariant
                k <= self.entry.len(),
                self@.wf(),
                self@.groups_ok(),
                status@.len() >= self.numgroup,
                status@.len() == old(status)@.len(),
                manager.default_data_space == old(manager).default_data_space,
                manager.stack_space == old(manager).stack_space,
                old(manager).wf() ==> manager.wf(),
                fallback_from(
                    self@.entry,
                    0,
                    resource,
                    *tp,
                    match_exact,
                    old(status)@,
                    *old(param),
                    old(manager).table(),
                ) == fallback_from(
                    self@.entry,
                    k as int,
                    resource,
                    *tp,
                    match_exact,
                    status@,
                    *param,
                    manager.table(),
                ),
            decreases self.entry.len() - k,
        {
            let e = &self.entry[k];
            assert(self@.entry[k as int] == e@);
            assert(self@.entry[k as int].wf());
            let grp: usize = e.get_group() as usize;
            assert(e@.group_set[0] <= e@.group_set.last());
            let ok_class = resource == e.type_ || (!match_exact && e.type_ == TypeClass::General);
            if status[grp] >= 0 && ok_class {
                let mut slot: i32 = status[grp];
                let got = e.get_addr_by_slot(&mut slot, tp.align_size, tp.alignment, manager);
                status.set(grp, slot);
                match got {
                    Err(x) => return Err(x),
                    Ok(addr) => {
                        param.addr = addr;
                        if addr.space.is_some() {
                            if e.is_exclusion() {
                                let ghost status2 = status@;
                                let mut j: usize = 0;
                                while j < e.group_set.len()
                                    invariant
                                        j <= e.group_set.len(),
                                        e@.wf(),
                                        e@.group_set[0] >= 0,
                                        e@.group_set.last() < self.numgroup,
                                        status@.len() >= self.numgroup,
                                        status@.len() == old(status)@.len(),
                                        status@ == take_groups(status2, e@.group_set, j as int),
                                    decreases e.group_set.len() - j,
                                {
                                    assert(e@.group_set[0] <= e@.group_set[j as int]);
                                    assert(e@.group_set[j as int] <= e@.group_set.last());
                                    status.set(e.group_set[j] as usize, -1);
                                    j += 1;
                                }
                            }
                            param.type_ = Some(*tp);
                            param.flags = 0;
                            return Ok(AssignActionResponse::success);
                        }
                    },
                }
            }
            k += 1;
        }
        Ok(AssignActionResponse::fail)
    }

    /// Assign storage for `dt`, by the first rule that applies or else by
    /// class. `pos` is the position of the parameter, -1 for a return value.
    pub fn assign_address(
        &self,
        dt: &Datatype,
        pos: i32,
        status: &mut Vec<i32>,
        res: &mut ParameterPieces,
        manager: &mut AddrSpaceManager,
    ) -> (r: Result<AssignActionResponse, FspecError>)
        requires
            self@.assignable(),
            old(status)@.len() >= self.numgroup,
        ensures
            (AssignOut {
                res: r,
                status: final(status)@,
                piece: *final(res),
                table: final(manager).table(),
            }) == assign_from(
                self@,
                0,
                *dt,
                true,
                old(manager).default_data_space,
                old(status)@,
                *old(res),
                old(manager).table(),
            ),
            final(status)@.len() == old(status)@.len(),
            final(manager).default_data_space == old(manager).default_data_space,
            final(manager).stack_space == old(manager).stack_space,
            old(manager).wf() ==> final(manager).wf(),
    {
        self.assign_by_rules(dt, true, status, res, manager)
    }

    fn assign_by_rules(
        &self,
        dt: &Datatype,
        convert: bool,
        status: &mut Vec<i32>,
        res: &mut ParameterPieces,
        manager: &mut AddrSpaceManager,
    ) -> (r: Result<AssignActionResponse, FspecError>)
        requires
            self@.assignable(),
            old(status)@.len() >= self.numgroup,
        ensures
            (AssignOut {
                res: r,
                status: final(status)@,
                piece: *final(res),
                table: final(manager).table(),
            }) == assign_from(
                self@,
                0,
                *dt,
                convert,
                old(manager).default_data_space,
                old(status)@,
                *old(res),
                old(manager).table(),
            ),
            final(status)@.len() == old(status)@.len(),
            final(manager).default_data_space == old(manager).default_data_space,
            final(manager).stack_space == old(manager).stack_space,
            old(manager).wf() ==> final(manager).wf(),
        decreases (if convert { 1int } else { 0int }), 1int,
    {
        let ghost l = self@;
        let ghost ds = manager.default_data_space;
        let mut k: usize = 0;
        while k < self.model_rules.len()
            invariant
                k <= self.model_rules.len(),
                l == self@,
                self@.assignable(),
                ds == old(manager).default_data_space,
                status@.len() >= self.numgroup,
                status@.len() == old(status)@.len(),
                manager.default_data_space == ds,
                manager.stack_space == old(manager).stack_space,
                old(manager).wf() ==> manager.wf(),
                assign_from(
                    l,
                    0,
                    *dt,
                    convert,
                    ds,
                    old(status)@,
                    *old(res),
                    old(manager).table(),
                ) == assign_from(l, k as int, *dt, convert, ds, status@, *res, manager.table()),
            decreases self.model_rules.len() - k,
        {
            let response = self.assign_by_rule(k, dt, convert, status, res, manager);
            match response {
                Ok(AssignActionResponse::fail) => {},
                _ => return response,
            }
            k += 1;
        }
        let store = dtype::metatype2typeclass(dt.metatype);
        self.assign_address_fallback(store, dt, false, status, res, manager)
    }

    fn assign_by_rule(
        &self,
        k: usize,
        dt: &Datatype,
        convert: bool,
        status: &mut Vec<i32>,
        res: &mut ParameterPieces,
        manager: &mut AddrSpaceManager,
    ) -> (r: Result<AssignActionResponse, FspecError>)
        requires
            self@.assignable(),
            k < self@.model_rules.len(),
            old(status)@.len() >= self.numgroup,
        ensures
            (AssignOut {
                res: r,
                status: final(status)@,
                piece: *final(res),
                table: final(manager).table(),
            }) == rule_out(
                self@,
                k as int,
                *dt,
                convert,
                old(manager).default_data_space,
                old(status)@,
                *old(res),
                old(manager).table(),
            ),
            final(status)@.len() == old(status)@.len(),
            final(manager).default_data_space == old(manager).default_data_space,
            final(manager).stack_space == old(manager).stack_space,
            old(manager).wf() ==> final(manager).wf(),
        decreases (if convert { 1int } else { 0int }), 0int,
    {
        let rule = self.model_rules[k];
        assert(self@.model_rules[k as int] == rule);
        if !rule.is_selected(dt.size) {
            return Ok(AssignActionResponse::fail);
        }
        match rule.action {
            AssignAction::GotoStack { stack_entry } => {
                let i: usize = match stack_entry {
                    None => return Ok(AssignActionResponse::fail),
                    Some(i) => i,
                };
                let e = &self.entry[i];
                assert(self@.entry[i as int] == e@);
                assert(self@.entry[i as int].wf());
                let grp: usize = e.get_group() as usize;
                assert(e@.group_set[0] <= e@.group_set.last());
                let mut slot: i32 = status[grp];
                let got = e.get_addr_by_slot(&mut slot, dt.size, dt.alignment, manager);
                status.set(grp, slot);
                match got {
                    Err(x) => Err(x),
                    Ok(addr) => {
                        *res = ParameterPieces { addr, type_: Some(*dt), flags: 0 };
                        Ok(AssignActionResponse::success)
                    },
                }
            },
            AssignAction::ConvertToPointer { space } => {
                if !convert {
                    return Ok(AssignActionResponse::fail);
                }
                let spc = if space.is_some() {
                    space
                } else {
                    manager.default_data_space
                };
                match spc {
                    None => Err(FspecError::NoDefaultDataSpace),
                    Some(s) => {
                        let p = dtype::make_pointer(dt, s.addr_size as i32);
                        let out = self.assign_by_rules(&p, false, status, res, manager);
                        res.flags = pieces::INDIRECTSTORAGE;
                        out
                    },
                }
            },
        }
    }

    /// Assign storage to the parameters of a prototype in the direction of the
    /// list, appending them to `res`.
    pub fn assign_map(
        &self,
        proto: &PrototypePieces,
        res: &mut Vec<ParameterPieces>,
        manager: &mut AddrSpaceManager,
    ) -> (r: Result<(), FspecError>)
        requires
            self@.assignable(),
            self.kind == ParamListKind::StandardOut || self.kind == ParamListKind::RegisterOut
                ==> proto.outtype is Some,
            (self.kind == ParamListKind::Standard || self.kind == ParamListKind::Register) && old(
                res,
            )@.len() == 2 ==> old(res)@[1].type_ is Some,
        ensures
            (MapOut { res: r, pieces: final(res)@, table: final(manager).table() }) == map_out(
                self@,
                proto.outtype,
                proto.intypes@,
                old(manager).default_data_space,
                old(res)@,
                old(manager).table(),
            ),
            final(manager).default_data_space == old(manager).default_data_space,
            final(manager).stack_space == old(manager).stack_space,
            old(manager).wf() ==> final(manager).wf(),
    {
        match self.kind {
            ParamListKind::Merged => Err(FspecError::UnresolvedModel),
            ParamListKind::Standard | ParamListKind::Register => self.assign_map_standard(
                proto,
                res,
                manager,
            ),
            ParamListKind::StandardOut => self.assign_map_standard_out(proto, res, manager),
            ParamListKind::RegisterOut => self.assign_map_register_out(proto, res, manager),
        }
    }

    fn new_status(&self) -> (r: Vec<i32>)
        requires
            self.numgroup >= 0,
        ensures
            r@ == free_status(self.numgroup),
    {
        let mut status: Vec<i32> = Vec::new();
        let mut i: i32 = 0;
        while i < self.numgroup
            invariant
                0 <= i <= self.numgroup,
                status@ == Seq::new(i as nat, |k: int| 0i32),
            decreases self.numgroup - i,
        {
            status.push(0);
            i += 1;
            assert(status@ =~= Seq::new(i as nat, |k: int| 0i32));
        }
        status
    }

    fn assign_map_standard(
        &self,
        proto: &PrototypePieces,
        res: &mut Vec<ParameterPieces>,
        manager: &mut AddrSpaceManager,
    ) -> (r: Result<(), FspecError>)
        requires
            self@.assignable(),
            old(res)@.len() == 2 ==> old(res)@[1].type_ is Some,
        ensures
            (MapOut { res: r, pieces: final(res)@, table: final(manager).table() }) == standard_map(
                self@,
                proto.intypes@,
                old(manager).default_data_space,
                old(res)@,
                old(manager).table(),
            ),
            final(manager).default_data_space == old(manager).default_data_space,
            final(manager).stack_space == old(manager).stack_space,
            old(manager).wf() ==> final(manager).wf(),
    {
        let ghost ds = manager.default_data_space;
        let mut status = self.new_status();
        if res.len() == 2 {
            let mut back = res[1];
            let hidden = num::has_bit(back.flags, pieces::HIDDENRETPARM);
            let dt = back.type_.unwrap();
            res.truncate(1);
            assert(res@ =~= old(res)@.take(1));
            let got = if hidden {
                self.assign_address_fallback(
                    TypeClass::HiddenRet,
                    &dt,
                    false,
                    &mut status,
                    &mut back,
                    manager,
                )
            } else {
                self.assign_address(&dt, 0, &mut status, &mut back, manager)
            };
            match got {
                Err(e) => return Err(e),
                Ok(resp) => {
                    if resp == AssignActionResponse::fail {
                        res.push(back);
                        return Err(FspecError::ParamUnassigned);
                    }
                },
            }
            back.flags = back.flags | pieces::HIDDENRETPARM;
            res.push(back);
        }
        let mut i: usize = 0;
        while i < proto.intypes.len()
            invariant
                i <= proto.intypes.len(),
                self@.assignable(),
                ds == old(manager).default_data_space,
                status@.len() >= self.numgroup,
                manager.default_data_space == ds,
                manager.stack_space == old(manager).stack_space,
                old(manager).wf() ==> manager.wf(),
                standard_map(self@, proto.intypes@, ds, old(res)@, old(manager).table())
                    == inputs_from(
                    self@,
                    proto.intypes@,
                    i as int,
                    ds,
                    status@,
                    res@,
                    manager.table(),
                ),
            decreases proto.intypes.len() - i,
        {
            let dt = proto.intypes[i];
            let mut back = ParameterPieces::default();
            let pos: i32 = i as i32;
            match self.assign_address(&dt, pos, &mut status, &mut back, manager) {
                Err(e) => return Err(e),
                Ok(resp) => {
                    res.push(back);
                    if resp == AssignActionResponse::fail || resp
                        == AssignActionResponse::no_assignment {
                        return Err(FspecError::ParamUnassigned);
                    }
                },
            }
            i += 1;
        }
        Ok(())
    }

    fn assign_map_register_out(
        &self,
        proto: &PrototypePieces,
        res: &mut Vec<ParameterPieces>,
        manager: &mut AddrSpaceManager,
    ) -> (r: Result<(), FspecError>)
        requires
            self@.assignable(),
            proto.outtype is Some,
        ensures
            (MapOut { res: r, pieces: final(res)@, table: final(manager).table() })
                == register_out_map(
                self@,
                proto.outtype->0,
                old(manager).default_data_space,
                old(res)@,
                old(manager).table(),
            ),
            final(manager).default_data_space == old(manager).default_data_space,
            final(manager).stack_space == old(manager).stack_space,
            old(manager).wf() ==> final(manager).wf(),
    {
        let mut status = self.new_status();
        let mut back = ParameterPieces::default();
        let outtype = proto.outtype.unwrap();
        if outtype.metatype != TypeMetatype::Void {
            if let Err(e) = self.assign_address(&outtype, -1, &mut status, &mut back, manager) {
                return Err(e);
            }
            if back.addr.is_invalid() {
                return Err(FspecError::ParamUnassigned);
            }
        } else {
            back.type_ = Some(outtype);
        }
        res.push(back);
        Ok(())
    }

    fn assign_map_standard_out(
        &self,
        proto: &PrototypePieces,
        res: &mut Vec<ParameterPieces>,
        manager: &mut AddrSpaceManager,
    ) -> (r: Result<(), FspecError>)
        requires
            self@.assignable(),
            proto.outtype is Some,
        ensures
            (MapOut { res: r, pieces: final(res)@, table: final(manager).table() })
                == standard_out_map(
                self@,
                proto.outtype->0,
                old(manager).default_data_space,
                old(res)@,
                old(manager).table(),
            ),
            final(manager).default_data_space == old(manager).default_data_space,
            final(manager).stack_space == old(manager).stack_space,
            old(manager).wf() ==> final(manager).wf(),
    {
        let mut status = self.new_status();
        let mut back = ParameterPieces::default();
        let outtype = proto.outtype.unwrap();
        if outtype.metatype == TypeMetatype::Void {
            back.type_ = Some(outtype);
            res.push(back);
            return Ok(());
        }
        let mut response = match self.assign_address(&outtype, -1, &mut status, &mut back, manager) {
            Err(e) => return Err(e),
            Ok(resp) => resp,
        };
        if response == AssignActionResponse::fail {
            response = AssignActionResponse::hiddenret_ptrparam;
        }
        if response == AssignActionResponse::hiddenret_ptrparam || response
            == AssignActionResponse::hiddenret_specialreg || response
            == AssignActionResponse::hiddenret_specialreg_void {
            let spc = if self.spacebase.is_some() {
                self.spacebase
            } else {
                manager.default_data_space
            };
            let spc = match spc {
                None => return Err(FspecError::NoDefaultDataSpace),
                Some(s) => s,
            };
            let pointertp = dtype::make_pointer(&outtype, spc.addr_size as i32);
            if response == AssignActionResponse::hiddenret_specialreg_void {
                back.type_ = Some(Datatype::new(0, TypeMetatype::Void));
            } else {
                back.type_ = Some(pointertp);
                match self.assign_address(&pointertp, -1, &mut status, &mut back, manager) {
                    Err(e) => return Err(e),
                    Ok(resp) => {
                        if resp == AssignActionResponse::fail {
                            return Err(FspecError::ReturnUnassigned);
                        }
                    },
                }
            }
            back.flags = pieces::INDIRECTSTORAGE;
            res.push(back);
            let special = response == AssignActionResponse::hiddenret_specialreg || response
                == AssignActionResponse::hiddenret_specialreg_void;
            res.push(
                ParameterPieces {
                    addr: Address::new_invalid(),
                    type_: Some(pointertp),
                    flags: if special {
                        pieces::HIDDENRETPARM
                    } else {
                        0
                    },
                },
            );
            return Ok(());
        }
        res.push(back);
        Ok(())
    }
}

} // verus!
