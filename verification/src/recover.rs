//! Finding the return value of the analysed function.
use crate::actions::{Action, ActionOutputPrototype, ActionReturnRecovery};
use crate::active::{ActiveView, ParamActive};
use crate::decide;
use crate::dtype::{Datatype, TypeMetatype};
use crate::fillin;
use crate::forced;
use crate::graph::{Graph, GraphView, OpId, VarnodeId};
use crate::opcode::OpCode;
use crate::paramlist::ParamListKind;
use crate::pieces::ParameterPieces;
use crate::proto::{FuncProto, ProtoView};
use crate::script::{Edit, Script, ScriptView};
use crate::space::Address;
use crate::store;
use crate::store::ProtoParameter;
use crate::trial::ParamTrial;
use vstd::prelude::*;

verus! {

/// What is found out about where the value of a trial comes from: whether its
/// origin is realistic, whether it is moved there solidly, whether the value
/// is used nowhere else, and the trial with what was noted in it on the way.
#[derive(Debug, Clone, Copy, PartialEq, Eq, Structural)]
pub struct Ancestry {
    pub realistic: bool,
    pub solid: bool,
    pub only: bool,
    pub trial: ParamTrial,
}

impl Ancestry {
    /// The origin speaks for a parameter.
    pub open spec fn favourable(self) -> bool {
        self.realistic || self.solid
    }

    pub fn is_favourable(&self) -> (r: bool)
        ensures
            r == self.favourable(),
    {
        self.realistic || self.solid
    }
}

/// A trial of the return value after its origin was looked into.
pub open spec fn return_judged(a: Ancestry) -> ParamTrial {
    if a.favourable() && a.only {
        a.trial.with_active()
    } else {
        a.trial
    }
}

/// The varnodes of the used trials from `i` on that a return has, up to the
/// first trial that is not used or has no input.
pub open spec fn used_inputs(
    g: GraphView,
    op: OpId,
    trials: Seq<ParamTrial>,
    i: int,
) -> Seq<VarnodeId>
    decreases trials.len() - i,
{
    if i < 0 || i >= trials.len() {
        Seq::empty()
    } else if !trials[i].flags.used || trials[i].slot >= input_count(g, op) {
        Seq::empty()
    } else {
        input_list(g, op, trials[i].slot as int) + used_inputs(g, op, trials, i + 1)
    }
}

/// The number of inputs of an operation, 0 if it is not there.
pub open spec fn input_count(g: GraphView, op: OpId) -> int {
    match g.op(op) {
        Some(o) => o.inputs.len() as int,
        None => 0,
    }
}

/// The input in a slot, as a list.
pub open spec fn input_list(g: GraphView, op: OpId, slot: int) -> Seq<VarnodeId> {
    match g.input(op, slot) {
        Some(v) => seq![v],
        None => Seq::empty(),
    }
}

/// The first two of a list if only a single value is returned.
pub open spec fn cut_to_single(s: Seq<VarnodeId>, single: bool) -> Seq<VarnodeId> {
    if single && s.len() > 2 {
        s.take(2)
    } else {
        s
    }
}

/// The state while contiguous pieces of the return value are put together: the
/// varnode so far with its storage, the offset of the next piece, the changes.
#[verifier::ext_equal]
pub struct Chain {
    pub so_far: Option<(VarnodeId, Address, i32)>,
    pub next: i32,
    pub script: ScriptView,
}

/// The changes that put the piece `v` above the varnode so far.
pub open spec fn chain_link(
    g: GraphView,
    op: OpId,
    v: VarnodeId,
    size: i32,
    c: Chain,
) -> Chain {
    let (pre, pre_addr, pre_size) = c.so_far->0;
    let vaddr = g.vn(v)->0.addr;
    let addr = if vaddr.before(pre_addr) {
        vaddr
    } else {
        pre_addr
    };
    let s = c.script;
    let whole = (pre_size + size) as i32;
    let newop = s.op();
    let s1 = s.new_op(2, g.op(op)->0.addr).set_opcode(newop, OpCode::Piece);
    let out = s1.vn();
    Chain {
        so_far: Some((out, addr, whole)),
        next: (c.next + size) as i32,
        script: s1.new_varnode_out(whole, addr, newop).then_do(
            Edit::WriteMask { vn: out },
        ).set_input(newop, v, 0).set_input(newop, pre, 1).then_do(
            Edit::InsertBefore { op: newop, at: op },
        ),
    }
}

/// The pieces of the return value from the trial `i` on put together, as long
/// as they are contiguous.
pub open spec fn chained(
    g: GraphView,
    op: OpId,
    trials: Seq<ParamTrial>,
    i: int,
    c: Chain,
) -> Chain
    decreases trials.len() - i,
{
    if i < 0 || i >= trials.len() {
        c
    } else {
        let t = trials[i];
        if !t.flags.used || t.slot >= input_count(g, op) || g.input(op, t.slot as int) is None {
            c
        } else {
            let v = g.input(op, t.slot as int)->0;
            match c.so_far {
                None => chained(
                    g,
                    op,
                    trials,
                    i + 1,
                    Chain {
                        so_far: Some((v, g.vn(v)->0.addr, g.vn(v)->0.size)),
                        next: (t.offset + t.size) as i32,
                        ..c
                    },
                ),
                Some(_) => if c.next == t.offset {
                    chained(g, op, trials, i + 1, chain_link(g, op, v, t.size, c))
                } else {
                    c
                },
            }
        }
    }
}

/// The changes that make a return return two pieces as one value at `joined`:
/// the less significant piece is that of the first trial.
pub open spec fn pair_returned(
    g: GraphView,
    op: OpId,
    s: ScriptView,
    list: Seq<VarnodeId>,
    trials: Seq<ParamTrial>,
    joined: Address,
) -> ScriptView {
    let newop = s.op();
    let s1 = s.new_op(2, g.op(op)->0.addr).set_opcode(newop, OpCode::Piece);
    let whole = s1.vn();
    s1.new_varnode_out((trials[1].size + trials[0].size) as i32, joined, newop).then_do(
        Edit::WriteMask { vn: whole },
    ).then_do(Edit::InsertBefore { op: newop, at: op }).set_all_input(
        op,
        seq![list[0], whole],
    ).set_input(newop, list[2], 0).set_input(newop, list[1], 1)
}

/// The changes that make a return return what the used trials hold. `joined`
/// is the address that stands for the storage of the first two trials
/// together, if there is one.
pub open spec fn output_returned(
    g: GraphView,
    op: OpId,
    s: ScriptView,
    trials: Seq<ParamTrial>,
    single: bool,
    joined: Option<Address>,
) -> ScriptView {
    let list = cut_to_single(
        input_list(g, op, 0) + used_inputs(g, op, trials, 0),
        single,
    );
    if list.len() <= 2 {
        s.set_all_input(op, list)
    } else if list.len() == 3 {
        match joined {
            Some(a) => pair_returned(g, op, s, list, trials, a),
            None => s.set_all_input(op, list.take(2)),
        }
    } else {
        let c = chained(g, op, trials, 0, Chain { so_far: None, next: 0, script: s });
        c.script.set_all_input(
            op,
            input_list(g, op, 0) + (match c.so_far {
                Some((v, a, z)) => seq![v],
                None => Seq::empty(),
            }),
        )
    }
}

/// The varnodes that a return reads are there.
pub open spec fn inputs_there(g: GraphView, op: OpId) -> bool {
    g.op(op) matches Some(o) ==> forall|k: int|
        0 <= k < o.inputs.len() ==> g.vn(#[trigger] o.inputs[k]) is Some
}

/// There are no more such varnodes than trials.
proof fn lemma_used_count(g: GraphView, op: OpId, trials: Seq<ParamTrial>, i: int)
    requires
        0 <= i <= trials.len(),
    ensures
        used_inputs(g, op, trials, i).len() <= trials.len() - i,
        used_inputs(g, op, trials, i).len() > 0 ==> g.op(op) is Some,
    decreases trials.len() - i,
{
    if i < trials.len() {
        lemma_used_count(g, op, trials, i + 1);
    }
}

impl ActionReturnRecovery {
    /// The varnodes of the used trials that a return has.
    fn gather_used(g: &Graph, op: OpId, active: &ParamActive) -> (r: Vec<VarnodeId>)
        requires
            g@.wf(),
        ensures
            r@ == input_list(g@, op, 0) + used_inputs(g@, op, active@.trial, 0),
    {
        let mut list: Vec<VarnodeId> = Vec::new();
        if let Some(v) = g.get_in(op, 0) {
            list.push(v);
        }
        assert(list@ =~= input_list(g@, op, 0));
        let ghost all = input_list(g@, op, 0) + used_inputs(g@, op, active@.trial, 0);
        let num_input: i32 = match g.get_op(op) {
            Some(o) => {
                assert(g@.ops[op.0 as int].inputs.len() <= i32::MAX);
                o.num_input()
            },
            None => 0,
        };
        let mut i: usize = 0;
        while i < active.trial.len()
            invariant
                i <= active.trial.len(),
                num_input == input_count(g@, op),
                all == input_list(g@, op, 0) + used_inputs(g@, op, active@.trial, 0),
                all == list@ + used_inputs(g@, op, active@.trial, i as int),
            decreases active.trial.len() - i,
        {
            let t = active.trial[i];
            if !t.is_used() || t.slot >= num_input {
                assert(all =~= list@);
                return list;
            }
            let ghost before = list@;
            let ghost rest = used_inputs(g@, op, active@.trial, i + 1);
            if let Some(v) = g.get_in(op, t.slot) {
                list.push(v);
            }
            assert(list@ =~= before + input_list(g@, op, t.slot as int));
            assert(before + (input_list(g@, op, t.slot as int) + rest) =~= list@ + rest);
            i += 1;
        }
        assert(all =~= list@);
        list
    }

    /// Put one more piece above the varnode so far.
    fn link_piece(
        g: &Graph,
        op: OpId,
        s: &mut Script,
        v: VarnodeId,
        size: i32,
        so_far: (VarnodeId, Address, i32),
        next: i32,
    ) -> (r: ((VarnodeId, Address, i32), i32))
        requires
            g@.op(op) is Some,
            g@.vn(v) is Some,
        ensures
            chain_link(
                g@,
                op,
                v,
                size,
                Chain { so_far: Some(so_far), next, script: old(s)@ },
            ) == (Chain { so_far: Some(r.0), next: r.1, script: final(s)@ }),
    {
        let (pre, pre_addr, pre_size) = so_far;
        let vaddr = g.get_vn(v).unwrap().addr;
        let addr = if vaddr.is_before(&pre_addr) {
            vaddr
        } else {
            pre_addr
        };
        let retaddr = g.get_op(op).unwrap().addr;
        let whole: i32 = (pre_size as i64 + size as i64) as i32;
        let newop = s.new_op(2, retaddr);
        s.set_opcode(newop, OpCode::Piece);
        let out = s.new_varnode_out(whole, addr, newop);
        s.push(Edit::WriteMask { vn: out });
        s.set_input(newop, v, 0);
        s.set_input(newop, pre, 1);
        s.push(Edit::InsertBefore { op: newop, at: op });
        ((out, addr, whole), (next as i64 + size as i64) as i32)
    }

    /// Put the contiguous pieces of the return value together.
    fn chain_pieces(g: &Graph, op: OpId, s: &mut Script, active: &ParamActive) -> (r: Option<
        VarnodeId,
    >)
        requires
            g@.wf(),
            inputs_there(g@, op),
        ensures
            ({
                let c = chained(
                    g@,
                    op,
                    active@.trial,
                    0,
                    Chain { so_far: None, next: 0, script: old(s)@ },
                );
                final(s)@ == c.script && r == (match c.so_far {
                    Some((v, a, z)) => Some(v),
                    None => None,
                })
            }),
    {
        let ghost trials = active@.trial;
        let ghost end = chained(
            g@,
            op,
            trials,
            0,
            Chain { so_far: None, next: 0, script: s@ },
        );
        let mut so_far: Option<(VarnodeId, Address, i32)> = None;
        let mut next: i32 = 0;
        let nin: i32 = match g.get_op(op) {
            Some(o) => {
                assert(g@.ops[op.0 as int].inputs.len() <= i32::MAX);
                o.num_input()
            },
            None => 0,
        };
        let mut i: usize = 0;
        let mut going = true;
        while going && i < active.trial.len()
            invariant
                i <= active.trial.len(),
                trials == active@.trial,
                g@.wf(),
                inputs_there(g@, op),
                nin == input_count(g@, op),
                going ==> end == chained(
                    g@,
                    op,
                    trials,
                    i as int,
                    Chain { so_far, next, script: s@ },
                ),
                !going ==> end == (Chain { so_far, next, script: s@ }),
            decreases active.trial.len() - i,
        {
            let t = active.trial[i];
            let found = if !t.is_used() || t.slot >= nin {
                None
            } else {
                g.get_in(op, t.slot)
            };
            match found {
                None => {
                    going = false;
                },
                Some(v) => {
                    assert(g@.op(op)->0.inputs[t.slot as int] == v);
                    match so_far {
                        None => {
                            let x = g.get_vn(v).unwrap();
                            so_far = Some((v, x.addr, x.size));
                            next = (t.offset as i64 + t.size as i64) as i32;
                        },
                        Some(pre) => {
                            if next == t.offset {
                                let (p2, n2) = ActionReturnRecovery::link_piece(
                                    g,
                                    op,
                                    s,
                                    v,
                                    t.size,
                                    pre,
                                    next,
                                );
                                so_far = Some(p2);
                                next = n2;
                            } else {
                                going = false;
                            }
                        },
                    }
                },
            }
            i += 1;
        }
        match so_far {
            Some((v, a, z)) => Some(v),
            None => None,
        }
    }

    /// Make a return return what the used trials hold. `joined` is the address
    /// that stands for the storage of the first two trials together.
    pub fn build_return_output(
        active: &ParamActive,
        retop: OpId,
        g: &Graph,
        s: &mut Script,
        return_single: bool,
        joined: Option<Address>,
    )
        requires
            g@.wf(),
            inputs_there(g@, retop),
        ensures
            final(s)@ == output_returned(
                g@,
                retop,
                old(s)@,
                active@.trial,
                return_single,
                joined,
            ),
    {
        let mut newparam = ActionReturnRecovery::gather_used(g, retop, active);
        proof {
            lemma_used_count(g@, retop, active@.trial, 0);
        }
        let ghost whole_list = newparam@;
        if return_single && newparam.len() > 2 {
            newparam.truncate(2);
            assert(newparam@ =~= whole_list.take(2));
        }
        if newparam.len() <= 2 {
            s.set_all_input(retop, &newparam);
            return ;
        }
        if newparam.len() == 3 {
            let lovn = newparam[1];
            let hivn = newparam[2];
            match joined {
                Some(joinaddr) => {
                    let lo_size: i32 = active.trial[0].size;
                    let hi_size: i32 = active.trial[1].size;
                    let retaddr = g.get_op(retop).unwrap().addr;
                    let newop = s.new_op(2, retaddr);
                    s.set_opcode(newop, OpCode::Piece);
                    let newwhole = s.new_varnode_out(
                        (hi_size as i64 + lo_size as i64) as i32,
                        joinaddr,
                        newop,
                    );
                    s.push(Edit::WriteMask { vn: newwhole });
                    s.push(Edit::InsertBefore { op: newop, at: retop });
                    let ghost list = newparam@;
                    newparam.truncate(2);
                    newparam.set(1, newwhole);
                    assert(newparam@ =~= seq![list[0], newwhole]);
                    s.set_all_input(retop, &newparam);
                    s.set_input(newop, hivn, 0);
                    s.set_input(newop, lovn, 1);
                },
                None => {
                    let ghost list = newparam@;
                    newparam.truncate(2);
                    assert(newparam@ =~= list.take(2));
                    s.set_all_input(retop, &newparam);
                },
            }
            return ;
        }
        let pre = ActionReturnRecovery::chain_pieces(g, retop, s, active);
        let mut finalparam: Vec<VarnodeId> = Vec::new();
        if let Some(v) = g.get_in(retop, 0) {
            finalparam.push(v);
        }
        assert(finalparam@ =~= input_list(g@, retop, 0));
        if let Some(v) = pre {
            finalparam.push(v);
        }
        assert(finalparam@ =~= input_list(g@, retop, 0) + (match pre {
            Some(v) => seq![v],
            None => Seq::empty(),
        }));
        s.set_all_input(retop, &finalparam);
    }
}

/// The next question in the search for the return value, from the return `k`
/// and the trial `i` on: the first trial, at the first return that really
/// returns, which is open and has an input there. The number counts trials
/// passed over for want of an input.
pub open spec fn next_question(
    g: GraphView,
    retops: Seq<OpId>,
    trials: Seq<ParamTrial>,
    k: int,
    i: int,
) -> (Option<(int, int)>, int)
    decreases retops.len() - k, trials.len() - i,
{
    if k < 0 || k >= retops.len() || i < 0 {
        (None, 0)
    } else if i >= trials.len() || !forced::live_return(g, retops[k]) {
        next_question(g, retops, trials, k + 1, 0)
    } else if trials[i].flags.checked {
        next_question(g, retops, trials, k, i + 1)
    } else if g.input(retops[k], trials[i].slot as int) is None {
        let (q, n) = next_question(g, retops, trials, k, i + 1);
        (q, n + 1)
    } else {
        (Some((k, i)), 0)
    }
}

/// The changes that make the first `n` returns return what the used trials
/// hold.
pub open spec fn all_returned(
    g: GraphView,
    retops: Seq<OpId>,
    n: int,
    s: ScriptView,
    trials: Seq<ParamTrial>,
    single: bool,
    joined: Option<Address>,
) -> ScriptView
    decreases n,
{
    if n <= 0 || n > retops.len() {
        s
    } else {
        let t = all_returned(g, retops, n - 1, s, trials, single, joined);
        if forced::live_return(g, retops[n - 1]) {
            output_returned(g, retops[n - 1], t, trials, single, joined)
        } else {
            t
        }
    }
}

/// The trials after a pass.
pub open spec fn pass_finished(a: ActiveView) -> ActiveView {
    let b = a.passed();
    if b.numpasses > b.maxpass {
        ActiveView { isfullychecked: true, ..b }
    } else {
        b
    }
}

/// The trials that the model decided on, or as they were if it cannot.
pub open spec fn outputs_decided(p: ProtoView, a: ActiveView) -> ActiveView {
    match decide::decided(p.model_view().outs(), a) {
        Ok(b) => b,
        Err(_) => a,
    }
}

/// The number of trials at a number of returns fits a wide counter.
proof fn lemma_scan_bound(k: int, m: int)
    requires
        0 <= k <= m + 1,
        m <= u64::MAX,
    ensures
        k <= m ==> k * m + m <= u128::MAX - u64::MAX,
        k * m >= 0,
        k > 0 ==> k * m == (k - 1) * m + m,
{
    assert(k * m >= 0) by (nonlinear_arith)
        requires
            k >= 0,
            m + 1 >= k,
    ;
    assert(k * m == (k - 1) * m + m) by (nonlinear_arith);
    if k <= m {
        assert(k * m <= 0xffff_ffff_ffff_ffff * 0xffff_ffff_ffff_ffff) by (nonlinear_arith)
            requires
                0 <= k <= m,
                m <= 0xffff_ffff_ffff_ffff,
        ;
    }
}

impl ActionReturnRecovery {
    /// What to look into next: the position of a return and of a trial whose
    /// value there is open. Passing over a trial counts as a change.
    pub fn next(
        &mut self,
        active: &ParamActive,
        g: &Graph,
        retops: &Vec<OpId>,
        from_op: usize,
        from_trial: usize,
    ) -> (r: Option<(usize, usize)>)
        ensures
            ({
                let (q, n) = next_question(
                    g@,
                    retops@,
                    active@.trial,
                    from_op as int,
                    from_trial as int,
                );
                &&& match q {
                    Some((k, i)) => r matches Some((a, b)) && a == k && b == i,
                    None => r is None,
                }
                &&& final(self).info() == old(self).info().noted(n)
            }),
    {
        let ghost trials = active@.trial;
        let ghost all = next_question(g@, retops@, trials, from_op as int, from_trial as int);
        let ghost m = usize::MAX as int;
        let len: usize = active.trial.len();
        let mut k: usize = from_op;
        let mut i: usize = from_trial;
        let mut n: u128 = 0;
        proof {
            lemma_scan_bound(k as int, m);
        }
        while k < retops.len()
            invariant
                trials == active@.trial,
                len == trials.len(),
                m == usize::MAX,
                self.info() == old(self).info(),
                all == next_question(
                    g@,
                    retops@,
                    trials,
                    from_op as int,
                    from_trial as int,
                ),
                all == ({
                    let (q, c) = next_question(g@, retops@, trials, k as int, i as int);
                    (q, c + n)
                }),
                n <= (k as int) * m + (if i <= len {
                    i as int
                } else {
                    len as int
                }),
                (k as int) * m >= 0,
            decreases retops.len() - k, trials.len() - i,
        {
            proof {
                lemma_scan_bound(k as int, m);
                lemma_scan_bound(k + 1, m);
            }
            let live = match g.get_op(retops[k]) {
                Some(o) => !o.dead && !o.halt,
                None => false,
            };
            if i >= len || !live {
                k += 1;
                i = 0;
            } else {
                let t = active.trial[i];
                if t.is_checked() {
                    i += 1;
                } else if g.get_in(retops[k], t.slot).is_none() {
                    i += 1;
                    n += 1;
                } else {
                    self.base.note(n);
                    return Some((k, i));
                }
            }
        }
        proof {
            lemma_scan_bound(k as int, m);
        }
        self.base.note(n);
        None
    }

    /// Take in what was found out about a trial.
    pub fn answer(&mut self, active: &mut ParamActive, i: usize, a: &Ancestry)
        requires
            i < old(active)@.trial.len(),
        ensures
            final(active)@ == old(active)@.with_trial(i as int, return_judged(*a)),
            final(self).info() == old(self).info().noted(1),
    {
        let mut t = a.trial;
        if a.is_favourable() && a.only {
            t.mark_active();
        }
        active.trial.set(i, t);
        self.base.note(1);
    }

    /// Finish a pass over the trials. When all are checked, the model decides
    /// which of them hold the return value and the returns are rewritten; the
    /// result says so.
    pub fn finish(
        &mut self,
        active: &mut ParamActive,
        fp: &FuncProto,
        g: &Graph,
        s: &mut Script,
        retops: &Vec<OpId>,
        return_single: bool,
        joined: Option<Address>,
    ) -> (r: bool)
        requires
            g@.wf(),
            forall|k: int| 0 <= k < retops@.len() ==> inputs_there(g@, #[trigger] retops@[k]),
            pass_finished(old(active)@).isfullychecked ==> {
                let l = fp@.model_view().outs();
                fp@.has_outputs() && (l.kind == ParamListKind::Standard && l.entry.len() > 0
                    ==> l.decidable()) && fillin::tied(l, old(active)@.trial)
            },
        ensures
            r == pass_finished(old(active)@).isfullychecked,
            if r {
                let a = outputs_decided(fp@, pass_finished(old(active)@));
                &&& final(active)@ == a
                &&& final(s)@ == all_returned(
                    g@,
                    retops@,
                    retops@.len() as int,
                    old(s)@,
                    a.trial,
                    return_single,
                    joined,
                ).then_do(Edit::ClearActiveOutput)
                &&& final(self).info() == old(self).info().noted(1)
            } else {
                &&& final(active)@ == pass_finished(old(active)@)
                &&& final(s)@ == old(s)@
                &&& final(self).info() == old(self).info()
            },
    {
        active.finish_pass();
        if active.get_num_passes() > active.get_max_pass() {
            active.mark_fully_checked();
        }
        if !active.is_fully_checked() {
            return false;
        }
        let _res = fp.derive_output_map(active);
        let mut k: usize = 0;
        while k < retops.len()
            invariant
                k <= retops.len(),
                g@.wf(),
                forall|j: int| 0 <= j < retops@.len() ==> inputs_there(g@, #[trigger] retops@[j]),
                self.info() == old(self).info(),
                s@ == all_returned(
                    g@,
                    retops@,
                    k as int,
                    old(s)@,
                    active@.trial,
                    return_single,
                    joined,
                ),
            decreases retops.len() - k,
        {
            if let Some(o) = g.get_op(retops[k]) {
                if !o.dead && !o.halt {
                    assert(inputs_there(g@, retops@[k as int]));
                    ActionReturnRecovery::build_return_output(
                        active,
                        retops[k],
                        g,
                        s,
                        return_single,
                        joined,
                    );
                }
            }
            k += 1;
        }
        s.push(Edit::ClearActiveOutput);
        self.base.note(1);
        true
    }
}

/// The trials after the values that the first `n` of them have at a return
/// were looked into, and how many of them were open.
pub open spec fn looked_into(
    g: GraphView,
    op: OpId,
    trials: Seq<ParamTrial>,
    answers: Seq<Ancestry>,
    n: int,
) -> (Seq<ParamTrial>, int)
    decreases n,
{
    if n <= 0 || n > trials.len() {
        (trials, 0)
    } else {
        let (ts, c) = looked_into(g, op, trials, answers, n - 1);
        let t = ts[n - 1];
        if t.flags.checked {
            (ts, c)
        } else if g.input(op, t.slot as int) is None {
            (ts, c + 1)
        } else {
            (ts.update(n - 1, return_judged(answers[n - 1])), c + 1)
        }
    }
}

/// The trials after the values at the first `n` returns were looked into, and
/// how often a trial was open.
pub open spec fn all_looked_into(
    g: GraphView,
    retops: Seq<OpId>,
    trials: Seq<ParamTrial>,
    answers: Seq<Vec<Ancestry>>,
    n: int,
) -> (Seq<ParamTrial>, int)
    decreases n,
{
    if n <= 0 || n > retops.len() {
        (trials, 0)
    } else {
        let (ts, c) = all_looked_into(g, retops, trials, answers, n - 1);
        if forced::live_return(g, retops[n - 1]) {
            let (us, d) = looked_into(g, retops[n - 1], ts, answers[n - 1]@, ts.len() as int);
            (us, c + d)
        } else {
            (ts, c)
        }
    }
}

/// Takes in what was found out about the values of the trials at a return.
fn look_into(active: &mut ParamActive, g: &Graph, op: OpId, answers: &Vec<Ancestry>) -> (r: u64)
    requires
        answers@.len() == old(active)@.trial.len(),
    ensures
        ({
            let ts = old(active)@.trial;
            let (us, c) = looked_into(g@, op, ts, answers@, ts.len() as int);
            &&& final(active)@ == (ActiveView { trial: us, ..old(active)@ })
            &&& us.len() == ts.len()
            &&& r == c
            &&& c <= ts.len()
        }),
{
    let ghost ts = active@.trial;
    let mut c: u64 = 0;
    let mut i: usize = 0;
    while i < answers.len()
        invariant
            i <= answers.len(),
            ts == old(active)@.trial,
            answers@.len() == ts.len(),
            active@.trial.len() == ts.len(),
            c <= i,
            active@ == (ActiveView { trial: active@.trial, ..old(active)@ }),
            (active@.trial, c as int) == looked_into(g@, op, ts, answers@, i as int),
        decreases answers.len() - i,
    {
        let t = active.trial[i];
        assert(t == active@.trial[i as int]);
        if !t.is_checked() {
            if g.get_in(op, t.slot).is_some() {
                let a = answers[i];
                let mut j = a.trial;
                if a.is_favourable() && a.only {
                    j.mark_active();
                }
                active.put_trial(i, j);
            }
            c += 1;
        }
        i += 1;
    }
    c
}

impl ActionReturnRecovery {
    /// A pass over the trials of the return value: what was found out about
    /// their values at each return is taken in, and when all are checked, the
    /// returns are rewritten; the result says so.
    pub fn apply(
        &mut self,
        active: &mut ParamActive,
        fp: &FuncProto,
        g: &Graph,
        s: &mut Script,
        retops: &Vec<OpId>,
        answers: &Vec<Vec<Ancestry>>,
        return_single: bool,
        joined: Option<Address>,
    ) -> (r: bool)
        requires
            g@.wf(),
            answers@.len() == retops@.len(),
            forall|k: int|
                0 <= k < answers@.len() ==> (#[trigger] answers@[k])@.len() == old(
                    active,
                )@.trial.len(),
            forall|k: int| 0 <= k < retops@.len() ==> inputs_there(g@, #[trigger] retops@[k]),
            ({
                let a = ActiveView {
                    trial: all_looked_into(
                        g@,
                        retops@,
                        old(active)@.trial,
                        answers@,
                        retops@.len() as int,
                    ).0,
                    ..old(active)@
                };
                let l = fp@.model_view().outs();
                pass_finished(a).isfullychecked ==> fp@.has_outputs() && (l.kind
                    == ParamListKind::Standard && l.entry.len() > 0 ==> l.decidable())
                    && fillin::tied(l, a.trial)
            }),
        ensures
            ({
                let (ts, n) = all_looked_into(
                    g@,
                    retops@,
                    old(active)@.trial,
                    answers@,
                    retops@.len() as int,
                );
                let b = pass_finished(ActiveView { trial: ts, ..old(active)@ });
                let info = old(self).info().noted(n);
                &&& r == b.isfullychecked
                &&& if r {
                    let a = outputs_decided(fp@, b);
                    &&& final(active)@ == a
                    &&& final(s)@ == all_returned(
                        g@,
                        retops@,
                        retops@.len() as int,
                        old(s)@,
                        a.trial,
                        return_single,
                        joined,
                    ).then_do(Edit::ClearActiveOutput)
                    &&& final(self).info() == info.noted(1)
                } else {
                    &&& final(active)@ == b
                    &&& final(s)@ == old(s)@
                    &&& final(self).info() == info
                }
            }),
    {
        let ghost ts0 = active@.trial;
        let m: u64 = active.trial.len() as u64;
        let mut n: u128 = 0;
        let mut k: usize = 0;
        assert(0 * m == 0) by (nonlinear_arith);
        while k < retops.len()
            invariant
                k <= retops.len(),
                m == ts0.len(),
                ts0 == old(active)@.trial,
                answers@.len() == retops@.len(),
                forall|j: int|
                    0 <= j < answers@.len() ==> (#[trigger] answers@[j])@.len() == ts0.len(),
                self.info() == old(self).info(),
                active@.trial.len() == ts0.len(),
                active@ == (ActiveView { trial: active@.trial, ..old(active)@ }),
                (active@.trial, n as int) == all_looked_into(
                    g@,
                    retops@,
                    ts0,
                    answers@,
                    k as int,
                ),
                n <= (k as int) * (m as int),
            decreases retops.len() - k,
        {
            assert((k + 1) * (m as int) == (k as int) * (m as int) + m) by (nonlinear_arith);
            assert((k as int) * (m as int) <= 0xffff_ffff_ffff_ffff * 0xffff_ffff_ffff_ffff)
                by (nonlinear_arith)
                requires
                    0 <= k <= 0xffff_ffff_ffff_ffff,
                    0 <= m <= 0xffff_ffff_ffff_ffff,
            ;
            let live = match g.get_op(retops[k]) {
                Some(o) => !o.dead && !o.halt,
                None => false,
            };
            if live {
                assert(answers@[k as int]@.len() == ts0.len());
                let c: u64 = look_into(active, g, retops[k], &answers[k]);
                n += c as u128;
            }
            k += 1;
        }
        assert((k as int) * (m as int) <= 0xffff_ffff_ffff_ffff * 0xffff_ffff_ffff_ffff)
            by (nonlinear_arith)
            requires
                0 <= k <= 0xffff_ffff_ffff_ffff,
                0 <= m <= 0xffff_ffff_ffff_ffff,
        ;
        self.base.note(n);
        self.finish(active, fp, g, s, retops, return_single, joined)
    }
}

/// The type of a value of which only its place is known.
pub open spec fn type_or_unknown(t: Option<Datatype>) -> Datatype {
    match t {
        Some(x) => x,
        None => store::unknown_of(1),
    }
}

impl ActionOutputPrototype {
    /// Attach a collection of parameters to the prototype, if it has none, and
    /// say whether its return value is open.
    pub fn prepare(&mut self, fp: &mut FuncProto, s: &mut Script) -> (r: bool)
        requires
            old(fp)@.wf(),
        ensures
            *final(self) == *old(self),
            final(fp)@ == (if old(fp)@.store is Some {
                old(fp)@
            } else {
                ProtoView {
                    store: Some(store::empty_store(crate::dtype::void_type())),
                    ..old(fp)@
                }
            }),
            final(fp)@.wf(),
            final(fp)@.store is Some,
            ({
                let o = final(fp)@.store->0.output();
                r == !(o.type_locked() && !o.size_locked())
            }),
            final(s)@ == (if r {
                old(s)@.then_do(Edit::StripUncomputedReturn)
            } else {
                old(s)@
            }),
    {
        fp.attach_internal_store(Datatype::new(0, TypeMetatype::Void));
        let outparam = fp.get_output();
        if outparam.is_type_locked() && !outparam.is_size_type_locked() {
            return false;
        }
        s.push(Edit::StripUncomputedReturn);
        true
    }

    /// Set the return value of a prototype to what the first return of the
    /// function returns, if it returns anything.
    pub fn apply(&mut self, fp: &mut FuncProto, g: &Graph, retop: Option<OpId>) -> (r: i32)
        requires
            old(fp)@.store is Some,
            retop matches Some(op) ==> g@.op(op) is Some && (g@.input(op, 1) matches Some(v)
                ==> g@.vn(v) is Some),
        ensures
            r == 0,
            *final(self) == *old(self),
            final(fp)@ == (match retop {
                None => old(fp)@,
                Some(op) => match g@.input(op, 1) {
                    None => old(fp)@,
                    Some(v) => ProtoView {
                        store: Some(
                            old(fp)@.store->0.with_output(
                                ParameterPieces {
                                    addr: g@.vn(v)->0.addr,
                                    type_: Some(type_or_unknown(g@.vn(v)->0.type_)),
                                    flags: 0,
                                },
                            ),
                        ),
                        ..old(fp)@
                    },
                },
            }),
    {
        let op = match retop {
            Some(op) => op,
            None => {
                return 0;
            },
        };
        let trial0 = match g.get_in(op, 1) {
            Some(v) => v,
            None => {
                return 0;
            },
        };
        let x = g.get_vn(trial0).unwrap();
        let out_type = match x.type_ {
            Some(t) => t,
            None => Datatype::new(1, TypeMetatype::Unknown),
        };
        let p = ParameterPieces { addr: x.addr, type_: Some(out_type), flags: 0 };
        fp.set_output(&p);
        0
    }
}

} // verus!
