//! Recovery of the value that a call gives back.
use crate::active;
use crate::active::{ActiveView, ParamActive};
use crate::callspec::{CallView, FuncCallSpecs};
use crate::graph::{Graph, GraphView, OpId, VarnodeId};
use crate::opcode::OpCode;
use crate::script::{Edit, Script, ScriptView};
use crate::trial::ParamTrial;
use vstd::prelude::*;

verus! {

/// Output trials and, for each of them, the varnode that was found.
#[verifier::ext_equal]
pub struct Found {
    pub trials: Seq<ParamTrial>,
    pub vns: Seq<Option<VarnodeId>>,
}

impl Found {
    /// With a varnode that a call creates: the trial that it meets moves to
    /// where it is.
    pub open spec fn noticing(self, g: GraphView, vn: Option<VarnodeId>) -> Found {
        match vn {
            None => self,
            Some(id) => match g.vn(id) {
                None => self,
                Some(v) => {
                    let k = active::trial_hit(self.trials, v.addr, v.size as int);
                    if k >= 0 {
                        Found {
                            trials: self.trials.update(
                                k,
                                ParamTrial { addr: v.addr, size: v.size, ..self.trials[k] },
                            ),
                            vns: self.vns.update(k, Some(id)),
                        }
                    } else {
                        self
                    }
                },
            },
        }
    }

    /// With the varnodes that are created by the indirect operations that end
    /// with `op`, nearest first.
    pub open spec fn scanning(self, g: GraphView, op: Option<OpId>) -> Found
        decreases (match op {
            Some(o) => g.order(o) + 1,
            None => 0,
        }),
    {
        match op {
            None => self,
            Some(o) => match g.op(o) {
                None => self,
                Some(v) => if v.code != OpCode::Indirect {
                    self
                } else {
                    let here = if v.creation {
                        self.noticing(g, v.output)
                    } else {
                        self
                    };
                    match v.previous {
                        Some(q) => if 0 <= g.order(q) < g.order(o) {
                            here.scanning(g, Some(q))
                        } else {
                            here
                        },
                        None => here,
                    }
                },
            },
        }
    }
}

impl CallView {
    /// The output trials of the call and their varnodes.
    pub open spec fn found_outputs(self, g: GraphView) -> Found {
        let ts = self.activeoutput.trial;
        (Found { trials: ts, vns: Seq::new(ts.len(), |i: int| None) }).scanning(
            g,
            g.previous(self.op),
        )
    }
}

/// Takes note of a varnode that the call creates.
fn notice(
    active: &mut ParamActive,
    vns: &mut Vec<Option<VarnodeId>>,
    g: &Graph,
    vn: Option<VarnodeId>,
)
    requires
        old(active)@.trial.len() <= i32::MAX,
        old(vns)@.len() == old(active)@.trial.len(),
    ensures
        ({
            let f = (Found { trials: old(active)@.trial, vns: old(vns)@ }).noticing(g@, vn);
            &&& final(active)@ == (ActiveView { trial: f.trials, ..old(active)@ })
            &&& final(vns)@ == f.vns
            &&& final(vns)@.len() == old(vns)@.len()
            &&& final(active)@.trial.len() == old(active)@.trial.len()
        }),
{
    match vn {
        Some(id) => {
            match g.get_vn(id) {
                Some(v) => {
                    let k: i32 = active.which_trial(&v.addr, v.size);
                    if k >= 0 {
                        vns.set(k as usize, Some(id));
                        let mut t = active.trial[k as usize];
                        t.set_address(v.addr, v.size);
                        active.put_trial(k as usize, t);
                    }
                },
                None => {},
            }
        },
        None => {},
    }
}

/// Collects the varnodes that the call creates at its output trials.
fn collect(active: &mut ParamActive, g: &Graph, op: OpId) -> (r: Vec<Option<VarnodeId>>)
    requires
        g@.wf(),
        old(active)@.trial.len() <= i32::MAX,
    ensures
        ({
            let ts = old(active)@.trial;
            let f = (Found { trials: ts, vns: Seq::new(ts.len(), |i: int| None) }).scanning(
                g@,
                g@.previous(op),
            );
            &&& final(active)@ == (ActiveView { trial: f.trials, ..old(active)@ })
            &&& r@ == f.vns
            &&& r@.len() == ts.len()
            &&& final(active)@.trial.len() == ts.len()
        }),
{
    let ghost ts = active@.trial;
    let ghost start = Found { trials: ts, vns: Seq::new(ts.len(), |i: int| None) };
    let ghost end = start.scanning(g@, g@.previous(op));
    let mut vns: Vec<Option<VarnodeId>> = Vec::new();
    let mut i: usize = 0;
    while i < active.trial.len()
        invariant
            i <= active.trial.len(),
            vns@.len() == i,
            forall|k: int| 0 <= k < i ==> (#[trigger] vns@[k]) is None,
        decreases active.trial.len() - i,
    {
        vns.push(None);
        i += 1;
    }
    assert(vns@ =~= start.vns);
    let mut indop = g.previous_op(op);
    let mut going = true;
    while going
        invariant
            g@.wf(),
            ts == old(active)@.trial,
            ts.len() <= i32::MAX,
            active@ == (ActiveView { trial: active@.trial, ..old(active)@ }),
            active@.trial.len() == ts.len(),
            vns@.len() == ts.len(),
            going ==> end == (Found { trials: active@.trial, vns: vns@ }).scanning(g@, indop),
            !going ==> end == (Found { trials: active@.trial, vns: vns@ }),
        decreases
            (if going {
                1int
            } else {
                0int
            }),
            (match indop {
                Some(o) => g@.order(o) + 1,
                None => 0,
            }),
    {
        match indop {
            None => {
                going = false;
            },
            Some(io) => {
                match g.get_op(io) {
                    None => {
                        going = false;
                    },
                    Some(o) => {
                        if o.code != OpCode::Indirect {
                            going = false;
                        } else {
                            if o.creation {
                                notice(active, &mut vns, g, o.output);
                            }
                            assert(g@.ops[io.0 as int].previous == o.previous);
                            indop = o.previous;
                        }
                    },
                }
            },
        }
    }
    vns
}

/// Collects the varnodes that a call creates at its output trials; each trial
/// moves to where its varnode is.
fn collect_output_trial_varnodes(fc: &mut FuncCallSpecs, g: &Graph) -> (r: Vec<Option<VarnodeId>>)
    requires
        g@.wf(),
        old(fc)@.activeoutput.trial.len() <= i32::MAX,
    ensures
        r@ == old(fc)@.found_outputs(g@).vns,
        r@.len() == old(fc)@.activeoutput.trial.len(),
        final(fc)@.activeoutput.trial.len() == old(fc)@.activeoutput.trial.len(),
        final(fc)@ == (CallView {
            activeoutput: ActiveView {
                trial: old(fc)@.found_outputs(g@).trials,
                ..old(fc)@.activeoutput
            },
            ..old(fc)@
        }),
{
    let op = fc.op;
    collect(&mut fc.activeoutput, g, op)
}

/// Output trials: one with a varnode is active, one without is none.
pub open spec fn outputs_marked(f: Found) -> Seq<ParamTrial> {
    Seq::new(
        f.trials.len(),
        |i: int|
            if f.vns[i] is Some {
                f.trials[i].with_active()
            } else {
                f.trials[i].with_no_use()
            },
    )
}

fn mark_outputs(active: &mut ParamActive, vns: &Vec<Option<VarnodeId>>)
    requires
        vns@.len() == old(active)@.trial.len(),
    ensures
        final(active)@ == (ActiveView {
            trial: outputs_marked(Found { trials: old(active)@.trial, vns: vns@ }),
            ..old(active)@
        }),
{
    let ghost f = Found { trials: active@.trial, vns: vns@ };
    let mut i: usize = 0;
    while i < vns.len()
        invariant
            i <= vns.len(),
            f == (Found { trials: old(active)@.trial, vns: vns@ }),
            vns@.len() == f.trials.len(),
            active@.trial.len() == f.trials.len(),
            forall|k: int| 0 <= k < i ==> #[trigger] active@.trial[k] == outputs_marked(f)[k],
            forall|k: int| i <= k < f.trials.len() ==> #[trigger] active@.trial[k] == f.trials[k],
            active@ == (ActiveView { trial: active@.trial, ..old(active)@ }),
        decreases vns.len() - i,
    {
        let mut t = active.trial[i];
        assert(t == active@.trial[i as int]);
        if vns[i].is_some() {
            t.mark_active();
        } else {
            t.mark_no_use();
        }
        active.put_trial(i, t);
        i += 1;
    }
    assert(active@.trial =~= outputs_marked(f));
}

impl CallView {
    /// The call with its output trials checked.
    pub open spec fn outputs_checked(self, g: GraphView) -> CallView {
        CallView {
            activeoutput: ActiveView {
                trial: outputs_marked(self.found_outputs(g)),
                ..self.activeoutput
            },
            ..self
        }
    }
}

/// Checks the output trials of a call: a trial is active when the call creates
/// a varnode there. The varnodes are passed back, one for each trial.
pub fn check_output_trial_use(fc: &mut FuncCallSpecs, g: &Graph) -> (r: Vec<Option<VarnodeId>>)
    requires
        g@.wf(),
        old(fc)@.activeoutput.trial.len() <= i32::MAX,
    ensures
        r@ == old(fc)@.found_outputs(g@).vns,
        final(fc)@ == old(fc)@.outputs_checked(g@),
{
    let vns = collect_output_trial_varnodes(fc, g);
    mark_outputs(&mut fc.activeoutput, &vns);
    vns
}

/// The varnodes of the used trials in front, from the `i`-th on.
pub open spec fn output_pieces(
    ts: Seq<ParamTrial>,
    vns: Seq<Option<VarnodeId>>,
    i: int,
) -> Seq<VarnodeId>
    decreases ts.len() - i,
{
    if i < 0 || i >= ts.len() || !ts[i].flags.used {
        Seq::empty()
    } else {
        let k = ts[i].slot - 1;
        (if 0 <= k < vns.len() && vns[k] is Some {
            seq![vns[k]->0]
        } else {
            Seq::empty()
        }) + output_pieces(ts, vns, i + 1)
    }
}

/// The changes that make `vn` the output of a call: the operation that held it
/// goes, with its inputs.
pub open spec fn output_moved(g: GraphView, s: ScriptView, op: OpId, vn: VarnodeId) -> ScriptView {
    let s1 = s.then_do(Edit::SetOutput { op, vn });
    match g.vn(vn) {
        Some(v) => match v.def {
            Some(d) => {
                let s2 = s1.then_do(Edit::Destroy { op: d });
                let s3 = match g.input(d, 0) {
                    Some(i) => s2.then_do(Edit::DeleteVarnode { vn: i }),
                    None => s2,
                };
                match g.input(d, 1) {
                    Some(i) => s3.then_do(Edit::DeleteVarnode { vn: i }),
                    None => s3,
                }
            },
            None => s1,
        },
        None => s1,
    }
}

impl CallView {
    /// The call without its unused output trials.
    pub open spec fn outputs_settled(self) -> CallView {
        let ts = self.activeoutput.trial;
        CallView {
            activeoutput: ActiveView {
                trial: active::used_trials(ts, ts.len() as int),
                ..self.activeoutput
            },
            ..self
        }
    }

    /// A single output has its varnode.
    pub open spec fn single_output_there(self, vns: Seq<Option<VarnodeId>>) -> bool {
        self.outputs_settled().activeoutput.trial.len() == 1 ==> output_pieces(
            self.activeoutput.trial,
            vns,
            0,
        ).len() > 0
    }

    /// The changes that give the call its output.
    pub open spec fn output_built(
        self,
        g: GraphView,
        s: ScriptView,
        vns: Seq<Option<VarnodeId>>,
    ) -> ScriptView {
        if self.outputs_settled().activeoutput.trial.len() == 1 {
            output_moved(g, s, self.op, output_pieces(self.activeoutput.trial, vns, 0)[0])
        } else {
            s
        }
    }
}

fn gather_pieces(trials: &Vec<ParamTrial>, vns: &Vec<Option<VarnodeId>>) -> (r: Vec<VarnodeId>)
    ensures
        r@ == output_pieces(trials@, vns@, 0),
{
    let ghost all = output_pieces(trials@, vns@, 0);
    let mut r: Vec<VarnodeId> = Vec::new();
    let mut i: usize = 0;
    assert(r@ + all =~= all);
    while i < trials.len() && trials[i].is_used()
        invariant
            i <= trials.len(),
            all == r@ + output_pieces(trials@, vns@, i as int),
        decreases trials.len() - i,
    {
        let slot: i32 = trials[i].slot;
        let ghost before = r@;
        let ghost rest = output_pieces(trials@, vns@, i + 1);
        if slot >= 1 && ((slot - 1) as usize) < vns.len() {
            match vns[(slot - 1) as usize] {
                Some(v) => {
                    r.push(v);
                    assert(before + (seq![v] + rest) =~= r@ + rest);
                },
                None => {
                    assert(before + (Seq::<VarnodeId>::empty() + rest) =~= r@ + rest);
                },
            }
        } else {
            assert(before + (Seq::<VarnodeId>::empty() + rest) =~= r@ + rest);
        }
        i += 1;
    }
    assert(all =~= r@);
    r
}

fn move_output(g: &Graph, s: &mut Script, op: OpId, vn: VarnodeId)
    ensures
        final(s)@ == output_moved(g@, old(s)@, op, vn),
{
    s.push(Edit::SetOutput { op, vn });
    match g.get_vn(vn) {
        Some(v) => {
            match v.def {
                Some(d) => {
                    s.push(Edit::Destroy { op: d });
                    match g.get_in(d, 0) {
                        Some(i) => {
                            s.push(Edit::DeleteVarnode { vn: i });
                        },
                        None => {},
                    }
                    match g.get_in(d, 1) {
                        Some(i) => {
                            s.push(Edit::DeleteVarnode { vn: i });
                        },
                        None => {},
                    }
                },
                None => {},
            }
        },
        None => {},
    }
}

/// Gives a call its output from the used trials. A single one becomes the
/// output; the pieces of an output that is split are passed back.
pub fn build_output_from_trials(
    fc: &mut FuncCallSpecs,
    g: &Graph,
    s: &mut Script,
    trialvn: &Vec<Option<VarnodeId>>,
) -> (r: Option<Vec<VarnodeId>>)
    requires
        old(fc)@.activeoutput.trial.len() < i32::MAX,
        old(fc)@.single_output_there(trialvn@),
    ensures
        final(fc)@ == old(fc)@.outputs_settled(),
        final(s)@ == old(fc)@.output_built(g@, old(s)@, trialvn@),
        match r {
            Some(v) => old(fc)@.outputs_settled().activeoutput.trial.len() > 1 && v@
                == output_pieces(old(fc)@.activeoutput.trial, trialvn@, 0),
            None => old(fc)@.outputs_settled().activeoutput.trial.len() <= 1,
        },
{
    let op = fc.op;
    let pieces = gather_pieces(&fc.activeoutput.trial, trialvn);
    fc.activeoutput.delete_unused_trials();
    let n: usize = fc.activeoutput.trial.len();
    if n == 0 {
        return None;
    }
    if n == 1 {
        move_output(g, s, op, pieces[0]);
        return None;
    }
    Some(pieces)
}

/// Every output trial is either active or ruled out once it is checked.
pub proof fn law_outputs_decided(c: CallView, g: GraphView, i: int)
    requires
        0 <= i < c.outputs_checked(g).activeoutput.trial.len(),
    ensures
        ({
            let t = c.outputs_checked(g).activeoutput.trial[i];
            t.flags.checked && t.flags.active == (c.found_outputs(g).vns[i] is Some) && (
            !t.flags.active ==> t.flags.defnouse && !t.flags.used)
        }),
{
}

} // verus!
