//! The value that a call gives back is one that it creates.
use crate::active;
use crate::callresult;
use crate::callresult::Found;
use crate::callspec::CallView;
use crate::flow;
use crate::graph::{GraphView, OpId, VarnodeId};
use crate::opcode::OpCode;
use crate::script::{Edit, ScriptView};
use crate::trial::ParamTrial;
use vstd::prelude::*;

verus! {

/// The operation belongs to the run of indirect operations that ends with `last`.
pub open spec fn in_run(g: GraphView, last: Option<OpId>, o: OpId) -> bool
    decreases (match last {
        Some(l) => g.order(l) + 1,
        None => 0,
    }),
{
    match last {
        None => false,
        Some(l) => l.0 < g.ops.len() && g.ops[l.0 as int].code == OpCode::Indirect && (l == o
            || match g.ops[l.0 as int].previous {
            Some(q) => 0 <= g.order(q) < g.order(l) && in_run(g, Some(q), o),
            None => false,
        }),
    }
}

/// The run of indirect operations that ends with `last` creates the varnode.
pub open spec fn created_in(g: GraphView, last: Option<OpId>, v: VarnodeId) -> bool {
    v.0 < g.varnodes.len() && exists|o: OpId| #[trigger]
        in_run(g, last, o) && g.ops[o.0 as int].creation && g.ops[o.0 as int].output == Some(v)
}

/// The varnode, of several bytes, and the trial have a byte in common.
pub open spec fn meets(g: GraphView, v: VarnodeId, t: ParamTrial) -> bool {
    g.varnodes[v.0 as int].size > 1 && g.varnodes[v.0 as int].addr.overlaps(
        g.varnodes[v.0 as int].size as int,
        t.addr,
        t.size as int,
    )
}

/// The trial has moved to where the varnode is.
pub open spec fn moved_to(g: GraphView, t: ParamTrial, u: ParamTrial, v: VarnodeId) -> bool {
    &&& u.addr == g.varnodes[v.0 as int].addr
    &&& u.size == g.varnodes[v.0 as int].size
    &&& u.slot == t.slot && u.flags == t.flags && u.entry == t.entry && u.offset == t.offset
        && u.fixed_position == t.fixed_position
}

/// What is known of the `k`-th trial: a varnode of the run was found for it, or
/// it is as before.
spec fn gathered(g: GraphView, last: Option<OpId>, f: Found, r: Found, k: int) -> bool {
    ||| r.vns[k] == f.vns[k] && r.trials[k] == f.trials[k]
    ||| r.vns[k] is Some && created_in(g, last, r.vns[k]->0) && moved_to(
        g,
        f.trials[k],
        r.trials[k],
        r.vns[k]->0,
    )
}

proof fn lemma_hit(s: Seq<ParamTrial>, g: GraphView, v: VarnodeId, i: int)
    requires
        0 <= i,
    ensures
        ({
            let x = g.varnodes[v.0 as int];
            let k = active::first_hit(s, x.addr, x.size as int, i);
            &&& k < s.len()
            &&& k >= 0 ==> k >= i
            &&& forall|j: int| i <= j < s.len() && #[trigger] meets(g, v, s[j]) ==> 0 <= k <= j
        }),
    decreases s.len() - i,
{
    if i < s.len() {
        lemma_hit(s, g, v, i + 1);
        let x = g.varnodes[v.0 as int];
        assert(meets(g, v, s[i]) ==> active::range_hits(x.addr, x.size as int, s[i]));
    }
}

/// Nothing was found for the `k`-th trial only where what the run creates at it
/// was found for a trial before it.
spec fn missed(g: GraphView, last: Option<OpId>, f: Found, r: Found, k: int) -> bool {
    r.vns[k] is None ==> forall|v: VarnodeId| #[trigger]
        created_in(g, last, v) && meets(g, v, f.trials[k]) ==> exists|j: int|
            0 <= j < k && (#[trigger] r.vns[j]) is Some
}

proof fn lemma_gathered(g: GraphView, last: Option<OpId>, f: Found)
    requires
        f.vns.len() == f.trials.len(),
    ensures
        ({
            let r = f.scanning(g, last);
            &&& r.vns.len() == f.vns.len()
            &&& r.trials.len() == f.trials.len()
            &&& forall|k: int| 0 <= k < f.vns.len() ==> #[trigger] gathered(g, last, f, r, k)
            &&& forall|k: int| 0 <= k < f.vns.len() ==> #[trigger] missed(g, last, f, r, k)
            &&& forall|k: int|
                0 <= k < f.vns.len() && (#[trigger] f.vns[k]) is Some ==> r.vns[k] is Some
        }),
    decreases (match last {
        Some(l) => g.order(l) + 1,
        None => 0,
    }),
{
    let r = f.scanning(g, last);
    if last is Some && (last->0).0 < g.ops.len() && g.ops[(last->0).0 as int].code
        == OpCode::Indirect {
        let l = last->0;
        let o = g.ops[l.0 as int];
        let here = if o.creation {
            f.noticing(g, o.output)
        } else {
            f
        };
        assert(in_run(g, last, l));
        let prev = match o.previous {
            Some(q) => if 0 <= g.order(q) < g.order(l) {
                Some(q)
            } else {
                None
            },
            None => None,
        };
        if o.creation && o.output is Some && (o.output->0).0 < g.varnodes.len() {
            lemma_hit(f.trials, g, o.output->0, 0);
            assert(created_in(g, last, o.output->0));
        }
        assert forall|v: VarnodeId| #[trigger] created_in(g, prev, v) implies created_in(
            g,
            last,
            v,
        ) by {
            let w = choose|w: OpId| #[trigger]
                in_run(g, prev, w) && g.ops[w.0 as int].creation && g.ops[w.0 as int].output
                    == Some(v);
            assert(in_run(g, last, w));
        }
        assert forall|v: VarnodeId| #[trigger] created_in(g, last, v) implies created_in(g, prev, v)
            || (o.creation && o.output == Some(v)) by {
            let w = choose|w: OpId| #[trigger]
                in_run(g, last, w) && g.ops[w.0 as int].creation && g.ops[w.0 as int].output
                    == Some(v);
            if w != l {
                assert(in_run(g, prev, w));
            }
        }
        lemma_gathered(g, prev, here);
        assert(r == here.scanning(g, prev));
        assert forall|k: int| 0 <= k < f.vns.len() && (#[trigger] f.vns[k]) is Some implies r.vns[k]
            is Some by {
            assert(here.vns[k] is Some);
        }
        assert forall|k: int| 0 <= k < f.vns.len() implies #[trigger] gathered(g, last, f, r, k) by {
            assert(gathered(g, prev, here, r, k));
        }
        assert forall|k: int| 0 <= k < f.vns.len() implies #[trigger] missed(g, last, f, r, k) by {
            assert(missed(g, prev, here, r, k));
            if r.vns[k] is None {
                assert(here.vns[k] is None);
                assert(here.trials[k] == f.trials[k]);
                assert forall|v: VarnodeId| #[trigger]
                    created_in(g, last, v) && meets(g, v, f.trials[k]) implies (exists|j: int|
                    0 <= j < k && (#[trigger] r.vns[j]) is Some) by {
                    if !created_in(g, prev, v) {
                        let j = active::trial_hit(
                            f.trials,
                            g.varnodes[v.0 as int].addr,
                            g.varnodes[v.0 as int].size as int,
                        );
                        assert(0 <= j <= k);
                        assert(here.vns[j] is Some);
                        assert(r.vns[j] is Some);
                    }
                }
            }
        }
    } else {
        assert(r == f);
        assert forall|v: VarnodeId| !#[trigger] created_in(g, last, v) by {}
        assert forall|k: int| 0 <= k < f.vns.len() implies #[trigger] gathered(g, last, f, r, k) by {}
        assert forall|k: int| 0 <= k < f.vns.len() implies #[trigger] missed(g, last, f, r, k) by {}
    }
}

/// An output trial of a call is active exactly where a varnode was found for it,
/// and then it is where that varnode is: one that the call creates, by an
/// operation in the run right in front of it. Otherwise the trial is ruled out,
/// and the call creates nothing of several bytes that has one in common with it,
/// unless that was found for a trial before it.
pub proof fn law_outputs_found(c: CallView, g: GraphView, k: int)
    requires
        0 <= k < c.activeoutput.trial.len(),
        c.op.0 < g.ops.len(),
    ensures
        ({
            let t = c.activeoutput.trial[k];
            let r = c.outputs_checked(g).activeoutput.trial;
            let vns = c.found_outputs(g).vns;
            let last = g.ops[c.op.0 as int].previous;
            &&& r.len() == c.activeoutput.trial.len()
            &&& vns.len() == r.len()
            &&& r[k].flags.active == (vns[k] is Some)
            &&& vns[k] matches Some(v) ==> {
                &&& created_in(g, last, v)
                &&& r[k].addr == g.varnodes[v.0 as int].addr
                &&& r[k].size == g.varnodes[v.0 as int].size
                &&& r[k].slot == t.slot
            }
            &&& vns[k] is None ==> {
                &&& r[k].flags.defnouse
                &&& r[k].addr == t.addr && r[k].size == t.size && r[k].slot == t.slot
                &&& forall|v: VarnodeId| #[trigger]
                    created_in(g, last, v) && meets(g, v, t) ==> exists|j: int|
                        0 <= j < k && (#[trigger] vns[j]) is Some
            }
        }),
{
    let ts = c.activeoutput.trial;
    let f = Found { trials: ts, vns: Seq::new(ts.len(), |i: int| None) };
    let last = g.ops[c.op.0 as int].previous;
    lemma_gathered(g, last, f);
    let r = f.scanning(g, last);
    assert(r == c.found_outputs(g));
    assert(gathered(g, last, f, r, k));
    assert(missed(g, last, f, r, k));
}

/// The varnode that was found for the trial.
pub open spec fn found_for(vns: Seq<Option<VarnodeId>>, t: ParamTrial) -> Option<VarnodeId> {
    if 1 <= t.slot <= vns.len() {
        vns[t.slot - 1]
    } else {
        None
    }
}

proof fn lemma_pieces(ts: Seq<ParamTrial>, vns: Seq<Option<VarnodeId>>, i: int, n: int)
    requires
        0 <= i <= n <= ts.len(),
        forall|k: int| 0 <= k < ts.len() ==> (#[trigger] ts[k]).flags.used == (k < n),
        forall|k: int| 0 <= k < n ==> found_for(vns, #[trigger] ts[k]) is Some,
    ensures
        callresult::output_pieces(ts, vns, i).len() == n - i,
        forall|k: int|
            i <= k < n ==> Some(callresult::output_pieces(ts, vns, i)[k - i]) == found_for(
                vns,
                #[trigger] ts[k],
            ),
    decreases ts.len() - i,
{
    if i < n {
        lemma_pieces(ts, vns, i + 1, n);
        assert(found_for(vns, ts[i]) is Some);
        let rest = callresult::output_pieces(ts, vns, i + 1);
        let all = callresult::output_pieces(ts, vns, i);
        assert(all =~= seq![found_for(vns, ts[i])->0] + rest);
        assert forall|k: int| i <= k < n implies Some(all[k - i]) == found_for(
            vns,
            #[trigger] ts[k],
        ) by {
            if k > i {
                assert(all[k - i] == rest[k - (i + 1)]);
            }
        }
    }
}

proof fn lemma_used(ts: Seq<ParamTrial>, n: int, m: int)
    requires
        0 <= m <= ts.len(),
        0 <= n <= ts.len(),
        forall|k: int| 0 <= k < ts.len() ==> (#[trigger] ts[k]).flags.used == (k < n),
    ensures
        active::used_trials(ts, m).len() == (if m < n {
            m
        } else {
            n
        }),
    decreases m,
{
    if m > 0 {
        lemma_used(ts, n, m - 1);
        assert(ts[m - 1].flags.used == (m - 1 < n));
    }
}

/// A call whose value is in one trial has, once that is settled, the varnode that
/// was found for the trial as its output, and the operation that stood for it is
/// gone. With any other number of trials nothing is changed; the varnodes that
/// were found for them, in the order of the trials, are the parts of the value.
pub proof fn law_output_given(
    c: CallView,
    g: GraphView,
    s: ScriptView,
    vns: Seq<Option<VarnodeId>>,
    n: int,
)
    requires
        0 <= n <= c.activeoutput.trial.len(),
        forall|k: int|
            0 <= k < c.activeoutput.trial.len() ==> (
            #[trigger] c.activeoutput.trial[k]).flags.used == (k < n),
        forall|k: int|
            0 <= k < n ==> found_for(vns, #[trigger] c.activeoutput.trial[k]) is Some,
        c.op.0 < g.ops.len(),
    ensures
        ({
            let ts = c.activeoutput.trial;
            let t = c.output_built(g, s, vns);
            let parts = callresult::output_pieces(ts, vns, 0);
            &&& parts.len() == n
            &&& forall|k: int|
                0 <= k < n ==> Some(#[trigger] parts[k]) == found_for(vns, ts[k])
            &&& c.outputs_settled().activeoutput.trial.len() == n
            &&& n != 1 ==> t == s
            &&& n == 1 ==> {
                let v = found_for(vns, ts[0])->0;
                &&& flow::output(g, t.edits, c.op) == Some(v)
                &&& v.0 < g.varnodes.len() && g.varnodes[v.0 as int].def is Some ==> {
                    let d = g.varnodes[v.0 as int].def->0;
                    &&& flow::mover(t.edits, d) == Some(Edit::Destroy { op: d })
                    &&& d.0 < g.ops.len() ==> forall|i: int|
                        0 <= i < 2 && i < g.ops[d.0 as int].inputs.len() ==> t.edits.contains(
                            Edit::DeleteVarnode { vn: #[trigger] g.ops[d.0 as int].inputs[i] },
                        )
                }
            }
        }),
{
    broadcast use flow::group_flow;

    let ts = c.activeoutput.trial;
    lemma_pieces(ts, vns, 0, n);
    lemma_used(ts, n, ts.len() as int);
    let parts = callresult::output_pieces(ts, vns, 0);
    assert forall|k: int| 0 <= k < n implies Some(#[trigger] parts[k]) == found_for(vns, ts[k]) by {
        assert(Some(parts[k - 0]) == found_for(vns, ts[k]));
    }
    if n == 1 {
        let v = found_for(vns, ts[0])->0;
        assert(parts[0] == v);
        let t = c.output_built(g, s, vns);
        if v.0 < g.varnodes.len() && g.varnodes[v.0 as int].def is Some {
            let d = g.varnodes[v.0 as int].def->0;
            if d.0 < g.ops.len() {
                let ins = g.ops[d.0 as int].inputs;
                let m = s.edits.len() as int;
                if ins.len() > 0 {
                    assert(t.edits[m + 2] == (Edit::DeleteVarnode { vn: ins[0] }));
                }
                if ins.len() > 1 {
                    assert(t.edits[m + 3] == (Edit::DeleteVarnode { vn: ins[1] }));
                }
            }
        }
    }
}

} // verus!
