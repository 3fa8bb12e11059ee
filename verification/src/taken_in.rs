//! The parameters of a function are the values that it takes in.
use crate::argued;
use crate::dtype::{Datatype, TypeMetatype};
use crate::flow;
use crate::graph::{GraphView, Varnode, VarnodeId};
use crate::inputs;
use crate::inputs::{InputValue, TrialsView};
use crate::pieces;
use crate::proto::ProtoView;
use crate::script::{Edit, ScriptView};
use crate::trial::ParamTrial;
use vstd::prelude::*;

verus! {

/// How many of the first `n` values can be inputs.
pub open spec fn possible_count(p: ProtoView, g: GraphView, ins: Seq<VarnodeId>, n: int) -> int
    decreases n,
{
    if n <= 0 {
        0
    } else {
        possible_count(p, g, ins, n - 1) + (if can_be_input(p, g, ins[n - 1]) {
            1int
        } else {
            0int
        })
    }
}

/// The value is there and the prototype allows an input where it is.
pub open spec fn can_be_input(p: ProtoView, g: GraphView, v: VarnodeId) -> bool {
    v.0 < g.varnodes.len() && p.input_possible(
        g.varnodes[v.0 as int].addr,
        g.varnodes[v.0 as int].size as int,
    )
}

/// The trial is for the value: it has its storage and is active exactly where
/// the function reads it.
pub open spec fn trial_for(t: ParamTrial, x: Varnode) -> bool {
    &&& t.addr == x.addr
    &&& t.size == x.size
    &&& t.flags.active == (x.readers > 0)
    &&& !t.flags.defnouse && !t.flags.used && !t.flags.unref
    &&& t.entry is None
}

/// Every value that the prototype allows as an input has a trial, in order, which
/// is active where the function reads the value, and there are no other trials.
pub proof fn law_values_tried(p: ProtoView, g: GraphView, ins: Seq<VarnodeId>, n: int, gap: bool)
    requires
        0 <= n <= ins.len() < i32::MAX,
    ensures
        ({
            let t = p.gathered(g, ins, n, gap);
            &&& t.active.trial.len() == possible_count(p, g, ins, n)
            &&& t.values.len() == t.active.trial.len()
            &&& t.active.own_input_gap == gap
            &&& t.active.slotbase == t.active.trial.len() + 1
            &&& forall|j: int|
                0 <= j < n && can_be_input(p, g, #[trigger] ins[j]) ==> {
                    let i = possible_count(p, g, ins, j);
                    &&& 0 <= i < t.active.trial.len()
                    &&& trial_for(t.active.trial[i], g.varnodes[ins[j].0 as int])
                    &&& t.active.trial[i].slot == i + 1
                    &&& t.values[i].vn == ins[j]
                    &&& t.values[i].size == g.varnodes[ins[j].0 as int].size
                    &&& t.values[i].type_ == g.varnodes[ins[j].0 as int].type_
                }
        }),
    decreases n,
{
    if n > 0 {
        law_values_tried(p, g, ins, n - 1, gap);
        lemma_count(p, g, ins, n - 1);
        let t = p.gathered(g, ins, n - 1, gap);
        let u = p.gathered(g, ins, n, gap);
        assert forall|j: int| 0 <= j < n && can_be_input(p, g, #[trigger] ins[j]) implies ({
            let i = possible_count(p, g, ins, j);
            &&& 0 <= i < u.active.trial.len()
            &&& trial_for(u.active.trial[i], g.varnodes[ins[j].0 as int])
            &&& u.active.trial[i].slot == i + 1
            &&& u.values[i].vn == ins[j]
            &&& u.values[i].size == g.varnodes[ins[j].0 as int].size
            &&& u.values[i].type_ == g.varnodes[ins[j].0 as int].type_
        }) by {
            let i = possible_count(p, g, ins, j);
            if j < n - 1 {
                assert(u.active.trial[i] == t.active.trial[i]);
                assert(u.values[i] == t.values[i]);
            }
        }
    }
}

proof fn lemma_count(p: ProtoView, g: GraphView, ins: Seq<VarnodeId>, n: int)
    requires
        0 <= n,
    ensures
        0 <= possible_count(p, g, ins, n) <= n,
    decreases n,
{
    if n > 0 {
        lemma_count(p, g, ins, n - 1);
    }
}

/// The trial stands for storage to which nothing refers, and is a parameter.
pub open spec fn open_parameter(t: ParamTrial) -> bool {
    t.flags.unref && t.flags.used
}

/// What has become of the trial `t`: one that is a parameter without a value is
/// ruled out if another input is in the way, and else has a new value, an input
/// of the function with exactly its storage; any other trial is as it was.
pub open spec fn given_value(
    t: ParamTrial,
    u: ParamTrial,
    values: Seq<InputValue>,
    edits: Seq<Edit>,
    vtop: int,
    taken: bool,
) -> bool {
    if !open_parameter(t) {
        u == t
    } else if taken {
        u.flags.defnouse && !u.flags.used && !u.flags.active
    } else {
        let v = values[u.slot - 1];
        &&& u.addr == t.addr && u.size == t.size && u.flags == t.flags
        &&& 1 <= u.slot <= values.len()
        &&& v.size == t.size
        &&& v.type_ matches Some(d) && d.size == t.size && d.metatype == TypeMetatype::Unknown
        &&& v.vn.0 < vtop
        &&& flow::maker(edits, v.vn) == Some(
            Edit::NewVarnode { vn: v.vn, size: t.size, addr: t.addr },
        )
        &&& edits.contains(Edit::SetInputVarnode { vn: v.vn })
    }
}

/// Every parameter to which the function does not refer is given a value.
pub proof fn law_missing_values_made(
    t: TrialsView,
    s: ScriptView,
    n: int,
    taken: Seq<bool>,
)
    requires
        0 <= n <= t.active.trial.len(),
        t.values.len() + n < i32::MAX,
        s.next_vn + n <= u64::MAX,
    ensures
        ({
            let (u, r) = t.all_placed(s, n, taken);
            &&& u.active.trial.len() == t.active.trial.len()
            &&& t.values.len() <= u.values.len() <= t.values.len() + n
            &&& u.values.take(t.values.len() as int) =~= t.values
            &&& s.next_vn <= r.next_vn <= s.next_vn + n
            &&& forall|k: int|
                0 <= k < n ==> given_value(
                    t.active.trial[k],
                    #[trigger] u.active.trial[k],
                    u.values,
                    r.edits,
                    r.next_vn as int,
                    k < taken.len() && taken[k],
                )
            &&& forall|k: int|
                n <= k < t.active.trial.len() ==> #[trigger] u.active.trial[k]
                    == t.active.trial[k]
        }),
    decreases n,
{
    broadcast use flow::group_flow;

    if n > 0 {
        law_missing_values_made(t, s, n - 1, taken);
        let (u, r) = t.all_placed(s, n - 1, taken);
        let (w, q) = t.all_placed(s, n, taken);
        assert(w.values.take(t.values.len() as int) =~= u.values.take(t.values.len() as int));
        assert forall|k: int| 0 <= k < n implies given_value(
            t.active.trial[k],
            #[trigger] w.active.trial[k],
            w.values,
            q.edits,
            q.next_vn as int,
            k < taken.len() && taken[k],
        ) by {
            if k < n - 1 {
                let x = u.active.trial[k];
                assert(w.active.trial[k] == x);
                if open_parameter(t.active.trial[k]) && !(k < taken.len() && taken[k]) {
                    let v = u.values[x.slot - 1];
                    assert(w.values[x.slot - 1] == v);
                    assert(flow::maker(q.edits, v.vn) == flow::maker(r.edits, v.vn));
                    let e = Edit::SetInputVarnode { vn: v.vn };
                    let i = choose|i: int| 0 <= i < r.edits.len() && r.edits[i] == e;
                    assert(q.edits[i] == e);
                }
            } else {
                assert(u.active.trial[k] == t.active.trial[k]);
                if open_parameter(t.active.trial[k]) && !(k < taken.len() && taken[k]) {
                    assert(q.edits.last() == (Edit::SetInputVarnode { vn: r.vn() }));
                }
            }
        }
    }
}

/// No two parameters have the same value.
pub open spec fn values_apart(ts: Seq<ParamTrial>, vals: Seq<InputValue>) -> bool {
    forall|j: int, k: int|
        0 <= j < k < ts.len() && (#[trigger] ts[j]).flags.used && (#[trigger] ts[k]).flags.used
            ==> vals[ts[j].slot - 1].vn != vals[ts[k].slot - 1].vn
}

proof fn lemma_chosen(ts: Seq<ParamTrial>, vals: Seq<InputValue>, n: int)
    requires
        0 <= n <= ts.len(),
        values_apart(ts, vals),
    ensures
        ({
            let c = inputs::chosen(ts, vals, n);
            &&& c.len() == argued::used_count(ts, n)
            &&& forall|k: int|
                0 <= k < n && (#[trigger] ts[k]).flags.used ==> {
                    let i = argued::used_count(ts, k);
                    0 <= i < c.len() && c[i] == (ts[k].addr, vals[ts[k].slot - 1])
                }
            &&& forall|i: int|
                0 <= i < c.len() ==> exists|k: int|
                    0 <= k < n && (#[trigger] ts[k]).flags.used && (#[trigger] c[i]).1.vn
                        == vals[ts[k].slot - 1].vn
        }),
    decreases n,
{
    if n > 0 {
        lemma_chosen(ts, vals, n - 1);
        let b = inputs::chosen(ts, vals, n - 1);
        let c = inputs::chosen(ts, vals, n);
        let t = ts[n - 1];
        if t.flags.used {
            assert(!inputs::is_chosen(b, vals[t.slot - 1].vn)) by {
                if inputs::is_chosen(b, vals[t.slot - 1].vn) {
                    let i = choose|i: int|
                        0 <= i < b.len() && (#[trigger] b[i]).1.vn == vals[t.slot - 1].vn;
                    let k = choose|k: int|
                        0 <= k < n - 1 && (#[trigger] ts[k]).flags.used && b[i].1.vn
                            == vals[ts[k].slot - 1].vn;
                    assert(ts[k].flags.used && ts[n - 1].flags.used);
                }
            }
            assert(c == b.push((t.addr, vals[t.slot - 1])));
        }
        assert forall|k: int| 0 <= k < n && (#[trigger] ts[k]).flags.used implies ({
            let i = argued::used_count(ts, k);
            0 <= i < c.len() && c[i] == (ts[k].addr, vals[ts[k].slot - 1])
        }) by {
            if k < n - 1 {
                let i = argued::used_count(ts, k);
                assert(b[i] == c[i]);
            }
        }
        assert forall|i: int| 0 <= i < c.len() implies (exists|k: int|
            0 <= k < n && (#[trigger] ts[k]).flags.used && (#[trigger] c[i]).1.vn
                == vals[ts[k].slot - 1].vn) by {
            if i < b.len() {
                assert(c[i] == b[i]);
                let k = choose|k: int|
                    0 <= k < n - 1 && (#[trigger] ts[k]).flags.used && b[i].1.vn
                        == vals[ts[k].slot - 1].vn;
                assert(ts[k].flags.used);
            } else {
                assert(ts[n - 1].flags.used);
            }
        }
    }
}

/// The type is the one that is known of the value, or else one of which only the
/// size is known.
pub open spec fn type_of_value(d: Datatype, v: InputValue, typed: bool) -> bool {
    if typed && v.type_ is Some {
        v.type_ == Some(d)
    } else if typed {
        d.metatype == TypeMetatype::Unknown
    } else {
        d.metatype == TypeMetatype::Unknown && d.size == v.size
    }
}

/// The inputs of a prototype that are not locked become the used trials, in
/// order: one parameter for each, without a name, with the storage of the trial
/// and the type of its value. Where types are known, the first one of a method is
/// marked as the pointer to its object.
pub proof fn law_parameters_from_trials(
    p: ProtoView,
    ts: Seq<ParamTrial>,
    vals: Seq<InputValue>,
    typed: bool,
    k: int,
)
    requires
        !p.input_locked(),
        values_apart(ts, vals),
    ensures
        ({
            let r = p.inputs_updated(ts, vals, typed).inputs();
            &&& r.len() == argued::used_count(ts, ts.len() as int)
            &&& 0 <= k < ts.len() && ts[k].flags.used ==> {
                let i = argued::used_count(ts, k);
                &&& 0 <= i < r.len()
                &&& r[i] is Some
                &&& r[i]->0.addr == ts[k].addr
                &&& r[i]->0.name.len() == 0
                &&& r[i]->0.flags == (if typed && (*p.model->0)@.has_this && i == 0 {
                    pieces::ISTHIS
                } else {
                    0
                })
                &&& r[i]->0.type_ is Some
                &&& type_of_value(r[i]->0.type_->0, vals[ts[k].slot - 1], typed)
            }
        }),
{
    lemma_chosen(ts, vals, ts.len() as int);
    assert(0u32 & 2u32 == 0 && (0u32 | 1u32) == 1u32) by (bit_vector);
    if 0 <= k < ts.len() && ts[k].flags.used {
        assert(ts[k].flags.used);
    }
}

} // verus!
