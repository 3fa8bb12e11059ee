//! A call whose value was decided on has the varnode of that value.
use crate::active;
use crate::active::ActiveView;
use crate::callresult;
use crate::callresult::Found;
use crate::callspec::CallView;
use crate::decide;
use crate::exclusive;
use crate::fillin;
use crate::graph::{GraphView, OpId, VarnodeId};
use crate::opcode::OpCode;
use crate::paramlist::ListView;
use crate::space::Address;
use crate::trial::ParamTrial;
use crate::verdict;
use vstd::prelude::*;

verus! {

/// The trials stand in the slots from 1 on.
pub open spec fn slots_in_order(s: Seq<ParamTrial>) -> bool {
    forall|k: int| 0 <= k < s.len() ==> (#[trigger] s[k]).slot == k + 1
}

/// The parameters stand in front of the other trials.
pub open spec fn used_in_front(s: Seq<ParamTrial>) -> bool {
    forall|j: int, k: int|
        0 <= j < k < s.len() && (#[trigger] s[k]).flags.used ==> (#[trigger] s[j]).flags.used
}

proof fn lemma_first_hit(s: Seq<ParamTrial>, addr: Address, sz: int, i: int)
    requires
        0 <= i,
    ensures
        active::first_hit(s, addr, sz, i) < s.len(),
    decreases s.len() - i,
{
    if i < s.len() {
        lemma_first_hit(s, addr, sz, i + 1);
    }
}

proof fn lemma_notice_slots(f: Found, g: GraphView, vn: Option<VarnodeId>)
    requires
        slots_in_order(f.trials),
        f.vns.len() == f.trials.len(),
    ensures
        slots_in_order(f.noticing(g, vn).trials),
        f.noticing(g, vn).trials.len() == f.trials.len(),
        f.noticing(g, vn).vns.len() == f.vns.len(),
{
    if vn is Some && g.vn(vn->0) is Some {
        let v = g.vn(vn->0)->0;
        lemma_first_hit(f.trials, v.addr, v.size as int, 0);
    }
}

proof fn lemma_scan_slots(f: Found, g: GraphView, op: Option<OpId>)
    requires
        slots_in_order(f.trials),
        f.vns.len() == f.trials.len(),
    ensures
        slots_in_order(f.scanning(g, op).trials),
        f.scanning(g, op).trials.len() == f.trials.len(),
        f.scanning(g, op).vns.len() == f.vns.len(),
    decreases
            (match op {
                Some(o) => g.order(o) + 1,
                None => 0,
            }),
{
    match op {
        None => {},
        Some(o) => match g.op(o) {
            None => {},
            Some(v) => if v.code == OpCode::Indirect {
                let here = if v.creation {
                    f.noticing(g, v.output)
                } else {
                    f
                };
                lemma_notice_slots(f, g, v.output);
                match v.previous {
                    Some(q) => if 0 <= g.order(q) < g.order(o) {
                        lemma_scan_slots(here, g, Some(q));
                    },
                    None => {},
                }
            },
        },
    }
}

proof fn lemma_none_used(s: Seq<ParamTrial>, n: int)
    requires
        verdict::none_used(s),
    ensures
        active::used_trials(s, n).len() == 0,
    decreases n,
{
    if 0 < n <= s.len() {
        lemma_none_used(s, n - 1);
    }
}

proof fn lemma_fallback_front(l: ListView, a: ActiveView, first_only: bool)
    ensures
        used_in_front(decide::fallback_fillin(l, a, first_only).trial),
{
    let c = decide::search(l, a.trial, first_only, l.entry.len() as int);
    match c.best {
        None => {},
        Some(be) => {
            let out = c.trials.map_values(
                |t: ParamTrial| decide::return_verdict(l, be as int, t),
            );
            let t = active::sorted_trials(false, out, out.len() as int, l.entry);
            verdict::lemma_sorted_same(out, l.entry);
            exclusive::lemma_sorted_by_group(l, out, out.len() as int);
            assert forall|k: int| 0 <= k < t.len() implies (#[trigger] t[k]).flags.used == (
            t[k].entry is Some) by {
                let j = out.index_of(t[k]);
                assert(out.contains(t[k]));
                assert(out[j] == t[k]);
            }
            assert forall|j: int, k: int|
                0 <= j < k < t.len() && (#[trigger] t[k]).flags.used implies (
            #[trigger] t[j]).flags.used by {
                assert(exclusive::not_after(l, t[j], t[k]));
            }
        },
    }
}

/// The parts of a return value stand in front of the trials that are none.
pub proof fn law_return_parts_first(l: ListView, a: ActiveView)
    requires
        a.trial.len() > 0,
        verdict::of_outputs(l),
    ensures
        used_in_front(decide::output_fillin(l, a).trial),
{
    lemma_fallback_front(l, a, false);
    let tags = a.trial.map_values(|t: ParamTrial| decide::tag_output(l, t));
    let tagged = fillin::in_formal_order(l, ActiveView { trial: tags, ..a });
    lemma_fallback_front(l, tagged, true);
    verdict::lemma_sorted_same(tags, l.entry);
    exclusive::lemma_sorted_by_group(l, tags, tags.len() as int);
    let s = tagged.trial;
    if !l.use_fillin_fallback && exists|k: int|
        0 <= k < l.model_rules.len() && decide::rule_recognises(#[trigger] l.model_rules[k], s) {
        let out = s.map_values(|t: ParamTrial| decide::recognised(t));
        assert forall|k: int| 0 < k < s.len() implies !(#[trigger] out[k]).flags.used by {
            if k > 1 {
                assert(exclusive::not_after(l, s[1], s[k]));
            }
            let j = tags.index_of(s[k]);
            assert(tags.contains(s[k]));
            assert(tags[j] == s[k]);
        }
    }
}

/// A call whose value is decided on, as a single one, has the varnode of that
/// value: the call created it, so that it can become the output of the call.
pub proof fn law_single_output_found(c: CallView, g: GraphView)
    requires
        slots_in_order(c.activeoutput.trial),
        verdict::of_outputs(c.proto.model_view().outs()),
    ensures
        c.outputs_weighed(g).single_output_there(c.found_outputs(g).vns),
{
    let l = c.proto.model_view().outs();
    let ts = c.activeoutput.trial;
    let start = Found { trials: ts, vns: Seq::new(ts.len(), |i: int| None) };
    lemma_scan_slots(start, g, g.previous(c.op));
    let vns = c.found_outputs(g).vns;
    let checked = c.outputs_checked(g).activeoutput;
    assert(slots_in_order(checked.trial));
    let out = c.outputs_weighed(g).activeoutput.trial;
    if ts.len() == 0 {
        assert(out.len() == 0);
    } else {
        law_return_parts_first(l, checked);
        verdict::law_trials_accounted(l, checked);
        assert(out == decide::output_fillin(l, checked).trial);
        if out.len() > 0 && out[0].flags.used {
            reveal(verdict::all_come_from);
            assert(verdict::comes_from(true, checked.trial, out[0]));
            let i = choose|i: int|
                0 <= i < checked.trial.len() && verdict::moved(
                    true,
                    #[trigger] checked.trial[i],
                    out[0],
                );
            callresult::law_outputs_decided(c, g, i);
            assert(!verdict::ruled_out(checked.trial[i]));
            assert(out[0].slot == i + 1);
            assert(vns[i] is Some);
        } else {
            lemma_none_used(out, out.len() as int);
        }
    }
}

} // verus!
