//! What a call can provide for a prototype, and what it does to a range.
use crate::callspec;
use crate::callspec::CallView;
use crate::effects;
use crate::effects::EffectRecord;
use crate::gathered;
use crate::graph::{GraphView, OpId, VarnodeId};
use crate::opcode::OpCode;
use crate::restrict;
use crate::space;
use crate::space::{Address, SpaceType};
use crate::storage;
use crate::store::ParamView;
use crate::trial::ParamTrial;
use crate::dtype::TypeMetatype;
use vstd::prelude::*;

verus! {

/// The trial covers all bytes of the parameter.
pub open spec fn covers(t: ParamTrial, p: ParamView) -> bool {
    storage::bytes_within(p.addr, p.size() as int, t.addr, t.size as int)
}

/// The trials and the parameter are ranges of bytes, and spaces with the same
/// number are the same.
pub open spec fn tellable(s: Seq<ParamTrial>, p: ParamView) -> bool {
    &&& storage::range_in_space(p.addr, p.size() as int)
    &&& forall|k: int|
        0 <= k < s.len() ==> storage::range_in_space((#[trigger] s[k]).addr, s[k].size as int) && (
        space::space_index(s[k].addr.space) == space::space_index(p.addr.space)
            ==> s[k].addr.space == p.addr.space)
}

/// The `j`-th trial is the first that covers the parameter.
pub open spec fn first_cover(s: Seq<ParamTrial>, p: ParamView, j: int) -> bool {
    &&& 0 <= j < s.len()
    &&& covers(s[j], p)
    &&& forall|k: int| 0 <= k < j ==> !covers(#[trigger] s[k], p)
}

proof fn lemma_reuse(s: Seq<ParamTrial>, i: int, p: ParamView)
    requires
        tellable(s, p),
        0 <= i <= s.len(),
        forall|k: int| 0 <= k < i ==> !covers(#[trigger] s[k], p),
    ensures
        ({
            let r = restrict::reuse_from(s, i, p.addr, p.addr.plus(p.size() - 1));
            ||| exists|j: int| #[trigger]
                first_cover(s, p, j) && r == (if s[j].flags.defnouse {
                    0i32
                } else {
                    s[j].slot
                })
            ||| (forall|k: int| 0 <= k < s.len() ==> !covers(#[trigger] s[k], p)) && r == (
            if p.addr.space->0.type_ == SpaceType::Spacebase {
                -1i32
            } else {
                0i32
            })
        }),
    decreases s.len() - i,
{
    if i < s.len() {
        let last = p.addr.plus(p.size() - 1);
        assert(storage::range_in_space(s[i].addr, s[i].size as int));
        let out = p.addr.before(s[i].addr) || s[i].addr.plus(s[i].size - 1).before(last);
        assert(out == !covers(s[i], p));
        if out {
            lemma_reuse(s, i + 1, p);
        } else {
            assert(first_cover(s, p, i));
        }
    }
}

/// What the call has for the parameter: what it passes in the slot of the first
/// trial that covers it, or nothing where none does.
pub open spec fn has_for(
    c: CallView,
    g: GraphView,
    p: ParamView,
    v: Option<VarnodeId>,
) -> bool {
    let s = c.activeinput.trial;
    ||| exists|j: int| #[trigger]
        first_cover(s, p, j) && !s[j].flags.defnouse && (s[j].slot > 0 ==> v == g.input(
            c.op,
            s[j].slot as int,
        ))
    ||| v is None && p.addr.space->0.type_ == SpaceType::Spacebase && c.spacebase_relative(
        g,
    ) is Some && forall|k: int| 0 <= k < s.len() ==> !covers(#[trigger] s[k], p)
}

/// The call cannot provide the parameter: the first trial that covers it is ruled
/// out, or none does and it cannot be loaded.
pub open spec fn lacks(c: CallView, g: GraphView, p: ParamView) -> bool {
    let s = c.activeinput.trial;
    ||| exists|j: int| #[trigger] first_cover(s, p, j) && s[j].flags.defnouse
    ||| (forall|k: int| 0 <= k < s.len() ==> !covers(#[trigger] s[k], p)) && (
    p.addr.space->0.type_ != SpaceType::Spacebase || c.spacebase_relative(g) is None)
}

/// All trials that are not ruled out stand in slots behind the call target.
pub open spec fn slots_positive(s: Seq<ParamTrial>) -> bool {
    forall|k: int| 0 <= k < s.len() && !(#[trigger] s[k]).flags.defnouse ==> s[k].slot > 0
}

proof fn lemma_one(c: CallView, g: GraphView, p: ParamView)
    requires
        tellable(c.activeinput.trial, p),
        slots_positive(c.activeinput.trial),
    ensures
        ({
            let r = c.reuse(p);
            &&& (r == 0 || (r < 0 && c.spacebase_relative(g) is None)) == lacks(c, g, p)
            &&& r > 0 ==> has_for(c, g, p, g.input(c.op, r as int))
            &&& r < 0 && c.spacebase_relative(g) is Some ==> has_for(c, g, p, None)
        }),
{
    let s = c.activeinput.trial;
    lemma_reuse(s, 0, p);
    assert forall|i: int, j: int| #[trigger] first_cover(s, p, i) && #[trigger] first_cover(
        s,
        p,
        j,
    ) implies i == j by {
        if i < j {
            assert(!covers(s[i], p));
        } else if j < i {
            assert(!covers(s[j], p));
        }
    }
}

/// A call provides, for the locked inputs of a prototype, its target and then,
/// parameter by parameter, what it passes in the slot of the first trial that
/// covers the parameter, or a place left open to load a parameter of the stack
/// that no trial covers. It fails exactly where it cannot provide one of them.
pub proof fn law_inputs_provided(
    c: CallView,
    g: GraphView,
    params: Seq<Option<ParamView>>,
    n: int,
    before: Seq<Option<VarnodeId>>,
)
    requires
        0 <= n <= params.len(),
        slots_positive(c.activeinput.trial),
        forall|k: int| 0 <= k < params.len() ==> tellable(c.activeinput.trial, (#[trigger] params[k])->0),
    ensures
        ({
            let (ok, list) = c.inputs_for(g, params, n, before);
            &&& ok <==> forall|k: int| 0 <= k < n ==> !lacks(c, g, (#[trigger] params[k])->0)
            &&& ok ==> {
                &&& list.len() == before.len() + 1 + n
                &&& list.take(before.len() as int) =~= before
                &&& list[before.len() as int] == g.input(c.op, 0)
                &&& forall|k: int|
                    0 <= k < n ==> has_for(
                        c,
                        g,
                        (#[trigger] params[k])->0,
                        list[before.len() + 1 + k],
                    )
            }
        }),
    decreases n,
{
    if n > 0 {
        law_inputs_provided(c, g, params, n - 1, before);
        let (ok, list) = c.inputs_for(g, params, n - 1, before);
        let p = params[n - 1]->0;
        assert(tellable(c.activeinput.trial, params[n - 1]->0));
        lemma_one(c, g, p);
        let (ok2, list2) = c.inputs_for(g, params, n, before);
        if ok2 {
            assert(list2.take(before.len() as int) =~= list.take(before.len() as int));
            assert forall|k: int| 0 <= k < n implies has_for(
                c,
                g,
                (#[trigger] params[k])->0,
                list2[before.len() + 1 + k],
            ) by {
                if k < n - 1 {
                    assert(list2[before.len() + 1 + k] == list[before.len() + 1 + k]);
                }
            }
        } else {
            if ok {
                assert(lacks(c, g, params[n - 1]->0));
            } else {
                let k = choose|k: int| 0 <= k < n - 1 && lacks(c, g, (#[trigger] params[k])->0);
                assert(lacks(c, g, params[k]->0));
            }
        }
    }
}

/// The varnode holds the return value, or the return value holds it.
pub open spec fn fits(g: GraphView, v: VarnodeId, p: ParamView) -> bool {
    let x = g.varnodes[v.0 as int];
    ||| storage::bytes_within(x.addr, x.size as int, p.addr, p.size() as int)
    ||| storage::bytes_within(p.addr, p.size() as int, x.addr, x.size as int)
}

/// The varnodes of the graph are ranges of bytes.
pub open spec fn ranges(g: GraphView) -> bool {
    forall|i: int|
        0 <= i < g.varnodes.len() ==> storage::range_in_space(
            (#[trigger] g.varnodes[i]).addr,
            g.varnodes[i].size as int,
        )
}

proof fn lemma_met(g: GraphView, v: VarnodeId, p: ParamView)
    requires
        ranges(g),
        v.0 < g.varnodes.len(),
        storage::range_in_space(p.addr, p.size() as int),
    ensures
        restrict::met(g, Some(v), p) == (if fits(g, v, p) {
            seq![v]
        } else {
            Seq::<VarnodeId>::empty()
        }),
{
    let x = g.varnodes[v.0 as int];
    assert(storage::range_in_space(x.addr, x.size as int));
    lemma_contained(p.addr, p.size() as int, x.addr, x.size as int);
    lemma_contained(x.addr, x.size as int, p.addr, p.size() as int);
}

proof fn lemma_contained(a: Address, asz: int, b: Address, bsz: int)
    requires
        storage::range_in_space(a, asz),
        storage::range_in_space(b, bsz),
    ensures
        (a.justified_offset(asz, b, bsz, false) >= 0) == storage::bytes_within(b, bsz, a, asz),
{
}

proof fn lemma_created(g: GraphView, last: Option<OpId>, p: ParamView, v: VarnodeId)
    requires
        ranges(g),
        storage::range_in_space(p.addr, p.size() as int),
    ensures
        restrict::created(g, last, p).contains(v) <==> gathered::created_in(g, last, v) && fits(
            g,
            v,
            p,
        ),
    decreases (match last {
        Some(l) => g.order(l) + 1,
        None => 0,
    }),
{
    if last is Some && (last->0).0 < g.ops.len() && g.ops[(last->0).0 as int].code
        == OpCode::Indirect {
        let l = last->0;
        let o = g.ops[l.0 as int];
        let here = if o.creation {
            restrict::met(g, o.output, p)
        } else {
            Seq::empty()
        };
        if o.output is Some && (o.output->0).0 < g.varnodes.len() {
            lemma_met(g, o.output->0, p);
        }
        assert(here.contains(v) <==> o.creation && o.output == Some(v) && v.0 < g.varnodes.len()
            && fits(g, v, p)) by {
            if here.contains(v) {
                assert(here.len() == 1);
            } else if o.creation && o.output == Some(v) && v.0 < g.varnodes.len() && fits(g, v, p) {
                assert(here[0] == v);
            }
        }
        let prev = match o.previous {
            Some(q) => if 0 <= g.order(q) < g.order(l) {
                Some(q)
            } else {
                None
            },
            None => None,
        };
        assert(gathered::in_run(g, last, l));
        lemma_created(g, prev, p, v);
        let rest = restrict::created(g, prev, p);
        let all = restrict::created(g, last, p);
        assert(all =~= here + rest);
        assert(all.contains(v) <==> here.contains(v) || rest.contains(v)) by {
            if here.contains(v) {
                let i = choose|i: int| 0 <= i < here.len() && here[i] == v;
                assert(all[i] == v);
            }
            if rest.contains(v) {
                let i = choose|i: int| 0 <= i < rest.len() && rest[i] == v;
                assert(all[here.len() + i] == v);
            }
        }
        assert(gathered::created_in(g, last, v) <==> (o.creation && o.output == Some(v) && v.0
            < g.varnodes.len()) || gathered::created_in(g, prev, v)) by {
            if gathered::created_in(g, last, v) {
                let w = choose|w: OpId| #[trigger]
                    gathered::in_run(g, last, w) && g.ops[w.0 as int].creation
                        && g.ops[w.0 as int].output == Some(v);
                if w != l {
                    assert(gathered::in_run(g, prev, w));
                }
            }
            if gathered::created_in(g, prev, v) {
                let w = choose|w: OpId| #[trigger]
                    gathered::in_run(g, prev, w) && g.ops[w.0 as int].creation
                        && g.ops[w.0 as int].output == Some(v);
                assert(gathered::in_run(g, last, w));
            }
        }
    } else {
        assert(!gathered::created_in(g, last, v));
        assert(restrict::created(g, last, p).len() == 0);
    }
}

/// What a call provides for a locked return value: its output and what it creates
/// right in front of it, as far as one of the two, varnode and value, holds the
/// other; nothing for a function that returns nothing.
pub proof fn law_outputs_provided(c: CallView, g: GraphView, p: ParamView, v: VarnodeId)
    requires
        ranges(g),
        c.op.0 < g.ops.len(),
        storage::range_in_space(p.addr, p.size() as int),
    ensures
        c.outputs_for(g, p).contains(v) <==> {
            &&& !(p.type_ matches Some(t) && t.metatype == TypeMetatype::Void)
            &&& v.0 < g.varnodes.len()
            &&& g.ops[c.op.0 as int].output == Some(v) || gathered::created_in(
                g,
                g.ops[c.op.0 as int].previous,
                v,
            )
            &&& fits(g, v, p)
        },
{
    let o = g.ops[c.op.0 as int];
    lemma_created(g, o.previous, p, v);
    if o.output is Some && (o.output->0).0 < g.varnodes.len() {
        lemma_met(g, o.output->0, p);
    }
    let here = restrict::met(g, o.output, p);
    let rest = restrict::created(g, o.previous, p);
    let all = here + rest;
    assert(here.contains(v) <==> o.output == Some(v) && v.0 < g.varnodes.len() && fits(g, v, p)) by {
        if here.contains(v) {
            assert(here.len() == 1);
        } else if o.output == Some(v) && v.0 < g.varnodes.len() && fits(g, v, p) {
            assert(here[0] == v);
        }
    }
    assert(all.contains(v) <==> here.contains(v) || rest.contains(v)) by {
        if here.contains(v) {
            let i = choose|i: int| 0 <= i < here.len() && here[i] == v;
            assert(all[i] == v);
        }
        if rest.contains(v) {
            let i = choose|i: int| 0 <= i < rest.len() && rest[i] == v;
            assert(all[here.len() + i] == v);
        }
    }
}

/// The effect of a call on a range of the stack is that of the callee on the
/// range as the callee sees it, which is as far away as the two stack pointers
/// are; where that is not known, nothing is known of the effect. On any other
/// range it is that of the callee.
pub proof fn law_effect_seen_from_callee(c: CallView, addr: Address, size: int, there: Address)
    requires
        addr.space is Some,
        there.space == addr.space,
        addr.space->0.type_ == SpaceType::Spacebase ==> there.offset + c.stackoffset == addr.offset
            && there.offset <= addr.space->0.highest,
        addr.space->0.type_ != SpaceType::Spacebase ==> there.offset == addr.offset,
    ensures
        addr.space->0.type_ == SpaceType::Spacebase && c.stackoffset == callspec::OFFSET_UNKNOWN
            ==> c.effect(addr, size) == effects::UNKNOWN_EFFECT,
        addr.space->0.type_ != SpaceType::Spacebase || c.stackoffset != callspec::OFFSET_UNKNOWN
            ==> c.effect(addr, size) == c.proto.effect(there, size),
{
}

/// The record is of a range of bytes, and its space is told by its number.
pub open spec fn recorded(e: EffectRecord, addr: Address) -> bool {
    &&& storage::range_in_space(e.range.addr(), e.range.size as int)
    &&& e.range.space->0.type_ != SpaceType::Constant
    &&& space::space_index(e.range.space) == space::space_index(addr.space) ==> e.range.space
        == addr.space
}

proof fn lemma_bound(s: Seq<EffectRecord>, n: int, a: Address)
    requires
        0 <= n <= s.len(),
    ensures
        ({
            let k = effects::upper_bound(s, n, a);
            &&& 0 <= k <= n
            &&& k > 0 ==> !a.before(s[k - 1].range.addr())
            &&& forall|i: int| k <= i < n ==> a.before((#[trigger] s[i]).range.addr())
        }),
    decreases n,
{
    if n > 0 {
        lemma_bound(s, n - 1, a);
    }
}

/// The effect that a list gives for a range is that of the record that holds all
/// of its bytes, and unknown if none does, where no two records have a byte in
/// common and each stands behind those with lower addresses.
pub proof fn law_effect_of_range(s: Seq<EffectRecord>, addr: Address, size: int)
    requires
        storage::range_in_space(addr, size),
        addr.space->0.type_ != SpaceType::Internal,
        addr.space->0.type_ != SpaceType::Constant,
        effects::strictly_by_address(s),
        forall|k: int| 0 <= k < s.len() ==> recorded(#[trigger] s[k], addr),
        forall|j: int, k: int|
            0 <= j < k < s.len() ==> storage::bytes_apart(
                (#[trigger] s[j]).range.addr(),
                s[j].range.size as int,
                (#[trigger] s[k]).range.addr(),
                s[k].range.size as int,
            ),
    ensures
        forall|k: int|
            0 <= k < s.len() && storage::bytes_within(
                addr,
                size,
                (#[trigger] s[k]).range.addr(),
                s[k].range.size as int,
            ) ==> effects::effect_at(s, addr, size) == s[k].type_,
        (forall|k: int|
            0 <= k < s.len() ==> !storage::bytes_within(
                addr,
                size,
                (#[trigger] s[k]).range.addr(),
                s[k].range.size as int,
            )) ==> effects::effect_at(s, addr, size) == effects::UNKNOWN_EFFECT,
{
    lemma_bound(s, s.len() as int, addr);
    let b = effects::upper_bound(s, s.len() as int, addr);
    if b > 0 {
        let hit = s[b - 1];
        assert(recorded(s[b - 1], addr));
        assert forall|k: int|
            0 <= k < s.len() && storage::bytes_within(
                addr,
                size,
                (#[trigger] s[k]).range.addr(),
                s[k].range.size as int,
            ) implies k == b - 1 by {
            assert(recorded(s[k], addr));
            assert(!addr.before(s[k].range.addr()));
            if k < b - 1 {
                assert(s[k].before(s[b - 1]));
                assert(storage::bytes_apart(
                    s[k].range.addr(),
                    s[k].range.size as int,
                    s[b - 1].range.addr(),
                    s[b - 1].range.size as int,
                ));
            }
        }
        if hit.range.space == addr.space {
            let at = addr.overlap_at(0, hit.range.addr(), (hit.range.size as i32) as int);
            assert(hit.range.offset <= addr.offset);
            assert(at == (if addr.offset - hit.range.offset < hit.range.size {
                addr.offset - hit.range.offset
            } else {
                -1
            }));
        }
    } else {
        assert forall|k: int| 0 <= k < s.len() implies !storage::bytes_within(
            addr,
            size,
            (#[trigger] s[k]).range.addr(),
            s[k].range.size as int,
        ) by {
            assert(addr.before(s[k].range.addr()));
        }
    }
}

/// The distance of the stack pointers, once it is found, takes the callee to the
/// caller: what stands for the stack pointer of the callee is at that offset for
/// the caller, or, where a locked parameter stands for it, the parameter is as far
/// from where the caller has it. Nothing stands for the stack pointer any more if
/// it was not a parameter.
pub proof fn law_stack_distance(c: CallView, g: GraphView, phvn: VarnodeId)
    requires
        c.resolvable(g, phvn),
        c.spacebase_resolved(g, phvn).0 is None,
    ensures
        ({
            let d = c.spacebase_resolved(g, phvn).1;
            let load = g.varnodes[phvn.0 as int].def->0;
            let at = g.varnodes[g.ops[load.0 as int].inputs[0].0 as int].addr;
            let k = c.placeholder_param(g, phvn);
            let p = c.proto.inputs()[k]->0;
            &&& c.stack_placeholder_slot >= 0 && g.input(c.op, c.stack_placeholder_slot as int)
                == Some(phvn) ==> d.stackoffset == at.offset && d.stack_placeholder_slot == -1
            &&& !(c.stack_placeholder_slot >= 0 && g.input(c.op, c.stack_placeholder_slot as int)
                == Some(phvn)) && at.offset <= at.space->0.highest && p.addr.offset <= at.offset
                ==> d.stackoffset + p.addr.offset == at.offset && d.stack_placeholder_slot
                == c.stack_placeholder_slot
        }),
{
}

} // verus!
