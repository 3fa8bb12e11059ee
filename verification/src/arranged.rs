//! The order of trials, what splitting and shrinking them does, and which of
//! those without an order are parameters.
use crate::active;
use crate::active::ActiveView;
use crate::callspec::CallView;
use crate::decide;
use crate::enforced;
use crate::entry::EntryView;
use crate::flow;
use crate::graph::{GraphView, OpId, VarnodeId};
use crate::held;
use crate::link;
use crate::opcode::OpCode;
use crate::paramlist::ListView;
use crate::script::{Edit, ScriptView};
use crate::space::{Address, VarnodeData};
use crate::storage;
use crate::trial::ParamTrial;
use crate::verdict;
use vstd::prelude::*;

verus! {

/// The two trials stand in the order of parameters: one without an entry behind
/// one with an entry, a later group behind an earlier one, a later entry of a group
/// behind an earlier one, and in one divided entry by address, from the top down if
/// that is how it hands out its slots.
pub open spec fn ordered(a: ParamTrial, b: ParamTrial, es: Seq<EntryView>) -> bool {
    &&& b.entry is Some ==> a.entry is Some
    &&& a.entry is Some && b.entry is Some ==> {
        let x = es[a.entry->0 as int];
        let y = es[b.entry->0 as int];
        &&& x.group_set[0] <= y.group_set[0]
        &&& x.group_set[0] == y.group_set[0] ==> a.entry->0 <= b.entry->0
        &&& a.entry == b.entry && x.alignment == 0 ==> a.offset <= b.offset
        &&& a.entry == b.entry && x.alignment != 0 && a.addr.space == b.addr.space ==> if
            x.flags.reverse_stack {
            b.addr.offset <= a.addr.offset
        } else {
            a.addr.offset <= b.addr.offset
        }
    }
}

/// Trials that were put in order stand in the order of parameters.
pub proof fn law_parameter_order(s: Seq<ParamTrial>, es: Seq<EntryView>, i: int, j: int)
    requires
        active::spaces_indexed(s),
        0 <= i < j < s.len(),
    ensures
        ({
            let r = active::sorted_trials(false, s, s.len() as int, es);
            r.len() == s.len() && ordered(r[i], r[j], es)
        }),
{
    let r = active::sorted_trials(false, s, s.len() as int, es);
    active::law_sort_orders(false, s, s.len() as int, es);
    verdict::lemma_sorted_same(s, es);
    assert(!active::less_by(false, r[j], r[i], es));
    let a = s.index_of(r[i]);
    let b = s.index_of(r[j]);
    assert(s.contains(r[i]) && s.contains(r[j]));
    assert(s[a] == r[i] && s[b] == r[j]);
    assert(crate::trial::indexed_alike(s[a], s[b]));
}

/// A trial that is split gives way to two, in slots that follow each other: the
/// first bytes of it and the rest. Trials in later slots move up by one, and all
/// others stay.
pub proof fn law_trial_split(s: Seq<ParamTrial>, i: int, sz: int, k: int)
    requires
        0 <= i < s.len(),
        0 < sz < s[i].size,
        storage::range_in_space(s[i].addr, s[i].size as int),
        forall|j: int| 0 <= j < s.len() ==> 0 <= (#[trigger] s[j]).slot < i32::MAX,
    ensures
        ({
            let t = s[i];
            let r = active::split_trials(s, i, sz);
            &&& r.len() == s.len() + 1
            &&& r[i].addr == t.addr
            &&& r[i].size == sz
            &&& r[i].slot == t.slot
            &&& r[i].flags == t.flags
            &&& r[i + 1].addr.space == t.addr.space
            &&& r[i + 1].addr.offset == t.addr.offset + sz
            &&& r[i + 1].size == t.size - sz
            &&& r[i + 1].slot == t.slot + 1
            &&& r[i + 1].flags == t.flags
            &&& 0 <= k < s.len() && k != i ==> {
                let u = r[if k < i {
                    k
                } else {
                    k + 1
                }];
                &&& u.addr == s[k].addr && u.size == s[k].size && u.flags == s[k].flags && u.entry
                    == s[k].entry
                &&& u.slot == s[k].slot + (if s[k].slot > t.slot {
                    1int
                } else {
                    0int
                })
            }
        }),
{
}

/// A trial can be shrunk to its least significant bytes, and to nothing else, and
/// only before it is tied to an entry.
pub proof fn law_trial_shrunk(t: ParamTrial, at: Address, sz: int)
    requires
        storage::range_in_space(t.addr, t.size as int),
        0 < sz <= t.size,
    ensures
        t.can_shrink(at, sz) <==> {
            &&& t.entry is None
            &&& at.space == t.addr.space
            &&& if t.addr.space->0.big_endian {
                at.offset + sz == t.addr.offset + t.size
            } else {
                at.offset == t.addr.offset
            }
        },
{
}

/// The slot of a divided entry that a byte belongs to: the slots are counted from
/// the group of the entry on, upwards, or downwards if that is how the entry hands
/// them out.
pub proof fn law_slot_of_byte(e: EntryView, addr: Address, skip: int)
    requires
        storage::one_range(e),
        e.alignment > 0,
        0 <= skip,
        e.addressbase <= addr.offset,
        addr.offset + skip < e.addressbase + e.size,
    ensures
        ({
            let n = e.slot_at(addr, skip) - e.group_set[0];
            let m = if e.flags.reverse_stack {
                e.numslots - 1 - n
            } else {
                n
            };
            e.addressbase + m * e.alignment <= addr.offset + skip < e.addressbase + (m + 1)
                * e.alignment
        }),
{
    let al = e.alignment as int;
    let d = addr.offset + skip - e.addressbase;
    vstd::arithmetic::div_mod::lemma_fundamental_div_mod(d, al);
    let m = d / al;
    assert(m * al == al * m && (m + 1) * al == al * m + al) by (nonlinear_arith);
}

/// Under a list without an order a trial is a parameter exactly where it is active
/// and some entry holds it in place; one that no entry holds so is ruled out.
pub proof fn law_unordered_decided(l: ListView, a: ActiveView, k: int)
    requires
        held::plain_list(l),
        0 <= k < a.trial.len(),
        storage::range_in_space(a.trial[k].addr, a.trial[k].size as int),
        !a.trial[k].flags.used,
    ensures
        exists|u: ParamTrial|
            decide::register_fillin(l, a).trial.contains(u) && #[trigger] filled_as(
                l,
                a.trial[k],
                u,
            ),
{
    let t = a.trial[k];
    let u = decide::register_verdict(l, t);
    held::law_found_in_first_holder(l, t.addr, t.size as int, true);
    let s = a.trial.map_values(|t: ParamTrial| decide::register_verdict(l, t));
    verdict::lemma_sorted_same(s, l.entry);
    assert(s[k] == u);
    assert(filled_as(l, t, u));
}

/// What must become of the trial.
pub open spec fn filled_as(l: ListView, t: ParamTrial, u: ParamTrial) -> bool {
    let somewhere = exists|i: int|
        0 <= i < l.entry.len() && held::can_hold(
            #[trigger] l.entry[i],
            t.addr,
            t.size as int,
            true,
        );
    &&& u.addr == t.addr && u.size == t.size && u.slot == t.slot
    &&& u.flags.used == (somewhere && t.flags.active)
    &&& !somewhere ==> u.flags.defnouse && !u.flags.active
    &&& somewhere ==> u.flags.active == t.flags.active && u.flags.defnouse == t.flags.defnouse
        && u.entry is Some && u.entry->0 < l.entry.len() && held::can_hold(
        l.entry[u.entry->0 as int],
        t.addr,
        t.size as int,
        true,
    )
}

/// The operation relates the stack pointer before and after the call: behind the
/// call, and adding the popped bytes, where their number is known; in front of it,
/// as an unknown effect of the call, where it is not.
pub open spec fn relates(
    g: GraphView,
    edits: Seq<Edit>,
    call: OpId,
    base: VarnodeData,
    pop: i32,
    q: OpId,
    after: VarnodeId,
    before: VarnodeId,
    k: VarnodeId,
) -> bool {
    let size = base.size as i32;
    let at = Address { space: base.space, offset: base.offset };
    let r = flow::slots(g, edits, q);
    &&& flow::output(g, edits, q) == Some(after)
    &&& flow::maker(edits, after) == Some(Edit::NewVarnodeOut { vn: after, size, addr: at, op: q })
    &&& r.len() == 2
    &&& r[0] == Some(before)
    &&& r[1] == Some(k)
    &&& flow::maker(edits, before) == Some(Edit::NewVarnode { vn: before, size, addr: at })
    &&& if pop != 0x8000 {
        &&& flow::code(g, edits, q) == Some(OpCode::IntAdd)
        &&& flow::maker(edits, k) == Some(
            Edit::NewConstant { vn: k, size, value: (pop as i64) as u64 },
        )
        &&& flow::mover(edits, q) == Some(Edit::InsertAfter { op: q, at: call })
    } else {
        &&& flow::code(g, edits, q) == Some(OpCode::Indirect)
        &&& flow::maker(edits, k) == Some(Edit::NewIop { vn: k, op: call })
        &&& flow::mover(edits, q) == Some(Edit::InsertBefore { op: q, at: call })
    }
}

/// An operation of the script relates the stack pointer around the call.
pub open spec fn pop_related(g: GraphView, s: ScriptView, call: OpId, base: VarnodeData, pop: i32) -> bool {
    exists|q: OpId, after: VarnodeId, before: VarnodeId, k: VarnodeId|
        q.0 < s.next_op && after.0 < s.next_vn && before.0 < s.next_vn && k.0 < s.next_vn
            && #[trigger] relates(g, s.edits, call, base, pop, q, after, before, k)
}

proof fn lemma_pop(g: GraphView, s: ScriptView, op: OpId, at: Address, base: VarnodeData, pop: i32)
    requires
        flow::numbered(g, s, 1, 3),
    ensures
        ({
            let t = link::pop_script(s, op, at, base, pop);
            &&& enforced::left_alone(g, s, t)
            &&& t.next_op == s.next_op + 1
            &&& t.next_vn == s.next_vn + 3
            &&& pop_related(g, t, op, base, pop)
        }),
{
    broadcast use flow::group_flow;

    let t = link::pop_script(s, op, at, base, pop);
    let a = VarnodeId(s.next_vn);
    let b = VarnodeId((s.next_vn + 1) as u64);
    let k = VarnodeId((s.next_vn + 2) as u64);
    assert(relates(g, t.edits, op, base, pop, OpId(s.next_op), a, b, k));
}

proof fn lemma_pop_kept(
    g: GraphView,
    s: ScriptView,
    t: ScriptView,
    call: OpId,
    base: VarnodeData,
    pop: i32,
)
    requires
        pop_related(g, s, call, base, pop),
        enforced::left_alone(g, s, t),
    ensures
        pop_related(g, t, call, base, pop),
{
    let (q, a, b, k) = choose|q: OpId, a: VarnodeId, b: VarnodeId, k: VarnodeId|
        q.0 < s.next_op && a.0 < s.next_vn && b.0 < s.next_vn && k.0 < s.next_vn
            && #[trigger] relates(g, s.edits, call, base, pop, q, a, b, k);
    assert(flow::slots(g, t.edits, q) == flow::slots(g, s.edits, q));
    assert(flow::maker(t.edits, a) == flow::maker(s.edits, a));
    assert(flow::maker(t.edits, b) == flow::maker(s.edits, b));
    assert(flow::maker(t.edits, k) == flow::maker(s.edits, k));
    assert(relates(g, t.edits, call, base, pop, q, a, b, k));
}

/// Around every call that pops bytes, or may, the stack pointer is related, and a
/// call that pops a known number of bytes takes note of it. A call that pops
/// nothing is left alone.
pub proof fn law_pops_related(
    cs: Seq<CallView>,
    n: int,
    g: GraphView,
    s: ScriptView,
    base: VarnodeData,
    i: int,
)
    requires
        0 <= n <= cs.len(),
        0 <= i < cs.len(),
        flow::numbered(g, s, n, 3 * n),
    ensures
        ({
            let (ds, t) = link::pops_set(cs, n, g, s, base);
            let c = cs[i];
            let pop = c.proto.extrapop;
            &&& ds.len() == cs.len()
            &&& enforced::left_alone(g, s, t)
            &&& t.next_op <= s.next_op + n
            &&& t.next_vn <= s.next_vn + 3 * n
            &&& i >= n || pop == 0 || c.op.0 >= g.ops.len() || pop == 0x8000 ==> ds[i] == c
            &&& i < n && pop != 0 && pop != 0x8000 && c.op.0 < g.ops.len() ==> ds[i] == (CallView {
                effective_extrapop: pop,
                ..c
            })
            &&& i < n && pop != 0 && c.op.0 < g.ops.len() ==> pop_related(g, t, c.op, base, pop)
        }),
    decreases n,
{
    if n > 0 {
        law_pops_related(cs, n - 1, g, s, base, i);
        let (ds, u) = link::pops_set(cs, n - 1, g, s, base);
        let (es, t) = link::pops_set(cs, n, g, s, base);
        let c = cs[n - 1];
        if c.proto.extrapop != 0 && c.op.0 < g.ops.len() {
            lemma_pop(g, u, c.op, g.ops[c.op.0 as int].addr, base, c.proto.extrapop);
            enforced::lemma_left_alone_chain(g, s, u, t);
            let x = cs[i];
            if i < n - 1 && x.proto.extrapop != 0 && x.op.0 < g.ops.len() {
                lemma_pop_kept(g, u, t, x.op, base, x.proto.extrapop);
            }
        }
    }
}

} // verus!
