//! A return returns the value of its parts, the first the least significant.
use crate::flow;
use crate::forced;
use crate::graph::{GraphView, OpId, VarnodeId};
use crate::opcode::OpCode;
use crate::recover;
use crate::recover::{Ancestry, Chain};
use crate::script::{Edit, ScriptView};
use crate::space::Address;
use crate::trial::ParamTrial;
use vstd::prelude::*;

verus! {

/// The operation `p` puts `v` together: `hi` above, `lo` below.
pub open spec fn puts_together(
    g: GraphView,
    edits: Seq<Edit>,
    p: OpId,
    v: VarnodeId,
    hi: VarnodeId,
    lo: VarnodeId,
) -> bool {
    &&& flow::code(g, edits, p) == Some(OpCode::Piece)
    &&& flow::output(g, edits, p) == Some(v)
    &&& flow::slots(g, edits, p).len() == 2
    &&& flow::slots(g, edits, p)[0] == Some(hi)
    &&& flow::slots(g, edits, p)[1] == Some(lo)
}

/// The varnode has the value of the parts put together, the first of them the
/// least significant, by new operations numbered below `top`.
pub open spec fn assembled(
    g: GraphView,
    edits: Seq<Edit>,
    v: VarnodeId,
    parts: Seq<VarnodeId>,
    top: int,
) -> bool
    decreases parts.len(),
{
    if parts.len() == 0 {
        false
    } else if parts.len() == 1 {
        v == parts[0]
    } else {
        exists|p: OpId, low: VarnodeId|
            g.ops.len() <= p.0 < top && #[trigger] puts_together(g, edits, p, v, parts.last(), low) && assembled(
                g,
                edits,
                low,
                parts.drop_last(),
                top,
            )
    }
}

/// What is numbered below `top` is the same after both lists of changes.
pub open spec fn same_below(g: GraphView, a: Seq<Edit>, b: Seq<Edit>, top: int) -> bool {
    forall|p: OpId|
        p.0 < top ==> #[trigger] flow::slots(g, b, p) == flow::slots(g, a, p) && flow::code(
            g,
            b,
            p,
        ) == flow::code(g, a, p) && flow::output(g, b, p) == flow::output(g, a, p)
}

proof fn lemma_assembled_kept(
    g: GraphView,
    a: Seq<Edit>,
    b: Seq<Edit>,
    v: VarnodeId,
    parts: Seq<VarnodeId>,
    top: int,
    top2: int,
)
    requires
        assembled(g, a, v, parts, top),
        same_below(g, a, b, top),
        top <= top2,
    ensures
        assembled(g, b, v, parts, top2),
    decreases parts.len(),
{
    if parts.len() > 1 {
        let (p, low) = choose|p: OpId, low: VarnodeId|
            g.ops.len() <= p.0 < top && #[trigger] puts_together(g, a, p, v, parts.last(), low) && assembled(
                g,
                a,
                low,
                parts.drop_last(),
                top,
            );
        lemma_assembled_kept(g, a, b, low, parts.drop_last(), top, top2);
        assert(flow::slots(g, b, p) == flow::slots(g, a, p));
        assert(puts_together(g, b, p, v, parts.last(), low));
    }
}

/// The first `m` trials are the parts of the return value, and each has an
/// input at the return `op`.
pub open spec fn parts_there(g: GraphView, op: OpId, trials: Seq<ParamTrial>, m: int) -> bool {
    &&& op.0 < g.ops.len()
    &&& 1 <= g.ops[op.0 as int].inputs.len() <= i32::MAX
    &&& 0 <= m <= trials.len()
    &&& forall|i: int|
        0 <= i < m ==> (#[trigger] trials[i]).flags.used && 0 <= trials[i].slot
            < g.ops[op.0 as int].inputs.len()
    &&& m < trials.len() ==> !trials[m].flags.used
}

/// The inputs of the return in the slots of the first `m` trials.
pub open spec fn parts(g: GraphView, op: OpId, trials: Seq<ParamTrial>, m: int) -> Seq<VarnodeId> {
    Seq::new(m as nat, |i: int| g.ops[op.0 as int].inputs[trials[i].slot as int])
}

/// Each of the first `n` trials starts where the one before it ends.
pub open spec fn in_a_row(trials: Seq<ParamTrial>, n: int) -> bool {
    forall|i: int|
        0 <= i < n ==> (#[trigger] trials[i]).offset + trials[i].size <= i32::MAX && trials[i].offset
            + trials[i].size >= i32::MIN && (i > 0 ==> trials[i].offset == trials[i - 1].offset
            + trials[i - 1].size)
}

/// Of the operations numbered below `top`, only `op` may differ.
pub open spec fn same_others(
    g: GraphView,
    a: Seq<Edit>,
    b: Seq<Edit>,
    op: OpId,
    top: int,
) -> bool {
    forall|o: OpId|
        o != op && o.0 < top ==> #[trigger] flow::slots(g, b, o) == flow::slots(g, a, o)
            && flow::code(g, b, o) == flow::code(g, a, o) && flow::output(g, b, o) == flow::output(
            g,
            a,
            o,
        )
}

/// The varnode is put together at `addr` in front of `op`: `hi` above, `lo`
/// below.
pub open spec fn pair_before(
    g: GraphView,
    edits: Seq<Edit>,
    p: OpId,
    v: VarnodeId,
    hi: VarnodeId,
    lo: VarnodeId,
    op: OpId,
    size: int,
    addr: Address,
) -> bool {
    &&& puts_together(g, edits, p, v, hi, lo)
    &&& flow::mover(edits, p) == Some(Edit::InsertBefore { op: p, at: op })
    &&& flow::maker(edits, v) == Some(
        Edit::NewVarnodeOut { vn: v, size: size as i32, addr, op: p },
    )
}

proof fn lemma_pair(
    g: GraphView,
    op: OpId,
    s: ScriptView,
    list: Seq<VarnodeId>,
    trials: Seq<ParamTrial>,
    joined: Address,
)
    requires
        op.0 < g.ops.len(),
        flow::numbered(g, s, 1, 1),
        list.len() == 3,
        trials.len() >= 2,
    ensures
        ({
            let t = recover::pair_returned(g, op, s, list, trials, joined);
            let r = flow::slots(g, t.edits, op);
            &&& r.len() == 2
            &&& r[0] == Some(list[0])
            &&& r[1] is Some
            &&& pair_before(
                g,
                t.edits,
                OpId(s.next_op),
                r[1]->0,
                list[2],
                list[1],
                op,
                trials[0].size + trials[1].size,
                joined,
            )
            &&& same_others(g, s.edits, t.edits, op, s.next_op as int)
            &&& t.next_op == s.next_op + 1
            &&& t.next_vn == s.next_vn + 1
        }),
{
    broadcast use flow::group_flow;

    let p = s.op();
    let s1 = s.new_op(2, g.op(op)->0.addr).set_opcode(p, OpCode::Piece);
    let w = s1.vn();
    let s2 = s1.new_varnode_out((trials[1].size + trials[0].size) as i32, joined, p).then_do(
        Edit::WriteMask { vn: w },
    ).then_do(Edit::InsertBefore { op: p, at: op });
    flow::law_inputs_replaced(g, s2, op, seq![list[0], w]);
}

proof fn lemma_parts(g: GraphView, op: OpId, trials: Seq<ParamTrial>, i: int, m: int)
    requires
        parts_there(g, op, trials, m),
        0 <= i <= m,
    ensures
        recover::used_inputs(g, op, trials, i) =~= parts(g, op, trials, m).subrange(i, m),
    decreases m - i,
{
    if i < m {
        assert(trials[i].flags.used);
        lemma_parts(g, op, trials, i + 1, m);
    } else if m < trials.len() {
        assert(!trials[m].flags.used);
    }
}

proof fn lemma_link(g: GraphView, op: OpId, v: VarnodeId, size: i32, c: Chain)
    requires
        c.so_far is Some,
        flow::numbered(g, c.script, 1, 1),
    ensures
        ({
            let d = recover::chain_link(g, op, v, size, c);
            &&& d.so_far is Some
            &&& puts_together(
                g,
                d.script.edits,
                OpId(c.script.next_op),
                (d.so_far->0).0,
                v,
                (c.so_far->0).0,
            )
            &&& d.script.next_op == c.script.next_op + 1
            &&& d.script.next_vn == c.script.next_vn + 1
            &&& d.next == (c.next + size) as i32
            &&& same_below(g, c.script.edits, d.script.edits, c.script.next_op as int)
        }),
{
    broadcast use flow::group_flow;

}

proof fn lemma_linked(
    g: GraphView,
    op: OpId,
    v: VarnodeId,
    size: i32,
    c: Chain,
    ps: Seq<VarnodeId>,
)
    requires
        c.so_far is Some,
        flow::numbered(g, c.script, 1, 1),
        ps.len() > 0,
        assembled(g, c.script.edits, (c.so_far->0).0, ps, c.script.next_op as int),
    ensures
        ({
            let d = recover::chain_link(g, op, v, size, c);
            assembled(g, d.script.edits, (d.so_far->0).0, ps.push(v), d.script.next_op as int)
        }),
{
    let d = recover::chain_link(g, op, v, size, c);
    lemma_link(g, op, v, size, c);
    let pre = (c.so_far->0).0;
    lemma_assembled_kept(
        g,
        c.script.edits,
        d.script.edits,
        pre,
        ps,
        c.script.next_op as int,
        d.script.next_op as int,
    );
    assert(ps.push(v).drop_last() =~= ps);
    assert(puts_together(
        g,
        d.script.edits,
        OpId(c.script.next_op),
        (d.so_far->0).0,
        ps.push(v).last(),
        pre,
    ));
}

proof fn lemma_same_chain(g: GraphView, a: Seq<Edit>, b: Seq<Edit>, c: Seq<Edit>, x: int, y: int)
    requires
        same_below(g, a, b, x),
        same_below(g, b, c, y),
        x <= y,
    ensures
        same_below(g, a, c, x),
{
    assert forall|p: OpId| p.0 < x implies #[trigger] flow::slots(g, c, p) == flow::slots(g, a, p)
        && flow::code(g, c, p) == flow::code(g, a, p) && flow::output(g, c, p) == flow::output(
        g,
        a,
        p,
    ) by {
        assert(flow::slots(g, b, p) == flow::slots(g, a, p));
        assert(flow::slots(g, c, p) == flow::slots(g, b, p));
    }
}

/// The first trial that does not follow the others ends the chain.
proof fn lemma_chain_ends(g: GraphView, op: OpId, trials: Seq<ParamTrial>, n: int, m: int, c: Chain)
    requires
        parts_there(g, op, trials, m),
        1 <= n <= m,
        n < m ==> trials[n].offset != c.next,
        c.so_far is Some,
    ensures
        recover::chained(g, op, trials, n, c) == c,
{
    if n < trials.len() {
        if n < m {
            assert(trials[n].flags.used);
        } else {
            assert(!trials[n].flags.used);
        }
    }
}

/// The next trial that follows the others is put above them.
proof fn lemma_chain_goes_on(
    g: GraphView,
    op: OpId,
    trials: Seq<ParamTrial>,
    i: int,
    m: int,
    c: Chain,
)
    requires
        parts_there(g, op, trials, m),
        1 <= i < m,
        trials[i].offset == c.next,
        c.so_far is Some,
    ensures
        recover::chained(g, op, trials, i, c) == recover::chained(
            g,
            op,
            trials,
            i + 1,
            recover::chain_link(
                g,
                op,
                g.ops[op.0 as int].inputs[trials[i].slot as int],
                trials[i].size,
                c,
            ),
        ),
{
    assert(trials[i].flags.used);
}

proof fn lemma_chain(
    g: GraphView,
    op: OpId,
    trials: Seq<ParamTrial>,
    i: int,
    n: int,
    m: int,
    c: Chain,
)
    requires
        parts_there(g, op, trials, m),
        1 <= i <= n <= m,
        in_a_row(trials, n),
        n < m ==> trials[n].offset != trials[n - 1].offset + trials[n - 1].size,
        c.so_far is Some,
        c.next == trials[i - 1].offset + trials[i - 1].size,
        flow::numbered(g, c.script, n - i, n - i),
        assembled(
            g,
            c.script.edits,
            (c.so_far->0).0,
            parts(g, op, trials, i),
            c.script.next_op as int,
        ),
    ensures
        ({
            let d = recover::chained(g, op, trials, i, c);
            &&& d.so_far is Some
            &&& assembled(
                g,
                d.script.edits,
                (d.so_far->0).0,
                parts(g, op, trials, n),
                d.script.next_op as int,
            )
            &&& c.script.next_op <= d.script.next_op <= c.script.next_op + (n - i)
            &&& c.script.next_vn <= d.script.next_vn <= c.script.next_vn + (n - i)
            &&& same_below(g, c.script.edits, d.script.edits, c.script.next_op as int)
        }),
    decreases n - i,
{
    if i < n {
        let t = trials[i];
        let v = g.ops[op.0 as int].inputs[t.slot as int];
        assert(trials[i].offset == trials[i - 1].offset + trials[i - 1].size);
        let d = recover::chain_link(g, op, v, t.size, c);
        let ps = parts(g, op, trials, i);
        lemma_link(g, op, v, t.size, c);
        lemma_linked(g, op, v, t.size, c, ps);
        assert(parts(g, op, trials, i + 1) =~= ps.push(v));
        lemma_chain_goes_on(g, op, trials, i, m, c);
        lemma_chain(g, op, trials, i + 1, n, m, d);
        let r = recover::chained(g, op, trials, i, c);
        lemma_same_chain(
            g,
            c.script.edits,
            d.script.edits,
            r.script.edits,
            c.script.next_op as int,
            d.script.next_op as int,
        );
    } else {
        lemma_chain_ends(g, op, trials, n, m, c);
    }
}

/// A return whose value has `m` parts returns them as one value. No part: it
/// returns nothing. One part, or a single value asked for: it returns the
/// first. Two parts: it returns them put together at `joined`, the second
/// above the first, or the first alone without such an address. More: it
/// returns the first `n` put together, each above the ones before it, as far
/// as they follow each other in their entry. No other operation changes.
pub proof fn law_parts_returned(
    g: GraphView,
    op: OpId,
    s: ScriptView,
    trials: Seq<ParamTrial>,
    single: bool,
    joined: Option<Address>,
    m: int,
    n: int,
)
    requires
        parts_there(g, op, trials, m),
        flow::numbered(g, s, m, m),
        m > 2 ==> 1 <= n <= m && in_a_row(trials, n) && (n < m ==> trials[n].offset != trials[n
            - 1].offset + trials[n - 1].size),
    ensures
        ({
            let t = recover::output_returned(g, op, s, trials, single, joined);
            let ins = g.ops[op.0 as int].inputs;
            let r = flow::slots(g, t.edits, op);
            &&& r.len() == (if m == 0 {
                1int
            } else {
                2int
            })
            &&& r[0] == Some(ins[0])
            &&& m == 1 || (m > 1 && single) || (m == 2 && joined is None) ==> r[1] == Some(
                ins[trials[0].slot as int],
            )
            &&& m == 2 && !single && joined is Some ==> {
                &&& r[1] is Some
                &&& exists|p: OpId| #[trigger]
                    pair_before(
                        g,
                        t.edits,
                        p,
                        r[1]->0,
                        ins[trials[1].slot as int],
                        ins[trials[0].slot as int],
                        op,
                        trials[0].size + trials[1].size,
                        joined->0,
                    )
            }
            &&& m > 2 && !single ==> r[1] is Some && assembled(
                g,
                t.edits,
                r[1]->0,
                parts(g, op, trials, n),
                t.next_op as int,
            )
            &&& same_others(g, s.edits, t.edits, op, s.next_op as int)
            &&& s.next_op <= t.next_op <= s.next_op + m
            &&& s.next_vn <= t.next_vn <= s.next_vn + m
        }),
{
    let ins = g.ops[op.0 as int].inputs;
    lemma_list(g, op, trials, m);
    let list = seq![ins[0]] + parts(g, op, trials, m);
    let cut = recover::cut_to_single(list, single);
    if cut.len() <= 2 {
        flow::law_inputs_replaced(g, s, op, cut);
    } else if cut.len() == 3 {
        if joined is Some {
            lemma_pair(g, op, s, cut, trials, joined->0);
            let t = recover::output_returned(g, op, s, trials, single, joined);
            assert(pair_before(
                g,
                t.edits,
                OpId(s.next_op),
                flow::slots(g, t.edits, op)[1]->0,
                ins[trials[1].slot as int],
                ins[trials[0].slot as int],
                op,
                trials[0].size + trials[1].size,
                joined->0,
            ));
        } else {
            flow::law_inputs_replaced(g, s, op, cut.take(2));
        }
    } else {
        lemma_many(g, op, s, trials, m, n);
    }
}

/// The inputs that a return is given are its first one and the parts.
proof fn lemma_list(g: GraphView, op: OpId, trials: Seq<ParamTrial>, m: int)
    requires
        parts_there(g, op, trials, m),
    ensures
        recover::input_list(g, op, 0) + recover::used_inputs(g, op, trials, 0) == seq![
            g.ops[op.0 as int].inputs[0],
        ] + parts(g, op, trials, m),
{
    lemma_parts(g, op, trials, 0, m);
    let ps = parts(g, op, trials, m);
    assert(ps.subrange(0, m) =~= ps);
    assert(recover::input_list(g, op, 0) + recover::used_inputs(g, op, trials, 0) =~= seq![
        g.ops[op.0 as int].inputs[0],
    ] + ps);
}

/// More than two parts put together.
proof fn lemma_many(
    g: GraphView,
    op: OpId,
    s: ScriptView,
    trials: Seq<ParamTrial>,
    m: int,
    n: int,
)
    requires
        parts_there(g, op, trials, m),
        flow::numbered(g, s, m, m),
        m > 2,
        1 <= n <= m,
        in_a_row(trials, n),
        n < m ==> trials[n].offset != trials[n - 1].offset + trials[n - 1].size,
    ensures
        ({
            let c = recover::chained(g, op, trials, 0, Chain { so_far: None, next: 0, script: s });
            let in0 = g.ops[op.0 as int].inputs[0];
            &&& c.so_far is Some
            &&& ({
                let w = (c.so_far->0).0;
                let t = c.script.set_all_input(op, recover::input_list(g, op, 0) + seq![w]);
                &&& flow::slots(g, t.edits, op) =~= seq![Some(in0), Some(w)]
                &&& assembled(g, t.edits, w, parts(g, op, trials, n), t.next_op as int)
                &&& same_others(g, s.edits, t.edits, op, s.next_op as int)
                &&& s.next_op <= t.next_op <= s.next_op + m
                &&& s.next_vn <= t.next_vn <= s.next_vn + m
            })
        }),
{
    let ins = g.ops[op.0 as int].inputs;
    assert(trials[0].flags.used);
    let v = ins[trials[0].slot as int];
    let c0 = Chain { so_far: None, next: 0, script: s };
    let c1 = Chain {
        so_far: Some((v, g.vn(v)->0.addr, g.vn(v)->0.size)),
        next: (trials[0].offset + trials[0].size) as i32,
        ..c0
    };
    assert(parts(g, op, trials, 1)[0] == v);
    lemma_chain(g, op, trials, 1, n, m, c1);
    let d = recover::chained(g, op, trials, 0, c0);
    assert(d == recover::chained(g, op, trials, 1, c1));
    let w = (d.so_far->0).0;
    let vns = recover::input_list(g, op, 0) + seq![w];
    assert(vns =~= seq![ins[0], w]);
    flow::law_inputs_replaced(g, d.script, op, vns);
    lemma_kept_apart(g, op, d.script, vns, w, parts(g, op, trials, n));
    let t = d.script.set_all_input(op, vns);
    assert forall|o: OpId| o != op && o.0 < s.next_op implies #[trigger] flow::slots(g, t.edits, o)
        == flow::slots(g, s.edits, o) && flow::code(g, t.edits, o) == flow::code(g, s.edits, o)
        && flow::output(g, t.edits, o) == flow::output(g, s.edits, o) by {
        assert(flow::slots(g, t.edits, o) == flow::slots(g, d.script.edits, o));
        assert(flow::slots(g, d.script.edits, o) == flow::slots(g, s.edits, o));
    }
}

/// Giving `op`, which is none of the operations that put a value together, new
/// inputs leaves the value.
proof fn lemma_kept_apart(
    g: GraphView,
    op: OpId,
    s: ScriptView,
    vns: Seq<VarnodeId>,
    v: VarnodeId,
    ps: Seq<VarnodeId>,
)
    requires
        op.0 < g.ops.len(),
        vns.len() <= i32::MAX,
        assembled(g, s.edits, v, ps, s.next_op as int),
    ensures
        assembled(g, s.set_all_input(op, vns).edits, v, ps, s.next_op as int),
    decreases ps.len(),
{
    flow::law_inputs_replaced(g, s, op, vns);
    let e = s.set_all_input(op, vns).edits;
    if ps.len() > 1 {
        let (p, low) = choose|p: OpId, low: VarnodeId|
            g.ops.len() <= p.0 < s.next_op && #[trigger] puts_together(g, s.edits, p, v, ps.last(), low)
                && assembled(g, s.edits, low, ps.drop_last(), s.next_op as int);
        lemma_kept_apart(g, op, s, vns, low, ps.drop_last());
        assert(p != op);
        assert(puts_together(g, e, p, v, ps.last(), low));
    }
}

/// The return `op` has the value of the parts that its own inputs give, as far
/// as there are at most two.
pub open spec fn value_right(
    g: GraphView,
    edits: Seq<Edit>,
    op: OpId,
    trials: Seq<ParamTrial>,
    single: bool,
    joined: Option<Address>,
    m: int,
    top: int,
) -> bool {
    let ins = g.ops[op.0 as int].inputs;
    let r = flow::slots(g, edits, op);
    &&& r.len() == (if m == 0 {
        1int
    } else {
        2int
    })
    &&& r[0] == Some(ins[0])
    &&& m == 1 || (m > 1 && single) || (m == 2 && joined is None) ==> r[1] == Some(
        ins[trials[0].slot as int],
    )
    &&& m == 2 && !single && joined is Some ==> r[1] is Some && exists|p: OpId|
        g.ops.len() <= p.0 < top && #[trigger] puts_together(
            g,
            edits,
            p,
            r[1]->0,
            ins[trials[1].slot as int],
            ins[trials[0].slot as int],
        )
}

proof fn lemma_value_kept(
    g: GraphView,
    a: Seq<Edit>,
    b: Seq<Edit>,
    op: OpId,
    other: OpId,
    trials: Seq<ParamTrial>,
    single: bool,
    joined: Option<Address>,
    m: int,
    top: int,
    top2: int,
)
    requires
        value_right(g, a, op, trials, single, joined, m, top),
        same_others(g, a, b, other, top),
        op.0 < g.ops.len() <= top <= top2,
        other.0 < g.ops.len(),
        op != other,
    ensures
        value_right(g, b, op, trials, single, joined, m, top2),
{
    let ins = g.ops[op.0 as int].inputs;
    assert(flow::slots(g, b, op) == flow::slots(g, a, op));
    if m == 2 && !single && joined is Some {
        let r = flow::slots(g, a, op);
        let p = choose|p: OpId|
            g.ops.len() <= p.0 < top && #[trigger] puts_together(
                g,
                a,
                p,
                r[1]->0,
                ins[trials[1].slot as int],
                ins[trials[0].slot as int],
            );
        assert(flow::slots(g, b, p) == flow::slots(g, a, p));
        assert(puts_together(
            g,
            b,
            p,
            r[1]->0,
            ins[trials[1].slot as int],
            ins[trials[0].slot as int],
        ));
    }
}

/// Every return of the function that is alive returns the value of its own
/// inputs in the slots of the parts, as far as there are at most two parts,
/// and one that is dead or halts is left alone.
pub proof fn law_every_return(
    g: GraphView,
    retops: Seq<OpId>,
    n: int,
    s: ScriptView,
    trials: Seq<ParamTrial>,
    single: bool,
    joined: Option<Address>,
    m: int,
)
    requires
        0 <= n <= retops.len(),
        0 <= m <= 2,
        flow::numbered(g, s, 2 * n, 2 * n),
        forall|k: int| 0 <= k < n ==> parts_there(g, #[trigger] retops[k], trials, m),
        forall|j: int, k: int| 0 <= j < k < n ==> #[trigger] retops[j] != #[trigger] retops[k],
    ensures
        ({
            let t = recover::all_returned(g, retops, n, s, trials, single, joined);
            &&& forall|k: int|
                0 <= k < n ==> if !g.ops[(#[trigger] retops[k]).0 as int].dead
                    && !g.ops[retops[k].0 as int].halt {
                    value_right(
                        g,
                        t.edits,
                        retops[k],
                        trials,
                        single,
                        joined,
                        m,
                        t.next_op as int,
                    )
                } else {
                    flow::slots(g, t.edits, retops[k]) == flow::slots(g, s.edits, retops[k])
                }
            &&& s.next_op <= t.next_op <= s.next_op + 2 * n
            &&& s.next_vn <= t.next_vn <= s.next_vn + 2 * n
            &&& forall|o: OpId|
                o.0 < s.next_op && !retops.take(n).contains(o) ==> #[trigger] flow::slots(
                    g,
                    t.edits,
                    o,
                ) == flow::slots(g, s.edits, o)
        }),
    decreases n,
{
    if n > 0 {
        law_every_return(g, retops, n - 1, s, trials, single, joined, m);
        let u = recover::all_returned(g, retops, n - 1, s, trials, single, joined);
        let t = recover::all_returned(g, retops, n, s, trials, single, joined);
        let op = retops[n - 1];
        assert(parts_there(g, op, trials, m));
        assert(retops.take(n) =~= retops.take(n - 1).push(op));
        assert(!retops.take(n - 1).contains(op)) by {
            if retops.take(n - 1).contains(op) {
                let j = retops.take(n - 1).index_of(op);
                assert(retops[j] == op);
            }
        }
        assert forall|o: OpId| retops.take(n - 1).contains(o) implies #[trigger] retops.take(
            n,
        ).contains(o) by {
            let j = retops.take(n - 1).index_of(o);
            assert(retops.take(n)[j] == o);
        }
        assert(retops.take(n)[n - 1] == op);
        let live = !g.ops[op.0 as int].dead && !g.ops[op.0 as int].halt;
        assert(live == forced::live_return(g, op));
        if live {
            law_parts_returned(g, op, u, trials, single, joined, m, 0);
            lemma_value_new(g, u, op, trials, single, joined, m);
            assert forall|k: int| 0 <= k < n - 1 && !g.ops[(#[trigger] retops[k]).0 as int].dead
                && !g.ops[retops[k].0 as int].halt implies value_right(
                g,
                t.edits,
                retops[k],
                trials,
                single,
                joined,
                m,
                t.next_op as int,
            ) by {
                assert(retops[k] != retops[n - 1]);
                assert(parts_there(g, retops[k], trials, m));
                lemma_value_kept(
                    g,
                    u.edits,
                    t.edits,
                    retops[k],
                    op,
                    trials,
                    single,
                    joined,
                    m,
                    u.next_op as int,
                    t.next_op as int,
                );
            }
            assert forall|k: int| 0 <= k < n - 1 && (g.ops[(#[trigger] retops[k]).0 as int].dead
                || g.ops[retops[k].0 as int].halt) implies flow::slots(g, t.edits, retops[k])
                == flow::slots(g, s.edits, retops[k]) by {
                assert(retops[k] != retops[n - 1]);
                assert(parts_there(g, retops[k], trials, m));
                assert(flow::slots(g, t.edits, retops[k]) == flow::slots(g, u.edits, retops[k]));
            }
            assert forall|o: OpId| o.0 < s.next_op && !retops.take(n).contains(o) implies
                #[trigger] flow::slots(g, t.edits, o) == flow::slots(g, s.edits, o) by {
                assert(o != op);
                assert(flow::slots(g, t.edits, o) == flow::slots(g, u.edits, o));
                assert(flow::slots(g, u.edits, o) == flow::slots(g, s.edits, o));
            }
        }
    }
}

/// What a return is given, put as above.
proof fn lemma_value_new(
    g: GraphView,
    s: ScriptView,
    op: OpId,
    trials: Seq<ParamTrial>,
    single: bool,
    joined: Option<Address>,
    m: int,
)
    requires
        parts_there(g, op, trials, m),
        flow::numbered(g, s, 2, 2),
        0 <= m <= 2,
    ensures
        ({
            let t = recover::output_returned(g, op, s, trials, single, joined);
            value_right(g, t.edits, op, trials, single, joined, m, t.next_op as int)
        }),
{
    law_parts_returned(g, op, s, trials, single, joined, m, 0);
    lemma_list(g, op, trials, m);
    if m == 2 && !single && joined is Some {
        let ins = g.ops[op.0 as int].inputs;
        let cut = seq![ins[0]] + parts(g, op, trials, m);
        lemma_pair(g, op, s, cut, trials, joined->0);
        let t = recover::output_returned(g, op, s, trials, single, joined);
        assert(t == recover::pair_returned(g, op, s, cut, trials, joined->0));
        assert(puts_together(
            g,
            t.edits,
            OpId(s.next_op),
            flow::slots(g, t.edits, op)[1]->0,
            ins[trials[1].slot as int],
            ins[trials[0].slot as int],
        ));
    }
}

/// Looking into the values of a trial at the returns of a function: it becomes
/// active where the origin of the value speaks for it and the value is used
/// nowhere else, and not otherwise.
pub proof fn law_return_trial_judged(a: Ancestry)
    ensures
        ({
            let t = recover::return_judged(a);
            &&& t.addr == a.trial.addr
            &&& t.size == a.trial.size
            &&& t.slot == a.trial.slot
            &&& t.flags.used == a.trial.flags.used
            &&& (a.realistic || a.solid) && a.only ==> t.flags.active && t.flags.checked
            &&& !((a.realistic || a.solid) && a.only) ==> t == a.trial
        }),
{
}

} // verus!
