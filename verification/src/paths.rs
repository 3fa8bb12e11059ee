//! Execution paths through a callee, one byte at a time, and what a walk shows
//! of all of them.
use crate::byteset;
use crate::opcode::OpCode;
use crate::probe;
use crate::probe::{CodeView, EmitView, FrameView, InsView, RawView, WalkView};
use crate::space::{AddrSpace, Address};
use vstd::prelude::*;

verus! {

impl RawView {
    /// Does the operation read byte `b` of the register space.
    pub open spec fn reads_byte(self, reg: i32, b: u64) -> bool {
        exists|i: int|
            0 <= i < self.ins.len() && !probe::skipped(self.opc, i) && probe::in_space(
                #[trigger] self.ins[i],
                reg,
            ) && self.ins[i].offset <= b < self.ins[i].offset + self.ins[i].size
    }

    /// Does the operation write byte `b` of the register space.
    pub open spec fn writes_byte(self, reg: i32, b: u64) -> bool {
        self.writes(reg) matches Some(o) && o.offset <= b < o.offset + o.size
    }
}

/// What an instruction does to one byte: whether the byte is written when it
/// is done, whether it was read before it was written, whether the path ends,
/// and where it goes otherwise.
#[verifier::ext_equal]
pub struct ByteRun {
    pub written: bool,
    pub early: bool,
    pub ended: bool,
    pub targets: Seq<Address>,
    pub falls: bool,
}

impl EmitView {
    /// What the first `n` operations do to byte `b`, when `before` says
    /// whether it is written before them. Within an instruction that branches
    /// inside itself any operation may be left out: none of its writes counts.
    pub open spec fn byte_run(self, n: int, reg: i32, b: u64, before: bool) -> ByteRun
        decreases n,
    {
        if n <= 0 || n > self.ops.len() {
            ByteRun {
                written: before,
                early: false,
                ended: false,
                targets: Seq::empty(),
                falls: true,
            }
        } else {
            let p = self.byte_run(n - 1, reg, b, before);
            let op = self.ops[n - 1];
            if p.ended {
                p
            } else {
                let early = p.early || (op.reads_byte(reg, b) && !(if self.internal_flow {
                    before
                } else {
                    p.written
                }));
                if op.ends_path(reg) {
                    ByteRun { early, ended: true, ..p }
                } else {
                    ByteRun {
                        written: p.written || (!self.internal_flow && op.writes_byte(reg, b)),
                        early,
                        ended: false,
                        targets: match op.target() {
                            Some(t) => p.targets.push(t),
                            None => p.targets,
                        },
                        falls: p.falls && !(op.target() is Some && op.opc == OpCode::Branch),
                    }
                }
            }
        }
    }
}

impl CodeView {
    /// The instruction at an address that can be followed.
    pub open spec fn decoded(self, at: Address) -> Option<InsView> {
        match self.at(at) {
            Some(i) => if i.len > 0 {
                Some(i)
            } else {
                None
            },
            None => None,
        }
    }

    /// What the instruction at an address does to byte `b`.
    pub open spec fn run_at(self, at: Address, reg: i32, b: u64, before: bool) -> ByteRun {
        let e = self.decoded(at).unwrap().emit;
        e.byte_run(e.ops.len() as int, reg, b, before)
    }

    /// Can control go from the instruction at `from` to `to`.
    pub open spec fn flows(self, from: Address, to: Address, reg: i32) -> bool {
        self.decoded(from) matches Some(i) && {
            let r = self.run_at(from, reg, 0, false);
            !r.ended && (r.targets.contains(to) || (r.falls && to == from.plus(i.len as int)))
        }
    }

    /// Is byte `b` written before the `k`-th instruction of a path.
    pub open spec fn written_before(self, path: Seq<Address>, k: int, reg: i32, b: u64) -> bool
        decreases k,
    {
        if k <= 0 {
            false
        } else {
            self.run_at(path[k - 1], reg, b, self.written_before(path, k - 1, reg, b)).written
        }
    }

    /// A path that control can take from `entry`.
    pub open spec fn is_path(self, entry: Address, path: Seq<Address>, reg: i32) -> bool {
        &&& path.len() > 0
        &&& path[0] == entry
        &&& forall|k: int|
            0 <= k < path.len() - 1 ==> self.flows(#[trigger] path[k], path[k + 1], reg)
    }

    /// The addresses of the code lie in the spaces that their indices name.
    pub open spec fn placed(self, spaces: spec_fn(i32) -> AddrSpace) -> bool {
        forall|i: int, j: int|
            #![trigger self.instructions[i].1.emit.ops[j]]
            0 <= i < self.instructions.len() && 0 <= j < self.instructions[i].1.emit.ops.len()
                ==> (self.instructions[i].1.emit.ops[j].target() matches Some(t) ==> placed(
                t,
                spaces,
            ))
    }
}

/// The address lies in the space that its index names.
pub open spec fn placed(a: Address, spaces: spec_fn(i32) -> AddrSpace) -> bool {
    a.space matches Some(s) && spaces(s.index) == s
}

/// Every byte that an operation reads while it is not written is in a range
/// that is recorded.
proof fn lemma_early_reads_cover(op: RawView, n: int, reg: i32, base: Set<(i32, u64)>, b: u64, i: int)
    requires
        0 <= i < n <= op.ins.len(),
        op.ranged(),
        !probe::skipped(op.opc, i),
        probe::in_space(op.ins[i], reg),
        op.ins[i].offset <= b < op.ins[i].offset + op.ins[i].size,
        !base.contains((reg, b)),
    ensures
        op.early_reads(n, reg, base).contains(
            (reg, op.ins[i].offset, op.ins[i].size as i32),
        ),
    decreases n,
{
    let x = (reg, op.ins[i].offset, op.ins[i].size as i32);
    let before = op.early_reads(n - 1, reg, base);
    let now = op.early_reads(n, reg, base);
    if i == n - 1 {
        assert(byteset::span(reg, op.ins[i].offset, op.ins[i].size as int).contains((reg, b)));
        assert(op.reads_early(i, reg, base));
        assert(now[now.len() - 1] == x);
    } else {
        lemma_early_reads_cover(op, n - 1, reg, base, b, i);
        let k = choose|k: int| 0 <= k < before.len() && before[k] == x;
        assert(now[k] == x);
    }
}

/// Does one of the ranges hold byte `b`.
spec fn some_holds(reads: Seq<(i32, u64, i32)>, reg: i32, b: u64) -> bool {
    exists|k: int| 0 <= k < reads.len() && holds(#[trigger] reads[k], reg, b)
}

spec fn holds(read: (i32, u64, i32), reg: i32, b: u64) -> bool {
    read.0 == reg && read.1 <= b < read.1 + read.2
}

/// An instruction followed with fewer bytes written shows whatever it does to
/// a byte.
proof fn lemma_step_covers(
    e: EmitView,
    n: int,
    reg: i32,
    incoming: Set<(i32, u64)>,
    b: u64,
    before: bool,
)
    requires
        e.wf(),
        0 <= n <= e.ops.len(),
        incoming.contains((reg, b)) ==> before,
        !(e.steps(n, reg, incoming).outcome is TooMany),
    ensures
        ({
            let s = e.steps(n, reg, incoming);
            let r = e.byte_run(n, reg, b, before);
            &&& s.written.contains((reg, b)) ==> r.written
            &&& r.early ==> some_holds(s.reads, reg, b)
            &&& r.ended == (s.outcome is Ends)
            &&& r.targets == s.targets
            &&& r.falls == s.falls
        }),
    decreases n,
{
    if n > 0 {
        let s0 = e.steps(n - 1, reg, incoming);
        let s = e.steps(n, reg, incoming);
        lemma_step_covers(e, n - 1, reg, incoming, b, before);
        let r0 = e.byte_run(n - 1, reg, b, before);
        let r = e.byte_run(n, reg, b, before);
        let op = e.ops[n - 1];
        assert(op.ranged());
        if s0.outcome is Goes {
            let base = if e.internal_flow {
                incoming
            } else {
                s0.written
            };
            let more = op.early_reads(op.ins.len() as int, reg, base);
            assert(s.reads == s0.reads + more);
            if r0.early {
                let k = choose|k: int| 0 <= k < s0.reads.len() && holds(#[trigger] s0.reads[k], reg, b);
                assert(s.reads[k] == s0.reads[k]);
                assert(some_holds(s.reads, reg, b));
            } else if r.early {
                assert(!base.contains((reg, b)));
                let i = choose|i: int|
                    0 <= i < op.ins.len() && !probe::skipped(op.opc, i) && probe::in_space(
                        #[trigger] op.ins[i],
                        reg,
                    ) && op.ins[i].offset <= b < op.ins[i].offset + op.ins[i].size;
                lemma_early_reads_cover(op, op.ins.len() as int, reg, base, b, i);
                let x = (reg, op.ins[i].offset, op.ins[i].size as i32);
                let k = choose|k: int| 0 <= k < more.len() && more[k] == x;
                assert(probe::ranged(op.ins[i]));
                assert(s.reads[s0.reads.len() + k] == x);
                assert(holds(s.reads[s0.reads.len() + k], reg, b));
                assert(some_holds(s.reads, reg, b));
            }
            match op.writes(reg) {
                Some(o) => {
                    assert(byteset::span(reg, o.offset, o.size as int).contains((reg, b))
                        == op.writes_byte(reg, b));
                },
                None => {},
            }
        }
    }
}

/// Where an instruction goes does not depend on the byte that is watched.
proof fn lemma_flow_alike(e: EmitView, n: int, reg: i32, b: u64, before: bool, c: u64, prior: bool)
    ensures
        e.byte_run(n, reg, b, before).ended == e.byte_run(n, reg, c, prior).ended,
        e.byte_run(n, reg, b, before).targets == e.byte_run(n, reg, c, prior).targets,
        e.byte_run(n, reg, b, before).falls == e.byte_run(n, reg, c, prior).falls,
    decreases n,
{
    if n > 0 && n <= e.ops.len() {
        lemma_flow_alike(e, n - 1, reg, b, before, c, prior);
    }
}

/// Is a frame followed, with no more bytes written, or still to be followed.
spec fn accounted(w: WalkView, done: Set<FrameView>, g: FrameView) -> bool {
    ||| exists|d: FrameView| #[trigger]
        done.contains(d) && d.at == g.at && d.written.subset_of(g.written)
    ||| w.todo.contains(g)
    ||| w.pending == Some(g)
}

/// The outcome of the walk holds what was shown at a frame that was followed.
spec fn handled(w: WalkView, done: Set<FrameView>, code: CodeView, f: FrameView) -> bool {
    match code.decoded(f.at) {
        Some(i) => {
            let s = i.emit.step(w.dead.reg_idx, f.written);
            &&& !(s.outcome is TooMany)
            &&& forall|k: int| 0 <= k < s.reads.len() ==> w.dead.reads.contains(#[trigger] s.reads[k])
            &&& s.outcome is Ends ==> w.dead.cuts.contains(s.written)
            &&& forall|k: int|
                0 <= k < s.frames(f.at, i.len as int).len() ==> accounted(
                    w,
                    done,
                    #[trigger] s.frames(f.at, i.len as int)[k],
                )
        },
        None => w.dead.cuts.contains(f.written),
    }
}

/// The frame at which an address was last followed.
spec fn visit(w: WalkView, key: (i32, u64), spaces: spec_fn(i32) -> AddrSpace) -> FrameView {
    FrameView {
        at: Address { space: Some(spaces(key.0)), offset: key.1 },
        written: w.visited[key],
    }
}

/// What holds throughout a walk that is not given up.
spec fn sound(
    w: WalkView,
    done: Set<FrameView>,
    code: CodeView,
    entry: Address,
    spaces: spec_fn(i32) -> AddrSpace,
) -> bool {
    &&& w.dead.complete
    &&& forall|i: int| 0 <= i < w.todo.len() ==> placed((#[trigger] w.todo[i]).at, spaces)
    &&& w.pending matches Some(f) ==> placed(f.at, spaces)
    &&& forall|key: (i32, u64)| #[trigger]
        w.visited.dom().contains(key) ==> done.contains(visit(w, key, spaces)) || w.pending == Some(
            visit(w, key, spaces),
        )
    &&& forall|f: FrameView| #[trigger] done.contains(f) ==> handled(w, done, code, f)
    &&& accounted(w, done, FrameView { at: entry, written: Set::empty() })
}

/// A frame that is taken from those to be followed stays accounted for.
proof fn lemma_accounted_taken(
    w: WalkView,
    done: Set<FrameView>,
    g: FrameView,
    after: WalkView,
    done2: Set<FrameView>,
)
    requires
        accounted(w, done, g),
        forall|d: FrameView| #[trigger] done.contains(d) ==> done2.contains(d),
        forall|i: int|
            0 <= i < w.todo.len() ==> accounted(after, done2, #[trigger] w.todo[i]),
        w.pending matches Some(f) ==> accounted(after, done2, f),
    ensures
        accounted(after, done2, g),
{
    if exists|d: FrameView| #[trigger]
        done.contains(d) && d.at == g.at && d.written.subset_of(g.written) {
        let d = choose|d: FrameView| #[trigger]
            done.contains(d) && d.at == g.at && d.written.subset_of(g.written);
        assert(done2.contains(d));
    } else if w.todo.contains(g) {
        let i = choose|i: int| 0 <= i < w.todo.len() && w.todo[i] == g;
        assert(accounted(after, done2, w.todo[i]));
    }
}

/// Frames that were followed stay handled while the outcome grows.
proof fn lemma_handled_kept(
    w: WalkView,
    done: Set<FrameView>,
    code: CodeView,
    f: FrameView,
    after: WalkView,
    done2: Set<FrameView>,
)
    requires
        handled(w, done, code, f),
        after.dead.reg_idx == w.dead.reg_idx,
        forall|x: (i32, u64, i32)| #[trigger]
            w.dead.reads.contains(x) ==> after.dead.reads.contains(x),
        forall|x: Set<(i32, u64)>| #[trigger]
            w.dead.cuts.contains(x) ==> after.dead.cuts.contains(x),
        forall|d: FrameView| #[trigger] done.contains(d) ==> done2.contains(d),
        forall|i: int|
            0 <= i < w.todo.len() ==> accounted(after, done2, #[trigger] w.todo[i]),
        w.pending matches Some(f) ==> accounted(after, done2, f),
    ensures
        handled(after, done2, code, f),
{
    match code.decoded(f.at) {
        Some(i) => {
            let s = i.emit.step(w.dead.reg_idx, f.written);
            let fr = s.frames(f.at, i.len as int);
            assert forall|k: int| 0 <= k < fr.len() implies accounted(
                after,
                done2,
                #[trigger] fr[k],
            ) by {
                assert(accounted(w, done, fr[k]));
                lemma_accounted_taken(w, done, fr[k], after, done2);
            }
            assert forall|k: int| 0 <= k < s.reads.len() implies after.dead.reads.contains(
                #[trigger] s.reads[k],
            ) by {
                assert(w.dead.reads.contains(s.reads[k]));
            }
        },
        None => {},
    }
}

/// Going on to the next instruction keeps what holds throughout a walk.
proof fn lemma_asking_sound(
    w: WalkView,
    done: Set<FrameView>,
    code: CodeView,
    entry: Address,
    spaces: spec_fn(i32) -> AddrSpace,
)
    requires
        sound(w, done, code, entry, spaces),
        w.pending is None,
    ensures
        w.asking().dead.complete ==> sound(w.asking(), done, code, entry, spaces),
        w.asking().pending is None ==> w.asking().todo.len() == 0,
    decreases w.todo.len(),
{
    if w.todo.len() > 0 {
        let f = w.todo.last();
        let rest = WalkView { todo: w.todo.drop_last(), ..w };
        assert(placed(w.todo[w.todo.len() - 1].at, spaces));
        let sp = f.at.space.unwrap();
        let key = (sp.index, f.at.offset);
        let root = FrameView { at: entry, written: Set::empty() };
        if w.covered(key, f.written) {
            let d = visit(w, key, spaces);
            assert(w.visited.dom().contains(key));
            assert(done.contains(d));
            assert(d.at == f.at);
            assert(accounted(rest, done, f));
            assert forall|i: int| 0 <= i < w.todo.len() implies accounted(
                rest,
                done,
                #[trigger] w.todo[i],
            ) by {
                if i < w.todo.len() - 1 {
                    assert(rest.todo[i] == w.todo[i]);
                }
            }
            assert forall|i: int| 0 <= i < rest.todo.len() implies placed(
                (#[trigger] rest.todo[i]).at,
                spaces,
            ) by {
                assert(rest.todo[i] == w.todo[i]);
            }
            assert forall|k: (i32, u64)| #[trigger] rest.visited.dom().contains(k) implies (
            done.contains(visit(rest, k, spaces)) || rest.pending == Some(
                visit(rest, k, spaces),
            )) by {
                assert(visit(rest, k, spaces) == visit(w, k, spaces));
                assert(w.visited.dom().contains(k));
            }
            assert forall|x: FrameView| #[trigger] done.contains(x) implies handled(
                rest,
                done,
                code,
                x,
            ) by {
                lemma_handled_kept(w, done, code, x, rest, done);
            }
            lemma_accounted_taken(w, done, root, rest, done);
            lemma_asking_sound(rest, done, code, entry, spaces);
        } else if w.asking().dead.complete {
            let a = w.asking();
            assert(a.pending == Some(f));
            assert forall|i: int| 0 <= i < w.todo.len() implies accounted(
                a,
                done,
                #[trigger] w.todo[i],
            ) by {
                if i < w.todo.len() - 1 {
                    assert(a.todo[i] == w.todo[i]);
                }
            }
            assert forall|i: int| 0 <= i < a.todo.len() implies placed(
                (#[trigger] a.todo[i]).at,
                spaces,
            ) by {
                assert(a.todo[i] == w.todo[i]);
            }
            assert forall|k: (i32, u64)| #[trigger] a.visited.dom().contains(k) implies (
            done.contains(visit(a, k, spaces)) || a.pending == Some(visit(a, k, spaces))) by {
                if k == key {
                    assert(visit(a, k, spaces) == f);
                } else {
                    assert(w.visited.dom().contains(k));
                    assert(visit(a, k, spaces) == visit(w, k, spaces));
                }
            }
            assert forall|x: FrameView| #[trigger] done.contains(x) implies handled(
                a,
                done,
                code,
                x,
            ) by {
                lemma_handled_kept(w, done, code, x, a, done);
            }
            lemma_accounted_taken(w, done, root, a, done);
        }
    }
}

/// An instruction that is found is one of the code.
proof fn lemma_found(code: CodeView, at: Address, i: int) -> (k: int)
    requires
        0 <= i,
        code.find(at, i) is Some,
    ensures
        0 <= k < code.instructions.len(),
        code.find(at, i) == Some(code.instructions[k].1),
    decreases code.instructions.len() - i,
{
    if code.instructions[i].0 == at {
        i
    } else {
        lemma_found(code, at, i + 1)
    }
}

/// Every target of an instruction is the target of one of its operations.
proof fn lemma_targets_placed(
    e: EmitView,
    n: int,
    reg: i32,
    incoming: Set<(i32, u64)>,
    spaces: spec_fn(i32) -> AddrSpace,
)
    requires
        0 <= n <= e.ops.len(),
        forall|j: int|
            0 <= j < e.ops.len() ==> ((#[trigger] e.ops[j]).target() matches Some(t) ==> placed(
                t,
                spaces,
            )),
    ensures
        forall|k: int|
            0 <= k < e.steps(n, reg, incoming).targets.len() ==> placed(
                #[trigger] e.steps(n, reg, incoming).targets[k],
                spaces,
            ),
    decreases n,
{
    if n > 0 {
        lemma_targets_placed(e, n - 1, reg, incoming, spaces);
        let s0 = e.steps(n - 1, reg, incoming);
        let s = e.steps(n, reg, incoming);
        let op = e.ops[n - 1];
        assert forall|k: int| 0 <= k < s.targets.len() implies placed(
            #[trigger] s.targets[k],
            spaces,
        ) by {
            if k < s0.targets.len() {
                assert(s.targets[k] == s0.targets[k]);
            } else {
                assert(op.target() == Some(s.targets[k]));
            }
        }
    }
}

/// Following an instruction keeps what holds throughout a walk.
proof fn lemma_answered_sound(
    w: WalkView,
    done: Set<FrameView>,
    code: CodeView,
    entry: Address,
    spaces: spec_fn(i32) -> AddrSpace,
    f: FrameView,
)
    requires
        sound(w, done, code, entry, spaces),
        code.placed(spaces),
        w.pending == Some(f),
    ensures
        ({
            let a = w.answered(code.at(f.at));
            &&& a.pending is None
            &&& a.dead.complete ==> sound(a, done.insert(f), code, entry, spaces)
            &&& !a.dead.complete ==> a.todo.len() == 0
        }),
{
    let a = w.answered(code.at(f.at));
    if a.dead.complete {
        let done2 = done.insert(f);
        let root = FrameView { at: entry, written: Set::empty() };
        assert(done2.contains(f));
        assert(accounted(a, done2, f));
        let extra = match code.decoded(f.at) {
            Some(i) => i.emit.step(w.dead.reg_idx, f.written).frames(f.at, i.len as int),
            None => Seq::empty(),
        };
        assert(a.todo =~= w.todo + extra);
        assert forall|i: int| 0 <= i < w.todo.len() implies accounted(
            a,
            done2,
            #[trigger] w.todo[i],
        ) by {
            assert(a.todo[i] == w.todo[i]);
        }
        assert forall|x: (i32, u64, i32)| #[trigger]
            w.dead.reads.contains(x) implies a.dead.reads.contains(x) by {
            let k = choose|k: int| 0 <= k < w.dead.reads.len() && w.dead.reads[k] == x;
            assert(a.dead.reads[k] == x);
        }
        assert forall|x: Set<(i32, u64)>| #[trigger]
            w.dead.cuts.contains(x) implies a.dead.cuts.contains(x) by {
            let k = choose|k: int| 0 <= k < w.dead.cuts.len() && w.dead.cuts[k] == x;
            assert(a.dead.cuts[k] == x);
        }
        assert forall|x: FrameView| #[trigger] done2.contains(x) implies handled(
            a,
            done2,
            code,
            x,
        ) by {
            if x == f {
                match code.decoded(f.at) {
                    Some(i) => {
                        let s = i.emit.step(w.dead.reg_idx, f.written);
                        assert forall|k: int| 0 <= k < s.reads.len() implies a.dead.reads.contains(
                            #[trigger] s.reads[k],
                        ) by {
                            assert(a.dead.reads[w.dead.reads.len() + k] == s.reads[k]);
                        }
                        if s.outcome is Ends {
                            assert(a.dead.cuts[w.dead.cuts.len() as int] == s.written);
                        }
                        assert forall|k: int| 0 <= k < extra.len() implies accounted(
                            a,
                            done2,
                            #[trigger] extra[k],
                        ) by {
                            assert(a.todo[w.todo.len() + k] == extra[k]);
                        }
                    },
                    None => {
                        assert(a.dead.cuts[w.dead.cuts.len() as int] == f.written);
                    },
                }
            } else {
                lemma_handled_kept(w, done, code, x, a, done2);
            }
        }
        lemma_accounted_taken(w, done, root, a, done2);
        assert forall|k: (i32, u64)| #[trigger] a.visited.dom().contains(k) implies (
        done2.contains(visit(a, k, spaces)) || a.pending == Some(visit(a, k, spaces))) by {
            assert(w.visited.dom().contains(k));
            assert(visit(a, k, spaces) == visit(w, k, spaces));
        }
        assert forall|i: int| 0 <= i < a.todo.len() implies placed(
            (#[trigger] a.todo[i]).at,
            spaces,
        ) by {
            if i < w.todo.len() {
                assert(a.todo[i] == w.todo[i]);
            } else {
                let k = i - w.todo.len();
                assert(a.todo[i] == extra[k]);
                let ins = code.decoded(f.at).unwrap();
                let at = lemma_found(code, f.at, 0);
                let e = ins.emit;
                assert forall|j: int| 0 <= j < e.ops.len() implies ((
                #[trigger] e.ops[j]).target() matches Some(t) ==> placed(t, spaces)) by {
                    assert(code.instructions[at].1.emit.ops[j] == e.ops[j]);
                }
                lemma_targets_placed(e, e.ops.len() as int, w.dead.reg_idx, f.written, spaces);
                let s = e.step(w.dead.reg_idx, f.written);
                if k < s.targets.len() {
                    assert(extra[k].at == s.targets[k]);
                } else {
                    assert(extra[k].at == f.at.plus(ins.len as int));
                }
            }
        }
    }
}

/// When a walk ends without being given up, every path is accounted for.
proof fn lemma_run_sound(
    w: WalkView,
    done: Set<FrameView>,
    code: CodeView,
    entry: Address,
    spaces: spec_fn(i32) -> AddrSpace,
) -> (all: Set<FrameView>)
    requires
        sound(w, done, code, entry, spaces),
        code.placed(spaces),
        w.pending is None,
    ensures
        w.run(code).dead.complete ==> sound(w.run(code), all, code, entry, spaces) && w.run(
            code,
        ).todo.len() == 0 && w.run(code).pending is None && w.run(code).dead.reg_idx
            == w.dead.reg_idx,
    decreases w.budget,
{
    probe::lemma_asking_spends(w);
    lemma_asking_sound(w, done, code, entry, spaces);
    let a = w.asking();
    lemma_asking_keeps(w);
    match a.pending {
        None => done,
        Some(f) => {
            let b = a.answered(code.at(f.at));
            lemma_answered_sound(a, done, code, entry, spaces, f);
            if b.dead.complete {
                lemma_run_sound(b, done.insert(f), code, entry, spaces)
            } else {
                assert(b.asking().pending is None);
                assert(b.run(code) == b.asking());
                done
            }
        },
    }
}

/// Going on to the next instruction shows nothing by itself.
proof fn lemma_asking_keeps(w: WalkView)
    requires
        w.pending is None,
    ensures
        w.asking().dead.reg_idx == w.dead.reg_idx,
        w.asking().pending is Some ==> w.asking().dead == w.dead,
    decreases w.todo.len(),
{
    if w.todo.len() > 0 {
        lemma_asking_keeps(WalkView { todo: w.todo.drop_last(), ..w });
    }
}

/// On every path the walk followed each instruction with no more bytes
/// written than the path has.
proof fn lemma_path_followed(
    w: WalkView,
    all: Set<FrameView>,
    code: CodeView,
    entry: Address,
    spaces: spec_fn(i32) -> AddrSpace,
    path: Seq<Address>,
    k: int,
    b: u64,
) -> (d: FrameView)
    requires
        sound(w, all, code, entry, spaces),
        code.wf(),
        w.todo.len() == 0,
        w.pending is None,
        code.is_path(entry, path, w.dead.reg_idx),
        0 <= k < path.len(),
    ensures
        all.contains(d),
        d.at == path[k],
        d.written.contains((w.dead.reg_idx, b)) ==> code.written_before(
            path,
            k,
            w.dead.reg_idx,
            b,
        ),
    decreases k,
{
    let reg = w.dead.reg_idx;
    if k == 0 {
        let root = FrameView { at: entry, written: Set::empty() };
        choose|d: FrameView| #[trigger]
            all.contains(d) && d.at == root.at && d.written.subset_of(root.written)
    } else {
        let d = lemma_path_followed(w, all, code, entry, spaces, path, k - 1, b);
        let from = path[k - 1];
        assert(code.flows(from, path[k - 1 + 1], reg));
        assert(handled(w, all, code, d));
        let ins = code.decoded(from).unwrap();
        let e = ins.emit;
        let at = lemma_found(code, from, 0);
        assert(code.instructions[at].1.emit.wf());
        let n = e.ops.len() as int;
        let before = code.written_before(path, k - 1, reg, b);
        let s = e.step(reg, d.written);
        lemma_step_covers(e, n, reg, d.written, b, before);
        lemma_flow_alike(e, n, reg, b, before, 0, false);
        let r = e.byte_run(n, reg, 0, false);
        assert(s.outcome is Goes);
        let fr = s.frames(from, ins.len as int);
        let g = FrameView { at: path[k], written: s.written };
        if r.targets.contains(path[k]) {
            let j = choose|j: int| 0 <= j < r.targets.len() && r.targets[j] == path[k];
            assert(fr[j] == g);
            assert(accounted(w, all, fr[j]));
        } else {
            let j = fr.len() - 1;
            assert(fr[j] == g);
            assert(accounted(w, all, fr[j]));
        }
        choose|d: FrameView| #[trigger]
            all.contains(d) && d.at == g.at && d.written.subset_of(g.written)
    }
}

/// A range that the walk shows to be dead is dead: on every path from the
/// entry no byte of it is read before it is written, and all of it is written
/// where the path ends.
pub proof fn law_dead_on_every_path(
    code: CodeView,
    entry: Address,
    reg: i32,
    spaces: spec_fn(i32) -> AddrSpace,
    addr: Address,
    size: int,
    path: Seq<Address>,
    b: u64,
)
    requires
        code.wf(),
        code.placed(spaces),
        placed(entry, spaces),
        probe::probed(code, entry, reg).dead(addr, size),
        code.is_path(entry, path, reg),
        addr.offset <= b < addr.offset + size,
    ensures
        ({
            let last = path.len() - 1;
            let before = code.written_before(path, last, reg, b);
            match code.decoded(path[last]) {
                Some(i) => {
                    let r = code.run_at(path[last], reg, b, before);
                    &&& !r.early
                    &&& r.ended ==> r.written
                },
                None => before,
            }
        }),
{
    let w0 = probe::walk_start(entry, reg);
    let w = w0.run(code);
    assert(w.dead.complete);
    if !w0.dead.complete {
        assert(w0.asking().pending is None);
        assert(false);
    }
    let root = FrameView { at: entry, written: Set::empty() };
    assert(w0.todo[0] == root);
    assert(sound(w0, Set::empty(), code, entry, spaces));
    let all = lemma_run_sound(w0, Set::empty(), code, entry, spaces);
    assert(w.dead.reg_idx == reg);
    let last = path.len() - 1;
    let before = code.written_before(path, last, reg, b);
    let d = lemma_path_followed(w, all, code, entry, spaces, path, last, b);
    assert(handled(w, all, code, d));
    assert(byteset::span(reg, addr.offset, size).contains((reg, b)));
    match code.decoded(path[last]) {
        Some(i) => {
            let e = i.emit;
            let at = lemma_found(code, path[last], 0);
            assert(code.instructions[at].1.emit.wf());
            let s = e.step(reg, d.written);
            lemma_step_covers(e, e.ops.len() as int, reg, d.written, b, before);
            if some_holds(s.reads, reg, b) {
                let k = choose|k: int| 0 <= k < s.reads.len() && holds(#[trigger] s.reads[k], reg, b);
                assert(w.dead.reads.contains(s.reads[k]));
                let j = choose|j: int|
                    0 <= j < w.dead.reads.len() && w.dead.reads[j] == s.reads[k];
                assert(probe::touches(w.dead.reads[j], reg, addr.offset, size));
                assert(w.dead.read_early(addr, size));
            }
            if s.outcome is Ends {
                let j = choose|j: int| 0 <= j < w.dead.cuts.len() && w.dead.cuts[j] == s.written;
                assert(byteset::span(reg, addr.offset, size).subset_of(w.dead.cuts[j]));
            }
        },
        None => {
            let j = choose|j: int| 0 <= j < w.dead.cuts.len() && w.dead.cuts[j] == d.written;
            assert(byteset::span(reg, addr.offset, size).subset_of(w.dead.cuts[j]));
        },
    }
}

} // verus!
