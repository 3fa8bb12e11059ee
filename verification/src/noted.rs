//! What is noted of callees, of the storage that they change, and of the
//! resources that a list declares.
use crate::callspec::CallView;
use crate::deadarg;
use crate::dtype;
use crate::dtype::TypeClass;
use crate::effects;
use crate::effects::EffectRecord;
use crate::entry::EntryView;
use crate::listbuild;
use crate::paramlist;
use crate::paramlist::ListView;
use crate::preserves;
use crate::preserves::WritesView;
use crate::probe;
use crate::probe::{CodeView, DeadView};
use crate::space::{Address, SpaceType, VarnodeData};
use vstd::prelude::*;

verus! {

/// The call reaches the code that `key` stands for.
pub open spec fn reaches(c: CallView, key: (i32, u64)) -> bool {
    c.entryaddress.space matches Some(s) && key == (s.index, c.entryaddress.offset)
}

/// One of the first `n` calls reaches the code that `key` stands for.
pub open spec fn reached(calls: Seq<CallView>, n: int, key: (i32, u64)) -> bool {
    exists|i: int| 0 <= i < n && reaches(#[trigger] calls[i], key)
}

/// The maps hold the same at `key`.
pub open spec fn same_at<V>(a: Map<(i32, u64), V>, b: Map<(i32, u64), V>, key: (i32, u64)) -> bool {
    &&& a.dom().contains(key) == b.dom().contains(key)
    &&& a.dom().contains(key) ==> a[key] == b[key]
}

proof fn lemma_reached(calls: Seq<CallView>, n: int, key: (i32, u64))
    requires
        0 < n <= calls.len(),
    ensures
        reached(calls, n, key) == (reached(calls, n - 1, key) || reaches(calls[n - 1], key)),
{
    if reached(calls, n, key) {
        let i = choose|i: int| 0 <= i < n && reaches(#[trigger] calls[i], key);
        if i < n - 1 {
            assert(reaches(calls[i], key));
        }
    }
    if reached(calls, n - 1, key) {
        let i = choose|i: int| 0 <= i < n - 1 && reaches(#[trigger] calls[i], key);
        assert(reaches(calls[i], key));
    }
    if reaches(calls[n - 1], key) {
        assert(0 <= n - 1 < n);
    }
}

/// A function knows of the code that its calls reach what is known of it in the
/// image, and of other code what it knew before.
pub proof fn law_writes_noted(
    image: Map<(i32, u64), WritesView>,
    facts: Map<(i32, u64), WritesView>,
    calls: Seq<CallView>,
    n: int,
    key: (i32, u64),
)
    requires
        0 <= n <= calls.len(),
    ensures
        same_at(
            preserves::writes_seeded(image, facts, calls, n),
            if reached(calls, n, key) && image.dom().contains(key) {
                image
            } else {
                facts
            },
            key,
        ),
    decreases n,
{
    if n > 0 {
        law_writes_noted(image, facts, calls, n - 1, key);
        lemma_reached(calls, n, key);
    }
}

/// The code that a call reaches is looked at unless that was done before, and
/// what it shows is noted. Nothing else is.
pub proof fn law_entries_noted(
    cache: Map<(i32, u64), DeadView>,
    facts: Map<(i32, u64), DeadView>,
    calls: Seq<CallView>,
    n: int,
    code: CodeView,
    reg: i32,
    key: (i32, u64),
)
    requires
        0 <= n <= calls.len(),
    ensures
        ({
            let (c, f) = deadarg::entries_seeded(cache, facts, calls, n, code, reg);
            if reached(calls, n, key) {
                &&& c.dom().contains(key)
                &&& same_at(f, c, key)
                &&& cache.dom().contains(key) ==> c[key] == cache[key]
                &&& !cache.dom().contains(key) ==> exists|i: int|
                    0 <= i < n && reaches(#[trigger] calls[i], key) && c[key] == probe::probed(
                        code,
                        calls[i].entryaddress,
                        reg,
                    )
            } else {
                same_at(c, cache, key) && same_at(f, facts, key)
            }
        }),
    decreases n,
{
    if n > 0 {
        law_entries_noted(cache, facts, calls, n - 1, code, reg, key);
        lemma_reached(calls, n, key);
        if reached(calls, n - 1, key) && !cache.dom().contains(key) {
            let c = deadarg::entries_seeded(cache, facts, calls, n - 1, code, reg).0;
            let i = choose|i: int|
                0 <= i < n - 1 && reaches(#[trigger] calls[i], key) && c[key] == probe::probed(
                    code,
                    calls[i].entryaddress,
                    reg,
                );
            assert(reaches(calls[i], key));
        }
    }
}

/// The record that is found for a range is the last that is of exactly that
/// range. If none is, -1 tells that none touches the range, and -2 that one does.
pub proof fn law_record_found(s: Seq<EffectRecord>, n: int, addr: Address, size: int)
    requires
        0 <= n <= s.len(),
    ensures
        ({
            let r = effects::record_at(s, n, addr, size);
            &&& -2 <= r < n
            &&& r >= 0 ==> s[r].range.addr() == addr && s[r].range.size as i32 == size
            &&& forall|i: int|
                0 <= i < n && i > r ==> !((#[trigger] s[i]).range.addr() == addr
                    && s[i].range.size as i32 == size)
            &&& r == -1 ==> forall|i: int| 0 <= i < n ==> !(#[trigger] s[i]).touches(addr, size)
            &&& r == -2 ==> exists|i: int| 0 <= i < n && (#[trigger] s[i]).touches(addr, size)
        }),
    decreases n,
{
    lemma_exact(s, n, addr, size);
}

proof fn lemma_exact(s: Seq<EffectRecord>, n: int, addr: Address, size: int)
    requires
        0 <= n <= s.len(),
    ensures
        ({
            let r = effects::exact_record(s, n, addr, size);
            &&& -1 <= r < n
            &&& r >= 0 ==> s[r].range.addr() == addr && s[r].range.size as i32 == size
            &&& forall|i: int|
                0 <= i < n && i > r ==> !((#[trigger] s[i]).range.addr() == addr
                    && s[i].range.size as i32 == size)
        }),
    decreases n,
{
    if n > 0 {
        lemma_exact(s, n - 1, addr, size);
    }
}

/// A record goes in front of all that start after it, and behind one that does
/// not.
pub proof fn law_record_put_in(s: Seq<EffectRecord>, n: int, e: EffectRecord)
    requires
        0 <= n <= s.len(),
    ensures
        ({
            let p = effects::effect_position(s, n, e);
            &&& 0 <= p <= n
            &&& forall|i: int| p <= i < n ==> e.range.addr().before((#[trigger] s[i]).range.addr())
            &&& p > 0 ==> !e.range.addr().before(s[p - 1].range.addr())
        }),
    decreases n,
{
    if n > 0 {
        law_record_put_in(s, n - 1, e);
    }
}

/// The class that an entry counts for: general storage, if it is in a group.
pub open spec fn counts_as(e: EntryView) -> TypeClass {
    if e.flags.is_grouped {
        TypeClass::General
    } else {
        e.type_
    }
}

/// An entry that is declared is the last of the list, and the groups go beyond
/// its own. A section opens at its first group if it is of a class that ranks
/// below that of the entry in front, and goes on if the class is the same or ranks
/// above. The list is on the stack that its last such entry is on.
pub proof fn law_entry_appended(l: ListView, e: EntryView)
    requires
        e.group_set.len() > 0,
        e.group_set.last() < i32::MAX,
        e.spaceid is Some,
    ensures
        ({
            let r = listbuild::with_entry(l, e);
            let rank = dtype::class_rank(counts_as(e));
            &&& r.entry == l.entry.push(e)
            &&& r.numgroup >= l.numgroup && r.numgroup > e.group_set.last()
            &&& r.numgroup == l.numgroup || r.numgroup == e.group_set.last() + 1
            &&& l.entry.len() == 0 && counts_as(e) != TypeClass::Class4 ==> r.resource_start
                == l.resource_start.push(e.group_set[0])
            &&& l.entry.len() > 0 ==> r.resource_start == if rank < dtype::class_rank(
                counts_as(l.entry.last()),
            ) {
                l.resource_start.push(e.group_set[0])
            } else {
                l.resource_start
            }
            &&& e.spaceid->0.type_ == SpaceType::Spacebase ==> r.spacebase == e.spaceid
            &&& e.spaceid->0.type_ != SpaceType::Spacebase ==> r.spacebase == l.spacebase
        }),
{
}

proof fn lemma_delay(s: Seq<EntryView>, n: int)
    requires
        0 <= n <= s.len(),
    ensures
        ({
            let d = paramlist::delay_of(s, n);
            &&& d >= 0
            &&& forall|i: int| 0 <= i < n ==> (#[trigger] s[i]).spaceid->0.delay <= d
            &&& d > 0 ==> exists|i: int| 0 <= i < n && (#[trigger] s[i]).spaceid->0.delay == d
        }),
    decreases n,
{
    if n > 0 {
        lemma_delay(s, n - 1);
        let rest = paramlist::delay_of(s, n - 1);
        if rest > 0 && paramlist::delay_of(s, n) == rest {
            let i = choose|i: int| 0 <= i < n - 1 && (#[trigger] s[i]).spaceid->0.delay == rest;
            assert(s[i].spaceid->0.delay == rest);
        } else if paramlist::delay_of(s, n) > 0 {
            assert(s[n - 1].spaceid->0.delay == paramlist::delay_of(s, n));
        }
    }
}

/// A finished list waits for the slowest space that an entry is in. Its last
/// section ends behind its groups. It falls back on recognising return values by
/// the entries, and says itself what a call changes, if no rule sends a value to
/// the stack.
pub proof fn law_list_finished(l: ListView)
    ensures
        ({
            let r = listbuild::finished(l);
            let to_stack = exists|i: int|
                0 <= i < l.model_rules.len() && (#[trigger] l.model_rules[i]).action is GotoStack;
            &&& r.entry == l.entry && r.numgroup == l.numgroup && r.model_rules == l.model_rules
            &&& forall|i: int|
                0 <= i < l.entry.len() ==> (#[trigger] l.entry[i]).spaceid->0.delay <= r.maxdelay
            &&& r.maxdelay >= 0
            &&& r.maxdelay > 0 ==> exists|i: int|
                0 <= i < l.entry.len() && (#[trigger] l.entry[i]).spaceid->0.delay == r.maxdelay
            &&& r.resource_start == l.resource_start.push(l.numgroup)
            &&& r.use_fillin_fallback == !to_stack
            &&& r.auto_killed_by_call == (l.auto_killed_by_call || !to_stack)
        }),
{
    lemma_delay(l.entry, l.entry.len() as int);
    if listbuild::some_output_rule(l.model_rules) {
        let i = choose|i: int|
            0 <= i < l.model_rules.len() && (#[trigger] l.model_rules[i]).affects_output();
        assert(l.model_rules[i].action is GotoStack);
    }
    if exists|i: int|
        0 <= i < l.model_rules.len() && (#[trigger] l.model_rules[i]).action is GotoStack {
        let i = choose|i: int|
            0 <= i < l.model_rules.len() && (#[trigger] l.model_rules[i]).action is GotoStack;
        assert(l.model_rules[i].affects_output());
    }
}

/// A location goes in front of all that come after it, and behind one that does
/// not.
pub proof fn law_location_put_in(s: Seq<VarnodeData>, n: int, v: VarnodeData)
    requires
        0 <= n <= s.len(),
    ensures
        ({
            let p = effects::location_position(s, n, v);
            &&& 0 <= p <= n
            &&& forall|i: int| p <= i < n ==> v.before(#[trigger] s[i])
            &&& p > 0 ==> !v.before(s[p - 1])
        }),
    decreases n,
{
    if n > 0 {
        law_location_put_in(s, n - 1, v);
    }
}

/// The registers of one class that values are laid out over are the entries of
/// the class that take one value each and stand in a single group, in the order of
/// the list.
pub proof fn law_registers_of_class(s: Seq<EntryView>, n: int, class: TypeClass)
    requires
        0 <= n <= s.len() <= usize::MAX,
    ensures
        ({
            let r = paramlist::tiles_of(s, n, class);
            &&& forall|k: int|
                0 <= k < r.len() ==> (#[trigger] r[k]) < n && s[r[k] as int].type_ == class
                    && s[r[k] as int].alignment == 0 && s[r[k] as int].group_set.len() == 1
            &&& forall|j: int, k: int| 0 <= j < k < r.len() ==> #[trigger] r[j] < #[trigger] r[k]
            &&& forall|i: int|
                0 <= i < n && (#[trigger] s[i]).type_ == class && s[i].alignment == 0
                    && s[i].group_set.len() == 1 ==> r.contains(i as usize)
        }),
    decreases n,
{
    if n > 0 {
        law_registers_of_class(s, n - 1, class);
        let q = paramlist::tiles_of(s, n - 1, class);
        let r = paramlist::tiles_of(s, n, class);
        assert forall|i: int|
            0 <= i < n && (#[trigger] s[i]).type_ == class && s[i].alignment == 0
                && s[i].group_set.len() == 1 implies r.contains(i as usize) by {
            if i < n - 1 {
                assert(q.contains(i as usize));
                let k = choose|k: int| 0 <= k < q.len() && q[k] == i as usize;
                assert(r[k] == i as usize);
            } else {
                assert(r[r.len() - 1] == i as usize);
            }
        }
    }
}

} // verus!
