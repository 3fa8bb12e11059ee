//! The effects that a call has on storage, and lists of storage locations.
use crate::entry::ParamEntry;
use crate::space;
use crate::space::{Address, SpaceType, VarnodeData};
use vstd::prelude::*;

verus! {

/// The value is not changed.
pub const UNAFFECTED: u32 = 1;

/// The value is changed to something unrelated.
pub const KILLEDBYCALL: u32 = 2;

/// The location holds the return address.
pub const RETURN_ADDRESS: u32 = 3;

/// Nothing is known of the effect.
pub const UNKNOWN_EFFECT: u32 = 4;

/// The effect of a call on a range of storage.
#[derive(Debug, Clone, Copy, PartialEq, Eq, Structural)]
pub struct EffectRecord {
    pub range: VarnodeData,
    pub type_: u32,
}

impl EffectRecord {
    /// A range with an unknown effect.
    pub fn new_unknown(addr: &Address, size: i32) -> (r: EffectRecord)
        ensures
            r.range.addr() == *addr,
            r.range.size == size as u32,
            r.type_ == UNKNOWN_EFFECT,
    {
        EffectRecord {
            range: VarnodeData { space: addr.space, offset: addr.offset, size: size as u32 },
            type_: UNKNOWN_EFFECT,
        }
    }

    /// The effect `t` on the storage of a parameter entry.
    pub fn from_param_entry(entry: &ParamEntry, t: u32) -> (r: EffectRecord)
        ensures
            r == (EffectRecord { range: entry@.whole(), type_: t }),
    {
        EffectRecord {
            range: VarnodeData {
                space: entry.spaceid,
                offset: entry.addressbase,
                size: entry.size as u32,
            },
            type_: t,
        }
    }

    pub fn from_varnode(data: VarnodeData, t: u32) -> (r: EffectRecord)
        ensures
            r == (EffectRecord { range: data, type_: t }),
    {
        EffectRecord { range: data, type_: t }
    }

    pub fn get_type(&self) -> (r: u32)
        ensures
            r == self.type_,
    {
        self.type_
    }

    pub fn get_address(&self) -> (r: Address)
        ensures
            r == self.range.addr(),
    {
        self.range.get_addr()
    }

    pub fn get_size(&self) -> (r: i32)
        ensures
            r == self.range.size as i32,
    {
        self.range.size as i32
    }

    /// Same range and same effect.
    pub fn same(&self, op2: &EffectRecord) -> (r: bool)
        ensures
            r == (*self == *op2),
    {
        self.type_ == op2.type_ && self.range.same(&op2.range)
    }

    /// Does the range start before that of `op2`.
    pub open spec fn before(self, op2: EffectRecord) -> bool {
        self.range.addr().before(op2.range.addr())
    }

    pub fn is_before(&self, op2: &EffectRecord) -> (r: bool)
        ensures
            r == self.before(*op2),
    {
        self.range.get_addr().is_before(&op2.range.get_addr())
    }

    /// Compare two records by where their ranges start.
    pub fn compare_by_address(op1: &EffectRecord, op2: &EffectRecord) -> (r: std::cmp::Ordering)
        ensures
            (r is Less) == op1.before(*op2),
            (r is Greater) == op2.before(*op1),
    {
        if op1.is_before(op2) {
            std::cmp::Ordering::Less
        } else if op2.is_before(op1) {
            std::cmp::Ordering::Greater
        } else {
            std::cmp::Ordering::Equal
        }
    }
}

/// The records are ordered by where their ranges start.
pub open spec fn by_address(s: Seq<EffectRecord>) -> bool {
    forall|i: int, j: int| 0 <= i < j < s.len() ==> !(#[trigger] s[j]).before(#[trigger] s[i])
}

/// One past the last of the first `n` records that does not start after `a`.
pub open spec fn upper_bound(s: Seq<EffectRecord>, n: int, a: Address) -> int
    decreases n,
{
    if n <= 0 || n > s.len() {
        0
    } else if a.before(s[n - 1].range.addr()) {
        upper_bound(s, n - 1, a)
    } else {
        n
    }
}

proof fn lemma_upper_bound(s: Seq<EffectRecord>, n: int, a: Address, k: int)
    requires
        0 <= k <= n <= s.len(),
        forall|i: int| k <= i < n ==> a.before((#[trigger] s[i]).range.addr()),
        k > 0 ==> !a.before(s[k - 1].range.addr()),
    ensures
        upper_bound(s, n, a) == k,
    decreases n - k,
{
    if k < n {
        lemma_upper_bound(s, n - 1, a, k);
    }
}

/// Position of the first of the first `n` ordered records that starts after
/// `a`, by bisection.
pub fn upper_bound_by(s: &[EffectRecord], n: usize, a: &Address) -> (r: usize)
    requires
        n <= s@.len(),
        by_address(s@.take(n as int)),
    ensures
        r == upper_bound(s@, n as int, *a),
        r <= n,
{
    let ghost t = s@.take(n as int);
    let mut lo: usize = 0;
    let mut hi: usize = n;
    while lo < hi
        invariant
            lo <= hi <= n <= s@.len(),
            t == s@.take(n as int),
            by_address(t),
            forall|i: int| 0 <= i < lo ==> !a.before((#[trigger] t[i]).range.addr()),
            forall|i: int| hi <= i < n ==> a.before((#[trigger] t[i]).range.addr()),
        decreases hi - lo,
    {
        let mid: usize = lo + (hi - lo) / 2;
        assert(t[mid as int] == s@[mid as int]);
        if !a.is_before(&s[mid].range.get_addr()) {
            assert forall|i: int| 0 <= i < mid + 1 implies !a.before(
                (#[trigger] t[i]).range.addr(),
            ) by {
                if i < mid {
                    assert(!t[mid as int].before(t[i]));
                }
            }
            lo = mid + 1;
        } else {
            assert forall|i: int| mid <= i < n implies a.before((#[trigger] t[i]).range.addr()) by {
                if i > mid {
                    assert(!t[i].before(t[mid as int]));
                }
            }
            hi = mid;
        }
    }
    proof {
        assert forall|i: int| lo <= i < n implies a.before((#[trigger] s@[i]).range.addr()) by {
            assert(t[i] == s@[i]);
        }
        if lo > 0 {
            assert(t[lo - 1] == s@[lo - 1]);
        }
        lemma_upper_bound(s@, n as int, *a, lo as int);
    }
    lo
}

/// The effect on the `size` bytes at `addr`: that of the last record that does
/// not start after it, if it covers them. Temporaries are unaffected, and so is
/// a whole space after a record of size 0.
pub open spec fn effect_at(s: Seq<EffectRecord>, addr: Address, size: int) -> u32 {
    let k = upper_bound(s, s.len() as int, addr);
    if addr.space matches Some(spc) && spc.type_ == SpaceType::Internal {
        UNAFFECTED
    } else if k == 0 {
        UNKNOWN_EFFECT
    } else {
        let hit = s[k - 1];
        let at = addr.overlap_at(0, hit.range.addr(), (hit.range.size as i32) as int);
        if hit.range.size as i32 == 0 && hit.range.space == addr.space {
            UNAFFECTED
        } else if at >= 0 && at + size <= (hit.range.size as i32) {
            hit.type_
        } else {
            UNKNOWN_EFFECT
        }
    }
}

/// Look up the effect on the `size` bytes at `addr` in an ordered list.
pub fn lookup_effect(efflist: &[EffectRecord], addr: &Address, size: i32) -> (r: u32)
    requires
        by_address(efflist@),
    ensures
        r == effect_at(efflist@, *addr, size as int),
{
    if let Some(spc) = addr.space {
        if spc.type_ == SpaceType::Internal {
            return UNAFFECTED;
        }
    }
    assert(efflist@.take(efflist@.len() as int) =~= efflist@);
    let idx: usize = upper_bound_by(efflist, efflist.len(), addr);
    if idx == 0 {
        return UNKNOWN_EFFECT;
    }
    let hitrec = efflist[idx - 1];
    let hit = hitrec.get_address();
    let sz: i32 = hitrec.get_size();
    if sz == 0 && space::same_space(&hit.space, &addr.space) {
        return UNAFFECTED;
    }
    let at: i32 = addr.overlap(0, &hit, sz);
    if at >= 0 && at as i64 + size as i64 <= sz as i64 {
        return hitrec.type_;
    }
    UNKNOWN_EFFECT
}

impl EffectRecord {
    /// The record is of exactly this range.
    pub open spec fn records(self, addr: Address, size: int) -> bool {
        self.range.addr() == addr && self.range.size as i32 == size
    }

    /// The record and the range share a byte.
    pub open spec fn touches(self, addr: Address, size: int) -> bool {
        addr.overlaps(size, self.range.addr(), (self.range.size as i32) as int)
    }
}

/// Does one of the first `n` records share a byte with the range.
pub open spec fn some_touches(s: Seq<EffectRecord>, n: int, addr: Address, size: int) -> bool {
    exists|i: int| 0 <= i < n && (#[trigger] s[i]).touches(addr, size)
}

/// Position of the last of the first `n` records with exactly this range, or
/// -1.
pub open spec fn exact_record(s: Seq<EffectRecord>, n: int, addr: Address, size: int) -> int
    decreases n,
{
    if n <= 0 || n > s.len() {
        -1
    } else if s[n - 1].records(addr, size) {
        n - 1
    } else {
        exact_record(s, n - 1, addr, size)
    }
}

/// Position, among the first `n` records, of the one with exactly this range;
/// without one, -1 if no record shares a byte with the range, and -2 if one
/// does.
pub open spec fn record_at(s: Seq<EffectRecord>, n: int, addr: Address, size: int) -> int {
    let k = exact_record(s, n, addr, size);
    if k >= 0 {
        k
    } else if some_touches(s, n, addr, size) {
        -2
    } else {
        -1
    }
}

/// Look up a record by its range among the first `list_size` of a list.
pub fn lookup_record(efflist: &[EffectRecord], list_size: i32, addr: &Address, size: i32) -> (r:
    i32)
    requires
        0 <= list_size <= efflist@.len(),
    ensures
        r == record_at(efflist@, list_size as int, *addr, size as int),
{
    let mut partial = false;
    let mut i: i32 = list_size;
    while i > 0
        invariant
            0 <= i <= list_size <= efflist@.len(),
            exact_record(efflist@, list_size as int, *addr, size as int) == exact_record(
                efflist@,
                i as int,
                *addr,
                size as int,
            ),
            partial == (exists|k: int|
                i <= k < list_size && (#[trigger] efflist@[k]).touches(*addr, size as int)),
        decreases i,
    {
        i -= 1;
        let rec = efflist[i as usize];
        let at = rec.get_address();
        let sz: i32 = rec.get_size();
        if at.same(addr) && size == sz {
            return i;
        }
        if addr.overlap(0, &at, sz) >= 0 || at.overlap(0, addr, size) >= 0 {
            assert(efflist@[i as int].touches(*addr, size as int));
            partial = true;
        }
    }
    if partial {
        -2
    } else {
        -1
    }
}

/// The records common to two lists, from `i` and `j` on, walked in step.
pub open spec fn common_effects(
    a: Seq<EffectRecord>,
    b: Seq<EffectRecord>,
    i: int,
    j: int,
) -> Seq<EffectRecord>
    decreases a.len() - i + b.len() - j,
{
    if i < 0 || j < 0 || i >= a.len() || j >= b.len() {
        Seq::empty()
    } else if a[i].before(b[j]) {
        common_effects(a, b, i + 1, j)
    } else if b[j].before(a[i]) {
        common_effects(a, b, i, j + 1)
    } else if a[i] == b[j] {
        seq![a[i]] + common_effects(a, b, i + 1, j + 1)
    } else {
        common_effects(a, b, i + 1, j + 1)
    }
}

/// The records that two ordered lists have in common.
pub fn intersect_effects(a: &Vec<EffectRecord>, b: &Vec<EffectRecord>) -> (r: Vec<EffectRecord>)
    ensures
        r@ == common_effects(a@, b@, 0, 0),
{
    let mut out: Vec<EffectRecord> = Vec::new();
    let mut i: usize = 0;
    let mut j: usize = 0;
    assert(out@ + common_effects(a@, b@, 0, 0) =~= common_effects(a@, b@, 0, 0));
    while i < a.len() && j < b.len()
        invariant
            i <= a.len(),
            j <= b.len(),
            out@ + common_effects(a@, b@, i as int, j as int) == common_effects(a@, b@, 0, 0),
        decreases a.len() - i + b.len() - j,
    {
        let ghost rest = common_effects(a@, b@, i as int, j as int);
        let ghost before = out@;
        if a[i].is_before(&b[j]) {
            i += 1;
        } else if b[j].is_before(&a[i]) {
            j += 1;
        } else {
            if a[i].same(&b[j]) {
                out.push(a[i]);
                assert(out@ + common_effects(a@, b@, i + 1, j + 1) =~= before + rest);
            }
            i += 1;
            j += 1;
        }
    }
    assert(out@ + Seq::<EffectRecord>::empty() =~= out@);
    out
}

/// The locations common to two lists, from `i` and `j` on, walked in step.
pub open spec fn common_locations(
    a: Seq<VarnodeData>,
    b: Seq<VarnodeData>,
    i: int,
    j: int,
) -> Seq<VarnodeData>
    decreases a.len() - i + b.len() - j,
{
    if i < 0 || j < 0 || i >= a.len() || j >= b.len() {
        Seq::empty()
    } else if a[i].before(b[j]) {
        common_locations(a, b, i + 1, j)
    } else if b[j].before(a[i]) {
        common_locations(a, b, i, j + 1)
    } else {
        seq![a[i]] + common_locations(a, b, i + 1, j + 1)
    }
}

/// Keep of an ordered list what another one has too.
pub fn intersect_registers(reg_list1: &mut Vec<VarnodeData>, reg_list2: &Vec<VarnodeData>)
    ensures
        final(reg_list1)@ == common_locations(old(reg_list1)@, reg_list2@, 0, 0),
{
    let ghost a = reg_list1@;
    let ghost b = reg_list2@;
    let mut out: Vec<VarnodeData> = Vec::new();
    let mut i: usize = 0;
    let mut j: usize = 0;
    assert(out@ + common_locations(a, b, 0, 0) =~= common_locations(a, b, 0, 0));
    while i < reg_list1.len() && j < reg_list2.len()
        invariant
            i <= reg_list1.len(),
            j <= reg_list2.len(),
            a == reg_list1@,
            b == reg_list2@,
            *reg_list1 == *old(reg_list1),
            out@ + common_locations(a, b, i as int, j as int) == common_locations(a, b, 0, 0),
        decreases reg_list1.len() - i + reg_list2.len() - j,
    {
        let ghost rest = common_locations(a, b, i as int, j as int);
        let ghost before = out@;
        if reg_list1[i].is_before(&reg_list2[j]) {
            i += 1;
        } else if reg_list2[j].is_before(&reg_list1[i]) {
            j += 1;
        } else {
            out.push(reg_list1[i]);
            assert(out@ + common_locations(a, b, i + 1, j + 1) =~= before + rest);
            i += 1;
            j += 1;
        }
    }
    assert(out@ + Seq::<VarnodeData>::empty() =~= out@);
    *reg_list1 = out;
}

/// Where a record goes in the first `n` ordered records: behind those that do
/// not start after it.
pub open spec fn effect_position(s: Seq<EffectRecord>, n: int, e: EffectRecord) -> int {
    upper_bound(s, n, e.range.addr())
}

/// Put a record into an ordered list.
pub fn insert_effect(list: &mut Vec<EffectRecord>, e: EffectRecord)
    requires
        by_address(old(list)@),
    ensures
        final(list)@ == old(list)@.insert(
            effect_position(old(list)@, old(list)@.len() as int, e),
            e,
        ),
        by_address(final(list)@),
{
    let ghost s = list@;
    assert(s.take(s.len() as int) =~= s);
    let k: usize = upper_bound_by(list.as_slice(), list.len(), &e.range.get_addr());
    proof {
        lemma_upper_bound_facts(s, s.len() as int, e.range.addr());
        let t = s.insert(k as int, e);
        assert forall|i: int, j: int| 0 <= i < j < t.len() implies !(#[trigger] t[j]).before(
            #[trigger] t[i],
        ) by {
            if j == k {
                assert(!s[k - 1].before(s[i]) || i == k - 1);
            } else if i == k {
                assert(t[j] == s[j - 1]);
            } else {
                let jj = if j > k {
                    j - 1
                } else {
                    j
                };
                let ii = if i > k {
                    i - 1
                } else {
                    i
                };
                assert(t[j] == s[jj] && t[i] == s[ii]);
            }
        }
    }
    list.insert(k, e);
}

proof fn lemma_upper_bound_facts(s: Seq<EffectRecord>, n: int, a: Address)
    requires
        0 <= n <= s.len(),
    ensures
        0 <= upper_bound(s, n, a) <= n,
        upper_bound(s, n, a) > 0 ==> !a.before(s[upper_bound(s, n, a) - 1].range.addr()),
        forall|i: int|
            upper_bound(s, n, a) <= i < n ==> a.before((#[trigger] s[i]).range.addr()),
    decreases n,
{
    if n > 0 {
        lemma_upper_bound_facts(s, n - 1, a);
    }
}

/// Where a location goes in the first `n` ordered locations.
pub open spec fn location_position(s: Seq<VarnodeData>, n: int, v: VarnodeData) -> int
    decreases n,
{
    if n <= 0 || n > s.len() {
        0
    } else if v.before(s[n - 1]) {
        location_position(s, n - 1, v)
    } else {
        n
    }
}

/// Put a location into an ordered list.
pub fn insert_location(list: &mut Vec<VarnodeData>, v: VarnodeData)
    ensures
        final(list)@ == old(list)@.insert(
            location_position(old(list)@, old(list)@.len() as int, v),
            v,
        ),
{
    let ghost s = list@;
    let mut k: usize = list.len();
    while k > 0 && v.is_before(&list[k - 1])
        invariant
            k <= list.len(),
            s == list@,
            *list == *old(list),
            location_position(s, s.len() as int, v) == location_position(s, k as int, v),
        decreases k,
    {
        k -= 1;
    }
    list.insert(k, v);
}

/// An equal list of records.
pub fn copy_effects(v: &Vec<EffectRecord>) -> (r: Vec<EffectRecord>)
    ensures
        r@ == v@,
{
    let mut out: Vec<EffectRecord> = Vec::new();
    let mut i: usize = 0;
    while i < v.len()
        invariant
            i <= v.len(),
            out@ == v@.subrange(0, i as int),
        decreases v.len() - i,
    {
        out.push(v[i]);
        i += 1;
    }
    assert(out@ == v@);
    out
}

/// No two records start at the same place, and they are ordered.
pub open spec fn strictly_by_address(s: Seq<EffectRecord>) -> bool {
    forall|i: int, j: int| 0 <= i < j < s.len() ==> (#[trigger] s[i]).before(#[trigger] s[j])
}

/// Merging two models keeps exactly the effects on which both agree.
pub proof fn law_common_effects(
    a: Seq<EffectRecord>,
    b: Seq<EffectRecord>,
    i: int,
    j: int,
    e: EffectRecord,
)
    requires
        strictly_by_address(a),
        strictly_by_address(b),
        0 <= i <= a.len(),
        0 <= j <= b.len(),
    ensures
        common_effects(a, b, i, j).contains(e) <==> (exists|p: int|
            i <= p < a.len() && #[trigger] a[p] == e) && (exists|q: int|
            j <= q < b.len() && #[trigger] b[q] == e),
    decreases a.len() - i + b.len() - j,
{
    if i < a.len() && j < b.len() {
        if a[i].before(b[j]) {
            law_common_effects(a, b, i + 1, j, e);
            if exists|q: int| j <= q < b.len() && #[trigger] b[q] == e {
                let q = choose|q: int| j <= q < b.len() && #[trigger] b[q] == e;
                if q > j {
                    assert(b[j].before(b[q]));
                }
                assert(a[i] != e);
            }
        } else if b[j].before(a[i]) {
            law_common_effects(a, b, i, j + 1, e);
            if exists|p: int| i <= p < a.len() && #[trigger] a[p] == e {
                let p = choose|p: int| i <= p < a.len() && #[trigger] a[p] == e;
                if p > i {
                    assert(a[i].before(a[p]));
                }
                assert(b[j] != e);
            }
        } else {
            law_common_effects(a, b, i + 1, j + 1, e);
            let rest = common_effects(a, b, i + 1, j + 1);
            if a[i] == b[j] {
                let s = seq![a[i]] + rest;
                assert(s[0] == a[i]);
                if rest.contains(e) {
                    let k = choose|k: int| 0 <= k < rest.len() && rest[k] == e;
                    assert(s[k + 1] == e);
                }
                if s.contains(e) {
                    let k = choose|k: int| 0 <= k < s.len() && s[k] == e;
                    if k > 0 {
                        assert(rest[k - 1] == e);
                    }
                }
            } else {
                // A record at `i` is not in `b` from `j` on, nor one at `j` in `a`.
                if exists|q: int| j <= q < b.len() && #[trigger] b[q] == a[i] {
                    let q = choose|q: int| j <= q < b.len() && #[trigger] b[q] == a[i];
                    assert(b[j].before(b[q]));
                }
                if exists|p: int| i <= p < a.len() && #[trigger] a[p] == b[j] {
                    let p = choose|p: int| i <= p < a.len() && #[trigger] a[p] == b[j];
                    assert(a[i].before(a[p]));
                }
            }
        }
    }
}

proof fn lemma_upper_bound_exact(s: Seq<EffectRecord>, n: int, k: int)
    requires
        strictly_by_address(s),
        0 <= k < n <= s.len(),
    ensures
        upper_bound(s, n, s[k].range.addr()) == k + 1,
    decreases n,
{
    if n - 1 > k {
        assert(s[k].before(s[n - 1]));
        lemma_upper_bound_exact(s, n - 1, k);
    }
}

/// Looking up a recorded range, or the bytes at its start, gives the effect
/// that was recorded.
pub proof fn law_recorded_effect(s: Seq<EffectRecord>, k: int, size: int)
    requires
        strictly_by_address(s),
        0 <= k < s.len(),
        s[k].range.space matches Some(spc) && spc.type_ != SpaceType::Internal && spc.type_
            != SpaceType::Constant,
        0 < size <= s[k].range.size <= i32::MAX,
    ensures
        effect_at(s, s[k].range.addr(), size) == s[k].type_,
{
    lemma_upper_bound_exact(s, s.len() as int, k);
}

/// Each location comes before those behind it.
pub open spec fn locations_ordered(s: Seq<VarnodeData>) -> bool {
    forall|i: int, j: int| 0 <= i < j < s.len() ==> (#[trigger] s[i]).before(#[trigger] s[j])
}

/// A location of the list from `j` on has the place of `v`.
pub open spec fn placed_from(s: Seq<VarnodeData>, j: int, v: VarnodeData) -> bool {
    exists|q: int| j <= q < s.len() && !v.before(#[trigger] s[q]) && !s[q].before(v)
}

/// Merging two models keeps exactly the locations that both list.
pub proof fn law_common_locations(
    a: Seq<VarnodeData>,
    b: Seq<VarnodeData>,
    i: int,
    j: int,
    v: VarnodeData,
)
    requires
        locations_ordered(a),
        locations_ordered(b),
        0 <= i <= a.len(),
        0 <= j <= b.len(),
    ensures
        common_locations(a, b, i, j).contains(v) <==> (exists|p: int|
            i <= p < a.len() && #[trigger] a[p] == v) && placed_from(b, j, v),
    decreases a.len() - i + b.len() - j,
{
    if i < a.len() && j < b.len() {
        if a[i].before(b[j]) {
            law_common_locations(a, b, i + 1, j, v);
            if placed_from(b, j, v) {
                let q = choose|q: int|
                    j <= q < b.len() && !v.before(#[trigger] b[q]) && !b[q].before(v);
                if q > j {
                    assert(b[j].before(b[q]));
                }
                assert(a[i] != v);
            }
        } else if b[j].before(a[i]) {
            law_common_locations(a, b, i, j + 1, v);
            if exists|p: int| i <= p < a.len() && #[trigger] a[p] == v {
                let p = choose|p: int| i <= p < a.len() && #[trigger] a[p] == v;
                if p > i {
                    assert(a[i].before(a[p]));
                }
                assert(b[j].before(v));
                assert(placed_from(b, j, v) == placed_from(b, j + 1, v));
            }
        } else {
            law_common_locations(a, b, i + 1, j + 1, v);
            let rest = common_locations(a, b, i + 1, j + 1);
            let s = seq![a[i]] + rest;
            assert(s[0] == a[i]);
            if rest.contains(v) {
                let k = choose|k: int| 0 <= k < rest.len() && rest[k] == v;
                assert(s[k + 1] == v);
            }
            if s.contains(v) {
                let k = choose|k: int| 0 <= k < s.len() && s[k] == v;
                if k > 0 {
                    assert(rest[k - 1] == v);
                } else {
                    assert(!v.before(b[j]) && !b[j].before(v));
                }
            }
            if (exists|p: int| i <= p < a.len() && #[trigger] a[p] == v) && placed_from(b, j, v)
                && a[i] != v {
                let p = choose|p: int| i <= p < a.len() && #[trigger] a[p] == v;
                let q = choose|q: int|
                    j <= q < b.len() && !v.before(#[trigger] b[q]) && !b[q].before(v);
                assert(a[i].before(a[p]));
                assert(q > j);
                assert(placed_from(b, j + 1, v));
            }
        }
    }
}

} // verus!
