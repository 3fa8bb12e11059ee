//! Sets of single bytes, each by the index of its space and its offset.
use vstd::prelude::*;

verus! {

/// A set of bytes.
#[derive(Debug)]
pub struct ByteSet {
    bytes: Vec<(i32, u64)>,
}

impl View for ByteSet {
    type V = Set<(i32, u64)>;

    closed spec fn view(&self) -> Set<(i32, u64)> {
        self.bytes@.to_set()
    }
}

/// The `size` bytes from `off` on in the space with index `idx`.
pub open spec fn span(idx: i32, off: u64, size: int) -> Set<(i32, u64)> {
    Set::new(|k: (i32, u64)| k.0 == idx && off <= k.1 < off + size)
}

impl ByteSet {
    /// Every byte is listed once.
    pub closed spec fn wf(&self) -> bool {
        self.bytes@.no_duplicates()
    }

    pub fn new() -> (r: ByteSet)
        ensures
            r.wf(),
            r@ == Set::<(i32, u64)>::empty(),
    {
        let r = ByteSet { bytes: Vec::new() };
        assert(r@ =~= Set::empty());
        r
    }

    pub fn contains(&self, byte: (i32, u64)) -> (r: bool)
        ensures
            r == self@.contains(byte),
    {
        let mut i: usize = 0;
        while i < self.bytes.len()
            invariant
                i <= self.bytes.len(),
                forall|k: int| 0 <= k < i ==> self.bytes@[k] != byte,
            decreases self.bytes.len() - i,
        {
            let b = self.bytes[i];
            if b.0 == byte.0 && b.1 == byte.1 {
                assert(self.bytes@.contains(byte));
                return true;
            }
            i += 1;
        }
        false
    }

    pub fn insert(&mut self, byte: (i32, u64))
        requires
            old(self).wf(),
        ensures
            final(self).wf(),
            final(self)@ == old(self)@.insert(byte),
    {
        if self.contains(byte) {
            assert(self@ =~= old(self)@.insert(byte));
            return;
        }
        self.bytes.push(byte);
        proof {
            assert forall|k: (i32, u64)| self@.contains(k) == old(self)@.insert(byte).contains(
                k,
            ) by {
                if k == byte {
                    assert(self.bytes@[self.bytes@.len() - 1] == k);
                }
                if old(self)@.contains(k) {
                    let i = choose|i: int|
                        0 <= i < old(self).bytes@.len() && old(self).bytes@[i] == k;
                    assert(self.bytes@[i] == k);
                }
            }
            assert(self@ =~= old(self)@.insert(byte));
        }
    }

    /// Insert the `size` bytes from `off` on in the space with index `idx`.
    pub fn insert_span(&mut self, idx: i32, off: u64, size: u32)
        requires
            old(self).wf(),
            off + size <= u64::MAX,
        ensures
            final(self).wf(),
            final(self)@ == old(self)@.union(span(idx, off, size as int)),
    {
        let mut i: u32 = 0;
        while i < size
            invariant
                i <= size,
                off + size <= u64::MAX,
                self.wf(),
                self@ =~= old(self)@.union(span(idx, off, i as int)),
            decreases size - i,
        {
            self.insert((idx, off + i as u64));
            i += 1;
        }
    }

    /// Are all of the `size` bytes from `off` on in the set.
    pub fn contains_span(&self, idx: i32, off: u64, size: u32) -> (r: bool)
        requires
            off + size <= u64::MAX,
        ensures
            r == span(idx, off, size as int).subset_of(self@),
    {
        let mut i: u32 = 0;
        while i < size
            invariant
                i <= size,
                off + size <= u64::MAX,
                forall|b: u64| off <= b < off + i ==> #[trigger] self@.contains((idx, b)),
            decreases size - i,
        {
            if !self.contains((idx, off + i as u64)) {
                assert(span(idx, off, size as int).contains((idx, (off + i) as u64)));
                return false;
            }
            i += 1;
        }
        assert(span(idx, off, size as int).subset_of(self@)) by {
            assert forall|k: (i32, u64)| span(idx, off, size as int).contains(k) implies self@.contains(k) by {
                assert(self@.contains((idx, k.1)));
            }
        }
        true
    }

    pub fn len(&self) -> (r: usize)
        requires
            self.wf(),
        ensures
            r == self@.len(),
    {
        proof {
            self.bytes@.unique_seq_to_set();
        }
        self.bytes.len()
    }

    pub fn is_subset(&self, other: &ByteSet) -> (r: bool)
        ensures
            r == self@.subset_of(other@),
    {
        let mut i: usize = 0;
        while i < self.bytes.len()
            invariant
                i <= self.bytes.len(),
                forall|k: int| 0 <= k < i ==> other@.contains(#[trigger] self.bytes@[k]),
            decreases self.bytes.len() - i,
        {
            if !other.contains(self.bytes[i]) {
                assert(self@.contains(self.bytes@[i as int]));
                return false;
            }
            i += 1;
        }
        true
    }

    pub fn copy(&self) -> (r: ByteSet)
        requires
            self.wf(),
        ensures
            r.wf(),
            r@ == self@,
    {
        let mut bytes: Vec<(i32, u64)> = Vec::new();
        let mut i: usize = 0;
        while i < self.bytes.len()
            invariant
                i <= self.bytes.len(),
                bytes@ =~= self.bytes@.take(i as int),
            decreases self.bytes.len() - i,
        {
            bytes.push(self.bytes[i]);
            i += 1;
        }
        assert(bytes@ =~= self.bytes@);
        ByteSet { bytes }
    }
}

} // verus!
