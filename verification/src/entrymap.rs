//! What is known of callees, by where they are entered.
use crate::space::Address;
use std::rc::Rc;
use vstd::prelude::*;

verus! {

/// Something that is known of a callee.
pub trait Fact: View {
    /// What always holds of it.
    spec fn holds(&self) -> bool;
}

/// What is known of callees, by the space index and offset of the entry.
#[derive(Debug)]
pub struct EntryMap<T> {
    facts: Vec<((i32, u64), Rc<T>)>,
}

/// The last fact for each entry among the first `n` of a list.
spec fn latest<T: Fact>(s: Seq<((i32, u64), Rc<T>)>, n: int) -> Map<(i32, u64), T::V>
    decreases n,
{
    if n <= 0 || n > s.len() {
        Map::empty()
    } else {
        latest(s, n - 1).insert(s[n - 1].0, s[n - 1].1@)
    }
}

proof fn lemma_latest_push<T: Fact>(
    s: Seq<((i32, u64), Rc<T>)>,
    x: ((i32, u64), Rc<T>),
    n: int,
)
    requires
        0 <= n <= s.len(),
    ensures
        latest(s.push(x), n) == latest(s, n),
    decreases n,
{
    if n > 0 {
        lemma_latest_push(s, x, n - 1);
    }
}

impl<T: Fact> View for EntryMap<T> {
    type V = Map<(i32, u64), T::V>;

    closed spec fn view(&self) -> Map<(i32, u64), T::V> {
        latest(self.facts@, self.facts@.len() as int)
    }
}

/// What is known of the callee at an entry.
pub open spec fn fact_at<V>(m: Map<(i32, u64), V>, entry: Address) -> Option<V> {
    match entry.space {
        Some(s) => if m.dom().contains((s.index, entry.offset)) {
            Some(m[(s.index, entry.offset)])
        } else {
            None
        },
        None => None,
    }
}

impl<T: Fact> EntryMap<T> {
    pub closed spec fn wf(&self) -> bool {
        forall|i: int| 0 <= i < self.facts@.len() ==> (#[trigger] self.facts@[i]).1.holds()
    }

    /// Nothing known yet.
    pub fn new() -> (r: EntryMap<T>)
        ensures
            r.wf(),
            r@ == Map::<(i32, u64), T::V>::empty(),
    {
        let r = EntryMap { facts: Vec::new() };
        assert(r@ =~= Map::empty());
        r
    }

    /// What is known of the callee at an entry.
    pub fn get(&self, entry: &Address) -> (r: Option<&Rc<T>>)
        requires
            self.wf(),
        ensures
            match r {
                Some(d) => fact_at(self@, *entry) == Some(d@) && d.holds(),
                None => fact_at(self@, *entry) is None,
            },
    {
        let key: (i32, u64) = match entry.space {
            Some(s) => (s.index, entry.offset),
            None => {
                return None;
            },
        };
        let mut i: usize = self.facts.len();
        while i > 0
            invariant
                i <= self.facts.len(),
                self.wf(),
                entry.space matches Some(s) && key == (s.index, entry.offset),
                latest(self.facts@, i as int).dom().contains(key) == self@.dom().contains(key),
                self@.dom().contains(key) ==> latest(self.facts@, i as int)[key] == self@[key],
            decreases i,
        {
            i -= 1;
            let k = self.facts[i].0;
            if k.0 == key.0 && k.1 == key.1 {
                assert(self.facts@[i as int].1.holds());
                return Some(&self.facts[i].1);
            }
        }
        None
    }

    /// Note what is known of the callee at an entry.
    pub fn set(&mut self, entry: &Address, d: Rc<T>)
        requires
            old(self).wf(),
            d.holds(),
        ensures
            final(self).wf(),
            final(self)@ == (match entry.space {
                Some(s) => old(self)@.insert((s.index, entry.offset), d@),
                None => old(self)@,
            }),
    {
        match entry.space {
            Some(s) => {
                let key: (i32, u64) = (s.index, entry.offset);
                proof {
                    lemma_latest_push(self.facts@, (key, d), self.facts@.len() as int);
                }
                self.facts.push((key, d));
            },
            None => {},
        }
    }
}

} // verus!
