//! Parameter trials: storage locations under test as parameters, and their
//! formal order.
use crate::entry;
use crate::entry::{EntryView, ParamEntry};
use crate::space::Address;
use vstd::prelude::*;

verus! {

/// What is known of a trial.
#[derive(Debug, Clone, Copy, PartialEq, Eq, Structural)]
pub struct TrialFlags {
    /// The trial has been examined.
    pub checked: bool,
    /// It is a parameter.
    pub used: bool,
    /// It is definitely no parameter.
    pub defnouse: bool,
    /// It looks active.
    pub active: bool,
    /// Nothing refers to it directly.
    pub unref: bool,
    /// Its storage is unlikely to survive a call.
    pub killedbycall: bool,
    /// It comes from a remainder operation.
    pub rem_formed: bool,
    /// It comes from an indirect creation.
    pub indcreate_formed: bool,
    /// Conditional execution may affect it.
    pub condexe_effect: bool,
    /// It has a realistic ancestor.
    pub ancestor_realistic: bool,
    /// A value moves solidly into it.
    pub ancestor_solid: bool,
}

/// No property known.
pub open spec fn no_flags() -> TrialFlags {
    TrialFlags {
        checked: false,
        used: false,
        defnouse: false,
        active: false,
        unref: false,
        killedbycall: false,
        rem_formed: false,
        indcreate_formed: false,
        condexe_effect: false,
        ancestor_realistic: false,
        ancestor_solid: false,
    }
}

/// A register or memory location that may pass a parameter. `entry` is the
/// position, in the model's list, of the entry that holds it, `offset` its
/// justified offset there; `fixed_position` its argument position if it is a
/// fixed argument of a variadic function, else -1.
#[derive(Debug, Clone, Copy, PartialEq, Eq, Structural)]
pub struct ParamTrial {
    pub flags: TrialFlags,
    pub addr: Address,
    pub size: i32,
    pub slot: i32,
    pub entry: Option<usize>,
    pub offset: i32,
    pub fixed_position: i32,
}

/// A fresh trial.
pub open spec fn fresh_trial(ad: Address, sz: i32, sl: i32) -> ParamTrial {
    ParamTrial {
        flags: no_flags(),
        addr: ad,
        size: sz,
        slot: sl,
        entry: None,
        offset: -1i32,
        fixed_position: -1i32,
    }
}

/// The entry of a trial is one of `n` entries.
pub open spec fn entry_ok(t: ParamTrial, n: nat) -> bool {
    t.entry matches Some(i) ==> i < n
}

/// Formal parameter order: by group, then by entry, then by position within
/// the entry. Trials without an entry come last.
pub open spec fn trial_less(a: ParamTrial, b: ParamTrial, entries: Seq<EntryView>) -> bool {
    match (a.entry, b.entry) {
        (None, _) => false,
        (Some(_), None) => true,
        (Some(ea), Some(eb)) => {
            let x = entries[ea as int];
            let y = entries[eb as int];
            if x.group() != y.group() {
                x.group() < y.group()
            } else if ea != eb {
                ea < eb
            } else if x.exclusion() {
                a.offset < b.offset
            } else if a.addr != b.addr {
                if x.flags.reverse_stack {
                    b.addr.before(a.addr)
                } else {
                    a.addr.before(b.addr)
                }
            } else {
                a.size < b.size
            }
        },
    }
}

/// Trials with a fixed position first, in that order; the others in formal
/// parameter order.
pub open spec fn fixed_less(a: ParamTrial, b: ParamTrial, entries: Seq<EntryView>) -> bool {
    if a.fixed_position == -1 && b.fixed_position == -1 {
        trial_less(a, b, entries)
    } else if a.fixed_position == -1 {
        false
    } else if b.fixed_position == -1 {
        true
    } else {
        a.fixed_position < b.fixed_position
    }
}

impl ParamTrial {
    pub fn new(ad: Address, sz: i32, sl: i32) -> (r: ParamTrial)
        ensures
            r == fresh_trial(ad, sz, sl),
    {
        ParamTrial {
            flags: TrialFlags {
                checked: false,
                used: false,
                defnouse: false,
                active: false,
                unref: false,
                killedbycall: false,
                rem_formed: false,
                indcreate_formed: false,
                condexe_effect: false,
                ancestor_realistic: false,
                ancestor_solid: false,
            },
            addr: ad,
            size: sz,
            slot: sl,
            entry: None,
            offset: -1,
            fixed_position: -1,
        }
    }

    pub fn get_address(&self) -> (r: &Address)
        ensures
            *r == self.addr,
    {
        &self.addr
    }

    pub fn get_size(&self) -> (r: i32)
        ensures
            r == self.size,
    {
        self.size
    }

    pub fn get_slot(&self) -> (r: i32)
        ensures
            r == self.slot,
    {
        self.slot
    }

    pub fn set_slot(&mut self, val: i32)
        ensures
            *final(self) == (ParamTrial { slot: val, ..*old(self) }),
    {
        self.slot = val;
    }

    pub fn get_entry(&self) -> (r: Option<usize>)
        ensures
            r == self.entry,
    {
        self.entry
    }

    pub fn get_offset(&self) -> (r: i32)
        ensures
            r == self.offset,
    {
        self.offset
    }

    pub fn set_entry(&mut self, ent: Option<usize>, off: i32)
        ensures
            *final(self) == (ParamTrial { entry: ent, offset: off, ..*old(self) }),
    {
        self.entry = ent;
        self.offset = off;
    }

    /// The trial marked as a parameter.
    pub open spec fn with_used(self) -> ParamTrial {
        ParamTrial { flags: TrialFlags { used: true, ..self.flags }, ..self }
    }

    /// The trial marked as actively used.
    pub open spec fn with_active(self) -> ParamTrial {
        ParamTrial { flags: TrialFlags { active: true, checked: true, ..self.flags }, ..self }
    }

    /// The trial marked as not actively used.
    pub open spec fn with_inactive(self) -> ParamTrial {
        ParamTrial { flags: TrialFlags { active: false, checked: true, ..self.flags }, ..self }
    }

    /// The trial marked as no parameter.
    pub open spec fn with_no_use(self) -> ParamTrial {
        ParamTrial {
            flags: TrialFlags {
                active: false,
                used: false,
                checked: true,
                defnouse: true,
                ..self.flags
            },
            ..self
        }
    }

    /// The trial marked as lacking a reference.
    pub open spec fn with_unref(self) -> ParamTrial {
        ParamTrial {
            flags: TrialFlags { unref: true, checked: true, ..self.flags },
            slot: -1i32,
            ..self
        }
    }

    pub fn mark_used(&mut self)
        ensures
            *final(self) == old(self).with_used(),
    {
        self.flags.used = true;
    }

    pub fn mark_active(&mut self)
        ensures
            *final(self) == old(self).with_active(),
    {
        self.flags.active = true;
        self.flags.checked = true;
    }

    pub fn mark_inactive(&mut self)
        ensures
            *final(self) == old(self).with_inactive(),
    {
        self.flags.active = false;
        self.flags.checked = true;
    }

    pub fn mark_no_use(&mut self)
        ensures
            *final(self) == old(self).with_no_use(),
    {
        self.flags.active = false;
        self.flags.used = false;
        self.flags.checked = true;
        self.flags.defnouse = true;
    }

    pub fn mark_unref(&mut self)
        ensures
            *final(self) == old(self).with_unref(),
    {
        self.flags.unref = true;
        self.flags.checked = true;
        self.slot = -1;
    }

    pub fn mark_killed_by_call(&mut self)
        ensures
            *final(self) == (ParamTrial {
                flags: TrialFlags { killedbycall: true, ..old(self).flags },
                ..*old(self)
            }),
    {
        self.flags.killedbycall = true;
    }

    pub fn is_checked(&self) -> (r: bool)
        ensures
            r == self.flags.checked,
    {
        self.flags.checked
    }

    pub fn is_active(&self) -> (r: bool)
        ensures
            r == self.flags.active,
    {
        self.flags.active
    }

    pub fn is_definitely_not_used(&self) -> (r: bool)
        ensures
            r == self.flags.defnouse,
    {
        self.flags.defnouse
    }

    pub fn is_used(&self) -> (r: bool)
        ensures
            r == self.flags.used,
    {
        self.flags.used
    }

    pub fn is_unref(&self) -> (r: bool)
        ensures
            r == self.flags.unref,
    {
        self.flags.unref
    }

    pub fn is_killed_by_call(&self) -> (r: bool)
        ensures
            r == self.flags.killedbycall,
    {
        self.flags.killedbycall
    }

    pub fn set_rem_formed(&mut self)
        ensures
            *final(self) == (ParamTrial {
                flags: TrialFlags { rem_formed: true, ..old(self).flags },
                ..*old(self)
            }),
    {
        self.flags.rem_formed = true;
    }

    pub fn is_rem_formed(&self) -> (r: bool)
        ensures
            r == self.flags.rem_formed,
    {
        self.flags.rem_formed
    }

    pub fn set_ind_create_formed(&mut self)
        ensures
            *final(self) == (ParamTrial {
                flags: TrialFlags { indcreate_formed: true, ..old(self).flags },
                ..*old(self)
            }),
    {
        self.flags.indcreate_formed = true;
    }

    pub fn is_ind_create_formed(&self) -> (r: bool)
        ensures
            r == self.flags.indcreate_formed,
    {
        self.flags.indcreate_formed
    }

    pub fn set_cond_exe_effect(&mut self)
        ensures
            *final(self) == (ParamTrial {
                flags: TrialFlags { condexe_effect: true, ..old(self).flags },
                ..*old(self)
            }),
    {
        self.flags.condexe_effect = true;
    }

    pub fn has_cond_exe_effect(&self) -> (r: bool)
        ensures
            r == self.flags.condexe_effect,
    {
        self.flags.condexe_effect
    }

    pub fn set_ancestor_realistic(&mut self)
        ensures
            *final(self) == (ParamTrial {
                flags: TrialFlags { ancestor_realistic: true, ..old(self).flags },
                ..*old(self)
            }),
    {
        self.flags.ancestor_realistic = true;
    }

    pub fn has_ancestor_realistic(&self) -> (r: bool)
        ensures
            r == self.flags.ancestor_realistic,
    {
        self.flags.ancestor_realistic
    }

    pub fn set_ancestor_solid(&mut self)
        ensures
            *final(self) == (ParamTrial {
                flags: TrialFlags { ancestor_solid: true, ..old(self).flags },
                ..*old(self)
            }),
    {
        self.flags.ancestor_solid = true;
    }

    pub fn has_ancestor_solid(&self) -> (r: bool)
        ensures
            r == self.flags.ancestor_solid,
    {
        self.flags.ancestor_solid
    }

    pub fn set_fixed_position(&mut self, pos: i32)
        ensures
            *final(self) == (ParamTrial { fixed_position: pos, ..*old(self) }),
    {
        self.fixed_position = pos;
    }

    pub fn set_address(&mut self, ad: Address, sz: i32)
        ensures
            *final(self) == (ParamTrial { addr: ad, size: sz, ..*old(self) }),
    {
        self.addr = ad;
        self.size = sz;
    }

    /// Group number of the slot that holds the trial's last byte.
    pub open spec fn group_slot(self, entries: Seq<EntryView>) -> i32
        recommends
            self.entry is Some,
    {
        entries[self.entry->0 as int].slot_at(self.addr, ((self.size - 1) as i32) as int) as i32
    }

    pub fn slot_group(&self, entries: &[ParamEntry]) -> (r: i32)
        requires
            self.entry is Some,
            entry_ok(*self, entries@.len()),
            entries@[self.entry->0 as int]@.wf(),
        ensures
            r == self.group_slot(entry::entries_view(entries@)),
    {
        let i: usize = self.entry.unwrap();
        entries[i].get_slot(&self.addr, (self.size as i64 - 1) as i32)
    }

    /// The first `sz` bytes of the trial.
    pub fn split_hi(&self, sz: i32) -> (r: ParamTrial)
        ensures
            r == (ParamTrial { flags: self.flags, ..fresh_trial(self.addr, sz, self.slot) }),
    {
        let mut res = ParamTrial::new(self.addr, sz, self.slot);
        res.flags = self.flags;
        res
    }

    /// The last `sz` bytes of the trial, in the next slot.
    pub fn split_lo(&self, sz: i32) -> (r: ParamTrial)
        ensures
            r == (ParamTrial {
                flags: self.flags,
                ..fresh_trial(self.addr.plus(self.size - sz), sz, (self.slot + 1) as i32)
            }),
    {
        let newaddr = self.addr.advance(self.size as i64 - sz as i64);
        let mut res = ParamTrial::new(newaddr, sz, (self.slot as i64 + 1) as i32);
        res.flags = self.flags;
        res
    }

    /// `newaddr` is where the least significant `sz` bytes of the trial are,
    /// and the trial has no entry yet.
    pub open spec fn can_shrink(self, newaddr: Address, sz: int) -> bool {
        newaddr == (if self.addr.big_endian() {
            self.addr.plus(self.size - sz)
        } else {
            self.addr
        }) && self.entry is None
    }

    pub fn test_shrink(&self, newaddr: &Address, sz: i32) -> (r: bool)
        ensures
            r == self.can_shrink(*newaddr, sz as int),
    {
        let testaddr = if self.addr.is_big_endian() {
            self.addr.advance(self.size as i64 - sz as i64)
        } else {
            self.addr
        };
        if !testaddr.same(newaddr) {
            return false;
        }
        self.entry.is_none()
    }

    /// Does this trial come strictly before `b` in formal parameter order.
    pub fn is_less(&self, b: &ParamTrial, entries: &[ParamEntry]) -> (r: bool)
        requires
            entry_ok(*self, entries@.len()),
            entry_ok(*b, entries@.len()),
            forall|i: int|
                0 <= i < entries@.len() ==> (#[trigger] entries@[i])@.group_set.len() > 0,
        ensures
            r == trial_less(*self, *b, entry::entries_view(entries@)),
    {
        let ea: usize = match self.entry {
            None => return false,
            Some(i) => i,
        };
        let eb: usize = match b.entry {
            None => return true,
            Some(i) => i,
        };
        let entry_a = &entries[ea];
        let entry_b = &entries[eb];
        assert(entry::entries_view(entries@)[ea as int] == entry_a@);
        assert(entry::entries_view(entries@)[eb as int] == entry_b@);
        let grpa: i32 = entry_a.get_group();
        let grpb: i32 = entry_b.get_group();
        if grpa != grpb {
            return grpa < grpb;
        }
        if ea != eb {
            return ea < eb;
        }
        if entry_a.is_exclusion() {
            return self.offset < b.offset;
        }
        if !self.addr.same(&b.addr) {
            return if entry_a.is_reverse_stack() {
                b.addr.is_before(&self.addr)
            } else {
                self.addr.is_before(&b.addr)
            };
        }
        self.size < b.size
    }

    /// Compare two trials in formal parameter order.
    pub fn cmp(&self, b: &ParamTrial, entries: &[ParamEntry]) -> (r: std::cmp::Ordering)
        requires
            entry_ok(*self, entries@.len()),
            entry_ok(*b, entries@.len()),
            forall|i: int|
                0 <= i < entries@.len() ==> (#[trigger] entries@[i])@.group_set.len() > 0,
        ensures
            (r is Less) == trial_less(*self, *b, entry::entries_view(entries@)),
            (r is Greater) == trial_less(*b, *self, entry::entries_view(entries@)),
    {
        proof {
            law_trial_less_asymmetric(*self, *b, entry::entries_view(entries@));
        }
        if self.is_less(b, entries) {
            std::cmp::Ordering::Less
        } else if b.is_less(self, entries) {
            std::cmp::Ordering::Greater
        } else {
            std::cmp::Ordering::Equal
        }
    }

    /// Does `a` come strictly before `b` by fixed position.
    pub fn fixed_is_less(a: &ParamTrial, b: &ParamTrial, entries: &[ParamEntry]) -> (r: bool)
        requires
            entry_ok(*a, entries@.len()),
            entry_ok(*b, entries@.len()),
            forall|i: int|
                0 <= i < entries@.len() ==> (#[trigger] entries@[i])@.group_set.len() > 0,
        ensures
            r == fixed_less(*a, *b, entry::entries_view(entries@)),
    {
        if a.fixed_position == -1 && b.fixed_position == -1 {
            a.is_less(b, entries)
        } else if a.fixed_position == -1 {
            false
        } else if b.fixed_position == -1 {
            true
        } else {
            a.fixed_position < b.fixed_position
        }
    }

    /// Compare two trials by fixed position, then in formal parameter order.
    pub fn fixed_position_compare(a: &ParamTrial, b: &ParamTrial, entries: &[ParamEntry]) -> (r:
        std::cmp::Ordering)
        requires
            entry_ok(*a, entries@.len()),
            entry_ok(*b, entries@.len()),
            forall|i: int|
                0 <= i < entries@.len() ==> (#[trigger] entries@[i])@.group_set.len() > 0,
        ensures
            (r is Less) == fixed_less(*a, *b, entry::entries_view(entries@)),
            (r is Greater) == fixed_less(*b, *a, entry::entries_view(entries@)),
    {
        proof {
            law_trial_less_asymmetric(*a, *b, entry::entries_view(entries@));
        }
        if ParamTrial::fixed_is_less(a, b, entries) {
            std::cmp::Ordering::Less
        } else if ParamTrial::fixed_is_less(b, a, entries) {
            std::cmp::Ordering::Greater
        } else {
            std::cmp::Ordering::Equal
        }
    }
}

/// No two trials come before each other, in either order.
pub proof fn law_trial_less_asymmetric(a: ParamTrial, b: ParamTrial, entries: Seq<EntryView>)
    ensures
        !(trial_less(a, b, entries) && trial_less(b, a, entries)),
        !(fixed_less(a, b, entries) && fixed_less(b, a, entries)),
{
}

/// Spaces with one index are one space.
pub open spec fn indexed_alike(a: ParamTrial, b: ParamTrial) -> bool {
    crate::space::space_index(a.addr.space) == crate::space::space_index(b.addr.space)
        ==> a.addr.space == b.addr.space
}

/// Formal parameter order, and the order by fixed position, are strict weak
/// orders: what does not come after `b` and `b` itself does not come after `c`
/// leaves `a` not after `c`.
pub proof fn law_trial_order_is_weak(
    a: ParamTrial,
    b: ParamTrial,
    c: ParamTrial,
    entries: Seq<EntryView>,
)
    requires
        indexed_alike(a, b),
        indexed_alike(b, c),
        indexed_alike(a, c),
    ensures
        !trial_less(b, a, entries) && !trial_less(c, b, entries) ==> !trial_less(c, a, entries),
        trial_less(a, b, entries) && trial_less(b, c, entries) ==> trial_less(a, c, entries),
        !fixed_less(b, a, entries) && !fixed_less(c, b, entries) ==> !fixed_less(c, a, entries),
        fixed_less(a, b, entries) && fixed_less(b, c, entries) ==> fixed_less(a, c, entries),
{
}

} // verus!
