//! The per-depositor balance ledger of one vault: a bounded table of unique
//! owners, each with an unsigned balance. Storage for a vault record is
//! pre-allocated at creation time, so the table's capacity is a fixed design
//! constant and inserting beyond it is a capacity error.

use vstd::prelude::*;
use vstd::pervasive::VecAdditionalExecFns;
use crate::account_id::AccountId;
use crate::errors::ErrorCode;

verus! {

/// The fixed maximum number of distinct depositors one vault can track.
pub const MAX_USERS: usize = 10;

/// One depositor's tracked claim on the pooled funds.
#[derive(Clone, Copy, Debug)]
pub struct LedgerEntry {
    pub owner: AccountId,
    pub amount: u64,
}

/// The balance ledger: at most `MAX_USERS` entries, owners unique.
#[derive(Debug)]
pub struct Ledger {
    pub entries: Vec<LedgerEntry>,
}

/// Whether some entry of `s` belongs to `o`.
pub open spec fn has_owner(s: Seq<LedgerEntry>, o: Seq<u8>) -> bool {
    exists|i: int| 0 <= i < s.len() && s[i].owner@ == o
}

/// The index of `o`'s entry (meaningful only when owners are unique).
pub open spec fn owner_index(s: Seq<LedgerEntry>, o: Seq<u8>) -> int {
    choose|i: int| 0 <= i < s.len() && s[i].owner@ == o
}

/// The balance tracked for `o`; an absent owner is read as zero, which is
/// also the balance a fresh entry starts from.
pub open spec fn balance_of(s: Seq<LedgerEntry>, o: Seq<u8>) -> u64 {
    if has_owner(s, o) {
        s[owner_index(s, o)].amount
    } else {
        0
    }
}

/// No two entries belong to the same owner.
pub open spec fn unique_owners(s: Seq<LedgerEntry>) -> bool {
    forall|i: int, j: int| 0 <= i < j < s.len() ==> s[i].owner@ != s[j].owner@
}

/// The sum of all tracked balances.
pub open spec fn total_of(s: Seq<LedgerEntry>) -> int
    decreases s.len(),
{
    if s.len() == 0 {
        0
    } else {
        total_of(s.drop_last()) + s.last().amount
    }
}

pub proof fn lemma_total_nonneg(s: Seq<LedgerEntry>)
    ensures
        total_of(s) >= 0,
    decreases s.len(),
{
    if s.len() > 0 {
        lemma_total_nonneg(s.drop_last());
    }
}

pub proof fn lemma_total_push(s: Seq<LedgerEntry>, e: LedgerEntry)
    ensures
        total_of(s.push(e)) == total_of(s) + e.amount,
{
    assert(s.push(e).drop_last() =~= s);
    assert(s.push(e).last() == e);
}

pub proof fn lemma_total_update(s: Seq<LedgerEntry>, i: int, e: LedgerEntry)
    requires
        0 <= i < s.len(),
    ensures
        total_of(s.update(i, e)) == total_of(s) - s[i].amount + e.amount,
    decreases s.len(),
{
    let t = s.update(i, e);
    if i == s.len() - 1 {
        assert(t.drop_last() =~= s.drop_last());
        assert(t.last() == e);
    } else {
        assert(t.drop_last() =~= s.drop_last().update(i, e));
        assert(t.last() == s.last());
        lemma_total_update(s.drop_last(), i, e);
    }
}

/// Every single balance is bounded by the sum of all of them.
pub proof fn lemma_entry_le_total(s: Seq<LedgerEntry>, i: int)
    requires
        0 <= i < s.len(),
    ensures
        s[i].amount <= total_of(s),
    decreases s.len(),
{
    if i == s.len() - 1 {
        lemma_total_nonneg(s.drop_last());
    } else {
        lemma_entry_le_total(s.drop_last(), i);
        assert(s.drop_last()[i] == s[i]);
    }
}

/// With unique owners, the entry at `i` is the one `balance_of` reads.
pub proof fn lemma_balance_at(s: Seq<LedgerEntry>, i: int)
    requires
        unique_owners(s),
        0 <= i < s.len(),
    ensures
        has_owner(s, s[i].owner@),
        owner_index(s, s[i].owner@) == i,
        balance_of(s, s[i].owner@) == s[i].amount,
{
    let o = s[i].owner@;
    assert(has_owner(s, o));
    let j = owner_index(s, o);
    assert(0 <= j < s.len() && s[j].owner@ == o);
    if i < j {
        assert(s[i].owner@ != s[j].owner@);
    } else if j < i {
        assert(s[j].owner@ != s[i].owner@);
    }
}

/// Updating an entry in place, keeping its owner, leaves every other owner's
/// presence and balance unchanged.
pub proof fn lemma_update_same_owner(s: Seq<LedgerEntry>, i: int, e: LedgerEntry)
    requires
        unique_owners(s),
        0 <= i < s.len(),
        e.owner@ == s[i].owner@,
    ensures
        unique_owners(s.update(i, e)),
        has_owner(s.update(i, e), e.owner@),
        balance_of(s.update(i, e), e.owner@) == e.amount,
        forall|o: Seq<u8>| o != e.owner@ ==> has_owner(s.update(i, e), o) == has_owner(s, o),
        forall|o: Seq<u8>| o != e.owner@ ==> balance_of(s.update(i, e), o) == balance_of(s, o),
{
    let t = s.update(i, e);
    assert(forall|k: int| 0 <= k < s.len() ==> t[k].owner@ == s[k].owner@);
    assert(unique_owners(t));
    lemma_balance_at(t, i);
    assert forall|o: Seq<u8>| o != e.owner@ implies has_owner(t, o) == has_owner(s, o) by {
        if has_owner(t, o) {
            let k = owner_index(t, o);
            assert(0 <= k < t.len() && t[k].owner@ == o);
            assert(s[k].owner@ == o);
        }
        if has_owner(s, o) {
            let k = owner_index(s, o);
            assert(0 <= k < s.len() && s[k].owner@ == o);
            assert(t[k].owner@ == o);
        }
    }
    assert forall|o: Seq<u8>| o != e.owner@ implies balance_of(t, o) == balance_of(s, o) by {
        if has_owner(s, o) {
            let k = owner_index(s, o);
            assert(0 <= k < s.len() && s[k].owner@ == o);
            assert(t[k].owner@ == o);
            lemma_balance_at(s, k);
            lemma_balance_at(t, k);
        }
    }
}

/// Appending an entry for a fresh owner leaves every other owner's presence
/// and balance unchanged.
pub proof fn lemma_push_new_owner(s: Seq<LedgerEntry>, e: LedgerEntry)
    requires
        unique_owners(s),
        !has_owner(s, e.owner@),
    ensures
        unique_owners(s.push(e)),
        has_owner(s.push(e), e.owner@),
        balance_of(s.push(e), e.owner@) == e.amount,
        forall|o: Seq<u8>| o != e.owner@ ==> has_owner(s.push(e), o) == has_owner(s, o),
        forall|o: Seq<u8>| o != e.owner@ ==> balance_of(s.push(e), o) == balance_of(s, o),
{
    let t = s.push(e);
    assert(forall|k: int| 0 <= k < s.len() ==> t[k] == s[k]);
    assert(t[s.len() as int].owner@ == e.owner@);
    assert forall|i: int, j: int| 0 <= i < j < t.len() implies t[i].owner@ != t[j].owner@ by {
        if j < s.len() {
            assert(s[i].owner@ != s[j].owner@);
        } else {
            assert(t[i].owner@ == s[i].owner@);
            if t[i].owner@ == e.owner@ {
                assert(has_owner(s, e.owner@));
            }
        }
    }
    lemma_balance_at(t, s.len() as int);
    assert forall|o: Seq<u8>| o != e.owner@ implies has_owner(t, o) == has_owner(s, o) by {
        if has_owner(t, o) {
            let k = owner_index(t, o);
            assert(0 <= k < t.len() && t[k].owner@ == o);
            assert(k < s.len());
            assert(s[k].owner@ == o);
        }
        if has_owner(s, o) {
            let k = owner_index(s, o);
            assert(0 <= k < s.len() && s[k].owner@ == o);
            assert(t[k].owner@ == o);
        }
    }
    assert forall|o: Seq<u8>| o != e.owner@ implies balance_of(t, o) == balance_of(s, o) by {
        if has_owner(s, o) {
            let k = owner_index(s, o);
            assert(0 <= k < s.len() && s[k].owner@ == o);
            assert(t[k].owner@ == o);
            lemma_balance_at(s, k);
            lemma_balance_at(t, k);
        }
    }
}

impl Ledger {
    /// Owners unique, entry count within the pre-allocated capacity.
    pub open spec fn wf(self) -> bool {
        &&& self.entries@.len() <= MAX_USERS
        &&& unique_owners(self.entries@)
    }

    pub open spec fn contains_owner(self, o: Seq<u8>) -> bool {
        has_owner(self.entries@, o)
    }

    pub open spec fn balance(self, o: Seq<u8>) -> u64 {
        balance_of(self.entries@, o)
    }

    pub open spec fn total(self) -> int {
        total_of(self.entries@)
    }

    pub open spec fn depositor_count(self) -> int {
        self.entries@.len() as int
    }

    /// An empty ledger.
    pub fn new() -> (l: Ledger)
        ensures
            l.wf(),
            l.depositor_count() == 0,
            l.total() == 0,
            forall|o: Seq<u8>| !l.contains_owner(o),
    {
        Ledger { entries: Vec::new() }
    }

    /// The index of `owner`'s entry, if present.
    fn find(&self, owner: &AccountId) -> (r: Option<usize>)
        ensures
            match r {
                Some(i) => i < self.entries@.len() && self.entries@[i as int].owner@ == owner@,
                None => !self.contains_owner(owner@),
            },
    {
        let n = self.entries.len();
        let mut i: usize = 0;
        while i < n
            invariant
                n == self.entries@.len(),
                i <= n,
                forall|j: int| 0 <= j < i ==> self.entries@[j].owner@ != owner@,
            decreases n - i,
        {
            if self.entries[i].owner.equals(owner) {
                return Some(i);
            }
            i += 1;
        }
        None
    }

    /// The balance tracked for `owner`, or `None` when no entry exists.
    pub fn lookup(&self, owner: &AccountId) -> (r: Option<u64>)
        requires
            self.wf(),
        ensures
            match r {
                Some(a) => self.contains_owner(owner@) && a == self.balance(owner@),
                None => !self.contains_owner(owner@),
            },
    {
        match self.find(owner) {
            Some(i) => {
                proof {
                    lemma_balance_at(self.entries@, i as int);
                }
                Some(self.entries[i].amount)
            },
            None => None,
        }
    }

    /// Credit `owner` with `amount`: look up or create the entry (this is the
    /// only place a new owner is ever added) and increase it with checked
    /// arithmetic. On any error the ledger is untouched.
    pub fn credit(&mut self, owner: &AccountId, amount: u64) -> (r: Result<(), ErrorCode>)
        requires
            old(self).wf(),
        ensures
            final(self).wf(),
            match r {
                Ok(()) => {
                    &&& old(self).balance(owner@) + amount <= u64::MAX
                    &&& old(self).contains_owner(owner@) || old(self).depositor_count() < MAX_USERS as int
                    &&& final(self).contains_owner(owner@)
                    &&& final(self).balance(owner@) == old(self).balance(owner@) + amount
                    &&& forall|o: Seq<u8>| o != owner@ ==> final(self).contains_owner(o) == old(self).contains_owner(o)
                    &&& forall|o: Seq<u8>| o != owner@ ==> final(self).balance(o) == old(self).balance(o)
                    &&& final(self).total() == old(self).total() + amount
                    &&& final(self).depositor_count() == old(self).depositor_count() + (
                    if old(self).contains_owner(owner@) {
                        0int
                    } else {
                        1int
                    })
                },
                Err(ErrorCode::CapacityExceeded) => {
                    &&& !old(self).contains_owner(owner@)
                    &&& old(self).depositor_count() == MAX_USERS as int
                    &&& *final(self) == *old(self)
                },
                Err(ErrorCode::ArithmeticOverflow) => {
                    &&& old(self).contains_owner(owner@)
                    &&& old(self).balance(owner@) + amount > u64::MAX
                    &&& *final(self) == *old(self)
                },
                Err(_) => false,
            },
    {
        match self.find(owner) {
            Some(i) => {
                let current = self.entries[i].amount;
                proof {
                    lemma_balance_at(self.entries@, i as int);
                }
                if amount > u64::MAX - current {
                    return Err(ErrorCode::ArithmeticOverflow);
                }
                let updated = LedgerEntry { owner: *owner, amount: current + amount };
                proof {
                    lemma_total_update(self.entries@, i as int, updated);
                    lemma_update_same_owner(self.entries@, i as int, updated);
                }
                self.entries.set(i, updated);
                Ok(())
            },
            None => {
                if self.entries.len() >= MAX_USERS {
                    return Err(ErrorCode::CapacityExceeded);
                }
                let fresh = LedgerEntry { owner: *owner, amount };
                proof {
                    lemma_total_push(self.entries@, fresh);
                    lemma_push_new_owner(self.entries@, fresh);
                }
                self.entries.push(fresh);
                Ok(())
            },
        }
    }

    /// Debit `owner` by `amount` after a sufficiency check: an absent entry or
    /// one below `amount` refuses the debit with `InsufficientBalance` and
    /// leaves the ledger untouched. The check makes the subtraction itself
    /// incapable of underflow.
    pub fn debit(&mut self, owner: &AccountId, amount: u64) -> (r: Result<(), ErrorCode>)
        requires
            old(self).wf(),
        ensures
            final(self).wf(),
            match r {
                Ok(()) => {
                    &&& old(self).contains_owner(owner@)
                    &&& old(self).balance(owner@) >= amount
                    &&& final(self).contains_owner(owner@)
                    &&& final(self).balance(owner@) == old(self).balance(owner@) - amount
                    &&& forall|o: Seq<u8>| o != owner@ ==> final(self).contains_owner(o) == old(self).contains_owner(o)
                    &&& forall|o: Seq<u8>| o != owner@ ==> final(self).balance(o) == old(self).balance(o)
                    &&& final(self).total() == old(self).total() - amount
                    &&& final(self).depositor_count() == old(self).depositor_count()
                },
                Err(ErrorCode::InsufficientBalance) => {
                    &&& !old(self).contains_owner(owner@) || old(self).balance(owner@) < amount
                    &&& *final(self) == *old(self)
                },
                Err(_) => false,
            },
    {
        match self.find(owner) {
            Some(i) => {
                let current = self.entries[i].amount;
                proof {
                    lemma_balance_at(self.entries@, i as int);
                }
                if current < amount {
                    return Err(ErrorCode::InsufficientBalance);
                }
                let updated = LedgerEntry { owner: *owner, amount: current - amount };
                proof {
                    lemma_total_update(self.entries@, i as int, updated);
                    lemma_update_same_owner(self.entries@, i as int, updated);
                }
                self.entries.set(i, updated);
                Ok(())
            },
            None => Err(ErrorCode::InsufficientBalance),
        }
    }
}

} // verus!
