//! The vault record store: the caller-facing surface of the library. It
//! models the storage collaborator's guarantees — exactly one record per
//! asset, updates applied under mutual exclusion per record — and carries the
//! three operations: vault creation, deposit and withdrawal.
//!
//! Atomicity: a deposit or withdrawal both mutates the ledger (and the
//! custody mirror) and returns the `TransferOrder` the custody collaborator
//! must perform; the two form one unit of work. A driver that can fail the
//! transfer after the fact either runs the whole request under a
//! commit-or-rollback transaction, or asks `check_deposit` / `check_withdraw`
//! first, performs the transfer, and commits only after it succeeded: the
//! check functions decide success exactly, so the committing call cannot then
//! fail.

use vstd::prelude::*;
use crate::account_id::AccountId;
use crate::authority::{derive_vault_authority, vault_address_for, vault_derivation, verify_vault_authority};
use crate::errors::ErrorCode;
use crate::ledger::{has_owner, lemma_balance_at, lemma_entry_le_total, owner_index, total_of, unique_owners, Ledger, LedgerEntry, MAX_USERS};
use crate::vault::{Authorizer, TransferOrder, VaultState};

verus! {

/// Whether some vault of `s` pools `asset`.
pub open spec fn has_vault_in(s: Seq<VaultState>, asset: Seq<u8>) -> bool {
    exists|i: int| 0 <= i < s.len() && s[i].asset@ == asset
}

/// The index of `asset`'s vault (meaningful only when assets are unique).
pub open spec fn vault_index_in(s: Seq<VaultState>, asset: Seq<u8>) -> int {
    choose|i: int| 0 <= i < s.len() && s[i].asset@ == asset
}

/// No two vaults pool the same asset.
pub open spec fn unique_assets(s: Seq<VaultState>) -> bool {
    forall|i: int, j: int| 0 <= i < j < s.len() ==> s[i].asset@ != s[j].asset@
}

/// With unique assets, the vault at `i` is the one `vault_index_in` finds.
pub proof fn lemma_vault_at(s: Seq<VaultState>, i: int)
    requires
        unique_assets(s),
        0 <= i < s.len(),
    ensures
        has_vault_in(s, s[i].asset@),
        vault_index_in(s, s[i].asset@) == i,
{
    let a = s[i].asset@;
    assert(has_vault_in(s, a));
    let j = vault_index_in(s, a);
    assert(0 <= j < s.len() && s[j].asset@ == a);
    if i < j {
        assert(s[i].asset@ != s[j].asset@);
    } else if j < i {
        assert(s[j].asset@ != s[i].asset@);
    }
}

/// The store of all vault records, owned by one program.
#[derive(Debug)]
pub struct VaultStore {
    /// The program under which vault addresses derive.
    pub program_id: AccountId,
    /// The vault records, one per asset.
    pub vaults: Vec<VaultState>,
}

impl VaultStore {
    /// Exactly one record per asset, each record well formed.
    pub open spec fn wf(self) -> bool {
        &&& unique_assets(self.vaults@)
        &&& forall|i: int|
            0 <= i < self.vaults@.len() ==> #[trigger] self.vaults@[i].wf(self.program_id@)
    }

    pub open spec fn has_vault(self, asset: Seq<u8>) -> bool {
        has_vault_in(self.vaults@, asset)
    }

    pub open spec fn vault(self, asset: Seq<u8>) -> VaultState {
        self.vaults@[vault_index_in(self.vaults@, asset)]
    }

    /// The ledger balance tracked for `owner` in `asset`'s vault (zero when
    /// no entry exists).
    pub open spec fn balance(self, asset: Seq<u8>, owner: Seq<u8>) -> u64 {
        self.vault(asset).ledger.balance(owner)
    }

    /// The quantity held in `asset`'s custody account.
    pub open spec fn custody(self, asset: Seq<u8>) -> u64 {
        self.vault(asset).custody_balance
    }

    /// How vault creation decides: refused when a record for the asset
    /// already exists, or (statistically improbably) when no bump derives an
    /// address for it.
    pub open spec fn initialize_error(self, asset: Seq<u8>) -> Option<ErrorCode> {
        if self.has_vault(asset) {
            Some(ErrorCode::AlreadyInitialized)
        } else if vault_derivation(self.program_id@, asset) is None {
            Some(ErrorCode::AuthorityMismatch)
        } else {
            None
        }
    }

    /// How a deposit decides, in the order the operation checks: the record
    /// must exist, a fresh depositor must fit in the pre-allocated table, and
    /// both the ledger credit and the custody mirror must fit in a `u64`.
    pub open spec fn deposit_error(self, asset: Seq<u8>, depositor: Seq<u8>, amount: u64) -> Option<ErrorCode> {
        if !self.has_vault(asset) {
            Some(ErrorCode::VaultMissing)
        } else if !self.vault(asset).ledger.contains_owner(depositor)
            && self.vault(asset).ledger.depositor_count() >= MAX_USERS as int {
            Some(ErrorCode::CapacityExceeded)
        } else if self.balance(asset, depositor) + amount > u64::MAX {
            Some(ErrorCode::ArithmeticOverflow)
        } else if self.custody(asset) + amount > u64::MAX {
            Some(ErrorCode::ArithmeticOverflow)
        } else {
            None
        }
    }

    /// How re-adoption of a persisted record decides, in the order the
    /// operation checks: the asset must not already have a record in the
    /// store, the offered derivation proof must re-derive the offered
    /// address, the ledger must fit the pre-allocated table, and the record
    /// must be internally consistent (owners unique, balances backed by the
    /// custody holdings it claims).
    pub open spec fn adopt_error(self, asset: Seq<u8>, vault_address: Seq<u8>, bump: u8, entries: Seq<LedgerEntry>, custody_balance: u64) -> Option<ErrorCode> {
        if self.has_vault(asset) {
            Some(ErrorCode::AlreadyInitialized)
        } else if vault_address_for(self.program_id@, asset, bump) != Some(vault_address) {
            Some(ErrorCode::AuthorityMismatch)
        } else if entries.len() > MAX_USERS {
            Some(ErrorCode::CapacityExceeded)
        } else if !unique_owners(entries) {
            Some(ErrorCode::InvalidRecord)
        } else if total_of(entries) > custody_balance {
            Some(ErrorCode::InvalidRecord)
        } else {
            None
        }
    }

    /// How a withdrawal decides, in the order the operation checks: the
    /// record is located and its derived-authority proof verified first (a
    /// missing record is a stale reference, the same refusal as a forged
    /// proof), then the withdrawer's entry must cover the amount.
    pub open spec fn withdraw_error(self, asset: Seq<u8>, withdrawer: Seq<u8>, amount: u64, claimed_bump: u8) -> Option<ErrorCode> {
        if !self.has_vault(asset) {
            Some(ErrorCode::AuthorityMismatch)
        } else if vault_address_for(self.program_id@, asset, claimed_bump)
            != Some(self.vault(asset).vault_address@) {
            Some(ErrorCode::AuthorityMismatch)
        } else if !self.vault(asset).ledger.contains_owner(withdrawer)
            || self.balance(asset, withdrawer) < amount {
            Some(ErrorCode::InsufficientBalance)
        } else {
            None
        }
    }

    /// An empty store for the given program.
    pub fn new(program_id: AccountId) -> (s: VaultStore)
        ensures
            s.wf(),
            s.program_id == program_id,
            s.vaults@.len() == 0,
            forall|a: Seq<u8>| !s.has_vault(a),
    {
        VaultStore { program_id, vaults: Vec::new() }
    }

    /// The index of `asset`'s record, if present.
    fn find_vault(&self, asset: &AccountId) -> (r: Option<usize>)
        ensures
            match r {
                Some(i) => i < self.vaults@.len() && self.vaults@[i as int].asset@ == asset@,
                None => !self.has_vault(asset@),
            },
    {
        let n = self.vaults.len();
        let mut i: usize = 0;
        while i < n
            invariant
                n == self.vaults@.len(),
                i <= n,
                forall|j: int| 0 <= j < i ==> self.vaults@[j].asset@ != asset@,
            decreases n - i,
        {
            if self.vaults[i].asset.equals(asset) {
                return Some(i);
            }
            i += 1;
        }
        None
    }

    /// Create the vault record for `asset`: derive its address and proof,
    /// bind `custody_account`, record `requester` as the administering
    /// authority, and start with an empty ledger. Exactly once per asset:
    /// re-creation is refused with `AlreadyInitialized` and changes nothing.
    pub fn initialize_vault(&mut self, asset: &AccountId, requester: &AccountId, custody_account: &AccountId) -> (r: Result<(), ErrorCode>)
        requires
            old(self).wf(),
        ensures
            final(self).wf(),
            final(self).program_id == old(self).program_id,
            match r {
                Ok(()) => {
                    &&& old(self).initialize_error(asset@) is None
                    &&& final(self).vaults@.len() == old(self).vaults@.len() + 1
                    &&& forall|j: int|
                        0 <= j < old(self).vaults@.len() ==> final(self).vaults@[j] == old(self).vaults@[j]
                    &&& forall|a: Seq<u8>|
                        a != asset@ ==> #[trigger] final(self).has_vault(a) == old(self).has_vault(a)
                    &&& final(self).has_vault(asset@)
                    &&& final(self).vault(asset@).asset == *asset
                    &&& final(self).vault(asset@).authority == *requester
                    &&& final(self).vault(asset@).custody_account == *custody_account
                    &&& final(self).vault(asset@).ledger.depositor_count() == 0
                    &&& final(self).vault(asset@).ledger.total() == 0
                    &&& forall|o: Seq<u8>| !final(self).vault(asset@).ledger.contains_owner(o)
                    &&& final(self).custody(asset@) == 0
                    &&& Some((final(self).vault(asset@).vault_address@, final(self).vault(asset@).bump))
                        == vault_derivation(old(self).program_id@, asset@)
                },
                Err(e) => {
                    &&& Some(e) == old(self).initialize_error(asset@)
                    &&& *final(self) == *old(self)
                },
            },
    {
        match self.find_vault(asset) {
            Some(_) => {
                return Err(ErrorCode::AlreadyInitialized);
            },
            None => {},
        }
        let derived = derive_vault_authority(&self.program_id, asset);
        let (address, bump) = match derived {
            Some(pair) => pair,
            None => {
                return Err(ErrorCode::AuthorityMismatch);
            },
        };
        let ghost s0 = self.vaults@;
        let record = VaultState {
            asset: *asset,
            authority: *requester,
            custody_account: *custody_account,
            vault_address: address,
            bump,
            ledger: Ledger::new(),
            custody_balance: 0,
        };
        self.vaults.push(record);
        proof {
            let s1 = self.vaults@;
            assert(forall|k: int| 0 <= k < s0.len() ==> s1[k] == s0[k]);
            assert forall|i: int, j: int| 0 <= i < j < s1.len() implies s1[i].asset@ != s1[j].asset@ by {
                if j < s0.len() {
                    assert(s0[i].asset@ != s0[j].asset@);
                } else {
                    if s1[i].asset@ == asset@ {
                        assert(has_vault_in(s0, asset@));
                    }
                }
            }
            lemma_vault_at(s1, s0.len() as int);
            assert forall|a: Seq<u8>| a != asset@ implies #[trigger] has_vault_in(s1, a) == has_vault_in(s0, a) by {
                if has_vault_in(s1, a) {
                    let k = vault_index_in(s1, a);
                    assert(0 <= k < s1.len() && s1[k].asset@ == a);
                    assert(k < s0.len());
                    assert(s0[k].asset@ == a);
                }
                if has_vault_in(s0, a) {
                    let k = vault_index_in(s0, a);
                    assert(0 <= k < s0.len() && s0[k].asset@ == a);
                    assert(s1[k].asset@ == a);
                }
            }
        }
        Ok(())
    }

    /// Re-adopt a vault record fetched from persistent storage: validate it
    /// — nothing from storage is believed unchecked — and add it to the
    /// store. `Ok` exactly when the asset has no record here yet, `bump`
    /// re-derives `vault_address`, and the record is well formed; then the
    /// record joins the store with exactly the offered fields. On any error
    /// the store is untouched.
    #[verifier::loop_isolation(false)]
    pub fn adopt_vault(&mut self, asset: &AccountId, authority: &AccountId, custody_account: &AccountId, vault_address: &AccountId, bump: u8, entries: Vec<LedgerEntry>, custody_balance: u64) -> (r: Result<(), ErrorCode>)
        requires
            old(self).wf(),
        ensures
            final(self).wf(),
            final(self).program_id == old(self).program_id,
            match r {
                Ok(()) => {
                    &&& old(self).adopt_error(asset@, vault_address@, bump, entries@, custody_balance) is None
                    &&& final(self).vaults@.len() == old(self).vaults@.len() + 1
                    &&& forall|j: int|
                        0 <= j < old(self).vaults@.len() ==> final(self).vaults@[j] == old(self).vaults@[j]
                    &&& forall|a: Seq<u8>|
                        a != asset@ ==> #[trigger] final(self).has_vault(a) == old(self).has_vault(a)
                    &&& final(self).has_vault(asset@)
                    &&& final(self).vault(asset@).asset == *asset
                    &&& final(self).vault(asset@).authority == *authority
                    &&& final(self).vault(asset@).custody_account == *custody_account
                    &&& final(self).vault(asset@).vault_address == *vault_address
                    &&& final(self).vault(asset@).bump == bump
                    &&& final(self).vault(asset@).ledger.entries@ == entries@
                    &&& final(self).custody(asset@) == custody_balance
                },
                Err(e) => {
                    &&& Some(e) == old(self).adopt_error(asset@, vault_address@, bump, entries@, custody_balance)
                    &&& *final(self) == *old(self)
                },
            },
    {
        match self.find_vault(asset) {
            Some(_) => {
                return Err(ErrorCode::AlreadyInitialized);
            },
            None => {},
        }
        if !verify_vault_authority(&self.program_id, asset, bump, vault_address) {
            return Err(ErrorCode::AuthorityMismatch);
        }
        let n = entries.len();
        if n > MAX_USERS {
            return Err(ErrorCode::CapacityExceeded);
        }
        let mut p: usize = 0;
        while p < n
            invariant
                n == entries@.len(),
                p <= n,
                forall|x: int, y: int| 0 <= x < y < n && x < p ==> entries@[x].owner@ != entries@[y].owner@,
            decreases n - p,
        {
            let mut q: usize = p + 1;
            while q < n
                invariant
                    n == entries@.len(),
                    p < n,
                    p < q <= n,
                    forall|y: int| p < y < q ==> entries@[p as int].owner@ != entries@[y].owner@,
                decreases n - q,
            {
                if entries[p].owner.equals(&entries[q].owner) {
                    return Err(ErrorCode::InvalidRecord);
                }
                q += 1;
            }
            p += 1;
        }
        assert(unique_owners(entries@));
        let mut acc: u128 = 0;
        let mut k: usize = 0;
        while k < n
            invariant
                n == entries@.len(),
                n <= MAX_USERS,
                k <= n,
                acc as int == total_of(entries@.take(k as int)),
                acc as int <= k as int * (u64::MAX as int),
            decreases n - k,
        {
            proof {
                assert(entries@.take(k as int + 1).drop_last() =~= entries@.take(k as int));
                assert(entries@.take(k as int + 1).last() == entries@[k as int]);
            }
            acc = acc + entries[k].amount as u128;
            k += 1;
        }
        proof {
            assert(entries@.take(n as int) =~= entries@);
        }
        if acc > custody_balance as u128 {
            return Err(ErrorCode::InvalidRecord);
        }
        let ghost s0 = self.vaults@;
        let record = VaultState {
            asset: *asset,
            authority: *authority,
            custody_account: *custody_account,
            vault_address: *vault_address,
            bump,
            ledger: Ledger { entries },
            custody_balance,
        };
        self.vaults.push(record);
        proof {
            let s1 = self.vaults@;
            assert(forall|j: int| 0 <= j < s0.len() ==> s1[j] == s0[j]);
            assert forall|i: int, j: int| 0 <= i < j < s1.len() implies s1[i].asset@ != s1[j].asset@ by {
                if j < s0.len() {
                    assert(s0[i].asset@ != s0[j].asset@);
                } else {
                    if s1[i].asset@ == asset@ {
                        assert(has_vault_in(s0, asset@));
                    }
                }
            }
            lemma_vault_at(s1, s0.len() as int);
            assert forall|a: Seq<u8>| a != asset@ implies #[trigger] has_vault_in(s1, a) == has_vault_in(s0, a) by {
                if has_vault_in(s1, a) {
                    let x = vault_index_in(s1, a);
                    assert(0 <= x < s1.len() && s1[x].asset@ == a);
                    assert(x < s0.len());
                    assert(s0[x].asset@ == a);
                }
                if has_vault_in(s0, a) {
                    let x = vault_index_in(s0, a);
                    assert(0 <= x < s0.len() && s0[x].asset@ == a);
                    assert(s1[x].asset@ == a);
                }
            }
        }
        Ok(())
    }

    /// Decide a deposit without performing it: `Ok` exactly when `deposit`
    /// would commit. A driver that must order the token transfer before the
    /// ledger commit asks this first.
    pub fn check_deposit(&self, asset: &AccountId, depositor: &AccountId, amount: u64) -> (r: Result<(), ErrorCode>)
        requires
            self.wf(),
            amount > 0,
        ensures
            match r {
                Ok(()) => self.deposit_error(asset@, depositor@, amount) is None,
                Err(e) => Some(e) == self.deposit_error(asset@, depositor@, amount),
            },
    {
        let i = match self.find_vault(asset) {
            Some(i) => i,
            None => {
                return Err(ErrorCode::VaultMissing);
            },
        };
        proof {
            lemma_vault_at(self.vaults@, i as int);
            assert(self.vaults@[i as int].wf(self.program_id@));
        }
        let existing = self.vaults[i].ledger.lookup(depositor);
        let current = match existing {
            Some(b) => b,
            None => {
                if self.vaults[i].ledger.entries.len() >= MAX_USERS {
                    return Err(ErrorCode::CapacityExceeded);
                }
                0
            },
        };
        if amount > u64::MAX - current {
            return Err(ErrorCode::ArithmeticOverflow);
        }
        if amount > u64::MAX - self.vaults[i].custody_balance {
            return Err(ErrorCode::ArithmeticOverflow);
        }
        Ok(())
    }

    /// Deposit `amount` of `asset` from `source_account`, credited to
    /// `depositor`: look up or create the depositor's ledger entry (the only
    /// place a new depositor is added), increase it and the custody mirror in
    /// lockstep with checked arithmetic, and return the order moving the
    /// funds into custody, authorized directly by the depositor. On any error
    /// the store is untouched and no order is emitted.
    pub fn deposit(&mut self, asset: &AccountId, depositor: &AccountId, source_account: &AccountId, amount: u64) -> (r: Result<TransferOrder, ErrorCode>)
        requires
            old(self).wf(),
            amount > 0,
        ensures
            final(self).wf(),
            final(self).program_id == old(self).program_id,
            match r {
                Ok(order) => {
                    &&& old(self).deposit_error(asset@, depositor@, amount) is None
                    &&& final(self).vaults@.len() == old(self).vaults@.len()
                    &&& forall|j: int|
                        0 <= j < old(self).vaults@.len() && old(self).vaults@[j].asset@ != asset@
                            ==> final(self).vaults@[j] == old(self).vaults@[j]
                    &&& final(self).has_vault(asset@)
                    &&& final(self).vault(asset@).asset == old(self).vault(asset@).asset
                    &&& final(self).vault(asset@).authority == old(self).vault(asset@).authority
                    &&& final(self).vault(asset@).custody_account == old(self).vault(asset@).custody_account
                    &&& final(self).vault(asset@).vault_address == old(self).vault(asset@).vault_address
                    &&& final(self).vault(asset@).bump == old(self).vault(asset@).bump
                    &&& final(self).vault(asset@).ledger.contains_owner(depositor@)
                    &&& final(self).balance(asset@, depositor@) == old(self).balance(asset@, depositor@) + amount
                    &&& forall|o: Seq<u8>|
                        o != depositor@ ==> #[trigger] final(self).vault(asset@).ledger.contains_owner(o)
                            == old(self).vault(asset@).ledger.contains_owner(o)
                    &&& forall|o: Seq<u8>|
                        o != depositor@ ==> #[trigger] final(self).balance(asset@, o) == old(self).balance(asset@, o)
                    &&& final(self).vault(asset@).ledger.total() == old(self).vault(asset@).ledger.total() + amount
                    &&& final(self).custody(asset@) == old(self).custody(asset@) + amount
                    &&& order.from == *source_account
                    &&& order.to == old(self).vault(asset@).custody_account
                    &&& order.amount == amount
                    &&& order.authorizer == Authorizer::AccountHolder(*depositor)
                },
                Err(e) => {
                    &&& Some(e) == old(self).deposit_error(asset@, depositor@, amount)
                    &&& *final(self) == *old(self)
                },
            },
    {
        let i = match self.find_vault(asset) {
            Some(i) => i,
            None => {
                return Err(ErrorCode::VaultMissing);
            },
        };
        proof {
            lemma_vault_at(self.vaults@, i as int);
            assert(self.vaults@[i as int].wf(self.program_id@));
        }
        let existing = self.vaults[i].ledger.lookup(depositor);
        let current = match existing {
            Some(b) => b,
            None => {
                if self.vaults[i].ledger.entries.len() >= MAX_USERS {
                    return Err(ErrorCode::CapacityExceeded);
                }
                0
            },
        };
        if amount > u64::MAX - current {
            return Err(ErrorCode::ArithmeticOverflow);
        }
        if amount > u64::MAX - self.vaults[i].custody_balance {
            return Err(ErrorCode::ArithmeticOverflow);
        }
        let ghost s0 = self.vaults@;
        let mut record = self.vaults.remove(i);
        let credited = record.ledger.credit(depositor, amount);
        match credited {
            Ok(()) => {},
            Err(e) => {
                proof {
                    assert(false);
                }
                return Err(e);
            },
        }
        record.custody_balance = record.custody_balance + amount;
        let order = TransferOrder {
            from: *source_account,
            to: record.custody_account,
            amount,
            authorizer: Authorizer::AccountHolder(*depositor),
        };
        self.vaults.insert(i, record);
        proof {
            let s1 = self.vaults@;
            assert(s1 =~= s0.update(i as int, s1[i as int]));
            assert(forall|k: int| 0 <= k < s1.len() ==> s1[k].asset@ == s0[k].asset@);
            assert forall|p: int, q: int| 0 <= p < q < s1.len() implies s1[p].asset@ != s1[q].asset@ by {
                assert(s0[p].asset@ != s0[q].asset@);
            }
            lemma_vault_at(s1, i as int);
            assert forall|k: int| 0 <= k < s1.len() implies #[trigger] s1[k].wf(self.program_id@) by {
                assert(s0[k].wf(self.program_id@));
            }
        }
        Ok(order)
    }

    /// Decide a withdrawal without performing it: `Ok` exactly when
    /// `withdraw` would commit.
    pub fn check_withdraw(&self, asset: &AccountId, withdrawer: &AccountId, amount: u64, claimed_bump: u8) -> (r: Result<(), ErrorCode>)
        requires
            self.wf(),
            amount > 0,
        ensures
            match r {
                Ok(()) => self.withdraw_error(asset@, withdrawer@, amount, claimed_bump) is None,
                Err(e) => Some(e) == self.withdraw_error(asset@, withdrawer@, amount, claimed_bump),
            },
    {
        let i = match self.find_vault(asset) {
            Some(i) => i,
            None => {
                return Err(ErrorCode::AuthorityMismatch);
            },
        };
        proof {
            lemma_vault_at(self.vaults@, i as int);
            assert(self.vaults@[i as int].wf(self.program_id@));
        }
        let proven = verify_vault_authority(&self.program_id, asset, claimed_bump, &self.vaults[i].vault_address);
        if !proven {
            return Err(ErrorCode::AuthorityMismatch);
        }
        let current = match self.vaults[i].ledger.lookup(withdrawer) {
            Some(b) => b,
            None => {
                return Err(ErrorCode::InsufficientBalance);
            },
        };
        if current < amount {
            return Err(ErrorCode::InsufficientBalance);
        }
        Ok(())
    }

    /// Withdraw `amount` of `asset` to `destination_account`, debited from
    /// `withdrawer`: locate the record, verify the supplied derivation proof
    /// against its address (a mismatch is a hard refusal), check sufficiency,
    /// decrease the entry and the custody mirror in lockstep, and return the
    /// order releasing the funds, authorized by the vault's derived authority
    /// rather than by any human key. On any error the store is untouched and
    /// no order is emitted.
    pub fn withdraw(&mut self, asset: &AccountId, withdrawer: &AccountId, destination_account: &AccountId, amount: u64, claimed_bump: u8) -> (r: Result<TransferOrder, ErrorCode>)
        requires
            old(self).wf(),
            amount > 0,
        ensures
            final(self).wf(),
            final(self).program_id == old(self).program_id,
            match r {
                Ok(order) => {
                    &&& old(self).withdraw_error(asset@, withdrawer@, amount, claimed_bump) is None
                    &&& final(self).vaults@.len() == old(self).vaults@.len()
                    &&& forall|j: int|
                        0 <= j < old(self).vaults@.len() && old(self).vaults@[j].asset@ != asset@
                            ==> final(self).vaults@[j] == old(self).vaults@[j]
                    &&& final(self).has_vault(asset@)
                    &&& final(self).vault(asset@).asset == old(self).vault(asset@).asset
                    &&& final(self).vault(asset@).authority == old(self).vault(asset@).authority
                    &&& final(self).vault(asset@).custody_account == old(self).vault(asset@).custody_account
                    &&& final(self).vault(asset@).vault_address == old(self).vault(asset@).vault_address
                    &&& final(self).vault(asset@).bump == old(self).vault(asset@).bump
                    &&& old(self).balance(asset@, withdrawer@) >= amount
                    &&& final(self).balance(asset@, withdrawer@) == old(self).balance(asset@, withdrawer@) - amount
                    &&& forall|o: Seq<u8>|
                        o != withdrawer@ ==> #[trigger] final(self).vault(asset@).ledger.contains_owner(o)
                            == old(self).vault(asset@).ledger.contains_owner(o)
                    &&& forall|o: Seq<u8>|
                        o != withdrawer@ ==> #[trigger] final(self).balance(asset@, o) == old(self).balance(asset@, o)
                    &&& final(self).vault(asset@).ledger.total() == old(self).vault(asset@).ledger.total() - amount
                    &&& final(self).custody(asset@) == old(self).custody(asset@) - amount
                    &&& order.from == old(self).vault(asset@).custody_account
                    &&& order.to == *destination_account
                    &&& order.amount == amount
                    &&& order.authorizer == (Authorizer::DerivedAuthority {
                        asset: old(self).vault(asset@).asset,
                        bump: old(self).vault(asset@).bump,
                    })
                },
                Err(e) => {
                    &&& Some(e) == old(self).withdraw_error(asset@, withdrawer@, amount, claimed_bump)
                    &&& *final(self) == *old(self)
                },
            },
    {
        let i = match self.find_vault(asset) {
            Some(i) => i,
            None => {
                return Err(ErrorCode::AuthorityMismatch);
            },
        };
        proof {
            lemma_vault_at(self.vaults@, i as int);
            assert(self.vaults@[i as int].wf(self.program_id@));
        }
        let proven = verify_vault_authority(&self.program_id, asset, claimed_bump, &self.vaults[i].vault_address);
        if !proven {
            return Err(ErrorCode::AuthorityMismatch);
        }
        let current = match self.vaults[i].ledger.lookup(withdrawer) {
            Some(b) => b,
            None => {
                return Err(ErrorCode::InsufficientBalance);
            },
        };
        if current < amount {
            return Err(ErrorCode::InsufficientBalance);
        }
        let ghost s0 = self.vaults@;
        proof {
            // The withdrawer's balance is one summand of the ledger total,
            // which the invariant bounds by the custody holdings, so the
            // custody subtraction below cannot underflow.
            let entries = s0[i as int].ledger.entries@;
            let k = owner_index(entries, withdrawer@);
            assert(0 <= k < entries.len() && entries[k].owner@ == withdrawer@);
            lemma_balance_at(entries, k);
            lemma_entry_le_total(entries, k);
        }
        let mut record = self.vaults.remove(i);
        let debited = record.ledger.debit(withdrawer, amount);
        match debited {
            Ok(()) => {},
            Err(e) => {
                proof {
                    assert(false);
                }
                return Err(e);
            },
        }
        record.custody_balance = record.custody_balance - amount;
        let order = TransferOrder {
            from: record.custody_account,
            to: *destination_account,
            amount,
            authorizer: Authorizer::DerivedAuthority { asset: record.asset, bump: record.bump },
        };
        self.vaults.insert(i, record);
        proof {
            let s1 = self.vaults@;
            assert(s1 =~= s0.update(i as int, s1[i as int]));
            assert(forall|k: int| 0 <= k < s1.len() ==> s1[k].asset@ == s0[k].asset@);
            assert forall|p: int, q: int| 0 <= p < q < s1.len() implies s1[p].asset@ != s1[q].asset@ by {
                assert(s0[p].asset@ != s0[q].asset@);
            }
            lemma_vault_at(s1, i as int);
            assert forall|k: int| 0 <= k < s1.len() implies #[trigger] s1[k].wf(self.program_id@) by {
                assert(s0[k].wf(self.program_id@));
            }
        }
        Ok(order)
    }

    /// Whether a vault record exists for `asset`.
    pub fn has_vault_for(&self, asset: &AccountId) -> (r: bool)
        ensures
            r == self.has_vault(asset@),
    {
        match self.find_vault(asset) {
            Some(i) => {
                proof {
                    assert(has_vault_in(self.vaults@, asset@));
                }
                true
            },
            None => false,
        }
    }

    /// The balance tracked for `owner` in `asset`'s vault (zero when no
    /// entry exists), or `None` when no vault exists for the asset.
    pub fn balance_of(&self, asset: &AccountId, owner: &AccountId) -> (r: Option<u64>)
        requires
            self.wf(),
        ensures
            match r {
                Some(b) => self.has_vault(asset@) && b == self.balance(asset@, owner@),
                None => !self.has_vault(asset@),
            },
    {
        let i = match self.find_vault(asset) {
            Some(i) => i,
            None => {
                return None;
            },
        };
        proof {
            lemma_vault_at(self.vaults@, i as int);
            assert(self.vaults@[i as int].wf(self.program_id@));
        }
        match self.vaults[i].ledger.lookup(owner) {
            Some(b) => Some(b),
            None => Some(0),
        }
    }

    /// The quantity held in custody for `asset`, or `None` when no vault
    /// exists for the asset.
    pub fn custody_amount(&self, asset: &AccountId) -> (r: Option<u64>)
        requires
            self.wf(),
        ensures
            match r {
                Some(c) => self.has_vault(asset@) && c == self.custody(asset@),
                None => !self.has_vault(asset@),
            },
    {
        let i = match self.find_vault(asset) {
            Some(i) => i,
            None => {
                return None;
            },
        };
        proof {
            lemma_vault_at(self.vaults@, i as int);
        }
        Some(self.vaults[i].custody_balance)
    }

    /// The derivation proof recorded for `asset`'s vault.
    pub fn vault_bump(&self, asset: &AccountId) -> (r: Option<u8>)
        requires
            self.wf(),
        ensures
            match r {
                Some(b) => self.has_vault(asset@) && b == self.vault(asset@).bump,
                None => !self.has_vault(asset@),
            },
    {
        let i = match self.find_vault(asset) {
            Some(i) => i,
            None => {
                return None;
            },
        };
        proof {
            lemma_vault_at(self.vaults@, i as int);
        }
        Some(self.vaults[i].bump)
    }

    /// The derived address of `asset`'s vault record.
    pub fn vault_address_of(&self, asset: &AccountId) -> (r: Option<AccountId>)
        requires
            self.wf(),
        ensures
            match r {
                Some(a) => self.has_vault(asset@) && a == self.vault(asset@).vault_address,
                None => !self.has_vault(asset@),
            },
    {
        let i = match self.find_vault(asset) {
            Some(i) => i,
            None => {
                return None;
            },
        };
        proof {
            lemma_vault_at(self.vaults@, i as int);
        }
        Some(self.vaults[i].vault_address)
    }

    /// The custody account bound to `asset`'s vault.
    pub fn custody_account_of(&self, asset: &AccountId) -> (r: Option<AccountId>)
        requires
            self.wf(),
        ensures
            match r {
                Some(a) => self.has_vault(asset@) && a == self.vault(asset@).custody_account,
                None => !self.has_vault(asset@),
            },
    {
        let i = match self.find_vault(asset) {
            Some(i) => i,
            None => {
                return None;
            },
        };
        proof {
            lemma_vault_at(self.vaults@, i as int);
        }
        Some(self.vaults[i].custody_account)
    }

    /// How many distinct depositors `asset`'s ledger tracks.
    pub fn depositor_count_of(&self, asset: &AccountId) -> (r: Option<usize>)
        requires
            self.wf(),
        ensures
            match r {
                Some(n) => self.has_vault(asset@) && n as int == self.vault(asset@).ledger.depositor_count(),
                None => !self.has_vault(asset@),
            },
    {
        let i = match self.find_vault(asset) {
            Some(i) => i,
            None => {
                return None;
            },
        };
        proof {
            lemma_vault_at(self.vaults@, i as int);
        }
        Some(self.vaults[i].ledger.entries.len())
    }
}

/// Law: in a well-formed store, the sum of all ledger balances of a vault
/// never exceeds the quantity its custody account holds. Every operation
/// preserves well-formedness, so this holds after any sequence of deposits
/// and withdrawals.
pub proof fn lemma_ledger_backed_by_custody(s: VaultStore, asset: Seq<u8>)
    requires
        s.wf(),
        s.has_vault(asset),
    ensures
        s.vault(asset).ledger.total() <= s.vault(asset).custody_balance as int,
{
    let i = vault_index_in(s.vaults@, asset);
    assert(0 <= i < s.vaults@.len() && s.vaults@[i].asset@ == asset);
    assert(s.vaults@[i].wf(s.program_id@));
}

/// Law: each single tracked balance is itself bounded by the custody
/// holdings of its vault.
pub proof fn lemma_balance_backed_by_custody(s: VaultStore, asset: Seq<u8>, owner: Seq<u8>)
    requires
        s.wf(),
        s.has_vault(asset),
    ensures
        s.balance(asset, owner) <= s.vault(asset).custody_balance,
{
    lemma_ledger_backed_by_custody(s, asset);
    let entries = s.vault(asset).ledger.entries@;
    if has_owner(entries, owner) {
        let k = owner_index(entries, owner);
        assert(0 <= k < entries.len() && entries[k].owner@ == owner);
        let i = vault_index_in(s.vaults@, asset);
        assert(s.vaults@[i].wf(s.program_id@));
        lemma_balance_at(entries, k);
        lemma_entry_le_total(entries, k);
    }
}

/// Law: the derivation proof recorded at creation always passes the
/// derived-authority check, so a withdrawal presenting it is never refused
/// for authority reasons.
pub proof fn lemma_recorded_bump_verifies(s: VaultStore, asset: Seq<u8>)
    requires
        s.wf(),
        s.has_vault(asset),
    ensures
        vault_address_for(s.program_id@, asset, s.vault(asset).bump) == Some(s.vault(asset).vault_address@),
{
    let i = vault_index_in(s.vaults@, asset);
    assert(0 <= i < s.vaults@.len() && s.vaults@[i].asset@ == asset);
    assert(s.vaults@[i].wf(s.program_id@));
}

/// Law: once a vault exists for an asset, a further creation attempt is
/// refused with `AlreadyInitialized`; together with `initialize_vault`'s
/// contract (an `Err` leaves the store untouched), creating twice for the
/// same asset fails the second time with the record's fields unchanged.
pub proof fn lemma_initialize_vault_unique(s: VaultStore, asset: Seq<u8>)
    requires
        s.has_vault(asset),
    ensures
        s.initialize_error(asset) == Some(ErrorCode::AlreadyInitialized),
{
}

/// Law: a withdrawal whose derived-authority check mismatches is refused
/// with `AuthorityMismatch`, whatever the amount and whoever asks; together
/// with `withdraw`'s contract, it mutates no ledger entry and emits no
/// transfer order.
pub proof fn lemma_withdraw_requires_authority(s: VaultStore, asset: Seq<u8>, withdrawer: Seq<u8>, amount: u64, claimed_bump: u8)
    requires
        s.has_vault(asset),
        vault_address_for(s.program_id@, asset, claimed_bump) != Some(s.vault(asset).vault_address@),
    ensures
        s.withdraw_error(asset, withdrawer, amount, claimed_bump) == Some(ErrorCode::AuthorityMismatch),
{
}

/// Law: a withdrawal of more than the withdrawer's tracked balance never
/// succeeds, whatever the derivation proof says.
pub proof fn lemma_withdraw_requires_balance(s: VaultStore, asset: Seq<u8>, withdrawer: Seq<u8>, amount: u64, claimed_bump: u8)
    requires
        amount > s.balance(asset, withdrawer),
    ensures
        s.withdraw_error(asset, withdrawer, amount, claimed_bump) is Some,
{
}

} // verus!
