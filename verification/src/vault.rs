//! The persistent per-vault state, and the orders a vault operation hands to
//! the token custody collaborator.

use vstd::prelude::*;
use crate::account_id::AccountId;
use crate::authority::vault_address_for;
use crate::ledger::Ledger;

verus! {

/// The persistent record of one asset's vault: the principal that created it,
/// the custody account pooling the funds, the derived address the record
/// lives at with its derivation proof, the balance ledger, and a mirror of
/// the quantity the custody account holds. `authority` is informational; it
/// is never required for balance mutation. Everything but the ledger and the
/// custody mirror is immutable after creation.
#[derive(Debug)]
pub struct VaultState {
    /// The asset (mint) this vault pools.
    pub asset: AccountId,
    /// The principal that created and administers the vault.
    pub authority: AccountId,
    /// The account holding the pooled funds, controlled by the derived
    /// vault authority.
    pub custody_account: AccountId,
    /// The vault record's own derived address.
    pub vault_address: AccountId,
    /// The one-byte derivation proof under which `vault_address` derives.
    pub bump: u8,
    /// The per-depositor balance ledger.
    pub ledger: Ledger,
    /// The quantity of the asset held in `custody_account`.
    pub custody_balance: u64,
}

impl VaultState {
    /// Well-formedness under the program that owns the vault records: the
    /// ledger is well formed, the sum of all tracked balances never exceeds
    /// the custody holdings, and the record's address is exactly the one its
    /// asset and bump derive.
    pub open spec fn wf(self, program: Seq<u8>) -> bool {
        &&& self.ledger.wf()
        &&& self.ledger.total() <= self.custody_balance
        &&& vault_address_for(program, self.asset@, self.bump) == Some(self.vault_address@)
    }
}

/// Who authorizes a transfer order.
#[derive(Clone, Copy, Debug)]
pub enum Authorizer {
    /// The direct holder of the source account signs (the deposit path).
    AccountHolder(AccountId),
    /// The vault's derived authority signs, proved by re-deriving from the
    /// asset and the bump (the withdraw path; the one case of delegated,
    /// non-human signing in the system).
    DerivedAuthority { asset: AccountId, bump: u8 },
}

/// One atomic token movement for the custody collaborator to perform: move
/// `amount` of the asset from `from` to `to` under `authorizer`. The ledger
/// mutation that produced the order and the transfer itself must land as one
/// unit; the caller drives that (see the operations' documentation).
#[derive(Clone, Copy, Debug)]
pub struct TransferOrder {
    pub from: AccountId,
    pub to: AccountId,
    pub amount: u64,
    pub authorizer: Authorizer,
}

} // verus!
