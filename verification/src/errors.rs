//! The error taxonomy of the vault's operations.

use vstd::prelude::*;

verus! {

/// Every way a vault operation can be refused. Each operation's contract says
/// exactly which inputs and states produce which variant; no error leaves a
/// partial state change behind.
#[derive(Clone, Copy, Debug, PartialEq, Eq, Structural)]
pub enum ErrorCode {
    /// Vault creation was attempted for an asset that already has a record.
    AlreadyInitialized,
    /// A withdrawal asked for more than the caller's ledger entry holds, or
    /// the caller has no entry at all.
    InsufficientBalance,
    /// The derived-authority check failed: the supplied derivation proof does
    /// not re-derive the vault's address, or no vault record matches.
    AuthorityMismatch,
    /// The ledger already holds the maximum number of distinct depositors and
    /// a new one was about to be added.
    CapacityExceeded,
    /// A checked addition on a ledger entry or on the custody total would
    /// overflow.
    ArithmeticOverflow,
    /// A checked subtraction would underflow. The sufficiency check runs
    /// first, so no operation of this library ever reports it.
    ArithmeticUnderflow,
    /// A deposit referenced an asset for which no vault record exists.
    VaultMissing,
    /// A persisted vault record offered for re-adoption is malformed: its
    /// ledger repeats an owner, or claims more than its custody holds.
    InvalidRecord,
}

} // verus!
