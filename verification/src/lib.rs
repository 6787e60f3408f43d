//! A custodial token vault: pooled funds of a fungible asset are held in a
//! single custody account per asset, while a per-depositor ledger tracks each
//! depositor's claim. Deposits credit the ledger and forward funds into
//! custody; withdrawals debit the ledger after a sufficiency check and release
//! funds under the vault's derived, non-human authority. The accounting and
//! authorization rules are stated as contracts and proved; the token-transfer
//! collaborator itself is driven by the caller from the orders this library
//! emits.

pub mod account_id;
pub mod errors;
pub mod authority;
pub mod ledger;
pub mod store;
pub mod vault;
