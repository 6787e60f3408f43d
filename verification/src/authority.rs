//! The vault authorization module: control of pooled funds is delegated to a
//! derived, non-human authority. The vault's own address is re-derived
//! deterministically from a fixed label, the asset identity and a one-byte
//! disambiguator (the derivation proof, or "bump"), and every privileged
//! release of funds first verifies that re-derivation.

use vstd::prelude::*;
use anchor_lang::solana_program::pubkey::Pubkey;
use crate::account_id::AccountId;

verus! {

/// What the bump search returns for a program and an asset: the vault's
/// address together with the bump byte under which it derives, or nothing in
/// the statistically improbable event that no bump works.
pub uninterp spec fn vault_derivation(program: Seq<u8>, asset: Seq<u8>) -> Option<(Seq<u8>, u8)>;

/// The address derived from a program, an asset and one given bump byte, or
/// nothing when that bump yields no valid (off-curve) address.
pub uninterp spec fn vault_address_for(program: Seq<u8>, asset: Seq<u8>, bump: u8) -> Option<Seq<u8>>;

/// Relies on `Pubkey::try_find_program_address` of anchor-lang (re-exported
/// from the solana pubkey crate): with seeds `[b"vault", asset]` it searches
/// bump bytes from 255 downward and returns the first derived address that is
/// off-curve, with its bump; the result depends on the arguments alone. Its
/// own documentation states that a returned pair satisfies
/// `create_program_address([b"vault", asset, [bump]], program) == Ok(address)`.
#[verifier::external_body]
fn try_find_vault_address(program: &AccountId, asset: &AccountId) -> (r: Option<(AccountId, u8)>)
    ensures
        match r {
            Some(pair) => {
                &&& vault_derivation(program@, asset@) == Some((pair.0@, pair.1))
                &&& vault_address_for(program@, asset@, pair.1) == Some(pair.0@)
            },
            None => vault_derivation(program@, asset@) is None,
        },
{
    let program_key = Pubkey::new_from_array(program.bytes);
    let asset_key = Pubkey::new_from_array(asset.bytes);
    let seeds: [&[u8]; 2] = [b"vault", asset_key.as_ref()];
    match Pubkey::try_find_program_address(&seeds, &program_key) {
        Some((address, bump)) => Some((AccountId { bytes: address.to_bytes() }, bump)),
        None => None,
    }
}

/// Relies on `Pubkey::create_program_address` of anchor-lang (re-exported
/// from the solana pubkey crate): a deterministic hash of the seeds
/// `[b"vault", asset, [bump]]` and the program id, returning `Err` exactly
/// when the derived point lies on the ed25519 curve; the result depends on
/// the arguments alone.
#[verifier::external_body]
fn create_vault_address(program: &AccountId, asset: &AccountId, bump: u8) -> (r: Option<AccountId>)
    ensures
        match r {
            Some(address) => vault_address_for(program@, asset@, bump) == Some(address@),
            None => vault_address_for(program@, asset@, bump) is None,
        },
{
    let program_key = Pubkey::new_from_array(program.bytes);
    let asset_key = Pubkey::new_from_array(asset.bytes);
    let bump_bytes: [u8; 1] = [bump];
    let seeds: [&[u8]; 3] = [b"vault", asset_key.as_ref(), &bump_bytes];
    match Pubkey::create_program_address(&seeds, &program_key) {
        Ok(address) => Some(AccountId { bytes: address.to_bytes() }),
        Err(_) => None,
    }
}

/// Derive the vault authority for `asset` under `program`: the address the
/// vault record must live at, and the bump byte that proves it.
pub fn derive_vault_authority(program: &AccountId, asset: &AccountId) -> (r: Option<(AccountId, u8)>)
    ensures
        match r {
            Some(pair) => {
                &&& vault_derivation(program@, asset@) == Some((pair.0@, pair.1))
                &&& vault_address_for(program@, asset@, pair.1) == Some(pair.0@)
            },
            None => vault_derivation(program@, asset@) is None,
        },
{
    try_find_vault_address(program, asset)
}

/// Re-derive and compare: does `bump` prove that `address` is the legitimate
/// vault authority for `asset` under `program`?
pub fn verify_vault_authority(program: &AccountId, asset: &AccountId, bump: u8, address: &AccountId) -> (r: bool)
    ensures
        r == (vault_address_for(program@, asset@, bump) == Some(address@)),
{
    match create_vault_address(program, asset, bump) {
        Some(derived) => derived.equals(address),
        None => false,
    }
}

} // verus!
