use asset_vault::account_id::AccountId;
use asset_vault::authority::{derive_vault_authority, verify_vault_authority};

fn id(tag: u8) -> AccountId {
    AccountId::new([tag; 32])
}

#[test]
fn derived_authority_verifies_under_its_own_bump() {
    let program = id(1);
    let asset = id(10);

    let (address, bump) = derive_vault_authority(&program, &asset).unwrap();

    assert!(verify_vault_authority(&program, &asset, bump, &address));
}

#[test]
fn tampered_bump_fails_verification() {
    let program = id(1);
    let asset = id(10);

    let (address, bump) = derive_vault_authority(&program, &asset).unwrap();

    assert!(!verify_vault_authority(&program, &asset, bump.wrapping_add(1), &address));
}

#[test]
fn foreign_address_fails_verification() {
    let program = id(1);
    let asset = id(10);

    let (_, bump) = derive_vault_authority(&program, &asset).unwrap();

    assert!(!verify_vault_authority(&program, &asset, bump, &id(99)));
}

#[test]
fn derivation_depends_on_the_asset() {
    let program = id(1);

    let (address_a, _) = derive_vault_authority(&program, &id(10)).unwrap();
    let (address_b, _) = derive_vault_authority(&program, &id(11)).unwrap();

    assert!(!address_a.equals(&address_b));
    assert!(!address_a.equals(&id(10)));
}

#[test]
fn derivation_is_deterministic() {
    let program = id(1);
    let asset = id(10);

    let (address_first, bump_first) = derive_vault_authority(&program, &asset).unwrap();
    let (address_again, bump_again) = derive_vault_authority(&program, &asset).unwrap();

    assert!(address_first.equals(&address_again));
    assert_eq!(bump_first, bump_again);
}
