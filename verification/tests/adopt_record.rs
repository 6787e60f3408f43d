use asset_vault::account_id::AccountId;
use asset_vault::authority::derive_vault_authority;
use asset_vault::errors::ErrorCode;
use asset_vault::ledger::LedgerEntry;
use asset_vault::store::VaultStore;

fn id(tag: u8) -> AccountId {
    AccountId::new([tag; 32])
}

fn entry(tag: u8, amount: u64) -> LedgerEntry {
    LedgerEntry { owner: id(tag), amount }
}

#[test]
fn persisted_record_is_adopted_and_served() {
    let program = id(1);
    let asset = id(10);
    let (address, bump) = derive_vault_authority(&program, &asset).unwrap();
    let mut store = VaultStore::new(program);

    store
        .adopt_vault(&asset, &id(2), &id(3), &address, bump, vec![entry(20, 60), entry(30, 40)], 100)
        .unwrap();

    assert_eq!(store.balance_of(&asset, &id(20)).unwrap(), 60);
    assert_eq!(store.balance_of(&asset, &id(30)).unwrap(), 40);
    assert_eq!(store.custody_amount(&asset).unwrap(), 100);

    let order = store.withdraw(&asset, &id(20), &id(22), 60, bump).unwrap();
    assert_eq!(order.amount, 60);
    assert_eq!(store.balance_of(&asset, &id(20)).unwrap(), 0);
    assert_eq!(store.custody_amount(&asset).unwrap(), 40);
}

#[test]
fn adoption_with_tampered_proof_is_refused() {
    let program = id(1);
    let asset = id(10);
    let (address, bump) = derive_vault_authority(&program, &asset).unwrap();
    let mut store = VaultStore::new(program);

    let refused = store.adopt_vault(&asset, &id(2), &id(3), &address, bump.wrapping_add(1), vec![], 0);

    assert_eq!(refused.unwrap_err(), ErrorCode::AuthorityMismatch);
    assert!(!store.has_vault_for(&asset));
}

#[test]
fn adoption_of_a_duplicated_owner_is_refused() {
    let program = id(1);
    let asset = id(10);
    let (address, bump) = derive_vault_authority(&program, &asset).unwrap();
    let mut store = VaultStore::new(program);

    let refused =
        store.adopt_vault(&asset, &id(2), &id(3), &address, bump, vec![entry(20, 1), entry(20, 2)], 3);

    assert_eq!(refused.unwrap_err(), ErrorCode::InvalidRecord);
}

#[test]
fn adoption_of_unbacked_balances_is_refused() {
    let program = id(1);
    let asset = id(10);
    let (address, bump) = derive_vault_authority(&program, &asset).unwrap();
    let mut store = VaultStore::new(program);

    let refused = store.adopt_vault(&asset, &id(2), &id(3), &address, bump, vec![entry(20, 101)], 100);

    assert_eq!(refused.unwrap_err(), ErrorCode::InvalidRecord);
}

#[test]
fn adoption_over_capacity_is_refused() {
    let program = id(1);
    let asset = id(10);
    let (address, bump) = derive_vault_authority(&program, &asset).unwrap();
    let mut store = VaultStore::new(program);
    let mut entries = Vec::new();
    for tag in 0..11u8 {
        entries.push(entry(100 + tag, 1));
    }

    let refused = store.adopt_vault(&asset, &id(2), &id(3), &address, bump, entries, 11);

    assert_eq!(refused.unwrap_err(), ErrorCode::CapacityExceeded);
}

#[test]
fn adoption_beside_an_existing_record_is_refused() {
    let program = id(1);
    let asset = id(10);
    let (address, bump) = derive_vault_authority(&program, &asset).unwrap();
    let mut store = VaultStore::new(program);
    store.initialize_vault(&asset, &id(2), &id(3)).unwrap();

    let refused = store.adopt_vault(&asset, &id(2), &id(3), &address, bump, vec![], 0);

    assert_eq!(refused.unwrap_err(), ErrorCode::AlreadyInitialized);
}
