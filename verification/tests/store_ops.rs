use asset_vault::account_id::AccountId;
use asset_vault::errors::ErrorCode;
use asset_vault::store::VaultStore;
use asset_vault::vault::Authorizer;

fn id(tag: u8) -> AccountId {
    AccountId::new([tag; 32])
}

fn store_with_vault(asset: AccountId) -> VaultStore {
    let mut store = VaultStore::new(id(1));
    store.initialize_vault(&asset, &id(2), &id(3)).unwrap();
    store
}

#[test]
fn deposit_credits_ledger_and_custody() {
    let asset = id(10);
    let user = id(20);
    let source = id(21);
    let mut store = store_with_vault(asset);

    let order = store.deposit(&asset, &user, &source, 100).unwrap();

    assert_eq!(store.balance_of(&asset, &user).unwrap(), 100);
    assert_eq!(store.custody_amount(&asset).unwrap(), 100);
    assert_eq!(order.amount, 100);
    assert!(order.from.equals(&source));
    assert!(order.to.equals(&store.custody_account_of(&asset).unwrap()));
    match order.authorizer {
        Authorizer::AccountHolder(holder) => assert!(holder.equals(&user)),
        _ => panic!("a deposit is authorized by the depositor directly"),
    }
}

#[test]
fn withdraw_debits_ledger_and_delivers_to_user() {
    let asset = id(10);
    let user = id(20);
    let user_account = id(22);
    let mut store = store_with_vault(asset);
    store.deposit(&asset, &user, &id(21), 100).unwrap();

    let bump = store.vault_bump(&asset).unwrap();
    let order = store.withdraw(&asset, &user, &user_account, 40, bump).unwrap();

    assert_eq!(store.balance_of(&asset, &user).unwrap(), 60);
    assert_eq!(store.custody_amount(&asset).unwrap(), 60);
    assert_eq!(order.amount, 40);
    assert!(order.from.equals(&store.custody_account_of(&asset).unwrap()));
    assert!(order.to.equals(&user_account));
    match order.authorizer {
        Authorizer::DerivedAuthority { asset: a, bump: b } => {
            assert!(a.equals(&asset));
            assert_eq!(b, bump);
        },
        _ => panic!("a withdrawal is authorized by the derived vault authority"),
    }
}

#[test]
fn overdraw_is_refused_and_balance_kept() {
    let asset = id(10);
    let user = id(20);
    let mut store = store_with_vault(asset);
    store.deposit(&asset, &user, &id(21), 100).unwrap();
    let bump = store.vault_bump(&asset).unwrap();
    store.withdraw(&asset, &user, &id(22), 40, bump).unwrap();

    let refused = store.withdraw(&asset, &user, &id(22), 61, bump);

    assert_eq!(refused.unwrap_err(), ErrorCode::InsufficientBalance);
    assert_eq!(store.balance_of(&asset, &user).unwrap(), 60);
    assert_eq!(store.custody_amount(&asset).unwrap(), 60);
}

#[test]
fn withdraw_by_unknown_user_is_refused() {
    let asset = id(10);
    let mut store = store_with_vault(asset);
    store.deposit(&asset, &id(20), &id(21), 100).unwrap();
    let bump = store.vault_bump(&asset).unwrap();

    let refused = store.withdraw(&asset, &id(30), &id(31), 1, bump);

    assert_eq!(refused.unwrap_err(), ErrorCode::InsufficientBalance);
    assert_eq!(store.custody_amount(&asset).unwrap(), 100);
}

#[test]
fn tampered_derivation_proof_is_refused() {
    let asset = id(10);
    let user = id(20);
    let mut store = store_with_vault(asset);
    store.deposit(&asset, &user, &id(21), 100).unwrap();
    let bump = store.vault_bump(&asset).unwrap();

    let refused = store.withdraw(&asset, &user, &id(22), 40, bump.wrapping_add(1));

    assert_eq!(refused.unwrap_err(), ErrorCode::AuthorityMismatch);
    assert_eq!(store.balance_of(&asset, &user).unwrap(), 100);
    assert_eq!(store.custody_amount(&asset).unwrap(), 100);
}

#[test]
fn withdraw_against_missing_vault_is_refused() {
    let mut store = VaultStore::new(id(1));

    let refused = store.withdraw(&id(10), &id(20), &id(22), 40, 255);

    assert_eq!(refused.unwrap_err(), ErrorCode::AuthorityMismatch);
}

#[test]
fn initialize_twice_fails_and_keeps_the_record() {
    let asset = id(10);
    let mut store = VaultStore::new(id(1));
    store.initialize_vault(&asset, &id(2), &id(3)).unwrap();
    let bump = store.vault_bump(&asset).unwrap();
    let address = store.vault_address_of(&asset).unwrap();

    let refused = store.initialize_vault(&asset, &id(4), &id(5));

    assert_eq!(refused.unwrap_err(), ErrorCode::AlreadyInitialized);
    assert_eq!(store.vault_bump(&asset).unwrap(), bump);
    assert!(store.vault_address_of(&asset).unwrap().equals(&address));
    assert!(store.custody_account_of(&asset).unwrap().equals(&id(3)));
    assert_eq!(store.custody_amount(&asset).unwrap(), 0);
}

#[test]
fn vaults_for_distinct_assets_are_independent() {
    let asset_a = id(10);
    let asset_b = id(11);
    let user = id(20);
    let mut store = VaultStore::new(id(1));
    store.initialize_vault(&asset_a, &id(2), &id(3)).unwrap();
    store.initialize_vault(&asset_b, &id(2), &id(4)).unwrap();

    store.deposit(&asset_a, &user, &id(21), 70).unwrap();

    assert_eq!(store.balance_of(&asset_a, &user).unwrap(), 70);
    assert_eq!(store.balance_of(&asset_b, &user).unwrap(), 0);
    assert_eq!(store.custody_amount(&asset_b).unwrap(), 0);
}

#[test]
fn eleventh_depositor_is_refused() {
    let asset = id(10);
    let mut store = store_with_vault(asset);
    for tag in 0..10u8 {
        store.deposit(&asset, &id(100 + tag), &id(21), 5).unwrap();
    }
    assert_eq!(store.depositor_count_of(&asset).unwrap(), 10);

    let refused = store.deposit(&asset, &id(120), &id(21), 5);

    assert_eq!(refused.unwrap_err(), ErrorCode::CapacityExceeded);
    assert_eq!(store.depositor_count_of(&asset).unwrap(), 10);
    assert_eq!(store.custody_amount(&asset).unwrap(), 50);
    assert_eq!(store.balance_of(&asset, &id(120)).unwrap(), 0);
    assert_eq!(store.balance_of(&asset, &id(105)).unwrap(), 5);
}

#[test]
fn deposit_without_vault_is_refused() {
    let mut store = VaultStore::new(id(1));

    let refused = store.deposit(&id(10), &id(20), &id(21), 5);

    assert_eq!(refused.unwrap_err(), ErrorCode::VaultMissing);
    assert!(!store.has_vault_for(&id(10)));
}

#[test]
fn ledger_credit_overflow_is_refused() {
    let asset = id(10);
    let user = id(20);
    let mut store = store_with_vault(asset);
    store.deposit(&asset, &user, &id(21), u64::MAX).unwrap();

    let refused = store.deposit(&asset, &user, &id(21), 1);

    assert_eq!(refused.unwrap_err(), ErrorCode::ArithmeticOverflow);
    assert_eq!(store.balance_of(&asset, &user).unwrap(), u64::MAX);
    assert_eq!(store.custody_amount(&asset).unwrap(), u64::MAX);
}

#[test]
fn custody_overflow_is_refused() {
    let asset = id(10);
    let mut store = store_with_vault(asset);
    store.deposit(&asset, &id(20), &id(21), u64::MAX).unwrap();

    let refused = store.deposit(&asset, &id(30), &id(21), 1);

    assert_eq!(refused.unwrap_err(), ErrorCode::ArithmeticOverflow);
    assert_eq!(store.balance_of(&asset, &id(30)).unwrap(), 0);
    assert_eq!(store.custody_amount(&asset).unwrap(), u64::MAX);
}

#[test]
fn check_functions_agree_with_the_operations() {
    let asset = id(10);
    let user = id(20);
    let mut store = store_with_vault(asset);
    assert!(store.check_deposit(&asset, &user, 100).is_ok());
    store.deposit(&asset, &user, &id(21), 100).unwrap();
    let bump = store.vault_bump(&asset).unwrap();

    assert!(store.check_withdraw(&asset, &user, 100, bump).is_ok());
    assert_eq!(
        store.check_withdraw(&asset, &user, 101, bump).unwrap_err(),
        ErrorCode::InsufficientBalance
    );
    assert_eq!(
        store.check_withdraw(&asset, &user, 1, bump.wrapping_add(1)).unwrap_err(),
        ErrorCode::AuthorityMismatch
    );
    assert_eq!(
        store.check_deposit(&id(11), &user, 1).unwrap_err(),
        ErrorCode::VaultMissing
    );
}
