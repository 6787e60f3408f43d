use asset_vault::account_id::AccountId;
use asset_vault::errors::ErrorCode;
use asset_vault::ledger::{Ledger, MAX_USERS};

fn id(tag: u8) -> AccountId {
    AccountId::new([tag; 32])
}

#[test]
fn account_id_equality_is_by_bytes() {
    assert!(id(7).equals(&id(7)));
    assert!(!id(7).equals(&id(8)));
    let mut bytes = [7u8; 32];
    bytes[31] = 8;
    assert!(!id(7).equals(&AccountId::new(bytes)));
}

#[test]
fn credit_accumulates_and_lookup_reads_it() {
    let user = id(20);
    let mut ledger = Ledger::new();
    assert!(ledger.lookup(&user).is_none());

    ledger.credit(&user, 30).unwrap();
    ledger.credit(&user, 12).unwrap();

    assert_eq!(ledger.lookup(&user).unwrap(), 42);
}

#[test]
fn debit_to_zero_keeps_the_entry() {
    let user = id(20);
    let mut ledger = Ledger::new();
    ledger.credit(&user, 30).unwrap();

    ledger.debit(&user, 30).unwrap();

    assert_eq!(ledger.lookup(&user).unwrap(), 0);
}

#[test]
fn debit_of_absent_owner_is_refused() {
    let mut ledger = Ledger::new();

    assert_eq!(ledger.debit(&id(20), 1).unwrap_err(), ErrorCode::InsufficientBalance);
}

#[test]
fn credit_beyond_capacity_is_refused() {
    let mut ledger = Ledger::new();
    for tag in 0..MAX_USERS as u8 {
        ledger.credit(&id(100 + tag), 1).unwrap();
    }

    let refused = ledger.credit(&id(200), 1);

    assert_eq!(refused.unwrap_err(), ErrorCode::CapacityExceeded);
    assert!(ledger.lookup(&id(200)).is_none());
    assert_eq!(ledger.lookup(&id(100)).unwrap(), 1);
}

#[test]
fn credit_overflow_is_refused_exactly_at_the_boundary() {
    let user = id(20);
    let mut ledger = Ledger::new();
    ledger.credit(&user, u64::MAX - 1).unwrap();

    ledger.credit(&user, 1).unwrap();
    let refused = ledger.credit(&user, 1);

    assert_eq!(refused.unwrap_err(), ErrorCode::ArithmeticOverflow);
    assert_eq!(ledger.lookup(&user).unwrap(), u64::MAX);
}
