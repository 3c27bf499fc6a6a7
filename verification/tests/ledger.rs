use storage_market::ledger::Ledger;
use storage_market::ErrorKind;

#[test]
fn unknown_account_has_no_balance() {
    let ledger = Ledger::new();
    assert_eq!(ledger.balance_of(&"alice.near".to_string()), None);
}

#[test]
fn registered_account_starts_at_zero() {
    let mut ledger = Ledger::new();
    ledger.register(&"alice.near".to_string());
    assert_eq!(ledger.balance_of(&"alice.near".to_string()), Some(0));
}

#[test]
fn transfer_moves_the_amount() {
    let mut ledger = Ledger::new();
    let a = "alice.near".to_string();
    let b = "bob.near".to_string();
    ledger.set(&a, 15);
    ledger.set(&b, 1);
    assert_eq!(ledger.apply_transfer(&a, &b, 10), Ok(()));
    assert_eq!(ledger.balance_of(&a), Some(5));
    assert_eq!(ledger.balance_of(&b), Some(11));
}

#[test]
fn transfer_beyond_the_balance_is_refused() {
    let mut ledger = Ledger::new();
    let a = "alice.near".to_string();
    let b = "bob.near".to_string();
    ledger.set(&a, 5);
    let refused = ledger.apply_transfer(&a, &b, 10).unwrap_err();
    assert_eq!(refused.kind, ErrorKind::InsufficientFunds);
    assert_eq!(refused.id, "alice.near");
    assert_eq!(ledger.balance_of(&a), Some(5));
    assert_eq!(ledger.balance_of(&b), None);
}
