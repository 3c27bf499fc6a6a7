use storage_market::{Contract, ErrorKind, State};

fn s(text: &str) -> String {
    text.to_string()
}

/// A marketplace with the listing `L1` of `owner.near`, public at 10.
fn market_with_listing() -> Contract {
    let mut market = Contract::new(s("market.near"));
    market
        .new_meta_data(s("owner.near"), s("Survey"), s("health"), s("L1"), s("4MB"))
        .unwrap();
    market.set_state(State::Public, s("L1"), 10).unwrap();
    market
}

#[test]
fn purchase_then_accept_issues_the_credential() {
    let mut market = market_with_listing();
    market.set_balance_of(s("buyer.near"), 15);

    let (listing, request) = market
        .purchase(s("buyer.near"), s("L1"), s("pk-b"), s("custody.near"))
        .unwrap();
    assert_eq!(listing.pending_buyer, Some(s("buyer.near")));
    assert_eq!(request.ledger, "custody.near");
    assert_eq!(request.sender, "buyer.near");
    assert_eq!(request.receiver, "custody.near");
    assert_eq!(request.amount, 10);
    assert_eq!(request.memo, "Sale from marketplace");
    assert_eq!(request.deposit, 1);
    assert_eq!(
        market.get_data_by_id(s("L1")).unwrap().pending_buyer,
        Some(s("buyer.near"))
    );

    let (listing, request) = market
        .confirm_transaction(
            s("owner.near"),
            s("buyer.near"),
            s("L1"),
            true,
            s("key-1"),
            s("custody.near"),
            s("pk-b"),
        )
        .unwrap();
    assert_eq!(listing.pending_buyer, None);
    assert!(listing.list_access.contains(&s("buyer.near")));
    assert_eq!(request.sender, "custody.near");
    assert_eq!(request.receiver, "owner.near");
    assert_eq!(request.amount, 10);

    let credential = market.get_data_value(s("L1"), s("buyer.near")).unwrap();
    assert_eq!(credential.user_id, "buyer.near");
    assert_eq!(credential.encrypted_cid, "L1");
    assert_eq!(credential.key_cid, "key-1");
    assert_eq!(credential.pub_key, "pk-b");
    assert_eq!(market.get_data_by_id(s("L1")).unwrap().pending_buyer, None);
    assert!(market.get_waiting_list(s("owner.near")).is_empty());
}

#[test]
fn purchase_without_funds_changes_nothing() {
    let mut market = market_with_listing();
    market.set_balance_of(s("poor.near"), 5);
    let before = market.get_data_by_id(s("L1")).unwrap();

    let refused = market
        .purchase(s("poor.near"), s("L1"), s("pk-p"), s("custody.near"))
        .unwrap_err();
    assert_eq!(refused.kind, ErrorKind::InsufficientFunds);
    assert_eq!(refused.id, "poor.near");

    assert_eq!(market.get_data_by_id(s("L1")).unwrap(), before);
    assert_eq!(before.pending_buyer, None);
    assert!(market.get_waiting_list(s("owner.near")).is_empty());
    assert_eq!(market.get_balance_of(s("poor.near")), Some(5));
}
