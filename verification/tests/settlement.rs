use storage_market::{Contract, ErrorKind, State};

fn s(text: &str) -> String {
    text.to_string()
}

/// `L1` of `owner.near` is public at 10 and awaits the purchase of `buyer.near`.
fn market_with_pending_purchase() -> Contract {
    let mut market = Contract::new(s("market.near"));
    market
        .new_meta_data(s("owner.near"), s("Survey"), s("health"), s("L1"), s("4MB"))
        .unwrap();
    market.set_state(State::Public, s("L1"), 10).unwrap();
    market.set_balance_of(s("buyer.near"), 15);
    market.set_balance_of(s("other.near"), 50);
    market
        .purchase(s("buyer.near"), s("L1"), s("pk-b"), s("custody.near"))
        .unwrap();
    market
}

#[test]
fn second_purchase_of_pending_listing_is_invalid_state() {
    let mut market = market_with_pending_purchase();
    let refused = market
        .purchase(s("other.near"), s("L1"), s("pk-o"), s("custody.near"))
        .unwrap_err();
    assert_eq!(refused.kind, ErrorKind::InvalidState);
    assert_eq!(refused.id, "L1");
    assert_eq!(
        market.get_data_by_id(s("L1")).unwrap().pending_buyer,
        Some(s("buyer.near"))
    );
    assert_eq!(
        market.get_waiting_list(s("owner.near")),
        vec![(s("buyer.near"), s("L1"), s("pk-b"))]
    );
}

#[test]
fn credential_is_refused_to_a_stranger() {
    let mut market = market_with_pending_purchase();
    market
        .confirm_transaction(
            s("owner.near"),
            s("buyer.near"),
            s("L1"),
            true,
            s("key-1"),
            s("custody.near"),
            s("pk-b"),
        )
        .unwrap();
    let refused = market.get_data_value(s("L1"), s("other.near")).unwrap_err();
    assert_eq!(refused.kind, ErrorKind::Unauthorized);
    assert_eq!(refused.id, "other.near");
    // The owner sees the credential that was issued last.
    let seen = market.get_data_value(s("L1"), s("owner.near")).unwrap();
    assert_eq!(seen.user_id, "buyer.near");
    assert_eq!(seen.key_cid, "key-1");
}

#[test]
fn rejection_refunds_and_frees_the_listing() {
    let mut market = market_with_pending_purchase();
    let (listing, request) = market
        .confirm_transaction(
            s("owner.near"),
            s("buyer.near"),
            s("L1"),
            false,
            s("key-1"),
            s("custody.near"),
            s("pk-b"),
        )
        .unwrap();
    assert_eq!(listing.pending_buyer, None);
    assert!(listing.list_access.is_empty());
    assert_eq!(request.sender, "custody.near");
    assert_eq!(request.receiver, "buyer.near");
    assert_eq!(request.amount, 10);
    let refused = market.get_data_value(s("L1"), s("buyer.near")).unwrap_err();
    assert_eq!(refused.kind, ErrorKind::Unauthorized);
    assert_eq!(market.is_accessed(s("L1"), s("buyer.near")), Ok(false));
    assert!(market.get_waiting_list(s("owner.near")).is_empty());
    // The listing can be purchased again.
    let (again, _) = market
        .purchase(s("other.near"), s("L1"), s("pk-o"), s("custody.near"))
        .unwrap();
    assert_eq!(again.pending_buyer, Some(s("other.near")));
}

#[test]
fn only_owner_or_authority_may_settle() {
    let mut market = market_with_pending_purchase();
    let refused = market
        .confirm_transaction(
            s("other.near"),
            s("buyer.near"),
            s("L1"),
            true,
            s("key-1"),
            s("custody.near"),
            s("pk-b"),
        )
        .unwrap_err();
    assert_eq!(refused.kind, ErrorKind::Unauthorized);
    assert_eq!(refused.id, "other.near");
    assert_eq!(
        market.get_data_by_id(s("L1")).unwrap().pending_buyer,
        Some(s("buyer.near"))
    );
    // The settlement authority may decide in the owner's place.
    let (listing, _) = market
        .confirm_transaction(
            s("market.near"),
            s("buyer.near"),
            s("L1"),
            true,
            s("key-1"),
            s("custody.near"),
            s("pk-b"),
        )
        .unwrap();
    assert_eq!(listing.list_access, vec![s("buyer.near")]);
}

#[test]
fn settling_a_purchase_that_does_not_wait_is_not_found() {
    let mut market = market_with_pending_purchase();
    let refused = market
        .confirm_transaction(
            s("owner.near"),
            s("other.near"),
            s("L1"),
            true,
            s("key-1"),
            s("custody.near"),
            s("pk-o"),
        )
        .unwrap_err();
    assert_eq!(refused.kind, ErrorKind::NotFound);
    assert_eq!(refused.id, "other.near");
    assert_eq!(
        market.get_waiting_list(s("owner.near")),
        vec![(s("buyer.near"), s("L1"), s("pk-b"))]
    );
    let unknown = market
        .confirm_transaction(
            s("owner.near"),
            s("buyer.near"),
            s("L9"),
            true,
            s("key-1"),
            s("custody.near"),
            s("pk-b"),
        )
        .unwrap_err();
    assert_eq!(unknown.kind, ErrorKind::NotFound);
    assert_eq!(unknown.id, "L9");
}

#[test]
fn a_buyer_gets_one_credential_for_a_listing() {
    let mut market = market_with_pending_purchase();
    market
        .confirm_transaction(
            s("owner.near"),
            s("buyer.near"),
            s("L1"),
            true,
            s("key-1"),
            s("custody.near"),
            s("pk-b"),
        )
        .unwrap();
    market
        .purchase(s("buyer.near"), s("L1"), s("pk-b"), s("custody.near"))
        .unwrap();
    let refused = market
        .confirm_transaction(
            s("owner.near"),
            s("buyer.near"),
            s("L1"),
            true,
            s("key-2"),
            s("custody.near"),
            s("pk-b"),
        )
        .unwrap_err();
    assert_eq!(refused.kind, ErrorKind::AlreadyExists);
    assert_eq!(refused.id, "L1");
    // Nothing was written: the purchase still waits and the credential is the first.
    assert_eq!(
        market.get_data_by_id(s("L1")).unwrap().pending_buyer,
        Some(s("buyer.near"))
    );
    assert_eq!(
        market.get_data_value(s("L1"), s("buyer.near")).unwrap().key_cid,
        "key-1"
    );
    market
        .confirm_transaction(
            s("owner.near"),
            s("buyer.near"),
            s("L1"),
            false,
            s("key-2"),
            s("custody.near"),
            s("pk-b"),
        )
        .unwrap();
    assert_eq!(market.get_data_by_id(s("L1")).unwrap().pending_buyer, None);
}
