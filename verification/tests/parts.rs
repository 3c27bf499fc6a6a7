use storage_market::credentials::CredentialStore;
use storage_market::ledger::Ledger;
use storage_market::types::{cross_call, registration, yocto_amount};
use storage_market::waiting::WaitingQueue;
use storage_market::{Contract, ErrorKind, State, ONE_NEAR, REGISTRATION_DEPOSIT};

fn s(text: &str) -> String {
    text.to_string()
}

#[test]
fn removing_an_absent_entry_is_not_found_and_removes_nothing() {
    let mut queue = WaitingQueue::new();
    queue.enqueue(&s("o.near"), &s("a.near"), &s("L1"), &s("pk-a"));
    queue.enqueue(&s("o.near"), &s("b.near"), &s("L2"), &s("pk-b"));
    for (owner, buyer, cid) in [
        ("o.near", "a.near", "L2"),
        ("o.near", "c.near", "L1"),
        ("x.near", "a.near", "L1"),
    ] {
        let refused = queue.remove(&s(owner), &s(buyer), &s(cid)).unwrap_err();
        assert_eq!(refused.kind, ErrorKind::NotFound);
        assert_eq!(refused.id, buyer);
        assert_eq!(queue.list_for(&s("o.near")).len(), 2);
    }
}

#[test]
fn removing_an_entry_spares_the_others() {
    let mut queue = WaitingQueue::new();
    queue.enqueue(&s("o.near"), &s("a.near"), &s("L1"), &s("pk-a"));
    queue.enqueue(&s("p.near"), &s("b.near"), &s("L2"), &s("pk-b"));
    queue.enqueue(&s("o.near"), &s("c.near"), &s("L3"), &s("pk-c"));
    let taken = queue.remove(&s("o.near"), &s("a.near"), &s("L1")).unwrap();
    assert_eq!(taken.buyer, "a.near");
    assert_eq!(taken.pub_key, "pk-a");
    let left = queue.list_for(&s("o.near"));
    assert_eq!(left.len(), 1);
    assert_eq!(left[0].buyer, "c.near");
    assert_eq!(left[0].cid_encrypted, "L3");
    assert_eq!(queue.list_for(&s("p.near")).len(), 1);
}

#[test]
fn the_oldest_of_equal_entries_leaves_first() {
    let mut queue = WaitingQueue::new();
    queue.enqueue(&s("o.near"), &s("a.near"), &s("L1"), &s("first"));
    queue.enqueue(&s("o.near"), &s("a.near"), &s("L1"), &s("second"));
    assert_eq!(
        queue.remove(&s("o.near"), &s("a.near"), &s("L1")).unwrap().pub_key,
        "first"
    );
    assert_eq!(queue.list_for(&s("o.near"))[0].pub_key, "second");
}

#[test]
fn credentials_are_one_per_listing_and_buyer() {
    let mut store = CredentialStore::new();
    assert_eq!(store.issue(&s("L1"), &s("a.near"), &s("k1"), &s("pa")), Ok(()));
    assert_eq!(store.issue(&s("L1"), &s("b.near"), &s("k2"), &s("pb")), Ok(()));
    assert_eq!(store.issue(&s("L2"), &s("a.near"), &s("k3"), &s("pa")), Ok(()));
    let twice = store
        .issue(&s("L1"), &s("a.near"), &s("k9"), &s("pa"))
        .unwrap_err();
    assert_eq!(twice.kind, ErrorKind::AlreadyExists);
    assert_eq!(twice.id, "L1");
    assert_eq!(store.find(&s("L1"), &s("a.near")).unwrap().key_cid, "k1");
    assert_eq!(store.find(&s("L2"), &s("b.near")), None);
    assert_eq!(store.latest_for(&s("L1")).unwrap().user_id, "b.near");
    assert_eq!(store.latest_for(&s("L9")), None);
    let held: Vec<String> = store
        .list_for(&s("a.near"))
        .into_iter()
        .map(|c| c.encrypted_cid)
        .collect();
    assert_eq!(held, vec![s("L1"), s("L2")]);
}

#[test]
fn transfer_from_unknown_sender_is_not_found() {
    let mut ledger = Ledger::new();
    ledger.set(&s("b.near"), 1);
    let refused = ledger.apply_transfer(&s("a.near"), &s("b.near"), 0).unwrap_err();
    assert_eq!(refused.kind, ErrorKind::NotFound);
    assert_eq!(refused.id, "a.near");
    assert_eq!(ledger.balance_of(&s("b.near")), Some(1));
}

#[test]
fn transfer_to_unknown_receiver_makes_it_known() {
    let mut ledger = Ledger::new();
    ledger.set(&s("a.near"), 7);
    assert_eq!(ledger.apply_transfer(&s("a.near"), &s("b.near"), 7), Ok(()));
    assert_eq!(ledger.balance_of(&s("a.near")), Some(0));
    assert_eq!(ledger.balance_of(&s("b.near")), Some(7));
}

#[test]
fn transfer_to_oneself_keeps_the_balance() {
    let mut ledger = Ledger::new();
    ledger.set(&s("a.near"), 7);
    assert_eq!(ledger.apply_transfer(&s("a.near"), &s("a.near"), 5), Ok(()));
    assert_eq!(ledger.balance_of(&s("a.near")), Some(7));
    let refused = ledger.apply_transfer(&s("a.near"), &s("a.near"), 8).unwrap_err();
    assert_eq!(refused.kind, ErrorKind::InsufficientFunds);
}

#[test]
fn transfer_beyond_the_largest_balance_is_invalid_state() {
    let mut ledger = Ledger::new();
    ledger.set(&s("a.near"), 2);
    ledger.set(&s("b.near"), u128::MAX - 1);
    let refused = ledger.apply_transfer(&s("a.near"), &s("b.near"), 2).unwrap_err();
    assert_eq!(refused.kind, ErrorKind::InvalidState);
    assert_eq!(refused.id, "b.near");
    assert_eq!(ledger.balance_of(&s("a.near")), Some(2));
    assert_eq!(ledger.balance_of(&s("b.near")), Some(u128::MAX - 1));
    assert_eq!(ledger.apply_transfer(&s("a.near"), &s("b.near"), 1), Ok(()));
    assert_eq!(ledger.balance_of(&s("b.near")), Some(u128::MAX));
}

#[test]
fn registration_starts_from_zero() {
    let mut market = Contract::new(s("market.near"));
    assert_eq!(market.get_balance_of(s("a.near")), None);
    let request = market.register(s("a.near"));
    assert_eq!(request.ledger, "harvardtp_ft.testnet");
    assert_eq!(request.account, "a.near");
    assert_eq!(request.deposit, REGISTRATION_DEPOSIT);
    assert_eq!(request.deposit, 10_000_000_000_000_000_000_000);
    assert_eq!(market.get_balance_of(s("a.near")), Some(0));
    market.set_balance_of(s("a.near"), 9);
    market.register(s("a.near"));
    assert_eq!(market.get_balance_of(s("a.near")), Some(0));
    assert_eq!(registration(&s("b.near")).account, "b.near");
}

#[test]
fn reported_transfer_updates_the_balances() {
    let mut market = Contract::new(s("market.near"));
    market.set_balance_of(s("a.near"), 15);
    assert_eq!(market.update_balance(&s("a.near"), &s("b.near"), 10), Ok(()));
    assert_eq!(market.get_balance_of(s("a.near")), Some(5));
    assert_eq!(market.get_balance_of(s("b.near")), Some(10));
    let refused = market.update_balance(&s("a.near"), &s("b.near"), 6).unwrap_err();
    assert_eq!(refused.kind, ErrorKind::InsufficientFunds);
    assert_eq!(market.get_balance_of(s("a.near")), Some(5));
}

#[test]
fn purchase_is_refused_for_each_reason() {
    let mut market = Contract::new(s("market.near"));
    market
        .new_meta_data(s("owner.near"), s("t"), s("g"), s("L1"), s("1"))
        .unwrap();
    market.set_balance_of(s("owner.near"), 100);
    market.set_balance_of(s("buyer.near"), 10);

    let unknown = market
        .purchase(s("buyer.near"), s("L9"), s("pk"), s("c.near"))
        .unwrap_err();
    assert_eq!((unknown.kind, unknown.id), (ErrorKind::NotFound, s("L9")));

    let private = market
        .purchase(s("buyer.near"), s("L1"), s("pk"), s("c.near"))
        .unwrap_err();
    assert_eq!((private.kind, private.id), (ErrorKind::InvalidState, s("L1")));

    market.set_state(State::Public, s("L1"), 10).unwrap();
    let own = market
        .purchase(s("owner.near"), s("L1"), s("pk"), s("c.near"))
        .unwrap_err();
    assert_eq!((own.kind, own.id), (ErrorKind::InvalidState, s("L1")));

    let stranger = market
        .purchase(s("nobody.near"), s("L1"), s("pk"), s("c.near"))
        .unwrap_err();
    assert_eq!(
        (stranger.kind, stranger.id),
        (ErrorKind::NotFound, s("nobody.near"))
    );

    // A balance that equals the price is enough.
    assert!(market
        .purchase(s("buyer.near"), s("L1"), s("pk"), s("c.near"))
        .is_ok());
}

#[test]
fn access_follows_ownership_and_grants() {
    let mut market = Contract::new(s("market.near"));
    market
        .new_meta_data(s("owner.near"), s("t"), s("g"), s("L1"), s("1"))
        .unwrap();
    market.set_state(State::Public, s("L1"), 0).unwrap();
    market.register(s("buyer.near"));
    market
        .purchase(s("buyer.near"), s("L1"), s("pk"), s("c.near"))
        .unwrap();
    assert_eq!(market.is_accessed(s("L1"), s("owner.near")), Ok(true));
    assert_eq!(market.is_accessed(s("L1"), s("buyer.near")), Ok(false));
    market
        .confirm_transaction(
            s("owner.near"),
            s("buyer.near"),
            s("L1"),
            true,
            s("k"),
            s("c.near"),
            s("pk"),
        )
        .unwrap();
    assert_eq!(market.is_accessed(s("L1"), s("buyer.near")), Ok(true));
    assert_eq!(market.is_accessed(s("L1"), s("other.near")), Ok(false));
    assert_eq!(
        market.is_accessed(s("L9"), s("buyer.near")).unwrap_err().kind,
        ErrorKind::NotFound
    );
    assert_eq!(market.get_user_by_data(s("L1")), Ok(vec![s("buyer.near")]));
    assert_eq!(
        market.get_user_by_data(s("L9")).unwrap_err().kind,
        ErrorKind::NotFound
    );
    let bought = market.get_accessed_data_by_user(s("buyer.near"));
    assert_eq!(bought.len(), 1);
    assert_eq!(bought[0].cid_encrypted, "L1");
    assert!(market.get_accessed_data_by_user(s("other.near")).is_empty());
    // The owner of a listing without credentials finds none.
    market
        .new_meta_data(s("owner.near"), s("t"), s("g"), s("L2"), s("1"))
        .unwrap();
    let none = market.get_data_value(s("L2"), s("owner.near")).unwrap_err();
    assert_eq!((none.kind, none.id), (ErrorKind::NotFound, s("L2")));
    let missing = market.get_data_value(s("L9"), s("owner.near")).unwrap_err();
    assert_eq!((missing.kind, missing.id), (ErrorKind::NotFound, s("L9")));
}

#[test]
fn transfer_request_carries_memo_and_deposit() {
    let request = cross_call(&s("ft.near"), &s("a.near"), &s("b.near"), 3);
    assert_eq!(request.ledger, "ft.near");
    assert_eq!(request.sender, "a.near");
    assert_eq!(request.receiver, "b.near");
    assert_eq!(request.amount, 3);
    assert_eq!(request.memo, "Sale from marketplace");
    assert_eq!(request.deposit, 1);
}

#[test]
fn whole_tokens_in_base_units() {
    assert_eq!(yocto_amount(0), Some(0));
    assert_eq!(yocto_amount(10), Some(10_000_000_000_000_000_000_000_000));
    assert_eq!(yocto_amount(u128::MAX / ONE_NEAR), Some((u128::MAX / ONE_NEAR) * ONE_NEAR));
    assert_eq!(yocto_amount(u128::MAX / ONE_NEAR + 1), None);
    assert_eq!(yocto_amount(u128::MAX), None);
}
