use storage_market::{Contract, DataValue, Snapshot, State, WaitingEntry};

fn s(text: &str) -> String {
    text.to_string()
}

/// Two listings, one of them public and awaiting a purchase, and one
/// credential from an earlier purchase.
fn busy_market() -> Contract {
    let mut market = Contract::new(s("market.near"));
    market
        .new_meta_data(s("owner.near"), s("Survey"), s("health"), s("L1"), s("4MB"))
        .unwrap();
    market
        .new_meta_data(s("owner.near"), s("Draft"), s("notes"), s("L2"), s("1MB"))
        .unwrap();
    market.set_state(State::Public, s("L1"), 10).unwrap();
    market.set_balance_of(s("a.near"), 30);
    market.set_balance_of(s("b.near"), 30);
    market.purchase(s("a.near"), s("L1"), s("pk-a"), s("c.near")).unwrap();
    market
        .confirm_transaction(s("owner.near"), s("a.near"), s("L1"), true, s("k"), s("c.near"), s("pk-a"))
        .unwrap();
    market.purchase(s("b.near"), s("L1"), s("pk-b"), s("c.near")).unwrap();
    market
}

#[test]
fn snapshot_holds_everything() {
    let snapshot = busy_market().snapshot();
    assert_eq!(snapshot.contract_owner, "market.near");
    assert_eq!(snapshot.accounts, vec![s("a.near"), s("b.near")]);
    assert_eq!(snapshot.balances, vec![30, 30]);
    assert_eq!(snapshot.listings.len(), 2);
    assert_eq!(snapshot.listings[0].pending_buyer, Some(s("b.near")));
    assert_eq!(snapshot.listings[0].list_access, vec![s("a.near")]);
    assert_eq!(snapshot.published, vec![s("L1")]);
    assert_eq!(
        snapshot.waiting,
        vec![WaitingEntry {
            owner: s("owner.near"),
            buyer: s("b.near"),
            cid_encrypted: s("L1"),
            pub_key: s("pk-b"),
        }]
    );
    assert_eq!(
        snapshot.credentials,
        vec![DataValue {
            user_id: s("a.near"),
            encrypted_cid: s("L1"),
            key_cid: s("k"),
            pub_key: s("pk-a"),
        }]
    );
}

#[test]
fn restored_market_goes_on_where_it_stopped() {
    let snapshot = busy_market().snapshot();
    let mut market = Contract::restore(snapshot).unwrap();
    assert_eq!(market.snapshot(), busy_market().snapshot());
    assert_eq!(market.get_balance_of(s("a.near")), Some(30));
    assert_eq!(
        market.get_waiting_list(s("owner.near")),
        vec![(s("b.near"), s("L1"), s("pk-b"))]
    );
    let (listing, _) = market
        .confirm_transaction(s("market.near"), s("b.near"), s("L1"), true, s("k2"), s("c.near"), s("pk-b"))
        .unwrap();
    assert_eq!(listing.list_access, vec![s("a.near"), s("b.near")]);
}

#[test]
fn empty_snapshot_is_restored() {
    let market = Contract::restore(Contract::new(s("m.near")).snapshot()).unwrap();
    assert!(market.get_published_data(s("x.near")).is_empty());
    assert_eq!(market.snapshot().contract_owner, "m.near");
}

fn damaged(change: fn(&mut Snapshot)) -> bool {
    let mut snapshot = busy_market().snapshot();
    change(&mut snapshot);
    Contract::restore(snapshot).is_none()
}

#[test]
fn damaged_snapshots_are_refused() {
    // An account twice, or a balance too few.
    assert!(damaged(|t| t.accounts[1] = s("a.near")));
    assert!(damaged(|t| {
        t.balances.pop();
    }));
    // A listing id twice.
    assert!(damaged(|t| t.listings[1].cid_encrypted = s("L1")));
    // A private listing with a price, or with a pending purchase.
    assert!(damaged(|t| t.listings[1].price = 1));
    assert!(damaged(|t| t.listings[1].pending_buyer = Some(s("a.near"))));
    // A stored listing that is marked for a caller.
    assert!(damaged(|t| t.listings[0].is_active = true));
    // The owner among the grantees, a grantee twice, the owner as buyer.
    assert!(damaged(|t| t.listings[0].list_access.push(s("owner.near"))));
    assert!(damaged(|t| t.listings[0].list_access.push(s("a.near"))));
    assert!(damaged(|t| t.listings[0].pending_buyer = Some(s("owner.near"))));
    // An index of publications that names too much, too little, or twice.
    assert!(damaged(|t| t.published.push(s("L2"))));
    assert!(damaged(|t| t.published.clear()));
    assert!(damaged(|t| t.published.push(s("L1"))));
    assert!(damaged(|t| t.published.push(s("L9"))));
    // A pending marker without its entry, and an entry without its marker.
    assert!(damaged(|t| t.waiting.clear()));
    assert!(damaged(|t| t.listings[0].pending_buyer = None));
    // An entry under the wrong owner, for the wrong buyer, or twice.
    assert!(damaged(|t| t.waiting[0].owner = s("x.near")));
    assert!(damaged(|t| t.waiting[0].buyer = s("a.near")));
    assert!(damaged(|t| {
        let again = t.waiting[0].clone();
        t.waiting.push(again);
    }));
    assert!(damaged(|t| t.waiting[0].cid_encrypted = s("L9")));
    // A credential twice, for an unknown listing, or for an account without access.
    assert!(damaged(|t| {
        let again = t.credentials[0].clone();
        t.credentials.push(again);
    }));
    assert!(damaged(|t| t.credentials[0].encrypted_cid = s("L9")));
    assert!(damaged(|t| t.credentials[0].user_id = s("b.near")));
    // What is not damaged is restored.
    assert!(!damaged(|t| t.balances[0] = 0));
    assert!(!damaged(|t| t.listings[0].title = s("Another title")));
}
