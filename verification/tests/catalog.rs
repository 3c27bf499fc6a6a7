use storage_market::catalog::Catalog;
use storage_market::{Contract, ErrorKind, State};

fn s(text: &str) -> String {
    text.to_string()
}

#[test]
fn new_listing_is_private_and_free() {
    let mut market = Contract::new(s("market.near"));
    let made = market
        .new_meta_data(s("owner.near"), s("Survey"), s("health"), s("L1"), s("4MB"))
        .unwrap();
    assert_eq!(made.state, State::Private);
    assert_eq!(made.price, 0);
    assert_eq!(made.owner, "owner.near");
    assert_eq!(made.title, "Survey");
    assert_eq!(made.tags, "health");
    assert_eq!(made.cid_encrypted, "L1");
    assert_eq!(made.size, "4MB");
    assert!(made.list_access.is_empty());
    assert_eq!(made.pending_buyer, None);
    assert!(!made.is_active);
    assert_eq!(market.get_data_by_id(s("L1")).unwrap(), made);
    assert!(market.get_published_data(s("anyone.near")).is_empty());
}

#[test]
fn duplicate_listing_id_already_exists() {
    let mut market = Contract::new(s("market.near"));
    market
        .new_meta_data(s("owner.near"), s("Survey"), s("health"), s("L1"), s("4MB"))
        .unwrap();
    let refused = market
        .new_meta_data(s("thief.near"), s("Copy"), s("x"), s("L1"), s("1MB"))
        .unwrap_err();
    assert_eq!(refused.kind, ErrorKind::AlreadyExists);
    assert_eq!(refused.id, "L1");
    assert_eq!(market.get_data_by_id(s("L1")).unwrap().owner, "owner.near");
    assert!(market.get_data_by_owner(s("thief.near")).is_empty());
}

#[test]
fn publishing_fixes_the_price_once() {
    let mut market = Contract::new(s("market.near"));
    market
        .new_meta_data(s("owner.near"), s("Survey"), s("health"), s("L1"), s("4MB"))
        .unwrap();
    let shown = market.set_state(State::Public, s("L1"), 10).unwrap();
    assert_eq!(shown.state, State::Public);
    assert_eq!(shown.price, 10);

    let again = market.set_state(State::Public, s("L1"), 99).unwrap_err();
    assert_eq!(again.kind, ErrorKind::InvalidState);
    assert_eq!(again.id, "L1");
    let same = market.set_state(State::Public, s("L1"), 10).unwrap_err();
    assert_eq!(same.kind, ErrorKind::InvalidState);
    let back = market.set_state(State::Private, s("L1"), 0).unwrap_err();
    assert_eq!(back.kind, ErrorKind::InvalidState);

    assert_eq!(market.get_data_by_id(s("L1")).unwrap().price, 10);
    assert_eq!(market.get_published_data(s("anyone.near")).len(), 1);
}

#[test]
fn publishing_an_unknown_listing_is_not_found() {
    let mut market = Contract::new(s("market.near"));
    let refused = market.set_state(State::Public, s("L9"), 10).unwrap_err();
    assert_eq!(refused.kind, ErrorKind::NotFound);
    assert_eq!(refused.id, "L9");
    let refused = market.set_state(State::Private, s("L9"), 10).unwrap_err();
    assert_eq!(refused.kind, ErrorKind::NotFound);
    let missing = market.get_data_by_id(s("L9")).unwrap_err();
    assert_eq!(missing.kind, ErrorKind::NotFound);
    assert_eq!(missing.id, "L9");
}

#[test]
fn listings_come_in_their_order() {
    let mut market = Contract::new(s("market.near"));
    for (owner, cid) in [("a.near", "L1"), ("b.near", "L2"), ("a.near", "L3")] {
        market
            .new_meta_data(s(owner), s("t"), s("g"), s(cid), s("1"))
            .unwrap();
    }
    market.set_state(State::Public, s("L3"), 7).unwrap();
    market.set_state(State::Public, s("L1"), 3).unwrap();

    let mine: Vec<String> = market
        .get_data_by_owner(s("a.near"))
        .into_iter()
        .map(|m| m.cid_encrypted)
        .collect();
    assert_eq!(mine, vec![s("L1"), s("L3")]);

    let shown: Vec<(String, u128)> = market
        .get_published_data(s("x.near"))
        .into_iter()
        .map(|m| (m.cid_encrypted, m.price))
        .collect();
    assert_eq!(shown, vec![(s("L3"), 7), (s("L1"), 3)]);
}

#[test]
fn market_marks_the_callers_pending_purchase() {
    let mut market = Contract::new(s("market.near"));
    market
        .new_meta_data(s("owner.near"), s("t"), s("g"), s("L1"), s("1"))
        .unwrap();
    market.set_state(State::Public, s("L1"), 10).unwrap();
    market.set_balance_of(s("buyer.near"), 10);
    market
        .purchase(s("buyer.near"), s("L1"), s("pk"), s("custody.near"))
        .unwrap();
    assert!(market.get_published_data(s("buyer.near"))[0].is_active);
    assert!(!market.get_published_data(s("other.near"))[0].is_active);
    assert!(!market.get_data_by_id(s("L1")).unwrap().is_active);
}

#[test]
fn granting_twice_changes_nothing() {
    let mut catalog = Catalog::new();
    catalog
        .create(s("owner.near"), s("t"), s("g"), s("L1"), s("1"))
        .unwrap();
    assert_eq!(catalog.add_grantee(&s("L1"), &s("a.near")), Ok(()));
    assert_eq!(catalog.add_grantee(&s("L1"), &s("b.near")), Ok(()));
    assert_eq!(catalog.add_grantee(&s("L1"), &s("a.near")), Ok(()));
    assert_eq!(
        catalog.grantees(&s("L1")),
        Some(vec![s("a.near"), s("b.near")])
    );
    let unknown = catalog.add_grantee(&s("L9"), &s("a.near")).unwrap_err();
    assert_eq!(unknown.kind, ErrorKind::NotFound);
    assert_eq!(unknown.id, "L9");
    let owner = catalog.add_grantee(&s("L1"), &s("owner.near")).unwrap_err();
    assert_eq!(owner.kind, ErrorKind::InvalidState);
    assert_eq!(owner.id, "owner.near");
    assert_eq!(catalog.grantees(&s("L9")), None);
}

#[test]
fn pending_marker_is_set_and_cleared() {
    let mut catalog = Catalog::new();
    catalog
        .create(s("owner.near"), s("t"), s("g"), s("L1"), s("1"))
        .unwrap();
    let private = catalog.reserve(&s("L1"), &s("a.near")).unwrap_err();
    assert_eq!(private.kind, ErrorKind::InvalidState);
    catalog.publish(&s("L1"), 4).unwrap();
    let own = catalog.reserve(&s("L1"), &s("owner.near")).unwrap_err();
    assert_eq!(own.kind, ErrorKind::InvalidState);
    assert_eq!(catalog.reserve(&s("L1"), &s("a.near")), Ok(()));
    assert_eq!(catalog.get(&s("L1")).unwrap().pending_buyer, Some(s("a.near")));
    let taken = catalog.reserve(&s("L1"), &s("b.near")).unwrap_err();
    assert_eq!(taken.kind, ErrorKind::InvalidState);
    assert_eq!(catalog.release(&s("L1")), Ok(()));
    assert_eq!(catalog.get(&s("L1")).unwrap().pending_buyer, None);
    assert_eq!(catalog.release(&s("L9")).unwrap_err().kind, ErrorKind::NotFound);
    assert_eq!(catalog.reservable(&s("L1"), &s("b.near")).unwrap().price, 4);
    assert!(catalog.list_by_owner(&s("owner.near")).len() == 1);
    assert!(catalog.list_published(&s("b.near")).len() == 1);
}

#[test]
fn price_stays_through_purchase_and_settlement() {
    let mut market = Contract::new(s("market.near"));
    market
        .new_meta_data(s("owner.near"), s("t"), s("g"), s("L1"), s("1"))
        .unwrap();
    market
        .new_meta_data(s("owner.near"), s("t"), s("g"), s("L2"), s("1"))
        .unwrap();
    market.set_state(State::Public, s("L1"), 10).unwrap();
    market.set_balance_of(s("buyer.near"), 100);
    let price = |market: &Contract| {
        let listing = market.get_data_by_id(s("L1")).unwrap();
        (listing.state, listing.price)
    };
    assert_eq!(price(&market), (State::Public, 10));
    market.purchase(s("buyer.near"), s("L1"), s("pk"), s("c.near")).unwrap();
    assert_eq!(price(&market), (State::Public, 10));
    market
        .confirm_transaction(s("owner.near"), s("buyer.near"), s("L1"), false, s("k"), s("c.near"), s("pk"))
        .unwrap();
    assert_eq!(price(&market), (State::Public, 10));
    market.purchase(s("buyer.near"), s("L1"), s("pk"), s("c.near")).unwrap();
    market
        .confirm_transaction(s("owner.near"), s("buyer.near"), s("L1"), true, s("k"), s("c.near"), s("pk"))
        .unwrap();
    assert_eq!(price(&market), (State::Public, 10));
    market.set_state(State::Public, s("L2"), 77).unwrap();
    market.update_balance(&s("buyer.near"), &s("owner.near"), 10).unwrap();
    assert_eq!(price(&market), (State::Public, 10));
    assert_eq!(market.get_data_by_id(s("L2")).unwrap().price, 77);
}
