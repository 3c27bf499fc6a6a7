//! What holds of every marketplace, whatever is asked of it.

use vstd::prelude::*;
use crate::credentials::{credential, holds, is_credential, lemma_issue};
use crate::market::Market;
use crate::types::{Credential, ErrorKind, Failure, Listing, State, Waiting};
use crate::waiting::{first_entry, has_entry, is_entry, is_first_entry, without_entry};

verus! {

/// Something that is asked of a marketplace.
pub enum Call {
    Register { account: Seq<char> },
    SetBalance { account: Seq<char>, balance: u128 },
    UpdateBalance { sender: Seq<char>, receiver: Seq<char>, amount: u128 },
    NewMetaData {
        owner: Seq<char>,
        title: Seq<char>,
        tags: Seq<char>,
        cid: Seq<char>,
        size: Seq<char>,
    },
    SetState { state: State, cid: Seq<char>, price: u128 },
    Purchase { caller: Seq<char>, cid: Seq<char>, pub_key: Seq<char> },
    Confirm {
        caller: Seq<char>,
        buyer: Seq<char>,
        cid: Seq<char>,
        accept: bool,
        access_key: Seq<char>,
        pub_key: Seq<char>,
    },
}

/// Why the marketplace refuses the call, if it does.
pub open spec fn refusal(market: Market, call: Call) -> Option<Failure> {
    match call {
        Call::Register { account } => None,
        Call::SetBalance { account, balance } => None,
        Call::UpdateBalance { sender, receiver, amount } => market.update_balance_failure(
            sender,
            receiver,
            amount,
        ),
        Call::NewMetaData { owner, title, tags, cid, size } => market.create_failure(cid),
        Call::SetState { state, cid, price } => market.set_state_failure(state, cid),
        Call::Purchase { caller, cid, pub_key } => market.purchase_failure(caller, cid),
        Call::Confirm { caller, buyer, cid, accept, access_key, pub_key } => market.confirm_failure(
            caller,
            buyer,
            cid,
            accept,
        ),
    }
}

/// The marketplace after the call.  A call that is refused changes nothing.
pub open spec fn after(market: Market, call: Call) -> Market {
    if refusal(market, call) is Some {
        market
    } else {
        match call {
            Call::Register { account } => market.set_balance(account, 0),
            Call::SetBalance { account, balance } => market.set_balance(account, balance),
            Call::UpdateBalance { sender, receiver, amount } => market.update_balance(
                sender,
                receiver,
                amount,
            ),
            Call::NewMetaData { owner, title, tags, cid, size } => market.create(
                Listing::fresh(owner, title, tags, cid, size),
            ),
            Call::SetState { state, cid, price } => market.publish(cid, price),
            Call::Purchase { caller, cid, pub_key } => market.purchase(caller, cid, pub_key),
            Call::Confirm { caller, buyer, cid, accept, access_key, pub_key } => market.confirm(
                buyer,
                cid,
                accept,
                access_key,
                pub_key,
            ),
        }
    }
}

/// A marketplace that is well formed stays so, whatever is asked of it.
pub proof fn law_well_formed_stays(market: Market, call: Call)
    requires
        market.well_formed(),
    ensures
        after(market, call).well_formed(),
{
    if refusal(market, call) is None {
        match call {
            Call::Register { account } => {},
            Call::SetBalance { account, balance } => {},
            Call::UpdateBalance { sender, receiver, amount } => {},
            Call::NewMetaData { owner, title, tags, cid, size } => {
                let fresh = Listing::fresh(owner, title, tags, cid, size);
                assert(fresh.list_access.no_duplicates());
                market.lemma_create(fresh);
            },
            Call::SetState { state, cid, price } => {
                market.lemma_publish(cid, price);
            },
            Call::Purchase { caller, cid, pub_key } => {
                market.lemma_purchase(caller, cid, pub_key);
            },
            Call::Confirm { caller, buyer, cid, accept, access_key, pub_key } => {
                market.lemma_confirm(caller, buyer, cid, accept, access_key, pub_key);
            },
        }
    }
}

/// A listing that is known stays known, with its id and its owner, whatever
/// is asked of the marketplace.
pub proof fn law_listing_stays(market: Market, call: Call, cid: Seq<char>)
    requires
        market.well_formed(),
        market.catalog.contains(cid),
    ensures
        after(market, call).catalog.contains(cid),
        after(market, call).catalog.listing(cid).cid_encrypted == cid,
        after(market, call).catalog.listing(cid).owner == market.catalog.listing(cid).owner,
{
    let p = market.catalog.position(cid);
    market.catalog.lemma_listing(cid);
    assert(market.catalog.records[p].well_formed());
    if refusal(market, call) is None {
        match call {
            Call::Register { account } => {},
            Call::SetBalance { account, balance } => {},
            Call::UpdateBalance { sender, receiver, amount } => {},
            Call::NewMetaData { owner, title, tags, cid: made, size } => {
                let fresh = Listing::fresh(owner, title, tags, made, size);
                assert(fresh.list_access.no_duplicates());
                market.catalog.lemma_add(fresh);
            },
            Call::SetState { state, cid: shown, price } => {
                market.catalog.lemma_publish(shown, price);
            },
            Call::Purchase { caller, cid: asked, pub_key } => {
                lemma_marked(market, asked, Some(caller));
            },
            Call::Confirm { caller, buyer, cid: settled, accept, access_key, pub_key } => {
                lemma_settled(market, caller, buyer, settled, accept, access_key, pub_key, cid);
            },
        }
    }
}

/// The price of a listing is fixed when the listing goes on the market, and
/// never again: a public listing stays public at its price, whatever is asked
/// of the marketplace.
pub proof fn law_price_fixed_once_public(market: Market, call: Call, cid: Seq<char>)
    requires
        market.well_formed(),
        market.catalog.contains(cid),
        market.catalog.listing(cid).state == State::Public,
    ensures
        after(market, call).catalog.listing(cid).state == State::Public,
        after(market, call).catalog.listing(cid).price == market.catalog.listing(cid).price,
{
    let p = market.catalog.position(cid);
    market.catalog.lemma_listing(cid);
    assert(market.catalog.records[p].well_formed());
    if refusal(market, call) is None {
        match call {
            Call::Register { account } => {},
            Call::SetBalance { account, balance } => {},
            Call::UpdateBalance { sender, receiver, amount } => {},
            Call::NewMetaData { owner, title, tags, cid: made, size } => {
                let fresh = Listing::fresh(owner, title, tags, made, size);
                assert(fresh.list_access.no_duplicates());
                market.catalog.lemma_add(fresh);
            },
            Call::SetState { state, cid: shown, price } => {
                market.catalog.lemma_publish(shown, price);
            },
            Call::Purchase { caller, cid: asked, pub_key } => {
                lemma_marked(market, asked, Some(caller));
            },
            Call::Confirm { caller, buyer, cid: settled, accept, access_key, pub_key } => {
                lemma_settled(market, caller, buyer, settled, accept, access_key, pub_key, cid);
            },
        }
    }
}

/// A private listing is free, and it gets a price in one way only: by the
/// call that puts this listing on the market, and then the price of that call.
pub proof fn law_price_set_by_publication(market: Market, call: Call, cid: Seq<char>)
    requires
        market.well_formed(),
        market.catalog.contains(cid),
        market.catalog.listing(cid).state == State::Private,
    ensures
        market.catalog.listing(cid).price == 0,
        after(market, call).catalog.listing(cid).state == State::Public ==> call
            == (Call::SetState {
            state: State::Public,
            cid,
            price: after(market, call).catalog.listing(cid).price,
        }),
        after(market, call).catalog.listing(cid).state == State::Private ==> after(
            market,
            call,
        ).catalog.listing(cid).price == 0,
{
    let p = market.catalog.position(cid);
    market.catalog.lemma_listing(cid);
    assert(market.catalog.records[p].well_formed());
    law_well_formed_stays(market, call);
    law_listing_stays(market, call, cid);
    let then = after(market, call);
    then.catalog.lemma_listing(cid);
    assert(then.catalog.records[then.catalog.position(cid)].well_formed());
    if refusal(market, call) is None {
        match call {
            Call::Register { account } => {},
            Call::SetBalance { account, balance } => {},
            Call::UpdateBalance { sender, receiver, amount } => {},
            Call::NewMetaData { owner, title, tags, cid: made, size } => {
                let fresh = Listing::fresh(owner, title, tags, made, size);
                assert(fresh.list_access.no_duplicates());
                market.catalog.lemma_add(fresh);
            },
            Call::SetState { state, cid: shown, price } => {
                market.catalog.lemma_publish(shown, price);
            },
            Call::Purchase { caller, cid: asked, pub_key } => {
                lemma_marked(market, asked, Some(caller));
            },
            Call::Confirm { caller, buyer, cid: settled, accept, access_key, pub_key } => {
                lemma_settled(market, caller, buyer, settled, accept, access_key, pub_key, cid);
            },
        }
    }
}

/// A listing has at most one pending purchase: any two entries of the queue
/// that name a listing are one entry, and its buyer is the one that the
/// pending marker of the listing names.
pub proof fn law_one_pending_purchase(market: Market, i: int, j: int)
    requires
        market.well_formed(),
        0 <= i < market.waiting.len(),
        0 <= j < market.waiting.len(),
        market.waiting[i].cid_encrypted == market.waiting[j].cid_encrypted,
    ensures
        i == j,
        market.pending_buyer(market.waiting[i].cid_encrypted) == Some(market.waiting[i].buyer),
{
    if i < j {
        assert(market.waiting[i].cid_encrypted != market.waiting[j].cid_encrypted);
    } else if j < i {
        assert(market.waiting[j].cid_encrypted != market.waiting[i].cid_encrypted);
    }
}

/// A purchase of a listing that awaits a purchase is refused with
/// `InvalidState`, whoever asks.
pub proof fn law_pending_listing_refuses_purchase(market: Market, caller: Seq<char>, cid: Seq<char>)
    requires
        market.well_formed(),
        market.catalog.contains(cid),
        market.pending_buyer(cid) is Some,
    ensures
        market.purchase_failure(caller, cid) == Some(
            Failure { kind: ErrorKind::InvalidState, id: cid },
        ),
{
}

/// After a purchase that was admitted, a second purchase of the same listing
/// is refused with `InvalidState`, whoever asks.
pub proof fn law_second_purchase_refused(
    market: Market,
    first: Seq<char>,
    second: Seq<char>,
    cid: Seq<char>,
    pub_key: Seq<char>,
)
    requires
        market.well_formed(),
        market.purchase_failure(first, cid) is None,
    ensures
        market.purchase(first, cid, pub_key).pending_buyer(cid) == Some(first),
        market.purchase(first, cid, pub_key).purchase_failure(second, cid) == Some(
            Failure { kind: ErrorKind::InvalidState, id: cid },
        ),
{
    lemma_marked(market, cid, Some(first));
}

/// After a purchase was accepted, the buyer gets the credential that was
/// issued; an account that is neither the buyer nor the owner of the listing,
/// and that held no credential for it, is `Unauthorized`.
pub proof fn law_accepted_purchase_gives_credential(
    market: Market,
    caller: Seq<char>,
    buyer: Seq<char>,
    cid: Seq<char>,
    access_key: Seq<char>,
    pub_key: Seq<char>,
    other: Seq<char>,
)
    requires
        market.well_formed(),
        market.confirm_failure(caller, buyer, cid, true) is None,
    ensures
        market.confirm(buyer, cid, true, access_key, pub_key).credential_for(cid, buyer) == Ok::<
            Credential,
            Failure,
        >(Credential { user_id: buyer, encrypted_cid: cid, key_cid: access_key, pub_key }),
        other != buyer && other != market.catalog.listing(cid).owner && !holds(
            market.credentials,
            cid,
            other,
        ) ==> market.confirm(buyer, cid, true, access_key, pub_key).credential_for(cid, other)
            == Err::<Credential, Failure>(Failure { kind: ErrorKind::Unauthorized, id: other }),
{
    let fresh = Credential { user_id: buyer, encrypted_cid: cid, key_cid: access_key, pub_key };
    lemma_issue(market.credentials, fresh);
    lemma_settled(market, caller, buyer, cid, true, access_key, pub_key, cid);
}

/// After a purchase was rejected, the credentials are what they were, the
/// listing awaits no purchase, and whoever is not its owner and holds its
/// price can purchase it.
pub proof fn law_rejected_purchase_frees_listing(
    market: Market,
    caller: Seq<char>,
    buyer: Seq<char>,
    cid: Seq<char>,
    access_key: Seq<char>,
    pub_key: Seq<char>,
    next: Seq<char>,
)
    requires
        market.well_formed(),
        market.confirm_failure(caller, buyer, cid, false) is None,
    ensures
        market.confirm(buyer, cid, false, access_key, pub_key).credentials == market.credentials,
        market.confirm(buyer, cid, false, access_key, pub_key).pending_buyer(cid) is None,
        next != market.catalog.listing(cid).owner && market.ledger.contains_key(next)
            && market.ledger[next] >= market.catalog.listing(cid).price ==> market.confirm(
            buyer,
            cid,
            false,
            access_key,
            pub_key,
        ).purchase_failure(next, cid) is None,
{
    lemma_settled(market, caller, buyer, cid, false, access_key, pub_key, cid);
    market.lemma_marker_is_entry(cid, buyer);
    let p = market.catalog.position(cid);
    market.catalog.lemma_listing(cid);
    assert(market.catalog.records[p].well_formed());
}

/// A credential, once issued, stays as it was issued, whatever is asked of
/// the marketplace.
pub proof fn law_credential_stays(market: Market, call: Call, cid: Seq<char>, user: Seq<char>)
    requires
        market.well_formed(),
        holds(market.credentials, cid, user),
    ensures
        holds(after(market, call).credentials, cid, user),
        credential(after(market, call).credentials, cid, user) == credential(
            market.credentials,
            cid,
            user,
        ),
{
    if refusal(market, call) is None {
        match call {
            Call::Confirm { caller, buyer, cid: settled, accept, access_key, pub_key } => {
                if accept {
                    let fresh = Credential {
                        user_id: buyer,
                        encrypted_cid: settled,
                        key_cid: access_key,
                        pub_key,
                    };
                    lemma_issue(market.credentials, fresh);
                }
            },
            _ => {},
        }
    }
}

/// A credential is issued in one way only: by the settlement that accepts
/// the purchase of its listing by its holder.
pub proof fn law_credential_issued_on_acceptance(
    market: Market,
    call: Call,
    cid: Seq<char>,
    user: Seq<char>,
)
    requires
        market.well_formed(),
        !holds(market.credentials, cid, user),
        holds(after(market, call).credentials, cid, user),
    ensures
        refusal(market, call) is None,
        call matches Call::Confirm { buyer, cid: settled, accept, .. } && buyer == user && settled
            == cid && accept,
{
    if refusal(market, call) is None {
        match call {
            Call::Confirm { caller, buyer, cid: settled, accept, access_key, pub_key } => {
                if accept {
                    let fresh = Credential {
                        user_id: buyer,
                        encrypted_cid: settled,
                        key_cid: access_key,
                        pub_key,
                    };
                    lemma_issue(market.credentials, fresh);
                    assert(is_credential(fresh, cid, user));
                }
            },
            _ => {},
        }
    }
}

/// Taking a purchase out of the queue takes out one entry, the oldest that
/// is this purchase; every other entry stays, and stays in its place among
/// the others.  Where the queue does not hold the purchase, no entry is it.
pub proof fn law_removal_spares_others(
    queue: Seq<Waiting>,
    owner: Seq<char>,
    buyer: Seq<char>,
    cid: Seq<char>,
)
    ensures
        has_entry(queue, owner, buyer, cid) ==> {
            let k = first_entry(queue, owner, buyer, cid);
            &&& is_first_entry(queue, owner, buyer, cid, k)
            &&& without_entry(queue, owner, buyer, cid).len() == queue.len() - 1
            &&& forall|i: int| 0 <= i < k ==> without_entry(queue, owner, buyer, cid)[i] == queue[i]
            &&& forall|i: int|
                k < i < queue.len() ==> without_entry(queue, owner, buyer, cid)[i - 1] == queue[i]
        },
        !has_entry(queue, owner, buyer, cid) ==> forall|i: int|
            0 <= i < queue.len() ==> !is_entry(#[trigger] queue[i], owner, buyer, cid),
{
    if has_entry(queue, owner, buyer, cid) {
        let m = choose|m: int|
            0 <= m < queue.len() && is_entry(#[trigger] queue[m], owner, buyer, cid);
        crate::market::lemma_some_first(queue, owner, buyer, cid, m);
    }
}

/// What setting the pending marker of a listing changes: that marker, and
/// nothing else of any listing.
proof fn lemma_marked(market: Market, cid: Seq<char>, buyer: Option<Seq<char>>)
    requires
        market.well_formed(),
        market.catalog.contains(cid),
        buyer != Some(market.catalog.listing(cid).owner),
        buyer is Some ==> market.catalog.listing(cid).state == State::Public,
    ensures
        market.catalog.mark(cid, buyer).well_formed(),
        forall|c: Seq<char>| market.catalog.mark(cid, buyer).contains(c) == market.catalog.contains(c),
        market.catalog.mark(cid, buyer).listing(cid) == market.catalog.listing(cid).pending(buyer),
        forall|c: Seq<char>|
            c != cid && market.catalog.contains(c) ==> #[trigger] market.catalog.mark(
                cid,
                buyer,
            ).listing(c) == market.catalog.listing(c),
{
    let p = market.catalog.position(cid);
    market.catalog.lemma_listing(cid);
    assert(market.catalog.records[p].well_formed());
    market.catalog.lemma_put(market.catalog.listing(cid).pending(buyer));
}

/// What a settlement changes of the listing `other`: nothing but the pending
/// marker and the grantees, and these of the settled listing only.
proof fn lemma_settled(
    market: Market,
    caller: Seq<char>,
    buyer: Seq<char>,
    cid: Seq<char>,
    accept: bool,
    access_key: Seq<char>,
    pub_key: Seq<char>,
    other: Seq<char>,
)
    requires
        market.well_formed(),
        market.confirm_failure(caller, buyer, cid, accept) is None,
        market.catalog.contains(other),
    ensures
        ({
            let then = market.confirm(buyer, cid, accept, access_key, pub_key);
            let was = market.catalog.listing(other);
            let is = then.catalog.listing(other);
            &&& then.catalog.contains(other)
            &&& other != cid ==> is == was
            &&& is.cid_encrypted == was.cid_encrypted
            &&& is.owner == was.owner
            &&& is.state == was.state
            &&& is.price == was.price
            &&& is.title == was.title
            &&& is.tags == was.tags
            &&& is.size == was.size
            &&& other == cid ==> is.pending_buyer is None
            &&& other == cid && !accept ==> is.list_access == was.list_access
            &&& other == cid && accept ==> is.list_access.contains(buyer)
        }),
{
    lemma_marked(market, cid, None);
    let cleared = market.catalog.mark(cid, None);
    let free = cleared.listing(cid);
    market.lemma_marker_is_entry(cid, buyer);
    let p = market.catalog.position(cid);
    market.catalog.lemma_listing(cid);
    assert(market.catalog.records[p].well_formed());
    if accept {
        if !free.list_access.contains(buyer) {
            let granted = free.granted(buyer);
            assert(granted.list_access[free.list_access.len() as int] == buyer);
            assert(granted.list_access.no_duplicates());
            assert(!granted.list_access.contains(granted.owner)) by {
                if granted.list_access.contains(granted.owner) {
                    let k = choose|k: int|
                        0 <= k < granted.list_access.len() && granted.list_access[k]
                            == granted.owner;
                    if k < free.list_access.len() {
                        assert(free.list_access[k] == free.owner);
                    }
                }
            }
            cleared.lemma_put(granted);
        }
    }
}

} // verus!
