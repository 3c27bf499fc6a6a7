//! The state of a marketplace as a mathematical value, and the rules of a
//! purchase: how the state changes when a buyer asks for a listing and when
//! the owner decides on the request.

use vstd::prelude::*;
use crate::catalog::CatalogView;
use crate::credentials::{credential, held_by, holds, issued_for, latest, lemma_issue, one_each};
use crate::ledger::{transfer_failure, transferred};
use crate::types::{
    transfer_of, Credential, ErrorKind, Failure, Listing, State, Transfer, Waiting,
};
use crate::waiting::{first_entry, has_entry, is_entry, is_first_entry, without_entry};

verus! {

/// A purchase of the listing `cid` waits in the queue.
pub open spec fn awaited(queue: Seq<Waiting>, cid: Seq<char>) -> bool {
    exists|k: int| 0 <= k < queue.len() && (#[trigger] queue[k]).cid_encrypted == cid
}

/// Each entry of the queue is the pending purchase of a listing: the listing
/// is known, is owned by the owner of the entry, and awaits its buyer.
pub open spec fn entries_are_markers(catalog: CatalogView, waiting: Seq<Waiting>) -> bool {
    forall|i: int|
        0 <= i < waiting.len() ==> catalog.contains((#[trigger] waiting[i]).cid_encrypted)
            && catalog.listing(waiting[i].cid_encrypted).owner == waiting[i].owner
            && catalog.listing(waiting[i].cid_encrypted).pending_buyer == Some(waiting[i].buyer)
}

/// No two entries of the queue name one listing.
pub open spec fn one_entry_each(waiting: Seq<Waiting>) -> bool {
    forall|i: int, j: int|
        0 <= i < j < waiting.len() ==> (#[trigger] waiting[i]).cid_encrypted != (
        #[trigger] waiting[j]).cid_encrypted
}

/// Each listing that awaits a purchase has an entry in the queue.
pub open spec fn markers_are_entries(records: Seq<Listing>, waiting: Seq<Waiting>) -> bool {
    forall|i: int|
        0 <= i < records.len() && (#[trigger] records[i]).pending_buyer is Some ==> awaited(
            waiting,
            records[i].cid_encrypted,
        )
}

/// Each credential is for a known listing, and its holder was granted access.
pub open spec fn holders_granted(catalog: CatalogView, credentials: Seq<Credential>) -> bool {
    forall|i: int|
        0 <= i < credentials.len() ==> catalog.contains((#[trigger] credentials[i]).encrypted_cid)
            && catalog.listing(credentials[i].encrypted_cid).list_access.contains(
            credentials[i].user_id,
        )
}

/// Mathematical value of a marketplace.
#[verifier::ext_equal]
pub struct Market {
    /// The account that may settle any purchase, beside the owner of the listing.
    pub authority: Seq<char>,
    /// The recorded balance of each known account.
    pub ledger: Map<Seq<char>, u128>,
    pub catalog: CatalogView,
    /// The purchases that await a decision, oldest first.
    pub waiting: Seq<Waiting>,
    /// The credentials that were issued, oldest first.
    pub credentials: Seq<Credential>,
}

impl Market {
    /// The queue and the pending markers tell the same: each entry is the
    /// pending purchase of a listing, each listing has at most one entry, and
    /// each pending marker has its entry.
    pub open spec fn queue_matches_markers(self) -> bool {
        &&& entries_are_markers(self.catalog, self.waiting)
        &&& one_entry_each(self.waiting)
        &&& markers_are_entries(self.catalog.records, self.waiting)
    }

    /// Whoever holds a credential for a listing was granted access to it.
    pub open spec fn holders_have_access(self) -> bool {
        holders_granted(self.catalog, self.credentials)
    }

    /// What every marketplace satisfies.
    pub open spec fn well_formed(self) -> bool {
        &&& self.catalog.well_formed()
        &&& one_each(self.credentials)
        &&& self.queue_matches_markers()
        &&& self.holders_have_access()
    }

    /// The marketplace of `authority` in which nothing has happened yet.
    pub open spec fn empty(authority: Seq<char>) -> Market {
        Market {
            authority,
            ledger: Map::empty(),
            catalog: CatalogView::empty(),
            waiting: Seq::empty(),
            credentials: Seq::empty(),
        }
    }

    /// The marketplace with `balance` recorded for `account`.
    pub open spec fn set_balance(self, account: Seq<char>, balance: u128) -> Market {
        Market { ledger: self.ledger.insert(account, balance), ..self }
    }

    /// Why the ledger service's report of a transfer cannot be recorded, if
    /// it cannot.
    pub open spec fn update_balance_failure(
        self,
        sender: Seq<char>,
        receiver: Seq<char>,
        amount: u128,
    ) -> Option<Failure> {
        transfer_failure(self.ledger, sender, receiver, amount)
    }

    /// The marketplace after `amount` was recorded as moved from `sender` to `receiver`.
    pub open spec fn update_balance(
        self,
        sender: Seq<char>,
        receiver: Seq<char>,
        amount: u128,
    ) -> Market {
        Market { ledger: transferred(self.ledger, sender, receiver, amount), ..self }
    }

    /// Why a listing with the id `cid` cannot be created, if it cannot.
    pub open spec fn create_failure(self, cid: Seq<char>) -> Option<Failure> {
        self.catalog.create_failure(cid)
    }

    /// The marketplace with the new listing `listing`.
    pub open spec fn create(self, listing: Listing) -> Market {
        Market { catalog: self.catalog.add(listing), ..self }
    }

    /// Why the listing `cid` cannot be given the visibility `state`, if it
    /// cannot.  A listing becomes public once and stays so.
    pub open spec fn set_state_failure(self, state: State, cid: Seq<char>) -> Option<Failure> {
        if self.catalog.contains(cid) && state == State::Private {
            Some(Failure { kind: ErrorKind::InvalidState, id: cid })
        } else {
            self.catalog.publish_failure(cid)
        }
    }

    /// The marketplace after the listing `cid` went on the market at `price`.
    pub open spec fn publish(self, cid: Seq<char>, price: u128) -> Market {
        Market { catalog: self.catalog.publish(cid, price), ..self }
    }

    /// The buyer whose purchase of the listing `cid` is pending, if one is.
    pub open spec fn pending_buyer(self, cid: Seq<char>) -> Option<Seq<char>> {
        self.catalog.listing(cid).pending_buyer
    }

    /// Why `caller` cannot purchase the listing `cid`, if it cannot.
    ///
    /// The listing has to be known, public, owned by another account and
    /// free of a pending purchase; the caller has to be known to the ledger
    /// and to hold the price.
    pub open spec fn purchase_failure(self, caller: Seq<char>, cid: Seq<char>) -> Option<Failure> {
        if self.catalog.reserve_failure(cid, caller) is Some {
            self.catalog.reserve_failure(cid, caller)
        } else if !self.ledger.contains_key(caller) {
            Some(Failure { kind: ErrorKind::NotFound, id: caller })
        } else if self.ledger[caller] < self.catalog.listing(cid).price {
            Some(Failure { kind: ErrorKind::InsufficientFunds, id: caller })
        } else {
            None
        }
    }

    /// The marketplace after `caller` asked for the listing `cid`: the listing
    /// is marked as awaiting `caller`, and the request stands last in the queue.
    pub open spec fn purchase(self, caller: Seq<char>, cid: Seq<char>, pub_key: Seq<char>) -> Market {
        Market {
            catalog: self.catalog.mark(cid, Some(caller)),
            waiting: self.waiting.push(
                Waiting {
                    owner: self.catalog.listing(cid).owner,
                    buyer: caller,
                    cid_encrypted: cid,
                    pub_key,
                },
            ),
            ..self
        }
    }

    /// The transfer that a purchase of the listing `cid` by `caller` asks of
    /// the ledger service: the price, from the buyer into custody.
    pub open spec fn purchase_transfer(
        self,
        caller: Seq<char>,
        cid: Seq<char>,
        custody: Seq<char>,
    ) -> Transfer {
        transfer_of(custody, caller, custody, self.catalog.listing(cid).price)
    }

    /// `caller` may decide on purchases of the listing `cid`: it owns the
    /// listing or is the settlement authority.
    pub open spec fn may_settle(self, caller: Seq<char>, cid: Seq<char>) -> bool {
        caller == self.catalog.listing(cid).owner || caller == self.authority
    }

    /// Why `caller` cannot settle the purchase of the listing `cid` by
    /// `buyer`, if it cannot.
    pub open spec fn confirm_failure(
        self,
        caller: Seq<char>,
        buyer: Seq<char>,
        cid: Seq<char>,
        accept: bool,
    ) -> Option<Failure> {
        if !self.catalog.contains(cid) {
            Some(Failure { kind: ErrorKind::NotFound, id: cid })
        } else if !self.may_settle(caller, cid) {
            Some(Failure { kind: ErrorKind::Unauthorized, id: caller })
        } else if !has_entry(self.waiting, self.catalog.listing(cid).owner, buyer, cid) {
            Some(Failure { kind: ErrorKind::NotFound, id: buyer })
        } else if accept && holds(self.credentials, cid, buyer) {
            Some(Failure { kind: ErrorKind::AlreadyExists, id: cid })
        } else {
            None
        }
    }

    /// The marketplace after the purchase of the listing `cid` by `buyer` was
    /// settled: the marker is cleared and the request has left the queue;
    /// where the purchase was accepted, the buyer has access and a credential.
    pub open spec fn confirm(
        self,
        buyer: Seq<char>,
        cid: Seq<char>,
        accept: bool,
        access_key: Seq<char>,
        pub_key: Seq<char>,
    ) -> Market {
        let cleared = self.catalog.mark(cid, None);
        Market {
            catalog: if accept {
                cleared.grant(cid, buyer)
            } else {
                cleared
            },
            waiting: without_entry(self.waiting, self.catalog.listing(cid).owner, buyer, cid),
            credentials: if accept {
                self.credentials.push(
                    Credential {
                        user_id: buyer,
                        encrypted_cid: cid,
                        key_cid: access_key,
                        pub_key,
                    },
                )
            } else {
                self.credentials
            },
            ..self
        }
    }

    /// The transfer that settling the purchase of the listing `cid` by `buyer`
    /// asks of the ledger service: the price, out of custody, to the owner
    /// where the purchase was accepted and back to the buyer where it was not.
    pub open spec fn confirm_transfer(
        self,
        buyer: Seq<char>,
        cid: Seq<char>,
        accept: bool,
        custody: Seq<char>,
    ) -> Transfer {
        transfer_of(
            custody,
            custody,
            if accept {
                self.catalog.listing(cid).owner
            } else {
                buyer
            },
            self.catalog.listing(cid).price,
        )
    }

    /// What `caller` gets when it asks for the credential of the listing `cid`.
    ///
    /// A buyer gets its own credential.  The owner gets the credential that
    /// was issued last for the listing.  Anyone else is `Unauthorized`.
    pub open spec fn credential_for(self, cid: Seq<char>, caller: Seq<char>) -> Result<
        Credential,
        Failure,
    > {
        if !self.catalog.contains(cid) {
            Err(Failure { kind: ErrorKind::NotFound, id: cid })
        } else if holds(self.credentials, cid, caller) {
            Ok(credential(self.credentials, cid, caller))
        } else if self.catalog.listing(cid).owner != caller {
            Err(Failure { kind: ErrorKind::Unauthorized, id: caller })
        } else if issued_for(self.credentials, cid) {
            Ok(latest(self.credentials, cid))
        } else {
            Err(Failure { kind: ErrorKind::NotFound, id: cid })
        }
    }

    /// The listings for which `user` holds a credential, in the order in
    /// which the credentials were issued.
    pub open spec fn accessible_to(self, user: Seq<char>) -> Seq<Listing> {
        held_by(self.credentials, user).map_values(
            |c: Credential| self.catalog.listing(c.encrypted_cid),
        )
    }

    /// A pending marker and the queue entry of its purchase imply each other.
    pub proof fn lemma_marker_is_entry(self, cid: Seq<char>, buyer: Seq<char>)
        requires
            self.well_formed(),
            self.catalog.contains(cid),
        ensures
            has_entry(self.waiting, self.catalog.listing(cid).owner, buyer, cid) <==> self.pending_buyer(
                cid,
            ) == Some(buyer),
            forall|owner: Seq<char>|
                has_entry(self.waiting, owner, buyer, cid) ==> owner == self.catalog.listing(
                    cid,
                ).owner,
    {
        let owner = self.catalog.listing(cid).owner;
        assert forall|o: Seq<char>| has_entry(self.waiting, o, buyer, cid) implies o == owner
            && self.pending_buyer(cid) == Some(buyer) by {
            let k = choose|k: int|
                0 <= k < self.waiting.len() && is_entry(#[trigger] self.waiting[k], o, buyer, cid);
            assert(self.catalog.listing(self.waiting[k].cid_encrypted).owner == self.waiting[k].owner);
        }
        if self.pending_buyer(cid) == Some(buyer) {
            let p = self.catalog.position(cid);
            assert(self.catalog.records[p].pending_buyer is Some);
            assert(awaited(self.waiting, self.catalog.records[p].cid_encrypted));
            let k = choose|k: int|
                0 <= k < self.waiting.len() && (#[trigger] self.waiting[k]).cid_encrypted == cid;
            assert(self.catalog.listing(self.waiting[k].cid_encrypted).pending_buyer == Some(
                self.waiting[k].buyer,
            ));
            assert(is_entry(self.waiting[k], owner, buyer, cid));
        }
    }

    /// A new listing leaves a marketplace that is well formed.
    pub proof fn lemma_create(self, listing: Listing)
        requires
            self.well_formed(),
            self.create_failure(listing.cid_encrypted) is None,
            listing.well_formed(),
            listing.state == State::Private,
        ensures
            self.create(listing).well_formed(),
    {
        let after = self.create(listing);
        self.catalog.lemma_add(listing);
        assert forall|i: int| 0 <= i < after.waiting.len() implies after.catalog.contains(
            (#[trigger] after.waiting[i]).cid_encrypted,
        ) && after.catalog.listing(after.waiting[i].cid_encrypted).owner == after.waiting[i].owner
            && after.catalog.listing(after.waiting[i].cid_encrypted).pending_buyer == Some(
            after.waiting[i].buyer,
        ) by {
            assert(self.catalog.contains(self.waiting[i].cid_encrypted));
        }
        assert forall|i: int|
            0 <= i < after.catalog.records.len() && (
            #[trigger] after.catalog.records[i]).pending_buyer is Some implies awaited(
            after.waiting,
            after.catalog.records[i].cid_encrypted,
        ) by {
            assert(after.catalog.records[i] == self.catalog.records[i]);
        }
        assert forall|i: int| 0 <= i < after.credentials.len() implies after.catalog.contains(
            (#[trigger] after.credentials[i]).encrypted_cid,
        ) && after.catalog.listing(after.credentials[i].encrypted_cid).list_access.contains(
            after.credentials[i].user_id,
        ) by {
            assert(self.catalog.contains(self.credentials[i].encrypted_cid));
        }
    }

    /// A publication that is admitted leaves a marketplace that is well formed.
    pub proof fn lemma_publish(self, cid: Seq<char>, price: u128)
        requires
            self.well_formed(),
            self.catalog.publish_failure(cid) is None,
        ensures
            self.publish(cid, price).well_formed(),
    {
        let after = self.publish(cid, price);
        let p = self.catalog.position(cid);
        self.catalog.lemma_publish(cid, price);
        self.catalog.lemma_listing(cid);
        assert(self.catalog.records[p].well_formed());
        assert forall|i: int| 0 <= i < after.waiting.len() implies after.catalog.contains(
            (#[trigger] after.waiting[i]).cid_encrypted,
        ) && after.catalog.listing(after.waiting[i].cid_encrypted).owner == after.waiting[i].owner
            && after.catalog.listing(after.waiting[i].cid_encrypted).pending_buyer == Some(
            after.waiting[i].buyer,
        ) by {
            assert(self.catalog.contains(self.waiting[i].cid_encrypted));
        }
        assert forall|i: int|
            0 <= i < after.catalog.records.len() && (
            #[trigger] after.catalog.records[i]).pending_buyer is Some implies awaited(
            after.waiting,
            after.catalog.records[i].cid_encrypted,
        ) by {
            if i != p {
                assert(after.catalog.records[i] == self.catalog.records[i]);
            }
        }
        assert forall|i: int| 0 <= i < after.credentials.len() implies after.catalog.contains(
            (#[trigger] after.credentials[i]).encrypted_cid,
        ) && after.catalog.listing(after.credentials[i].encrypted_cid).list_access.contains(
            after.credentials[i].user_id,
        ) by {
            assert(self.catalog.contains(self.credentials[i].encrypted_cid));
        }
    }

    /// A purchase that is admitted leaves a marketplace that is well formed.
    pub proof fn lemma_purchase(self, caller: Seq<char>, cid: Seq<char>, pub_key: Seq<char>)
        requires
            self.well_formed(),
            self.catalog.reserve_failure(cid, caller) is None,
        ensures
            self.purchase(caller, cid, pub_key).well_formed(),
    {
        let after = self.purchase(caller, cid, pub_key);
        let before = self.catalog.listing(cid);
        let marked = before.pending(Some(caller));
        let p = self.catalog.position(cid);
        let n = self.waiting.len() as int;
        self.catalog.lemma_listing(cid);
        assert(self.catalog.records[p].well_formed());
        self.catalog.lemma_put(marked);
        assert(after.waiting[n].cid_encrypted == cid);
        assert forall|i: int| 0 <= i < n implies (#[trigger] self.waiting[i]).cid_encrypted
            != cid by {
            assert(self.catalog.listing(self.waiting[i].cid_encrypted).pending_buyer is Some);
        }
        assert forall|i: int| 0 <= i < after.waiting.len() implies after.catalog.contains(
            (#[trigger] after.waiting[i]).cid_encrypted,
        ) && after.catalog.listing(after.waiting[i].cid_encrypted).owner == after.waiting[i].owner
            && after.catalog.listing(after.waiting[i].cid_encrypted).pending_buyer == Some(
            after.waiting[i].buyer,
        ) by {
            if i < n {
                assert(after.waiting[i] == self.waiting[i]);
                assert(self.catalog.contains(self.waiting[i].cid_encrypted));
            }
        }
        assert forall|i: int, j: int| 0 <= i < j < after.waiting.len() implies (
        #[trigger] after.waiting[i]).cid_encrypted != (#[trigger] after.waiting[j]).cid_encrypted by {
            assert(after.waiting[i] == self.waiting[i]);
            if j < n {
                assert(after.waiting[j] == self.waiting[j]);
            }
        }
        assert forall|i: int|
            0 <= i < after.catalog.records.len() && (
            #[trigger] after.catalog.records[i]).pending_buyer is Some implies awaited(
            after.waiting,
            after.catalog.records[i].cid_encrypted,
        ) by {
            if i == p {
                assert(after.waiting[n].cid_encrypted == cid);
            } else {
                assert(after.catalog.records[i] == self.catalog.records[i]);
                let k = choose|k: int|
                    0 <= k < self.waiting.len() && (#[trigger] self.waiting[k]).cid_encrypted
                        == self.catalog.records[i].cid_encrypted;
                assert(after.waiting[k] == self.waiting[k]);
            }
        }
        assert forall|i: int| 0 <= i < after.credentials.len() implies after.catalog.contains(
            (#[trigger] after.credentials[i]).encrypted_cid,
        ) && after.catalog.listing(after.credentials[i].encrypted_cid).list_access.contains(
            after.credentials[i].user_id,
        ) by {
            assert(self.catalog.contains(self.credentials[i].encrypted_cid));
        }
    }

    /// A settlement that is admitted leaves a marketplace that is well formed.
    pub proof fn lemma_confirm(
        self,
        caller: Seq<char>,
        buyer: Seq<char>,
        cid: Seq<char>,
        accept: bool,
        access_key: Seq<char>,
        pub_key: Seq<char>,
    )
        requires
            self.well_formed(),
            self.confirm_failure(caller, buyer, cid, accept) is None,
        ensures
            self.confirm(buyer, cid, accept, access_key, pub_key).well_formed(),
            self.confirm(buyer, cid, accept, access_key, pub_key).catalog.contains(cid),
            self.confirm(buyer, cid, accept, access_key, pub_key).pending_buyer(cid) is None,
            accept ==> self.confirm(buyer, cid, accept, access_key, pub_key).catalog.listing(
                cid,
            ).list_access.contains(buyer),
    {
        let after = self.confirm(buyer, cid, accept, access_key, pub_key);
        let before = self.catalog.listing(cid);
        let owner = before.owner;
        let p = self.catalog.position(cid);
        self.catalog.lemma_listing(cid);
        assert(self.catalog.records[p].well_formed());
        self.lemma_marker_is_entry(cid, buyer);
        let free = before.pending(None);
        self.catalog.lemma_put(free);
        let cleared = self.catalog.mark(cid, None);
        if accept && !free.list_access.contains(buyer) {
            let granted = free.granted(buyer);
            assert(granted.list_access.no_duplicates());
            assert(!granted.list_access.contains(granted.owner)) by {
                if granted.list_access.contains(granted.owner) {
                    let k = choose|k: int|
                        0 <= k < granted.list_access.len() && granted.list_access[k]
                            == granted.owner;
                    if k < free.list_access.len() {
                        assert(free.list_access[k] == free.owner);
                    }
                }
            }
            assert(granted.list_access[free.list_access.len() as int] == buyer);
            cleared.lemma_put(granted);
        }
        // The listing as it stands at the end.
        let last = after.catalog.listing(cid);
        assert(last.pending_buyer is None);
        assert(last.owner == owner);
        assert(forall|a: Seq<char>| before.list_access.contains(a) ==> last.list_access.contains(a))
            by {
            assert forall|a: Seq<char>| before.list_access.contains(a) implies last.list_access.contains(
                a,
            ) by {
                let k = choose|k: int| 0 <= k < before.list_access.len() && before.list_access[k] == a;
                assert(last.list_access[k] == a);
            }
        }
        // The queue without the settled request.
        let k = first_entry(self.waiting, owner, buyer, cid);
        assert(is_first_entry(self.waiting, owner, buyer, cid, k)) by {
            let m = choose|m: int|
                0 <= m < self.waiting.len() && is_entry(#[trigger] self.waiting[m], owner, buyer, cid);
            lemma_some_first(self.waiting, owner, buyer, cid, m);
        }
        let n = self.waiting.len() as int;
        assert(after.waiting.len() == n - 1);
        assert forall|i: int| 0 <= i < n - 1 implies #[trigger] after.waiting[i] == self.waiting[if i
            < k {
            i
        } else {
            i + 1
        }] by {}
        assert forall|i: int| 0 <= i < n && i != k implies (#[trigger] self.waiting[i]).cid_encrypted
            != cid by {
            if i < k {
                assert(self.waiting[i].cid_encrypted != self.waiting[k].cid_encrypted);
            } else {
                assert(self.waiting[k].cid_encrypted != self.waiting[i].cid_encrypted);
            }
        }
        assert forall|i: int| 0 <= i < after.waiting.len() implies after.catalog.contains(
            (#[trigger] after.waiting[i]).cid_encrypted,
        ) && after.catalog.listing(after.waiting[i].cid_encrypted).owner == after.waiting[i].owner
            && after.catalog.listing(after.waiting[i].cid_encrypted).pending_buyer == Some(
            after.waiting[i].buyer,
        ) by {
            let j = if i < k {
                i
            } else {
                i + 1
            };
            assert(after.waiting[i] == self.waiting[j]);
            assert(self.catalog.contains(self.waiting[j].cid_encrypted));
            assert(self.waiting[j].cid_encrypted != cid);
        }
        assert forall|i: int, j: int| 0 <= i < j < after.waiting.len() implies (
        #[trigger] after.waiting[i]).cid_encrypted != (#[trigger] after.waiting[j]).cid_encrypted by {
            let i0 = if i < k {
                i
            } else {
                i + 1
            };
            let j0 = if j < k {
                j
            } else {
                j + 1
            };
            assert(after.waiting[i] == self.waiting[i0]);
            assert(after.waiting[j] == self.waiting[j0]);
            assert(self.waiting[i0].cid_encrypted != self.waiting[j0].cid_encrypted);
        }
        assert forall|i: int|
            0 <= i < after.catalog.records.len() && (
            #[trigger] after.catalog.records[i]).pending_buyer is Some implies awaited(
            after.waiting,
            after.catalog.records[i].cid_encrypted,
        ) by {
            assert(i != p);
            assert(after.catalog.records[i] == self.catalog.records[i]);
            let m = choose|m: int|
                0 <= m < self.waiting.len() && (#[trigger] self.waiting[m]).cid_encrypted
                    == self.catalog.records[i].cid_encrypted;
            self.catalog.lemma_at(i);
            self.catalog.lemma_at(p);
            assert(m != k);
            let m1 = if m < k {
                m
            } else {
                m - 1
            };
            assert(after.waiting[m1] == self.waiting[m]);
        }
        // The credentials.
        if accept {
            let fresh = Credential {
                user_id: buyer,
                encrypted_cid: cid,
                key_cid: access_key,
                pub_key,
            };
            lemma_issue(self.credentials, fresh);
            assert(after.credentials[self.credentials.len() as int] == fresh);
        }
        assert forall|i: int| 0 <= i < after.credentials.len() implies after.catalog.contains(
            (#[trigger] after.credentials[i]).encrypted_cid,
        ) && after.catalog.listing(after.credentials[i].encrypted_cid).list_access.contains(
            after.credentials[i].user_id,
        ) by {
            if i < self.credentials.len() {
                assert(after.credentials[i] == self.credentials[i]);
                assert(self.catalog.contains(self.credentials[i].encrypted_cid));
            }
        }
    }
}

/// Where a matching entry stands, a first matching entry stands at or before it.
pub proof fn lemma_some_first(
    queue: Seq<Waiting>,
    owner: Seq<char>,
    buyer: Seq<char>,
    cid: Seq<char>,
    m: int,
)
    requires
        0 <= m < queue.len(),
        is_entry(queue[m], owner, buyer, cid),
    ensures
        exists|i: int| is_first_entry(queue, owner, buyer, cid, i),
        is_first_entry(queue, owner, buyer, cid, first_entry(queue, owner, buyer, cid)),
    decreases m,
{
    if forall|j: int| 0 <= j < m ==> !is_entry(#[trigger] queue[j], owner, buyer, cid) {
        assert(is_first_entry(queue, owner, buyer, cid, m));
    } else {
        let j = choose|j: int| 0 <= j < m && is_entry(#[trigger] queue[j], owner, buyer, cid);
        lemma_some_first(queue, owner, buyer, cid, j);
    }
}

} // verus!
