//! The marketplace: its state and the operations that change it.
//!
//! A purchase takes two steps.  `purchase` admits the buyer and queues the
//! request under the owner of the listing; `confirm_transaction` carries the
//! owner's decision.  Each returns the transfer that the ledger service has
//! to be asked for.  An operation that fails changes nothing.

use vstd::prelude::*;
use crate::catalog::{Catalog, CatalogView};
use crate::credentials::{holds, CredentialStore};
use crate::ledger::{balance_in, balances_listed, balances_of, Ledger};
use crate::market::{
    awaited, entries_are_markers, holders_granted, markers_are_entries, one_entry_each, Market,
};
use crate::types::{
    cross_call, registration, registration_of, AccountId, Balance, Credential, DataValue,
    ErrorKind, Failure, Listing, MarketError, Metadata, RegistrationRequest, State,
    TransferRequest, Waiting, ECID,
};
use crate::types::{contains_name, WaitingEntry};
use crate::waiting::{queue_of, WaitingQueue};

verus! {

/// The request that an entry `(buyer, listing, public key)` of the queue of
/// `owner` stands for.
pub open spec fn as_request(entry: (String, String, String), owner: Seq<char>) -> Waiting {
    Waiting { owner, buyer: entry.0@, cid_encrypted: entry.1@, pub_key: entry.2@ }
}

/// Everything a marketplace holds, as plain lists: what is kept between
/// two calls.
#[derive(Debug, PartialEq, Eq)]
pub struct Snapshot {
    pub contract_owner: AccountId,
    /// The known accounts, and at the same place in `balances` what each holds.
    pub accounts: Vec<AccountId>,
    pub balances: Vec<Balance>,
    /// The listings, oldest first.
    pub listings: Vec<Metadata>,
    /// The ids of the public listings, in the order of their publication.
    pub published: Vec<ECID>,
    /// The purchases that await a decision, oldest first.
    pub waiting: Vec<WaitingEntry>,
    /// The credentials that were issued, oldest first.
    pub credentials: Vec<DataValue>,
}

impl Snapshot {
    /// The marketplace that the lists stand for.
    pub open spec fn market(&self) -> Market {
        Market {
            authority: self.contract_owner@,
            ledger: balances_of(self.accounts.deep_view(), self.balances@),
            catalog: CatalogView {
                records: self.listings.deep_view(),
                published: self.published.deep_view(),
            },
            waiting: self.waiting.deep_view(),
            credentials: self.credentials.deep_view(),
        }
    }

    /// The lists stand for a marketplace that is well formed.
    pub open spec fn well_formed(&self) -> bool {
        balances_listed(self.accounts.deep_view(), self.balances@) && self.market().well_formed()
    }
}

/// Whether each entry of the queue is the pending purchase of a listing.
fn check_entries(catalog: &Catalog, waiting: &Vec<WaitingEntry>) -> (sound: bool)
    requires
        catalog.well_formed(),
    ensures
        sound == entries_are_markers(catalog@, waiting.deep_view()),
{
    let mut i: usize = 0;
    while i < waiting.len()
        invariant
            catalog.well_formed(),
            i <= waiting.len(),
            forall|j: int|
                0 <= j < i ==> catalog@.contains((#[trigger] waiting.deep_view()[j]).cid_encrypted)
                    && catalog@.listing(waiting.deep_view()[j].cid_encrypted).owner
                    == waiting.deep_view()[j].owner && catalog@.listing(
                    waiting.deep_view()[j].cid_encrypted,
                ).pending_buyer == Some(waiting.deep_view()[j].buyer),
        decreases waiting.len() - i,
    {
        assert(waiting.deep_view()[i as int] == waiting[i as int]@);
        let marked = match catalog.get(&waiting[i].cid_encrypted) {
            Some(data) => data.owner == waiting[i].owner && match &data.pending_buyer {
                Some(buyer) => *buyer == waiting[i].buyer,
                None => false,
            },
            None => false,
        };
        if !marked {
            return false;
        }
        i += 1;
    }
    true
}

/// Whether no two entries of the queue name one listing.
fn check_one_entry_each(waiting: &Vec<WaitingEntry>) -> (sound: bool)
    ensures
        sound == one_entry_each(waiting.deep_view()),
{
    let mut i: usize = 0;
    while i < waiting.len()
        invariant
            i <= waiting.len(),
            forall|a: int, b: int|
                0 <= a < b < waiting.len() && a < i ==> (
                #[trigger] waiting.deep_view()[a]).cid_encrypted != (
                #[trigger] waiting.deep_view()[b]).cid_encrypted,
        decreases waiting.len() - i,
    {
        let mut j: usize = i + 1;
        while j < waiting.len()
            invariant
                i < j <= waiting.len(),
                forall|b: int|
                    i < b < j ==> waiting.deep_view()[i as int].cid_encrypted != (
                    #[trigger] waiting.deep_view()[b]).cid_encrypted,
            decreases waiting.len() - j,
        {
            assert(waiting.deep_view()[i as int] == waiting[i as int]@);
            assert(waiting.deep_view()[j as int] == waiting[j as int]@);
            if waiting[i].cid_encrypted == waiting[j].cid_encrypted {
                return false;
            }
            j += 1;
        }
        i += 1;
    }
    true
}

/// Whether a purchase of the listing `cid` waits in the queue.
fn is_awaited(waiting: &Vec<WaitingEntry>, cid: &ECID) -> (found: bool)
    ensures
        found == awaited(waiting.deep_view(), cid@),
{
    let mut k: usize = 0;
    while k < waiting.len()
        invariant
            k <= waiting.len(),
            forall|j: int| 0 <= j < k ==> (#[trigger] waiting.deep_view()[j]).cid_encrypted != cid@,
        decreases waiting.len() - k,
    {
        assert(waiting.deep_view()[k as int] == waiting[k as int]@);
        if waiting[k].cid_encrypted == *cid {
            return true;
        }
        k += 1;
    }
    false
}

/// Whether each listing that awaits a purchase has an entry in the queue.
fn check_markers(records: &Vec<Metadata>, waiting: &Vec<WaitingEntry>) -> (sound: bool)
    ensures
        sound == markers_are_entries(records.deep_view(), waiting.deep_view()),
{
    let mut i: usize = 0;
    while i < records.len()
        invariant
            i <= records.len(),
            forall|j: int|
                0 <= j < i && (#[trigger] records.deep_view()[j]).pending_buyer is Some ==> awaited(
                    waiting.deep_view(),
                    records.deep_view()[j].cid_encrypted,
                ),
        decreases records.len() - i,
    {
        assert(records.deep_view()[i as int] == records[i as int]@);
        if records[i].pending_buyer.is_some() && !is_awaited(waiting, &records[i].cid_encrypted) {
            return false;
        }
        i += 1;
    }
    true
}

/// Whether each credential is for a known listing to which its holder was
/// granted access.
fn check_holders(catalog: &Catalog, credentials: &Vec<DataValue>) -> (sound: bool)
    requires
        catalog.well_formed(),
    ensures
        sound == holders_granted(catalog@, credentials.deep_view()),
{
    let mut i: usize = 0;
    while i < credentials.len()
        invariant
            catalog.well_formed(),
            i <= credentials.len(),
            forall|j: int|
                0 <= j < i ==> catalog@.contains(
                    (#[trigger] credentials.deep_view()[j]).encrypted_cid,
                ) && catalog@.listing(
                    credentials.deep_view()[j].encrypted_cid,
                ).list_access.contains(credentials.deep_view()[j].user_id),
        decreases credentials.len() - i,
    {
        assert(credentials.deep_view()[i as int] == credentials[i as int]@);
        let granted = match catalog.grantees(&credentials[i].encrypted_cid) {
            Some(names) => contains_name(&names, &credentials[i].user_id),
            None => false,
        };
        if !granted {
            return false;
        }
        i += 1;
    }
    true
}

/// A marketplace.
pub struct Contract {
    contract_owner: AccountId,
    ft_per_account: Ledger,
    data_by_id: Catalog,
    waiting_list: WaitingQueue,
    access_by_data: CredentialStore,
}

impl View for Contract {
    type V = Market;

    closed spec fn view(&self) -> Market {
        Market {
            authority: self.contract_owner@,
            ledger: self.ft_per_account@,
            catalog: self.data_by_id@,
            waiting: self.waiting_list@,
            credentials: self.access_by_data@,
        }
    }
}

impl Contract {
    /// The parts are sound in themselves.
    pub closed spec fn sound(&self) -> bool {
        self.ft_per_account.well_formed()
    }

    /// The marketplace satisfies what every marketplace satisfies.
    pub open spec fn well_formed(&self) -> bool {
        self.sound() && self@.well_formed()
    }

    /// A marketplace in which nothing has happened yet.  `contract_owner` is
    /// the settlement authority: beside the owner of a listing, it may decide
    /// on purchases.
    pub fn new(contract_owner: AccountId) -> (contract: Contract)
        ensures
            contract.well_formed(),
            contract@ == Market::empty(contract_owner@),
    {
        Contract {
            contract_owner,
            ft_per_account: Ledger::new(),
            data_by_id: Catalog::new(),
            waiting_list: WaitingQueue::new(),
            access_by_data: CredentialStore::new(),
        }
    }

    /// The marketplace that the lists of `snapshot` stand for; `None` where
    /// they stand for none that is well formed.
    pub fn restore(snapshot: Snapshot) -> (contract: Option<Contract>)
        ensures
            match contract {
                Some(c) => {
                    &&& snapshot.well_formed()
                    &&& c.well_formed()
                    &&& c@ == snapshot.market()
                },
                None => !snapshot.well_formed(),
            },
    {
        let ft_per_account = match Ledger::from_parts(snapshot.accounts, snapshot.balances) {
            Some(ledger) => ledger,
            None => {
                return None;
            },
        };
        if !check_one_entry_each(&snapshot.waiting) || !check_markers(
            &snapshot.listings,
            &snapshot.waiting,
        ) {
            return None;
        }
        let data_by_id = match Catalog::from_parts(snapshot.listings, snapshot.published) {
            Some(catalog) => catalog,
            None => {
                return None;
            },
        };
        if !check_entries(&data_by_id, &snapshot.waiting) || !check_holders(
            &data_by_id,
            &snapshot.credentials,
        ) {
            return None;
        }
        let access_by_data = match CredentialStore::from_issued(snapshot.credentials) {
            Some(store) => store,
            None => {
                return None;
            },
        };
        Some(
            Contract {
                contract_owner: snapshot.contract_owner,
                ft_per_account,
                data_by_id,
                waiting_list: WaitingQueue::from_entries(snapshot.waiting),
                access_by_data,
            },
        )
    }

    /// Everything the marketplace holds, as plain lists.
    pub fn snapshot(&self) -> (snapshot: Snapshot)
        requires
            self.well_formed(),
        ensures
            snapshot.well_formed(),
            snapshot.market() == self@,
    {
        let (accounts, balances) = self.ft_per_account.parts();
        let (listings, published) = self.data_by_id.parts();
        let snapshot = Snapshot {
            contract_owner: self.contract_owner.clone(),
            accounts,
            balances,
            listings,
            published,
            waiting: self.waiting_list.entries(),
            credentials: self.access_by_data.issued(),
        };
        assert(snapshot.market() =~= self@);
        snapshot
    }

    /// Makes `account_id` known to the ledger with a balance of zero, and
    /// returns the registration that the ledger service has to be asked for.
    pub fn register(&mut self, account_id: AccountId) -> (request: RegistrationRequest)
        requires
            old(self).well_formed(),
        ensures
            final(self).well_formed(),
            final(self)@ == old(self)@.set_balance(account_id@, 0),
            request@ == registration_of(account_id@),
    {
        self.ft_per_account.register(&account_id);
        registration(&account_id)
    }

    /// Records `new_balance` for `account_id`.
    pub fn set_balance_of(&mut self, account_id: AccountId, new_balance: Balance)
        requires
            old(self).well_formed(),
        ensures
            final(self).well_formed(),
            final(self)@ == old(self)@.set_balance(account_id@, new_balance),
    {
        self.ft_per_account.set(&account_id, new_balance);
    }

    /// The balance recorded for `account_id`; `None` for an account that
    /// never registered.
    pub fn get_balance_of(&self, account_id: AccountId) -> (balance: Option<Balance>)
        requires
            self.well_formed(),
        ensures
            balance == balance_in(self@.ledger, account_id@),
    {
        self.ft_per_account.balance_of(&account_id)
    }

    /// Records that the ledger service moved `amount` from `sender_id` to
    /// `receiver_id`.
    pub fn update_balance(
        &mut self,
        sender_id: &AccountId,
        receiver_id: &AccountId,
        amount: Balance,
    ) -> (done: Result<(), MarketError>)
        requires
            old(self).well_formed(),
        ensures
            final(self).well_formed(),
            match done {
                Ok(_) => {
                    &&& old(self)@.update_balance_failure(sender_id@, receiver_id@, amount) is None
                    &&& final(self)@ == old(self)@.update_balance(sender_id@, receiver_id@, amount)
                },
                Err(e) => {
                    &&& old(self)@.update_balance_failure(sender_id@, receiver_id@, amount) == Some(e@)
                    &&& final(self)@ == old(self)@
                },
            },
    {
        self.ft_per_account.apply_transfer(sender_id, receiver_id, amount)
    }

    /// Records a new listing of `owner` and returns it: private, free,
    /// without grantees.  `AlreadyExists` where the id is taken.
    pub fn new_meta_data(
        &mut self,
        owner: AccountId,
        title_given: String,
        tags_given: String,
        cid_encrypted_given: ECID,
        size: String,
    ) -> (made: Result<Metadata, MarketError>)
        requires
            old(self).well_formed(),
        ensures
            final(self).well_formed(),
            match made {
                Ok(m) => {
                    &&& old(self)@.create_failure(cid_encrypted_given@) is None
                    &&& m@ == Listing::fresh(owner@, title_given@, tags_given@, cid_encrypted_given@, size@)
                    &&& final(self)@ == old(self)@.create(m@)
                },
                Err(e) => {
                    &&& old(self)@.create_failure(cid_encrypted_given@) == Some(e@)
                    &&& final(self)@ == old(self)@
                },
            },
    {
        let made = self.data_by_id.create(owner, title_given, tags_given, cid_encrypted_given, size);
        proof {
            if made is Ok {
                old(self)@.lemma_create(made->Ok_0@);
            }
        }
        made
    }

    /// Puts the listing `cid` on the market at `price` and returns it.
    ///
    /// A listing becomes public once, and its price stays: `InvalidState`
    /// where the listing is public, and where `state` is `Private`.
    /// `NotFound` where the listing is unknown.
    pub fn set_state(&mut self, state: State, cid: ECID, price: Balance) -> (done: Result<Metadata, MarketError>)
        requires
            old(self).well_formed(),
        ensures
            final(self).well_formed(),
            match done {
                Ok(m) => {
                    &&& old(self)@.set_state_failure(state, cid@) is None
                    &&& final(self)@ == old(self)@.publish(cid@, price)
                    &&& m@ == final(self)@.catalog.listing(cid@)
                },
                Err(e) => {
                    &&& old(self)@.set_state_failure(state, cid@) == Some(e@)
                    &&& final(self)@ == old(self)@
                },
            },
    {
        if state == State::Private {
            return match self.data_by_id.get(&cid) {
                Some(_) => Err(MarketError { kind: ErrorKind::InvalidState, id: cid }),
                None => Err(MarketError { kind: ErrorKind::NotFound, id: cid }),
            };
        }
        let done = self.data_by_id.publish(&cid, price);
        proof {
            if done is Ok {
                old(self)@.lemma_publish(cid@, price);
                old(self)@.catalog.lemma_publish(cid@, price);
            }
        }
        done
    }

    /// Asks for the listing `encrypted_cid` in the name of `buyer_id`.
    ///
    /// The listing has to be public, owned by another account and free of a
    /// pending purchase, else `InvalidState`; the buyer has to be known to
    /// the ledger, else `NotFound`, and to hold the price, else
    /// `InsufficientFunds`.  The request then waits for the owner's decision.
    /// Returns the listing and the transfer to ask of the ledger service
    /// `contract_id`: the price, from the buyer into the custody of that
    /// service.
    pub fn purchase(
        &mut self,
        buyer_id: AccountId,
        encrypted_cid: ECID,
        pub_key: String,
        contract_id: AccountId,
    ) -> (done: Result<(Metadata, TransferRequest), MarketError>)
        requires
            old(self).well_formed(),
        ensures
            final(self).well_formed(),
            match done {
                Ok((listing, request)) => {
                    &&& old(self)@.purchase_failure(buyer_id@, encrypted_cid@) is None
                    &&& final(self)@ == old(self)@.purchase(buyer_id@, encrypted_cid@, pub_key@)
                    &&& listing@ == final(self)@.catalog.listing(encrypted_cid@)
                    &&& request@ == old(self)@.purchase_transfer(buyer_id@, encrypted_cid@, contract_id@)
                },
                Err(e) => {
                    &&& old(self)@.purchase_failure(buyer_id@, encrypted_cid@) == Some(e@)
                    &&& final(self)@ == old(self)@
                },
            },
    {
        let data = self.data_by_id.reservable(&encrypted_cid, &buyer_id)?;
        let buyer_balance = match self.ft_per_account.balance_of(&buyer_id) {
            Some(b) => b,
            None => {
                return Err(MarketError { kind: ErrorKind::NotFound, id: buyer_id });
            },
        };
        if buyer_balance < data.price {
            return Err(MarketError { kind: ErrorKind::InsufficientFunds, id: buyer_id });
        }
        let request = cross_call(&contract_id, &buyer_id, &contract_id, data.price);
        self.data_by_id.reserve(&encrypted_cid, &buyer_id)?;
        self.store_waiting_list(&buyer_id, &data, &pub_key);
        proof {
            old(self)@.lemma_purchase(buyer_id@, encrypted_cid@, pub_key@);
            let marked = old(self)@.catalog.listing(encrypted_cid@).pending(Some(buyer_id@));
            old(self)@.catalog.lemma_listing(encrypted_cid@);
            assert(old(self)@.catalog.records[old(self)@.catalog.position(
                encrypted_cid@,
            )].well_formed());
            old(self)@.catalog.lemma_put(marked);
        }
        match self.data_by_id.get(&encrypted_cid) {
            Some(listing) => Ok((listing, request)),
            None => Err(MarketError { kind: ErrorKind::NotFound, id: encrypted_cid }),
        }
    }

    /// Queues the request of `buyer` for the listing `data` under its owner.
    fn store_waiting_list(&mut self, buyer: &AccountId, data: &Metadata, pub_key: &String)
        ensures
            final(self)@ == (Market {
                waiting: old(self)@.waiting.push(
                    Waiting {
                        owner: data@.owner,
                        buyer: buyer@,
                        cid_encrypted: data@.cid_encrypted,
                        pub_key: pub_key@,
                    },
                ),
                ..old(self)@
            }),
            final(self).sound() == old(self).sound(),
    {
        self.waiting_list.enqueue(&data.owner, buyer, &data.cid_encrypted, pub_key);
    }

    /// Carries the decision of `caller` on the purchase of the listing
    /// `encrypted_cid` by `buyer_id`.
    ///
    /// Only the owner of the listing and the settlement authority may decide,
    /// else `Unauthorized`; the purchase has to be waiting, else `NotFound`.
    /// Where the purchase is accepted (`is_access`), the buyer gets access and
    /// the credential made of `access_key` and `pub_key`; a buyer who holds
    /// one for this listing cannot be given another: `AlreadyExists`.  In
    /// both cases the listing is free for the next purchase.  Returns the
    /// listing and the transfer to ask of the ledger service `contract_id`:
    /// the price, out of custody, to the owner or back to the buyer.
    pub fn confirm_transaction(
        &mut self,
        caller: AccountId,
        buyer_id: AccountId,
        encrypted_cid: ECID,
        is_access: bool,
        access_key: String,
        contract_id: AccountId,
        pub_key: String,
    ) -> (done: Result<(Metadata, TransferRequest), MarketError>)
        requires
            old(self).well_formed(),
        ensures
            final(self).well_formed(),
            match done {
                Ok((listing, request)) => {
                    &&& old(self)@.confirm_failure(caller@, buyer_id@, encrypted_cid@, is_access) is None
                    &&& final(self)@ == old(self)@.confirm(buyer_id@, encrypted_cid@, is_access, access_key@, pub_key@)
                    &&& listing@ == final(self)@.catalog.listing(encrypted_cid@)
                    &&& request@ == old(self)@.confirm_transfer(buyer_id@, encrypted_cid@, is_access, contract_id@)
                },
                Err(e) => {
                    &&& old(self)@.confirm_failure(caller@, buyer_id@, encrypted_cid@, is_access) == Some(e@)
                    &&& final(self)@ == old(self)@
                },
            },
    {
        let data = match self.data_by_id.get(&encrypted_cid) {
            Some(data) => data,
            None => {
                return Err(MarketError { kind: ErrorKind::NotFound, id: encrypted_cid });
            },
        };
        if !(caller == data.owner || caller == self.contract_owner) {
            return Err(MarketError { kind: ErrorKind::Unauthorized, id: caller });
        }
        proof {
            self@.lemma_marker_is_entry(encrypted_cid@, buyer_id@);
        }
        let waiting = match &data.pending_buyer {
            Some(pending) => *pending == buyer_id,
            None => false,
        };
        if !waiting {
            return Err(MarketError { kind: ErrorKind::NotFound, id: buyer_id });
        }
        if is_access && self.access_by_data.find(&encrypted_cid, &buyer_id).is_some() {
            return Err(MarketError { kind: ErrorKind::AlreadyExists, id: encrypted_cid });
        }
        let request = if is_access {
            cross_call(&contract_id, &contract_id, &data.owner, data.price)
        } else {
            cross_call(&contract_id, &contract_id, &buyer_id, data.price)
        };
        proof {
            let before = old(self)@;
            before.lemma_confirm(
                caller@,
                buyer_id@,
                encrypted_cid@,
                is_access,
                access_key@,
                pub_key@,
            );
            before.catalog.lemma_listing(encrypted_cid@);
            assert(before.catalog.records[before.catalog.position(encrypted_cid@)].well_formed());
            before.catalog.lemma_put(before.catalog.listing(encrypted_cid@).pending(None));
        }
        self.waiting_list.remove(&data.owner, &buyer_id, &encrypted_cid)?;
        self.data_by_id.release(&encrypted_cid)?;
        if is_access {
            self.access_to_data(&encrypted_cid, &buyer_id, &access_key, &pub_key)?;
        }
        match self.data_by_id.get(&encrypted_cid) {
            Some(listing) => Ok((listing, request)),
            None => Err(MarketError { kind: ErrorKind::NotFound, id: encrypted_cid }),
        }
    }

    /// Gives `user_id` access to the listing `cid`, and the credential made
    /// of `access_key` and `pub_key`.
    fn access_to_data(
        &mut self,
        cid: &ECID,
        user_id: &AccountId,
        access_key: &String,
        pub_key: &String,
    ) -> (done: Result<(), MarketError>)
        requires
            old(self).data_by_id.well_formed(),
            old(self).access_by_data.well_formed(),
            old(self)@.catalog.grant_failure(cid@, user_id@) is None,
            !holds(old(self)@.credentials, cid@, user_id@),
        ensures
            done is Ok,
            final(self).sound() == old(self).sound(),
            final(self)@ == (Market {
                catalog: old(self)@.catalog.grant(cid@, user_id@),
                credentials: old(self)@.credentials.push(
                    Credential {
                        user_id: user_id@,
                        encrypted_cid: cid@,
                        key_cid: access_key@,
                        pub_key: pub_key@,
                    },
                ),
                ..old(self)@
            }),
    {
        self.data_by_id.add_grantee(cid, user_id)?;
        self.access_by_data.issue(cid, user_id, access_key, pub_key)?;
        Ok(())
    }

    /// The listing with the id `data_id`; `NotFound` where there is none.
    pub fn get_data_by_id(&self, data_id: ECID) -> (found: Result<Metadata, MarketError>)
        requires
            self.well_formed(),
        ensures
            match found {
                Ok(m) => {
                    &&& self@.catalog.contains(data_id@)
                    &&& m@ == self@.catalog.listing(data_id@)
                },
                Err(e) => {
                    &&& !self@.catalog.contains(data_id@)
                    &&& e@ == (Failure { kind: ErrorKind::NotFound, id: data_id@ })
                },
            },
    {
        match self.data_by_id.get(&data_id) {
            Some(m) => Ok(m),
            None => Err(MarketError { kind: ErrorKind::NotFound, id: data_id }),
        }
    }

    /// The market as `user` sees it: the public listings in the order of their
    /// publication, the one that awaits `user`'s own purchase marked.
    pub fn get_published_data(&self, user: AccountId) -> (found: Vec<Metadata>)
        requires
            self.well_formed(),
        ensures
            found.deep_view() == self@.catalog.on_market(user@),
    {
        self.data_by_id.list_published(&user)
    }

    /// The listings for which `user_id` holds a credential, in the order in
    /// which the credentials were issued.
    pub fn get_accessed_data_by_user(&self, user_id: AccountId) -> (found: Vec<Metadata>)
        requires
            self.well_formed(),
        ensures
            found.deep_view() == self@.accessible_to(user_id@),
    {
        let held = self.access_by_data.list_for(&user_id);
        let mut found: Vec<Metadata> = Vec::new();
        let mut i: usize = 0;
        while i < held.len()
            invariant
                self.well_formed(),
                held.deep_view() == crate::credentials::held_by(self@.credentials, user_id@),
                i <= held.len(),
                found.len() == i,
                forall|j: int| 0 <= j < i ==> found[j]@ == self@.catalog.listing(held[j]@.encrypted_cid),
            decreases held.len() - i,
        {
            proof {
                let all = self@.credentials;
                let theirs = |c: Credential| c.user_id == user_id@;
                assert(held.deep_view()[i as int] == held[i as int]@);
                assert(all.filter(theirs).contains(held[i as int]@));
                all.lemma_filter_contains_rev(theirs, held[i as int]@);
                let k = choose|k: int| 0 <= k < all.len() && all[k] == held[i as int]@;
                assert(self@.catalog.contains(all[k].encrypted_cid));
            }
            match self.data_by_id.get(&held[i].encrypted_cid) {
                Some(m) => {
                    found.push(m);
                },
                None => {},
            }
            i += 1;
        }
        assert(found.deep_view() =~= self@.accessible_to(user_id@)) by {
            assert forall|j: int| 0 <= j < found.len() implies found.deep_view()[j]
                == self@.accessible_to(user_id@)[j] by {
                assert(held.deep_view()[j] == held[j]@);
            }
        }
        found
    }

    /// The listings of `owner_account_id`, oldest first.
    pub fn get_data_by_owner(&self, owner_account_id: AccountId) -> (found: Vec<Metadata>)
        requires
            self.well_formed(),
        ensures
            found.deep_view() == self@.catalog.by_owner(owner_account_id@),
    {
        self.data_by_id.list_by_owner(&owner_account_id)
    }

    /// The accounts that were granted access to the listing `encrypted_cid`,
    /// in the order of the grants; `NotFound` where the listing is unknown.
    pub fn get_user_by_data(&self, encrypted_cid: ECID) -> (found: Result<Vec<AccountId>, MarketError>)
        requires
            self.well_formed(),
        ensures
            match found {
                Ok(names) => {
                    &&& self@.catalog.contains(encrypted_cid@)
                    &&& names.deep_view() == self@.catalog.listing(encrypted_cid@).list_access
                },
                Err(e) => {
                    &&& !self@.catalog.contains(encrypted_cid@)
                    &&& e@ == (Failure { kind: ErrorKind::NotFound, id: encrypted_cid@ })
                },
            },
    {
        match self.data_by_id.grantees(&encrypted_cid) {
            Some(names) => Ok(names),
            None => Err(MarketError { kind: ErrorKind::NotFound, id: encrypted_cid }),
        }
    }

    /// The credential of the listing `encrypted_cid` for `user_id`.
    ///
    /// A buyer gets its own credential.  The owner of the listing gets the
    /// credential that was issued last, `NotFound` where none was issued.
    /// Anyone else is `Unauthorized`.
    pub fn get_data_value(
        &self,
        encrypted_cid: ECID,
        user_id: AccountId,
    ) -> (found: Result<DataValue, MarketError>)
        requires
            self.well_formed(),
        ensures
            match found {
                Ok(c) => self@.credential_for(encrypted_cid@, user_id@) == Ok::<
                    Credential,
                    Failure,
                >(c@),
                Err(e) => self@.credential_for(encrypted_cid@, user_id@) == Err::<
                    Credential,
                    Failure,
                >(e@),
            },
    {
        let data = match self.data_by_id.get(&encrypted_cid) {
            Some(data) => data,
            None => {
                return Err(MarketError { kind: ErrorKind::NotFound, id: encrypted_cid });
            },
        };
        if let Some(own) = self.access_by_data.find(&encrypted_cid, &user_id) {
            return Ok(own);
        }
        if data.owner != user_id {
            return Err(MarketError { kind: ErrorKind::Unauthorized, id: user_id });
        }
        match self.access_by_data.latest_for(&encrypted_cid) {
            Some(last) => Ok(last),
            None => Err(MarketError { kind: ErrorKind::NotFound, id: encrypted_cid }),
        }
    }

    /// The purchases that await the decision of `owner`, oldest first, each
    /// as buyer, listing and the buyer's public key.
    pub fn get_waiting_list(&self, owner: AccountId) -> (found: Vec<(AccountId, ECID, String)>)
        requires
            self.well_formed(),
        ensures
            found@.map_values(|entry: (String, String, String)| as_request(entry, owner@))
                == queue_of(self@.waiting, owner@),
    {
        let entries = self.waiting_list.list_for(&owner);
        let mut found: Vec<(AccountId, ECID, String)> = Vec::new();
        let mut i: usize = 0;
        while i < entries.len()
            invariant
                entries.deep_view() == queue_of(self@.waiting, owner@),
                i <= entries.len(),
                found.len() == i,
                forall|j: int| 0 <= j < i ==> as_request(#[trigger] found[j], owner@) == entries[j]@,
            decreases entries.len() - i,
        {
            proof {
                let theirs = |e: Waiting| e.owner == owner@;
                assert(entries.deep_view()[i as int] == entries[i as int]@);
                self@.waiting.lemma_filter_pred(theirs, i as int);
            }
            found.push(
                (
                    entries[i].buyer.clone(),
                    entries[i].cid_encrypted.clone(),
                    entries[i].pub_key.clone(),
                ),
            );
            i += 1;
        }
        assert(found@.map_values(|entry: (String, String, String)| as_request(entry, owner@))
            =~= queue_of(self@.waiting, owner@)) by {
            assert forall|j: int| 0 <= j < found.len() implies as_request(found[j], owner@)
                == queue_of(self@.waiting, owner@)[j] by {
                assert(entries.deep_view()[j] == entries[j]@);
            }
        }
        found
    }

    /// Whether `user_id` may read the data of the listing `encrypted_id`: it
    /// owns the listing or was granted access.  `NotFound` where the listing
    /// is unknown.
    pub fn is_accessed(&self, encrypted_id: ECID, user_id: AccountId) -> (answer: Result<bool, MarketError>)
        requires
            self.well_formed(),
        ensures
            match answer {
                Ok(yes) => {
                    &&& self@.catalog.contains(encrypted_id@)
                    &&& yes == self@.catalog.listing(encrypted_id@).admits(user_id@)
                },
                Err(e) => {
                    &&& !self@.catalog.contains(encrypted_id@)
                    &&& e@ == (Failure { kind: ErrorKind::NotFound, id: encrypted_id@ })
                },
            },
    {
        match self.data_by_id.get(&encrypted_id) {
            Some(data) => Ok(
                data.owner == user_id || crate::types::contains_name(&data.list_access, &user_id),
            ),
            None => Err(MarketError { kind: ErrorKind::NotFound, id: encrypted_id }),
        }
    }
}

} // verus!
