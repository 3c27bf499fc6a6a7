//! The listing catalog: one record per data object, in the order of their
//! creation, and the index of those that are on the market.

use vstd::prelude::*;
use crate::types::{
    clone_names, contains_name, distinct_names, ErrorKind, Failure, Listing, MarketError,
    Metadata, State,
};

verus! {

/// Mathematical value of a [`Catalog`].
#[verifier::ext_equal]
pub struct CatalogView {
    /// The listings, oldest first.
    pub records: Seq<Listing>,
    /// The ids of the public listings, in the order of their publication.
    pub published: Seq<Seq<char>>,
}

impl CatalogView {
    /// The catalog without listings.
    pub open spec fn empty() -> CatalogView {
        CatalogView { records: Seq::empty(), published: Seq::empty() }
    }

    /// A listing with the id `cid` is recorded.
    pub open spec fn contains(self, cid: Seq<char>) -> bool {
        exists|i: int| 0 <= i < self.records.len() && #[trigger] self.records[i].cid_encrypted == cid
    }

    /// Where the listing `cid` stands among the records.
    pub open spec fn position(self, cid: Seq<char>) -> int {
        choose|i: int| 0 <= i < self.records.len() && #[trigger] self.records[i].cid_encrypted == cid
    }

    /// The listing with the id `cid`.
    pub open spec fn listing(self, cid: Seq<char>) -> Listing
        recommends
            self.contains(cid),
    {
        self.records[self.position(cid)]
    }

    /// No two listings share an id.
    pub open spec fn distinct_ids(self) -> bool {
        forall|i: int, j: int|
            0 <= i < j < self.records.len() ==> (#[trigger] self.records[i]).cid_encrypted != (
            #[trigger] self.records[j]).cid_encrypted
    }

    /// The index of publications names each public listing once, and nothing else.
    pub open spec fn index_exact(self) -> bool {
        &&& self.published.no_duplicates()
        &&& forall|k: int|
            0 <= k < self.published.len() ==> self.contains(#[trigger] self.published[k])
                && self.listing(self.published[k]).state == State::Public
        &&& forall|i: int|
            0 <= i < self.records.len() && (#[trigger] self.records[i]).state == State::Public
                ==> self.published.contains(self.records[i].cid_encrypted)
    }

    /// What every catalog satisfies.
    pub open spec fn well_formed(self) -> bool {
        &&& forall|i: int| 0 <= i < self.records.len() ==> (#[trigger] self.records[i]).well_formed()
        &&& self.distinct_ids()
        &&& self.index_exact()
    }

    /// The catalog with `listing` appended.
    pub open spec fn add(self, listing: Listing) -> CatalogView {
        CatalogView { records: self.records.push(listing), published: self.published }
    }

    /// The catalog with `listing` in place of the record that has its id.
    pub open spec fn put(self, listing: Listing) -> CatalogView
        recommends
            self.contains(listing.cid_encrypted),
    {
        CatalogView {
            records: self.records.update(self.position(listing.cid_encrypted), listing),
            published: self.published,
        }
    }

    /// Why a listing with the id `cid` cannot be created, if it cannot.
    pub open spec fn create_failure(self, cid: Seq<char>) -> Option<Failure> {
        if self.contains(cid) {
            Some(Failure { kind: ErrorKind::AlreadyExists, id: cid })
        } else {
            None
        }
    }

    /// Why the listing `cid` cannot be published, if it cannot.
    pub open spec fn publish_failure(self, cid: Seq<char>) -> Option<Failure> {
        if !self.contains(cid) {
            Some(Failure { kind: ErrorKind::NotFound, id: cid })
        } else if self.listing(cid).state == State::Public {
            Some(Failure { kind: ErrorKind::InvalidState, id: cid })
        } else {
            None
        }
    }

    /// The catalog after the listing `cid` went on the market at `price`.
    pub open spec fn publish(self, cid: Seq<char>, price: u128) -> CatalogView {
        CatalogView {
            records: self.records.update(self.position(cid), self.listing(cid).published(price)),
            published: self.published.push(cid),
        }
    }

    /// Why `account` cannot be granted access to the listing `cid`, if it cannot.
    pub open spec fn grant_failure(self, cid: Seq<char>, account: Seq<char>) -> Option<Failure> {
        if !self.contains(cid) {
            Some(Failure { kind: ErrorKind::NotFound, id: cid })
        } else if self.listing(cid).owner == account {
            Some(Failure { kind: ErrorKind::InvalidState, id: account })
        } else {
            None
        }
    }

    /// The catalog after `account` was granted access to the listing `cid`.
    /// An account that had access is not recorded again.
    pub open spec fn grant(self, cid: Seq<char>, account: Seq<char>) -> CatalogView {
        if self.listing(cid).list_access.contains(account) {
            self
        } else {
            self.put(self.listing(cid).granted(account))
        }
    }

    /// Why the listing `cid` cannot be marked as awaiting `buyer`, if it cannot.
    pub open spec fn reserve_failure(self, cid: Seq<char>, buyer: Seq<char>) -> Option<Failure> {
        if !self.contains(cid) {
            Some(Failure { kind: ErrorKind::NotFound, id: cid })
        } else if self.listing(cid).state != State::Public || self.listing(cid).owner == buyer
            || self.listing(cid).pending_buyer is Some {
            Some(Failure { kind: ErrorKind::InvalidState, id: cid })
        } else {
            None
        }
    }

    /// The catalog with the pending marker of the listing `cid` set to `buyer`.
    pub open spec fn mark(self, cid: Seq<char>, buyer: Option<Seq<char>>) -> CatalogView {
        self.put(self.listing(cid).pending(buyer))
    }

    /// The listings of `owner`, oldest first.
    pub open spec fn by_owner(self, owner: Seq<char>) -> Seq<Listing> {
        self.records.filter(|l: Listing| l.owner == owner)
    }

    /// The market as `user` sees it: the public listings in the order of their
    /// publication, the one that awaits `user`'s own purchase marked.
    pub open spec fn on_market(self, user: Seq<char>) -> Seq<Listing> {
        self.published.map_values(|cid: Seq<char>| self.listing(cid).shown_to(user))
    }

    /// The record at `i` is the listing that its id names.
    pub proof fn lemma_at(self, i: int)
        requires
            self.distinct_ids(),
            0 <= i < self.records.len(),
        ensures
            self.contains(self.records[i].cid_encrypted),
            self.position(self.records[i].cid_encrypted) == i,
            self.listing(self.records[i].cid_encrypted) == self.records[i],
    {
        let k = self.position(self.records[i].cid_encrypted);
        if k < i {
            assert(self.records[k].cid_encrypted != self.records[i].cid_encrypted);
        } else if i < k {
            assert(self.records[i].cid_encrypted != self.records[k].cid_encrypted);
        }
    }

    /// A known id names a record that carries it.
    pub proof fn lemma_listing(self, cid: Seq<char>)
        requires
            self.contains(cid),
        ensures
            0 <= self.position(cid) < self.records.len(),
            self.listing(cid).cid_encrypted == cid,
    {
    }

    /// Appending a listing with a new id keeps the catalog well formed and
    /// leaves every other listing as it was.
    pub proof fn lemma_add(self, listing: Listing)
        requires
            self.well_formed(),
            !self.contains(listing.cid_encrypted),
            listing.well_formed(),
            listing.state == State::Private,
        ensures
            self.add(listing).well_formed(),
            self.add(listing).contains(listing.cid_encrypted),
            self.add(listing).listing(listing.cid_encrypted) == listing,
            forall|c: Seq<char>|
                c != listing.cid_encrypted ==> self.add(listing).contains(c) == self.contains(c),
            forall|c: Seq<char>|
                c != listing.cid_encrypted && self.contains(c) ==> #[trigger] self.add(
                    listing,
                ).listing(c) == self.listing(c),
    {
        let after = self.add(listing);
        let n = self.records.len() as int;
        assert(after.records[n] == listing);
        assert forall|i: int, j: int| 0 <= i < j < after.records.len() implies (
        #[trigger] after.records[i]).cid_encrypted != (#[trigger] after.records[j]).cid_encrypted by {
            if j == n {
                assert(self.records[i].cid_encrypted == after.records[i].cid_encrypted);
            } else {
                assert(self.records[i] == after.records[i]);
                assert(self.records[j] == after.records[j]);
            }
        }
        after.lemma_at(n);
        assert forall|c: Seq<char>| c != listing.cid_encrypted implies after.contains(c)
            == self.contains(c) by {
            if self.contains(c) {
                assert(after.records[self.position(c)].cid_encrypted == c);
            }
            if after.contains(c) {
                assert(self.records[after.position(c)].cid_encrypted == c);
            }
        }
        assert forall|c: Seq<char>| c != listing.cid_encrypted && self.contains(c) implies
            #[trigger] after.listing(c) == self.listing(c) by {
            let k = self.position(c);
            assert(after.records[k] == self.records[k]);
            after.lemma_at(k);
        }
        assert forall|k: int| 0 <= k < after.published.len() implies after.contains(
            #[trigger] after.published[k],
        ) && after.listing(after.published[k]).state == State::Public by {
            assert(self.contains(self.published[k]));
        }
        assert forall|i: int|
            0 <= i < after.records.len() && (#[trigger] after.records[i]).state
                == State::Public implies after.published.contains(
            after.records[i].cid_encrypted,
        ) by {
            assert(self.records[i] == after.records[i]);
        }
    }

    /// Replacing a listing by one of the same id and visibility keeps the
    /// catalog well formed and leaves every other listing as it was.
    pub proof fn lemma_put(self, listing: Listing)
        requires
            self.well_formed(),
            self.contains(listing.cid_encrypted),
            listing.well_formed(),
            listing.state == self.listing(listing.cid_encrypted).state,
        ensures
            self.put(listing).well_formed(),
            forall|c: Seq<char>| self.put(listing).contains(c) == self.contains(c),
            self.put(listing).listing(listing.cid_encrypted) == listing,
            forall|c: Seq<char>|
                c != listing.cid_encrypted && self.contains(c) ==> #[trigger] self.put(
                    listing,
                ).listing(c) == self.listing(c),
    {
        let after = self.put(listing);
        let p = self.position(listing.cid_encrypted);
        self.lemma_replace(p, listing);
        assert forall|k: int| 0 <= k < after.published.len() implies after.contains(
            #[trigger] after.published[k],
        ) && after.listing(after.published[k]).state == State::Public by {
            assert(self.contains(self.published[k]));
        }
        assert forall|i: int|
            0 <= i < after.records.len() && (#[trigger] after.records[i]).state
                == State::Public implies after.published.contains(
            after.records[i].cid_encrypted,
        ) by {
            if i != p {
                assert(self.records[i] == after.records[i]);
            } else {
                assert(self.records[p].state == State::Public);
            }
        }
    }

    /// What replacing the record at `p` by one of the same id keeps.
    proof fn lemma_replace(self, p: int, listing: Listing)
        requires
            self.distinct_ids(),
            0 <= p < self.records.len(),
            self.records[p].cid_encrypted == listing.cid_encrypted,
            forall|i: int| 0 <= i < self.records.len() ==> (#[trigger] self.records[i]).well_formed(),
            listing.well_formed(),
        ensures
            ({
                let after = CatalogView {
                    records: self.records.update(p, listing),
                    published: self.published,
                };
                &&& after.distinct_ids()
                &&& forall|i: int|
                    0 <= i < after.records.len() ==> (#[trigger] after.records[i]).well_formed()
                &&& forall|c: Seq<char>| after.contains(c) == self.contains(c)
                &&& after.listing(listing.cid_encrypted) == listing
                &&& forall|c: Seq<char>|
                    c != listing.cid_encrypted && self.contains(c) ==> #[trigger] after.listing(c)
                        == self.listing(c)
            }),
    {
        let after = CatalogView { records: self.records.update(p, listing), published: self.published };
        assert forall|i: int, j: int| 0 <= i < j < after.records.len() implies (
        #[trigger] after.records[i]).cid_encrypted != (#[trigger] after.records[j]).cid_encrypted by {
            assert(self.records[i].cid_encrypted == after.records[i].cid_encrypted);
            assert(self.records[j].cid_encrypted == after.records[j].cid_encrypted);
        }
        assert forall|c: Seq<char>| after.contains(c) == self.contains(c) by {
            if self.contains(c) {
                assert(after.records[self.position(c)].cid_encrypted == c);
            }
            if after.contains(c) {
                assert(self.records[after.position(c)].cid_encrypted == c);
            }
        }
        after.lemma_at(p);
        assert forall|c: Seq<char>| c != listing.cid_encrypted && self.contains(c) implies
            #[trigger] after.listing(c) == self.listing(c) by {
            let k = self.position(c);
            assert(after.records[k] == self.records[k]);
            after.lemma_at(k);
        }
    }

    /// Publishing a private listing keeps the catalog well formed, fixes the
    /// price of that listing and leaves every other listing as it was.
    pub proof fn lemma_publish(self, cid: Seq<char>, price: u128)
        requires
            self.well_formed(),
            self.publish_failure(cid) is None,
        ensures
            self.publish(cid, price).well_formed(),
            forall|c: Seq<char>| self.publish(cid, price).contains(c) == self.contains(c),
            self.publish(cid, price).listing(cid) == self.listing(cid).published(price),
            forall|c: Seq<char>|
                c != cid && self.contains(c) ==> #[trigger] self.publish(cid, price).listing(c)
                    == self.listing(c),
    {
        let after = self.publish(cid, price);
        let p = self.position(cid);
        let fresh = self.listing(cid).published(price);
        self.lemma_replace(p, fresh);
        let middle = CatalogView { records: self.records.update(p, fresh), published: self.published };
        assert(after.records == middle.records);
        assert forall|c: Seq<char>| after.contains(c) == self.contains(c) by {
            assert(after.contains(c) == middle.contains(c));
        }
        assert forall|c: Seq<char>| self.contains(c) implies #[trigger] after.listing(c)
            == middle.listing(c) by {}
        if self.published.contains(cid) {
            let k = choose|k: int| 0 <= k < self.published.len() && self.published[k] == cid;
            assert(self.listing(self.published[k]).state == State::Public);
        }
        assert(after.published.no_duplicates());
        assert forall|k: int| 0 <= k < after.published.len() implies after.contains(
            #[trigger] after.published[k],
        ) && after.listing(after.published[k]).state == State::Public by {
            if k < self.published.len() {
                assert(self.contains(self.published[k]));
                assert(self.listing(self.published[k]).state == State::Public);
            }
        }
        assert forall|i: int|
            0 <= i < after.records.len() && (#[trigger] after.records[i]).state
                == State::Public implies after.published.contains(
            after.records[i].cid_encrypted,
        ) by {
            if i != p {
                assert(self.records[i] == after.records[i]);
                let k = choose|k: int|
                    0 <= k < self.published.len() && self.published[k]
                        == self.records[i].cid_encrypted;
                assert(after.published[k] == self.records[i].cid_encrypted);
            } else {
                assert(after.published[self.published.len() as int] == cid);
            }
        }
    }
}

/// The listing records of a marketplace.
pub struct Catalog {
    records: Vec<Metadata>,
    published: Vec<String>,
}

impl View for Catalog {
    type V = CatalogView;

    closed spec fn view(&self) -> CatalogView {
        CatalogView { records: self.records.deep_view(), published: self.published.deep_view() }
    }
}

impl Catalog {
    /// The catalog satisfies what every catalog satisfies.
    pub open spec fn well_formed(&self) -> bool {
        self@.well_formed()
    }

    /// A catalog without listings.
    pub fn new() -> (catalog: Catalog)
        ensures
            catalog.well_formed(),
            catalog@ == CatalogView::empty(),
    {
        let catalog = Catalog { records: Vec::new(), published: Vec::new() };
        assert(catalog@ =~= CatalogView::empty());
        catalog
    }

    fn find(&self, cid: &String) -> (at: Option<usize>)
        requires
            self@.distinct_ids(),
        ensures
            match at {
                Some(i) => {
                    &&& i < self.records.len()
                    &&& self@.contains(cid@)
                    &&& self@.position(cid@) == i
                    &&& self.records[i as int]@ == self@.listing(cid@)
                },
                None => !self@.contains(cid@),
            },
    {
        let mut i: usize = 0;
        while i < self.records.len()
            invariant
                self@.distinct_ids(),
                i <= self.records.len(),
                forall|j: int| 0 <= j < i ==> self.records[j].cid_encrypted@ != cid@,
            decreases self.records.len() - i,
        {
            if self.records[i].cid_encrypted == *cid {
                proof {
                    assert(self@.records[i as int] == self.records[i as int]@);
                    self@.lemma_at(i as int);
                }
                return Some(i);
            }
            i += 1;
        }
        proof {
            if self@.contains(cid@) {
                let k = self@.position(cid@);
                assert(self@.records[k] == self.records[k]@);
            }
        }
        None
    }

    /// Whether each record is one that a catalog can hold.
    fn records_sound(&self) -> (sound: bool)
        ensures
            sound == (forall|i: int|
                0 <= i < self@.records.len() ==> (#[trigger] self@.records[i]).well_formed()),
    {
        let mut i: usize = 0;
        while i < self.records.len()
            invariant
                i <= self.records.len(),
                forall|j: int| 0 <= j < i ==> (#[trigger] self@.records[j]).well_formed(),
            decreases self.records.len() - i,
        {
            assert(self@.records[i as int] == self.records[i as int]@);
            if !self.records[i].is_well_formed() {
                return false;
            }
            i += 1;
        }
        true
    }

    /// Whether no two records share an id.
    fn ids_distinct(&self) -> (distinct: bool)
        ensures
            distinct == self@.distinct_ids(),
    {
        let mut i: usize = 0;
        while i < self.records.len()
            invariant
                i <= self.records.len(),
                forall|a: int, b: int|
                    0 <= a < b < self.records.len() && a < i ==> (
                    #[trigger] self@.records[a]).cid_encrypted != (
                    #[trigger] self@.records[b]).cid_encrypted,
            decreases self.records.len() - i,
        {
            let mut j: usize = i + 1;
            while j < self.records.len()
                invariant
                    i < j <= self.records.len(),
                    forall|b: int|
                        i < b < j ==> self@.records[i as int].cid_encrypted != (
                        #[trigger] self@.records[b]).cid_encrypted,
                decreases self.records.len() - j,
            {
                assert(self@.records[i as int] == self.records[i as int]@);
                assert(self@.records[j as int] == self.records[j as int]@);
                if self.records[i].cid_encrypted == self.records[j].cid_encrypted {
                    return false;
                }
                j += 1;
            }
            i += 1;
        }
        true
    }

    /// Whether the index of publications names each public listing once, and
    /// nothing else.
    fn index_exact(&self) -> (exact: bool)
        requires
            self@.distinct_ids(),
        ensures
            exact == self@.index_exact(),
    {
        if !distinct_names(&self.published) {
            return false;
        }
        let mut k: usize = 0;
        while k < self.published.len()
            invariant
                self@.distinct_ids(),
                k <= self.published.len(),
                forall|j: int|
                    0 <= j < k ==> self@.contains(#[trigger] self@.published[j]) && self@.listing(
                        self@.published[j],
                    ).state == State::Public,
            decreases self.published.len() - k,
        {
            assert(self@.published[k as int] == self.published[k as int]@);
            match self.find(&self.published[k]) {
                Some(i) => {
                    if self.records[i].state != State::Public {
                        return false;
                    }
                },
                None => {
                    return false;
                },
            }
            k += 1;
        }
        let mut i: usize = 0;
        while i < self.records.len()
            invariant
                i <= self.records.len(),
                forall|j: int|
                    0 <= j < i && (#[trigger] self@.records[j]).state == State::Public
                        ==> self@.published.contains(self@.records[j].cid_encrypted),
            decreases self.records.len() - i,
        {
            assert(self@.records[i as int] == self.records[i as int]@);
            if self.records[i].state == State::Public && !contains_name(
                &self.published,
                &self.records[i].cid_encrypted,
            ) {
                return false;
            }
            i += 1;
        }
        true
    }

    /// The catalog that the records and the index of publications stand
    /// for, where they stand for one.
    pub fn from_parts(records: Vec<Metadata>, published: Vec<String>) -> (catalog: Option<Catalog>)
        ensures
            match catalog {
                Some(c) => {
                    &&& c.well_formed()
                    &&& c@ == (CatalogView { records: records.deep_view(), published: published.deep_view() })
                },
                None => !(CatalogView { records: records.deep_view(), published: published.deep_view() }).well_formed(),
            },
    {
        let catalog = Catalog { records, published };
        if catalog.records_sound() && catalog.ids_distinct() && catalog.index_exact() {
            Some(catalog)
        } else {
            None
        }
    }

    /// The records, oldest first, and the index of publications.
    pub fn parts(&self) -> (lists: (Vec<Metadata>, Vec<String>))
        ensures
            self@ == (CatalogView {
                records: lists.0.deep_view(),
                published: lists.1.deep_view(),
            }),
    {
        let mut records: Vec<Metadata> = Vec::new();
        let mut i: usize = 0;
        while i < self.records.len()
            invariant
                i <= self.records.len(),
                records.len() == i,
                forall|j: int| 0 <= j < i ==> records[j]@ == self.records[j]@,
            decreases self.records.len() - i,
        {
            records.push(self.records[i].clone());
            i += 1;
        }
        let published = clone_names(&self.published);
        assert(records.deep_view() =~= self.records.deep_view());
        (records, published)
    }

    /// The listing with the id `cid`, if there is one.
    pub fn get(&self, cid: &String) -> (found: Option<Metadata>)
        requires
            self.well_formed(),
        ensures
            match found {
                Some(m) => {
                    &&& self@.contains(cid@)
                    &&& m@ == self@.listing(cid@)
                },
                None => !self@.contains(cid@),
            },
    {
        match self.find(cid) {
            Some(i) => Some(self.records[i].clone()),
            None => None,
        }
    }

    /// Records a new listing of `owner`: private, free, without grantees.
    /// Returns it, or `AlreadyExists` where the id is taken.
    pub fn create(
        &mut self,
        owner: String,
        title: String,
        tags: String,
        cid: String,
        size: String,
    ) -> (made: Result<Metadata, MarketError>)
        requires
            old(self).well_formed(),
        ensures
            final(self).well_formed(),
            match made {
                Ok(m) => {
                    &&& old(self)@.create_failure(cid@) is None
                    &&& m@ == Listing::fresh(owner@, title@, tags@, cid@, size@)
                    &&& final(self)@ == old(self)@.add(m@)
                },
                Err(e) => {
                    &&& old(self)@.create_failure(cid@) == Some(e@)
                    &&& final(self)@ == old(self)@
                },
            },
    {
        if self.find(&cid).is_some() {
            return Err(MarketError { kind: ErrorKind::AlreadyExists, id: cid });
        }
        let record = Metadata {
            state: State::Private,
            title,
            tags,
            owner,
            cid_encrypted: cid,
            price: 0,
            size,
            list_access: Vec::new(),
            pending_buyer: None,
            is_active: false,
        };
        let copy = record.clone();
        proof {
            assert(record@.list_access =~= Seq::<Seq<char>>::empty());
            assert(record@ =~= Listing::fresh(owner@, title@, tags@, cid@, size@));
            old(self)@.lemma_add(record@);
        }
        self.records.push(record);
        assert(self@.records =~= old(self)@.records.push(copy@));
        Ok(copy)
    }

    /// Puts the listing `cid` on the market at `price`.  A listing goes on the
    /// market once: `InvalidState` where it is public, `NotFound` where
    /// it is unknown.
    pub fn publish(&mut self, cid: &String, price: u128) -> (done: Result<Metadata, MarketError>)
        requires
            old(self).well_formed(),
        ensures
            final(self).well_formed(),
            match done {
                Ok(m) => {
                    &&& old(self)@.publish_failure(cid@) is None
                    &&& final(self)@ == old(self)@.publish(cid@, price)
                    &&& m@ == old(self)@.listing(cid@).published(price)
                },
                Err(e) => {
                    &&& old(self)@.publish_failure(cid@) == Some(e@)
                    &&& final(self)@ == old(self)@
                },
            },
    {
        let i = match self.find(cid) {
            Some(i) => i,
            None => {
                return Err(MarketError { kind: ErrorKind::NotFound, id: cid.clone() });
            },
        };
        if self.records[i].state == State::Public {
            return Err(MarketError { kind: ErrorKind::InvalidState, id: cid.clone() });
        }
        self.records[i].state = State::Public;
        self.records[i].price = price;
        self.published.push(cid.clone());
        proof {
            old(self)@.lemma_publish(cid@, price);
            assert(self.records[i as int]@ =~= old(self)@.listing(cid@).published(price));
            assert(self@.records =~= old(self)@.publish(cid@, price).records);
            assert(self@.published =~= old(self)@.publish(cid@, price).published);
        }
        Ok(self.records[i].clone())
    }

    /// Grants `account` access to the listing `cid`.  Granting twice changes
    /// nothing.  `NotFound` where the listing is unknown, `InvalidState` for
    /// its owner, who needs no grant.
    pub fn add_grantee(&mut self, cid: &String, account: &String) -> (done: Result<(), MarketError>)
        requires
            old(self).well_formed(),
        ensures
            final(self).well_formed(),
            match done {
                Ok(_) => {
                    &&& old(self)@.grant_failure(cid@, account@) is None
                    &&& final(self)@ == old(self)@.grant(cid@, account@)
                },
                Err(e) => {
                    &&& old(self)@.grant_failure(cid@, account@) == Some(e@)
                    &&& final(self)@ == old(self)@
                },
            },
    {
        let i = match self.find(cid) {
            Some(i) => i,
            None => {
                return Err(MarketError { kind: ErrorKind::NotFound, id: cid.clone() });
            },
        };
        if self.records[i].owner == *account {
            return Err(MarketError { kind: ErrorKind::InvalidState, id: account.clone() });
        }
        if contains_name(&self.records[i].list_access, account) {
            return Ok(());
        }
        self.records[i].list_access.push(account.clone());
        proof {
            let before = old(self)@.listing(cid@);
            let after = before.granted(account@);
            assert(self.records[i as int]@.list_access =~= before.list_access.push(account@));
            assert(self.records[i as int]@ =~= after);
            assert(after.list_access.no_duplicates());
            assert(!after.list_access.contains(after.owner)) by {
                if after.list_access.contains(after.owner) {
                    let k = choose|k: int|
                        0 <= k < after.list_access.len() && after.list_access[k] == after.owner;
                    if k < before.list_access.len() {
                        assert(before.list_access[k] == before.owner);
                    }
                }
            }
            old(self)@.lemma_put(after);
            assert(self@.records =~= old(self)@.put(after).records);
        }
        Ok(())
    }

    /// The listing `cid`, where it can be marked as awaiting the purchase of
    /// `buyer`.  `NotFound` where the listing is unknown; `InvalidState` where
    /// it is private, `buyer` owns it, or a purchase is pending already.
    pub fn reservable(&self, cid: &String, buyer: &String) -> (found: Result<Metadata, MarketError>)
        requires
            self.well_formed(),
        ensures
            match found {
                Ok(m) => {
                    &&& self@.reserve_failure(cid@, buyer@) is None
                    &&& m@ == self@.listing(cid@)
                },
                Err(e) => self@.reserve_failure(cid@, buyer@) == Some(e@),
            },
    {
        let i = match self.find(cid) {
            Some(i) => i,
            None => {
                return Err(MarketError { kind: ErrorKind::NotFound, id: cid.clone() });
            },
        };
        if self.records[i].state != State::Public || self.records[i].owner == *buyer
            || self.records[i].pending_buyer.is_some() {
            return Err(MarketError { kind: ErrorKind::InvalidState, id: cid.clone() });
        }
        Ok(self.records[i].clone())
    }

    /// Marks the listing `cid` as awaiting the purchase of `buyer`.
    /// `NotFound` where the listing is unknown; `InvalidState` where it is
    /// private, `buyer` owns it, or a purchase is pending already.
    pub fn reserve(&mut self, cid: &String, buyer: &String) -> (done: Result<(), MarketError>)
        requires
            old(self).well_formed(),
        ensures
            final(self).well_formed(),
            match done {
                Ok(_) => {
                    &&& old(self)@.reserve_failure(cid@, buyer@) is None
                    &&& final(self)@ == old(self)@.mark(cid@, Some(buyer@))
                },
                Err(e) => {
                    &&& old(self)@.reserve_failure(cid@, buyer@) == Some(e@)
                    &&& final(self)@ == old(self)@
                },
            },
    {
        let i = match self.find(cid) {
            Some(i) => i,
            None => {
                return Err(MarketError { kind: ErrorKind::NotFound, id: cid.clone() });
            },
        };
        if self.records[i].state != State::Public || self.records[i].owner == *buyer
            || self.records[i].pending_buyer.is_some() {
            return Err(MarketError { kind: ErrorKind::InvalidState, id: cid.clone() });
        }
        self.records[i].pending_buyer = Some(buyer.clone());
        proof {
            let after = old(self)@.listing(cid@).pending(Some(buyer@));
            assert(self.records[i as int]@ =~= after);
            old(self)@.lemma_put(after);
            assert(self@.records =~= old(self)@.put(after).records);
        }
        Ok(())
    }

    /// Clears the pending marker of the listing `cid`; `NotFound` where the
    /// listing is unknown.
    pub fn release(&mut self, cid: &String) -> (done: Result<(), MarketError>)
        requires
            old(self).well_formed(),
        ensures
            final(self).well_formed(),
            match done {
                Ok(_) => {
                    &&& old(self)@.contains(cid@)
                    &&& final(self)@ == old(self)@.mark(cid@, None)
                },
                Err(e) => {
                    &&& !old(self)@.contains(cid@)
                    &&& e@ == (Failure { kind: ErrorKind::NotFound, id: cid@ })
                    &&& final(self)@ == old(self)@
                },
            },
    {
        let i = match self.find(cid) {
            Some(i) => i,
            None => {
                return Err(MarketError { kind: ErrorKind::NotFound, id: cid.clone() });
            },
        };
        self.records[i].pending_buyer = None;
        proof {
            let after = old(self)@.listing(cid@).pending(None);
            assert(self.records[i as int]@ =~= after);
            old(self)@.lemma_put(after);
            assert(self@.records =~= old(self)@.put(after).records);
        }
        Ok(())
    }

    /// The listings of `owner`, oldest first.
    pub fn list_by_owner(&self, owner: &String) -> (found: Vec<Metadata>)
        requires
            self.well_formed(),
        ensures
            found.deep_view() == self@.by_owner(owner@),
    {
        let ghost mine = |l: Listing| l.owner == owner@;
        let mut found: Vec<Metadata> = Vec::new();
        let mut i: usize = 0;
        while i < self.records.len()
            invariant
                i <= self.records.len(),
                mine == (|l: Listing| l.owner == owner@),
                found.deep_view() == self@.records.take(i as int).filter(mine),
            decreases self.records.len() - i,
        {
            proof {
                reveal(Seq::filter);
                assert(self@.records.take(i + 1).drop_last() =~= self@.records.take(i as int));
                assert(self@.records.take(i + 1).last() == self.records[i as int]@);
            }
            if self.records[i].owner == *owner {
                found.push(self.records[i].clone());
                assert(found.deep_view() =~= self@.records.take(i as int).filter(mine).push(
                    self.records[i as int]@,
                ));
            }
            i += 1;
        }
        assert(self@.records.take(i as int) =~= self@.records);
        found
    }

    /// The market as `user` sees it: the public listings in the order of their
    /// publication, the one that awaits `user`'s own purchase marked.
    pub fn list_published(&self, user: &String) -> (found: Vec<Metadata>)
        requires
            self.well_formed(),
        ensures
            found.deep_view() == self@.on_market(user@),
    {
        let mut found: Vec<Metadata> = Vec::new();
        let mut k: usize = 0;
        while k < self.published.len()
            invariant
                self.well_formed(),
                k <= self.published.len(),
                found.len() == k,
                forall|j: int|
                    0 <= j < k ==> found[j]@ == self@.listing(self.published[j]@).shown_to(user@),
            decreases self.published.len() - k,
        {
            assert(self@.published[k as int] == self.published[k as int]@);
            let at = self.find(&self.published[k]);
            match at {
                Some(i) => {
                    let mut shown = self.records[i].clone();
                    shown.is_active = match &shown.pending_buyer {
                        Some(b) => *b == *user,
                        None => false,
                    };
                    assert(shown@ =~= self@.listing(self.published[k as int]@).shown_to(user@));
                    found.push(shown);
                },
                None => {},
            }
            k += 1;
        }
        assert(found.deep_view() =~= self@.on_market(user@)) by {
            assert forall|j: int| 0 <= j < found.len() implies found.deep_view()[j]
                == self@.on_market(user@)[j] by {
                assert(self@.published[j] == self.published[j]@);
            }
        }
        found
    }

    /// The accounts that were granted access to the listing `cid`, in the
    /// order of the grants; `None` where the listing is unknown.
    pub fn grantees(&self, cid: &String) -> (found: Option<Vec<String>>)
        requires
            self.well_formed(),
        ensures
            match found {
                Some(names) => {
                    &&& self@.contains(cid@)
                    &&& names.deep_view() == self@.listing(cid@).list_access
                },
                None => !self@.contains(cid@),
            },
    {
        match self.find(cid) {
            Some(i) => Some(clone_names(&self.records[i].list_access)),
            None => None,
        }
    }
}

} // verus!
