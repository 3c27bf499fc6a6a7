//! The access credential store: one credential for each listing and buyer
//! whose purchase was accepted, in the order in which they were issued.

use vstd::prelude::*;
use crate::types::{Credential, DataValue, ErrorKind, Failure, MarketError};

verus! {

/// The credential is the one of `user` for the listing `cid`.
pub open spec fn is_credential(c: Credential, cid: Seq<char>, user: Seq<char>) -> bool {
    c.encrypted_cid == cid && c.user_id == user
}

/// `user` holds a credential for the listing `cid`.
pub open spec fn holds(store: Seq<Credential>, cid: Seq<char>, user: Seq<char>) -> bool {
    exists|i: int| 0 <= i < store.len() && is_credential(#[trigger] store[i], cid, user)
}

/// The credential of `user` for the listing `cid`.
pub open spec fn credential(store: Seq<Credential>, cid: Seq<char>, user: Seq<char>) -> Credential
    recommends
        holds(store, cid, user),
{
    store[choose|i: int| 0 <= i < store.len() && is_credential(#[trigger] store[i], cid, user)]
}

/// No listing and buyer have two credentials.
pub open spec fn one_each(store: Seq<Credential>) -> bool {
    forall|i: int, j: int|
        0 <= i < j < store.len() ==> !is_credential(
            #[trigger] store[j],
            (#[trigger] store[i]).encrypted_cid,
            store[i].user_id,
        )
}

/// A credential was issued for the listing `cid`.
pub open spec fn issued_for(store: Seq<Credential>, cid: Seq<char>) -> bool {
    exists|i: int| 0 <= i < store.len() && (#[trigger] store[i]).encrypted_cid == cid
}

/// `i` is where the credential stands that was issued last for the listing `cid`.
pub open spec fn is_latest(store: Seq<Credential>, cid: Seq<char>, i: int) -> bool {
    &&& 0 <= i < store.len()
    &&& store[i].encrypted_cid == cid
    &&& forall|j: int| i < j < store.len() ==> (#[trigger] store[j]).encrypted_cid != cid
}

/// The credential that was issued last for the listing `cid`.
pub open spec fn latest(store: Seq<Credential>, cid: Seq<char>) -> Credential
    recommends
        issued_for(store, cid),
{
    store[choose|i: int| is_latest(store, cid, i)]
}

/// Why no credential can be issued to `user` for the listing `cid`, if none can.
pub open spec fn issue_failure(store: Seq<Credential>, cid: Seq<char>, user: Seq<char>) -> Option<
    Failure,
> {
    if holds(store, cid, user) {
        Some(Failure { kind: ErrorKind::AlreadyExists, id: cid })
    } else {
        None
    }
}

/// The credentials of `user`, oldest first.
pub open spec fn held_by(store: Seq<Credential>, user: Seq<char>) -> Seq<Credential> {
    store.filter(|c: Credential| c.user_id == user)
}

/// The credential at `i` is the one that its listing and buyer name.
pub proof fn lemma_credential_at(store: Seq<Credential>, i: int)
    requires
        one_each(store),
        0 <= i < store.len(),
    ensures
        holds(store, store[i].encrypted_cid, store[i].user_id),
        credential(store, store[i].encrypted_cid, store[i].user_id) == store[i],
{
    let cid = store[i].encrypted_cid;
    let user = store[i].user_id;
    assert(is_credential(store[i], cid, user));
    let k = choose|k: int| 0 <= k < store.len() && is_credential(#[trigger] store[k], cid, user);
    if k < i {
        assert(!is_credential(store[i], store[k].encrypted_cid, store[k].user_id));
    } else if i < k {
        assert(!is_credential(store[k], store[i].encrypted_cid, store[i].user_id));
    }
}

/// A position that holds a credential for the listing, with none after it,
/// is the position of the latest.
pub proof fn lemma_latest(store: Seq<Credential>, cid: Seq<char>, i: int)
    requires
        is_latest(store, cid, i),
    ensures
        issued_for(store, cid),
        latest(store, cid) == store[i],
{
    let k = choose|k: int| is_latest(store, cid, k);
    assert(is_latest(store, cid, k));
    if k < i {
        assert(store[i].encrypted_cid != cid);
    } else if i < k {
        assert(store[k].encrypted_cid != cid);
    }
}

/// A new credential for a listing and buyer that had none keeps the store
/// one-each, is found again, and leaves every other credential as it was.
pub proof fn lemma_issue(store: Seq<Credential>, fresh: Credential)
    requires
        one_each(store),
        !holds(store, fresh.encrypted_cid, fresh.user_id),
    ensures
        one_each(store.push(fresh)),
        holds(store.push(fresh), fresh.encrypted_cid, fresh.user_id),
        credential(store.push(fresh), fresh.encrypted_cid, fresh.user_id) == fresh,
        forall|cid: Seq<char>, user: Seq<char>|
            !is_credential(fresh, cid, user) ==> holds(store.push(fresh), cid, user) == holds(
                store,
                cid,
                user,
            ),
        forall|cid: Seq<char>, user: Seq<char>|
            holds(store, cid, user) ==> #[trigger] credential(store.push(fresh), cid, user)
                == credential(store, cid, user),
{
    let after = store.push(fresh);
    let n = store.len() as int;
    assert forall|i: int, j: int| 0 <= i < j < after.len() implies !is_credential(
        #[trigger] after[j],
        (#[trigger] after[i]).encrypted_cid,
        after[i].user_id,
    ) by {
        if j == n {
            assert(is_credential(store[i], store[i].encrypted_cid, store[i].user_id));
        } else {
            assert(!is_credential(store[j], store[i].encrypted_cid, store[i].user_id));
        }
    }
    assert(after[n] == fresh);
    lemma_credential_at(after, n);
    assert forall|cid: Seq<char>, user: Seq<char>| !is_credential(fresh, cid, user) implies holds(
        after,
        cid,
        user,
    ) == holds(store, cid, user) by {
        if holds(store, cid, user) {
            let k = choose|k: int|
                0 <= k < store.len() && is_credential(#[trigger] store[k], cid, user);
            assert(is_credential(after[k], cid, user));
        }
        if holds(after, cid, user) {
            let k = choose|k: int|
                0 <= k < after.len() && is_credential(#[trigger] after[k], cid, user);
            assert(is_credential(store[k], cid, user));
        }
    }
    assert forall|cid: Seq<char>, user: Seq<char>| holds(store, cid, user) implies
        #[trigger] credential(after, cid, user) == credential(store, cid, user) by {
        let k = choose|k: int|
            0 <= k < store.len() && is_credential(#[trigger] store[k], cid, user);
        assert(after[k] == store[k]);
        lemma_credential_at(after, k);
    }
}

/// The credentials that were issued.
pub struct CredentialStore {
    issued: Vec<DataValue>,
}

impl View for CredentialStore {
    type V = Seq<Credential>;

    closed spec fn view(&self) -> Seq<Credential> {
        self.issued.deep_view()
    }
}

impl CredentialStore {
    /// No listing and buyer have two credentials.
    pub open spec fn well_formed(&self) -> bool {
        one_each(self@)
    }

    /// A store without credentials.
    pub fn new() -> (store: CredentialStore)
        ensures
            store.well_formed(),
            store@ == Seq::<Credential>::empty(),
    {
        let store = CredentialStore { issued: Vec::new() };
        assert(store@ =~= Seq::<Credential>::empty());
        store
    }

    /// The store that holds the credentials `issued`, oldest first, where
    /// no listing and buyer have two of them.
    pub fn from_issued(issued: Vec<DataValue>) -> (store: Option<CredentialStore>)
        ensures
            match store {
                Some(s) => {
                    &&& s.well_formed()
                    &&& s@ == issued.deep_view()
                },
                None => !one_each(issued.deep_view()),
            },
    {
        let store = CredentialStore { issued };
        let mut i: usize = 0;
        while i < store.issued.len()
            invariant
                store@ == issued.deep_view(),
                i <= store.issued.len(),
                forall|a: int, b: int|
                    0 <= a < b < store.issued.len() && a < i ==> !is_credential(
                        #[trigger] store@[b],
                        (#[trigger] store@[a]).encrypted_cid,
                        store@[a].user_id,
                    ),
            decreases store.issued.len() - i,
        {
            let mut j: usize = i + 1;
            while j < store.issued.len()
                invariant
                    store@ == issued.deep_view(),
                    i < j <= store.issued.len(),
                    forall|b: int|
                        i < b < j ==> !is_credential(
                            #[trigger] store@[b],
                            store@[i as int].encrypted_cid,
                            store@[i as int].user_id,
                        ),
                decreases store.issued.len() - j,
            {
                assert(store@[i as int] == store.issued[i as int]@);
                assert(store@[j as int] == store.issued[j as int]@);
                if store.issued[i].encrypted_cid == store.issued[j].encrypted_cid
                    && store.issued[i].user_id == store.issued[j].user_id {
                    assert(is_credential(
                        store@[j as int],
                        store@[i as int].encrypted_cid,
                        store@[i as int].user_id,
                    ));
                    return None;
                }
                j += 1;
            }
            i += 1;
        }
        Some(store)
    }

    /// The credentials, oldest first.
    pub fn issued(&self) -> (issued: Vec<DataValue>)
        ensures
            issued.deep_view() == self@,
    {
        let mut issued: Vec<DataValue> = Vec::new();
        let mut i: usize = 0;
        while i < self.issued.len()
            invariant
                i <= self.issued.len(),
                issued.len() == i,
                forall|j: int| 0 <= j < i ==> issued[j]@ == self.issued[j]@,
            decreases self.issued.len() - i,
        {
            issued.push(self.issued[i].clone());
            i += 1;
        }
        assert(issued.deep_view() =~= self@);
        issued
    }

    /// The credential of `user` for the listing `cid`, if there is one.
    pub fn find(&self, cid: &String, user: &String) -> (found: Option<DataValue>)
        requires
            self.well_formed(),
        ensures
            match found {
                Some(c) => {
                    &&& holds(self@, cid@, user@)
                    &&& c@ == credential(self@, cid@, user@)
                },
                None => !holds(self@, cid@, user@),
            },
    {
        let mut i: usize = 0;
        while i < self.issued.len()
            invariant
                self.well_formed(),
                i <= self.issued.len(),
                forall|j: int| 0 <= j < i ==> !is_credential(#[trigger] self@[j], cid@, user@),
            decreases self.issued.len() - i,
        {
            assert(self@[i as int] == self.issued[i as int]@);
            if self.issued[i].encrypted_cid == *cid && self.issued[i].user_id == *user {
                proof {
                    lemma_credential_at(self@, i as int);
                }
                return Some(self.issued[i].clone());
            }
            i += 1;
        }
        None
    }

    /// The credential that was issued last for the listing `cid`, if any was.
    pub fn latest_for(&self, cid: &String) -> (found: Option<DataValue>)
        ensures
            match found {
                Some(c) => {
                    &&& issued_for(self@, cid@)
                    &&& c@ == latest(self@, cid@)
                },
                None => !issued_for(self@, cid@),
            },
    {
        let mut i: usize = self.issued.len();
        while i > 0
            invariant
                i <= self.issued.len(),
                forall|j: int| i <= j < self.issued.len() ==> (#[trigger] self@[j]).encrypted_cid
                    != cid@,
            decreases i,
        {
            i -= 1;
            assert(self@[i as int] == self.issued[i as int]@);
            if self.issued[i].encrypted_cid == *cid {
                proof {
                    lemma_latest(self@, cid@, i as int);
                }
                return Some(self.issued[i].clone());
            }
        }
        None
    }

    /// Issues the credential of `user` for the listing `cid`.  A listing and
    /// buyer get one credential: `AlreadyExists` where they have it.
    pub fn issue(
        &mut self,
        cid: &String,
        user: &String,
        access_key: &String,
        pub_key: &String,
    ) -> (done: Result<(), MarketError>)
        requires
            old(self).well_formed(),
        ensures
            final(self).well_formed(),
            match done {
                Ok(_) => {
                    &&& issue_failure(old(self)@, cid@, user@) is None
                    &&& final(self)@ == old(self)@.push(Credential { user_id: user@, encrypted_cid: cid@, key_cid: access_key@, pub_key: pub_key@ })
                },
                Err(e) => {
                    &&& issue_failure(old(self)@, cid@, user@) == Some(e@)
                    &&& final(self)@ == old(self)@
                },
            },
    {
        if self.find(cid, user).is_some() {
            return Err(MarketError { kind: ErrorKind::AlreadyExists, id: cid.clone() });
        }
        let ghost fresh = Credential {
            user_id: user@,
            encrypted_cid: cid@,
            key_cid: access_key@,
            pub_key: pub_key@,
        };
        self.issued.push(
            DataValue {
                user_id: user.clone(),
                encrypted_cid: cid.clone(),
                key_cid: access_key.clone(),
                pub_key: pub_key.clone(),
            },
        );
        proof {
            assert(self@ =~= old(self)@.push(fresh));
            lemma_issue(old(self)@, fresh);
        }
        Ok(())
    }

    /// The credentials of `user`, oldest first.
    pub fn list_for(&self, user: &String) -> (found: Vec<DataValue>)
        ensures
            found.deep_view() == held_by(self@, user@),
    {
        let ghost theirs = |c: Credential| c.user_id == user@;
        let mut found: Vec<DataValue> = Vec::new();
        let mut i: usize = 0;
        while i < self.issued.len()
            invariant
                i <= self.issued.len(),
                theirs == (|c: Credential| c.user_id == user@),
                found.deep_view() == self@.take(i as int).filter(theirs),
            decreases self.issued.len() - i,
        {
            proof {
                reveal(Seq::filter);
                assert(self@.take(i + 1).drop_last() =~= self@.take(i as int));
                assert(self@.take(i + 1).last() == self.issued[i as int]@);
            }
            if self.issued[i].user_id == *user {
                found.push(self.issued[i].clone());
                assert(found.deep_view() =~= self@.take(i as int).filter(theirs).push(
                    self.issued[i as int]@,
                ));
            }
            i += 1;
        }
        assert(self@.take(i as int) =~= self@);
        found
    }
}

} // verus!
