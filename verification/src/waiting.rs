//! The waiting queue: purchases that await the decision of a listing's
//! owner, in the order in which they arrived.

use vstd::prelude::*;
use crate::types::{ErrorKind, Failure, MarketError, Waiting, WaitingEntry};

verus! {

/// The entry is the purchase of the listing `cid` by `buyer`, queued under `owner`.
pub open spec fn is_entry(
    entry: Waiting,
    owner: Seq<char>,
    buyer: Seq<char>,
    cid: Seq<char>,
) -> bool {
    entry.owner == owner && entry.buyer == buyer && entry.cid_encrypted == cid
}

/// The queue holds the purchase of the listing `cid` by `buyer` under `owner`.
pub open spec fn has_entry(
    queue: Seq<Waiting>,
    owner: Seq<char>,
    buyer: Seq<char>,
    cid: Seq<char>,
) -> bool {
    exists|i: int| 0 <= i < queue.len() && is_entry(#[trigger] queue[i], owner, buyer, cid)
}

/// `i` is where the first such purchase stands in the queue.
pub open spec fn is_first_entry(
    queue: Seq<Waiting>,
    owner: Seq<char>,
    buyer: Seq<char>,
    cid: Seq<char>,
    i: int,
) -> bool {
    &&& 0 <= i < queue.len()
    &&& is_entry(queue[i], owner, buyer, cid)
    &&& forall|j: int| 0 <= j < i ==> !is_entry(#[trigger] queue[j], owner, buyer, cid)
}

/// Where the first such purchase stands in the queue.
pub open spec fn first_entry(
    queue: Seq<Waiting>,
    owner: Seq<char>,
    buyer: Seq<char>,
    cid: Seq<char>,
) -> int {
    choose|i: int| is_first_entry(queue, owner, buyer, cid, i)
}

/// The queue without the first such purchase.
pub open spec fn without_entry(
    queue: Seq<Waiting>,
    owner: Seq<char>,
    buyer: Seq<char>,
    cid: Seq<char>,
) -> Seq<Waiting> {
    queue.remove(first_entry(queue, owner, buyer, cid))
}

/// The purchases that await the decision of `owner`, oldest first.
pub open spec fn queue_of(queue: Seq<Waiting>, owner: Seq<char>) -> Seq<Waiting> {
    queue.filter(|e: Waiting| e.owner == owner)
}

/// A position that holds a matching entry, with none before it, is the
/// position of the first matching entry.
pub proof fn lemma_first_entry(
    queue: Seq<Waiting>,
    owner: Seq<char>,
    buyer: Seq<char>,
    cid: Seq<char>,
    i: int,
)
    requires
        is_first_entry(queue, owner, buyer, cid, i),
    ensures
        has_entry(queue, owner, buyer, cid),
        first_entry(queue, owner, buyer, cid) == i,
{
    let k = first_entry(queue, owner, buyer, cid);
    assert(is_first_entry(queue, owner, buyer, cid, k));
    if k < i {
        assert(!is_entry(queue[k], owner, buyer, cid));
    } else if i < k {
        assert(!is_entry(queue[i], owner, buyer, cid));
    }
}

/// Purchases that await a decision.
pub struct WaitingQueue {
    entries: Vec<WaitingEntry>,
}

impl View for WaitingQueue {
    type V = Seq<Waiting>;

    closed spec fn view(&self) -> Seq<Waiting> {
        self.entries.deep_view()
    }
}

impl WaitingQueue {
    /// A queue without entries.
    pub fn new() -> (queue: WaitingQueue)
        ensures
            queue@ == Seq::<Waiting>::empty(),
    {
        let queue = WaitingQueue { entries: Vec::new() };
        assert(queue@ =~= Seq::<Waiting>::empty());
        queue
    }

    /// The queue that holds `entries`, oldest first.
    pub fn from_entries(entries: Vec<WaitingEntry>) -> (queue: WaitingQueue)
        ensures
            queue@ == entries.deep_view(),
    {
        WaitingQueue { entries }
    }

    /// The entries of the queue, oldest first.
    pub fn entries(&self) -> (entries: Vec<WaitingEntry>)
        ensures
            entries.deep_view() == self@,
    {
        let mut entries: Vec<WaitingEntry> = Vec::new();
        let mut i: usize = 0;
        while i < self.entries.len()
            invariant
                i <= self.entries.len(),
                entries.len() == i,
                forall|j: int| 0 <= j < i ==> entries[j]@ == self.entries[j]@,
            decreases self.entries.len() - i,
        {
            entries.push(self.entries[i].clone());
            i += 1;
        }
        assert(entries.deep_view() =~= self@);
        entries
    }

    /// Appends the purchase of the listing `cid` by `buyer` to the queue of `owner`.
    pub fn enqueue(&mut self, owner: &String, buyer: &String, cid: &String, pub_key: &String)
        ensures
            final(self)@ == old(self)@.push(
                Waiting { owner: owner@, buyer: buyer@, cid_encrypted: cid@, pub_key: pub_key@ },
            ),
    {
        self.entries.push(
            WaitingEntry {
                owner: owner.clone(),
                buyer: buyer.clone(),
                cid_encrypted: cid.clone(),
                pub_key: pub_key.clone(),
            },
        );
        assert(self@ =~= old(self)@.push(
            Waiting { owner: owner@, buyer: buyer@, cid_encrypted: cid@, pub_key: pub_key@ },
        ));
    }

    /// Takes the purchase of the listing `cid` by `buyer` out of the queue of
    /// `owner` and returns it.  Where there are several, the oldest leaves.
    /// Where there is none, nothing leaves: the queue stays as it was and
    /// the answer is `NotFound`.
    pub fn remove(
        &mut self,
        owner: &String,
        buyer: &String,
        cid: &String,
    ) -> (taken: Result<WaitingEntry, MarketError>)
        ensures
            match taken {
                Ok(entry) => {
                    &&& has_entry(old(self)@, owner@, buyer@, cid@)
                    &&& entry@ == old(self)@[first_entry(old(self)@, owner@, buyer@, cid@)]
                    &&& final(self)@ == without_entry(old(self)@, owner@, buyer@, cid@)
                },
                Err(e) => {
                    &&& !has_entry(old(self)@, owner@, buyer@, cid@)
                    &&& e@ == (Failure { kind: ErrorKind::NotFound, id: buyer@ })
                    &&& final(self)@ == old(self)@
                },
            },
    {
        let mut i: usize = 0;
        while i < self.entries.len()
            invariant
                *self == *old(self),
                i <= self.entries.len(),
                forall|j: int| 0 <= j < i ==> !is_entry(#[trigger] self@[j], owner@, buyer@, cid@),
            decreases self.entries.len() - i,
        {
            assert(self@[i as int] == self.entries[i as int]@);
            if self.entries[i].owner == *owner && self.entries[i].buyer == *buyer
                && self.entries[i].cid_encrypted == *cid {
                proof {
                    lemma_first_entry(self@, owner@, buyer@, cid@, i as int);
                }
                let entry = self.entries.remove(i);
                assert(self@ =~= old(self)@.remove(i as int));
                return Ok(entry);
            }
            i += 1;
        }
        Err(MarketError { kind: ErrorKind::NotFound, id: buyer.clone() })
    }

    /// The purchases that await the decision of `owner`, oldest first.
    pub fn list_for(&self, owner: &String) -> (found: Vec<WaitingEntry>)
        ensures
            found.deep_view() == queue_of(self@, owner@),
    {
        let ghost theirs = |e: Waiting| e.owner == owner@;
        let mut found: Vec<WaitingEntry> = Vec::new();
        let mut i: usize = 0;
        while i < self.entries.len()
            invariant
                i <= self.entries.len(),
                theirs == (|e: Waiting| e.owner == owner@),
                found.deep_view() == self@.take(i as int).filter(theirs),
            decreases self.entries.len() - i,
        {
            proof {
                reveal(Seq::filter);
                assert(self@.take(i + 1).drop_last() =~= self@.take(i as int));
                assert(self@.take(i + 1).last() == self.entries[i as int]@);
            }
            if self.entries[i].owner == *owner {
                found.push(self.entries[i].clone());
                assert(found.deep_view() =~= self@.take(i as int).filter(theirs).push(
                    self.entries[i as int]@,
                ));
            }
            i += 1;
        }
        assert(self@.take(i as int) =~= self@);
        found
    }
}

} // verus!
