//! The balance ledger: what the marketplace believes each account holds.
//!
//! The balances are a local record of what the token ledger service holds.
//! They decide whether a purchase is admitted; they never move funds.

use vstd::prelude::*;
use crate::types::{clone_names, distinct_names, ErrorKind, Failure, MarketError};

verus! {

/// The balance recorded for `account`, where the account is known.
pub open spec fn balance_in(balances: Map<Seq<char>, u128>, account: Seq<char>) -> Option<u128> {
    if balances.contains_key(account) {
        Some(balances[account])
    } else {
        None
    }
}

/// Why a transfer of `amount` from `sender` to `receiver` is refused, if it is.
///
/// The sender has to be known and to hold `amount`; the receiver's balance
/// has to stay within `u128`.
pub open spec fn transfer_failure(
    balances: Map<Seq<char>, u128>,
    sender: Seq<char>,
    receiver: Seq<char>,
    amount: u128,
) -> Option<Failure> {
    if !balances.contains_key(sender) {
        Some(Failure { kind: ErrorKind::NotFound, id: sender })
    } else if balances[sender] < amount {
        Some(Failure { kind: ErrorKind::InsufficientFunds, id: sender })
    } else if sender != receiver && balances.contains_key(receiver) && balances[receiver] + amount
        > u128::MAX {
        Some(Failure { kind: ErrorKind::InvalidState, id: receiver })
    } else {
        None
    }
}

/// The balances after `amount` has moved from `sender` to `receiver`.
///
/// A receiver that was unknown becomes known and holds `amount`.
pub open spec fn transferred(
    balances: Map<Seq<char>, u128>,
    sender: Seq<char>,
    receiver: Seq<char>,
    amount: u128,
) -> Map<Seq<char>, u128> {
    if sender == receiver {
        balances
    } else {
        let credit = if balances.contains_key(receiver) {
            balances[receiver]
        } else {
            0
        };
        balances.insert(sender, (balances[sender] - amount) as u128).insert(
            receiver,
            (credit + amount) as u128,
        )
    }
}

/// The balances that two lists of equal length stand for: each account of
/// the first with the balance that has its place in the second.
pub open spec fn balances_of(accounts: Seq<Seq<char>>, balances: Seq<u128>) -> Map<
    Seq<char>,
    u128,
> {
    Map::new(
        |a: Seq<char>| accounts.contains(a),
        |a: Seq<char>| balances[accounts.index_of(a)],
    )
}

/// Two lists that stand for balances: of equal length, no account twice.
pub open spec fn balances_listed(accounts: Seq<Seq<char>>, balances: Seq<u128>) -> bool {
    accounts.len() == balances.len() && accounts.no_duplicates()
}

/// Balances by account.
pub struct Ledger {
    accounts: Vec<String>,
    balances: Vec<u128>,
}

impl View for Ledger {
    type V = Map<Seq<char>, u128>;

    closed spec fn view(&self) -> Map<Seq<char>, u128> {
        Map::new(|a: Seq<char>| self.knows(a), |a: Seq<char>| self.balances[self.slot(a)])
    }
}

impl Ledger {
    spec fn knows(&self, account: Seq<char>) -> bool {
        exists|i: int| 0 <= i < self.accounts.len() && #[trigger] self.accounts[i]@ == account
    }

    spec fn slot(&self, account: Seq<char>) -> int {
        choose|i: int| 0 <= i < self.accounts.len() && #[trigger] self.accounts[i]@ == account
    }

    /// Every account has one balance.
    pub closed spec fn well_formed(&self) -> bool {
        &&& self.accounts.len() == self.balances.len()
        &&& forall|i: int, j: int|
            0 <= i < j < self.accounts.len() ==> #[trigger] self.accounts[i]@
                != #[trigger] self.accounts[j]@
    }

    proof fn lemma_slot(&self, i: int)
        requires
            self.well_formed(),
            0 <= i < self.accounts.len(),
        ensures
            self.knows(self.accounts[i]@),
            self.slot(self.accounts[i]@) == i,
            self@.contains_key(self.accounts[i]@),
            self@[self.accounts[i]@] == self.balances[i],
    {
        let a = self.accounts[i]@;
        let k = self.slot(a);
        assert(self.accounts[k]@ == a);
        if k < i {
            assert(self.accounts[k]@ != self.accounts[i]@);
        } else if i < k {
            assert(self.accounts[i]@ != self.accounts[k]@);
        }
    }

    proof fn lemma_listed(&self)
        requires
            self.well_formed(),
        ensures
            balances_listed(self.accounts.deep_view(), self.balances@),
            self@ == balances_of(self.accounts.deep_view(), self.balances@),
    {
        let names = self.accounts.deep_view();
        assert forall|i: int, j: int| 0 <= i < names.len() && 0 <= j < names.len() && i
            != j implies names[i] != names[j] by {
            if i < j {
                assert(self.accounts[i]@ != self.accounts[j]@);
            } else {
                assert(self.accounts[j]@ != self.accounts[i]@);
            }
        }
        let listed = balances_of(names, self.balances@);
        assert forall|a: Seq<char>| self.knows(a) == names.contains(a) by {
            if self.knows(a) {
                assert(names[self.slot(a)] == a);
            }
            if names.contains(a) {
                assert(self.accounts[names.index_of(a)]@ == a);
            }
        }
        assert forall|a: Seq<char>| self.knows(a) implies #[trigger] self@[a] == listed[a] by {
            let k = names.index_of(a);
            assert(self.accounts[k]@ == a);
            self.lemma_slot(k);
        }
        assert(self@ =~= listed);
    }

    /// The ledger that two lists stand for, where they stand for one: where
    /// they are of equal length and name no account twice.
    pub fn from_parts(accounts: Vec<String>, balances: Vec<u128>) -> (ledger: Option<Ledger>)
        ensures
            match ledger {
                Some(l) => {
                    &&& balances_listed(accounts.deep_view(), balances@)
                    &&& l.well_formed()
                    &&& l@ == balances_of(accounts.deep_view(), balances@)
                },
                None => !balances_listed(accounts.deep_view(), balances@),
            },
    {
        if accounts.len() != balances.len() || !distinct_names(&accounts) {
            return None;
        }
        let ledger = Ledger { accounts, balances };
        proof {
            assert forall|i: int, j: int| 0 <= i < j < ledger.accounts.len() implies
                #[trigger] ledger.accounts[i]@ != #[trigger] ledger.accounts[j]@ by {
                assert(accounts.deep_view()[i] == accounts[i]@);
                assert(accounts.deep_view()[j] == accounts[j]@);
            }
            ledger.lemma_listed();
        }
        Some(ledger)
    }

    /// The accounts and their balances, as two lists that stand for the ledger.
    pub fn parts(&self) -> (lists: (Vec<String>, Vec<u128>))
        requires
            self.well_formed(),
        ensures
            balances_listed(lists.0.deep_view(), lists.1@),
            self@ == balances_of(lists.0.deep_view(), lists.1@),
    {
        proof {
            self.lemma_listed();
        }
        (clone_names(&self.accounts), self.balances.clone())
    }

    /// A ledger that knows no account.
    pub fn new() -> (ledger: Ledger)
        ensures
            ledger.well_formed(),
            ledger@ == Map::<Seq<char>, u128>::empty(),
    {
        let ledger = Ledger { accounts: Vec::new(), balances: Vec::new() };
        assert(ledger@ =~= Map::<Seq<char>, u128>::empty());
        ledger
    }

    fn find(&self, account: &String) -> (at: Option<usize>)
        requires
            self.well_formed(),
        ensures
            match at {
                Some(i) => {
                    &&& i < self.accounts.len()
                    &&& self.accounts[i as int]@ == account@
                },
                None => !self.knows(account@),
            },
    {
        let mut i: usize = 0;
        while i < self.accounts.len()
            invariant
                i <= self.accounts.len(),
                forall|j: int| 0 <= j < i ==> self.accounts[j]@ != account@,
            decreases self.accounts.len() - i,
        {
            if self.accounts[i] == *account {
                return Some(i);
            }
            i += 1;
        }
        None
    }

    /// The balance recorded for `account`; `None` for an account that never
    /// registered, which is not the same as a balance of zero.
    pub fn balance_of(&self, account: &String) -> (balance: Option<u128>)
        requires
            self.well_formed(),
        ensures
            balance == balance_in(self@, account@),
    {
        match self.find(account) {
            Some(i) => {
                proof {
                    self.lemma_slot(i as int);
                }
                Some(self.balances[i])
            },
            None => None,
        }
    }

    /// Records `balance` for `account`, known or not.
    pub fn set(&mut self, account: &String, balance: u128)
        requires
            old(self).well_formed(),
        ensures
            final(self).well_formed(),
            final(self)@ == old(self)@.insert(account@, balance),
    {
        match self.find(account) {
            Some(i) => {
                self.balances.set(i, balance);
                proof {
                    assert forall|a: Seq<char>| self.knows(a) == old(self).knows(a) by {
                        if old(self).knows(a) {
                            assert(self.accounts[old(self).slot(a)]@ == a);
                        }
                        if self.knows(a) {
                            assert(old(self).accounts[self.slot(a)]@ == a);
                        }
                    }
                    assert forall|a: Seq<char>| self.knows(a) implies #[trigger] self@[a] == old(self)@.insert(account@, balance)[a] by {
                        let k = self.slot(a);
                        self.lemma_slot(k);
                        old(self).lemma_slot(k);
                        self.lemma_slot(i as int);
                    }
                    old(self).lemma_slot(i as int);
                    assert(self@ =~= old(self)@.insert(account@, balance));
                }
            },
            None => {
                self.accounts.push(account.clone());
                self.balances.push(balance);
                proof {
                    let n = old(self).accounts.len() as int;
                    assert forall|i: int, j: int| 0 <= i < j < self.accounts.len() implies
                        #[trigger] self.accounts[i]@ != #[trigger] self.accounts[j]@ by {
                        if j == n {
                            assert(old(self).accounts[i]@ == self.accounts[i]@);
                        } else {
                            assert(old(self).accounts[i]@ != old(self).accounts[j]@);
                        }
                    }
                    assert(self.accounts[n]@ == account@);
                    self.lemma_slot(n);
                    assert forall|a: Seq<char>| self.knows(a) == (old(self).knows(a) || a
                        == account@) by {
                        if old(self).knows(a) {
                            assert(self.accounts[old(self).slot(a)]@ == a);
                        }
                        if self.knows(a) && a != account@ {
                            assert(old(self).accounts[self.slot(a)]@ == a);
                        }
                    }
                    assert forall|a: Seq<char>| self.knows(a) implies #[trigger] self@[a] == old(self)@.insert(account@, balance)[a] by {
                        let k = self.slot(a);
                        self.lemma_slot(k);
                        if k < n {
                            old(self).lemma_slot(k);
                        }
                    }
                    assert(self@ =~= old(self)@.insert(account@, balance));
                }
            },
        }
    }

    /// Makes `account` known, with a balance of zero.  An account that was
    /// known starts again from zero.
    pub fn register(&mut self, account: &String)
        requires
            old(self).well_formed(),
        ensures
            final(self).well_formed(),
            final(self)@ == old(self)@.insert(account@, 0u128),
    {
        self.set(account, 0);
    }

    /// Moves `amount` from `sender` to `receiver`, or changes nothing and
    /// says why not.
    pub fn apply_transfer(
        &mut self,
        sender: &String,
        receiver: &String,
        amount: u128,
    ) -> (done: Result<(), MarketError>)
        requires
            old(self).well_formed(),
        ensures
            final(self).well_formed(),
            match done {
                Ok(_) => {
                    &&& transfer_failure(old(self)@, sender@, receiver@, amount) is None
                    &&& final(self)@ == transferred(old(self)@, sender@, receiver@, amount)
                },
                Err(e) => {
                    &&& transfer_failure(old(self)@, sender@, receiver@, amount) == Some(e@)
                    &&& final(self)@ == old(self)@
                },
            },
    {
        let held = match self.balance_of(sender) {
            Some(b) => b,
            None => {
                return Err(MarketError { kind: ErrorKind::NotFound, id: sender.clone() });
            },
        };
        if held < amount {
            return Err(MarketError { kind: ErrorKind::InsufficientFunds, id: sender.clone() });
        }
        if *sender == *receiver {
            return Ok(());
        }
        let credit = match self.balance_of(receiver) {
            Some(b) => b,
            None => 0,
        };
        if credit > u128::MAX - amount {
            return Err(MarketError { kind: ErrorKind::InvalidState, id: receiver.clone() });
        }
        self.set(sender, held - amount);
        self.set(receiver, credit + amount);
        Ok(())
    }
}

} // verus!
