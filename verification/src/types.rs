//! Plain data of the marketplace: listings, credentials, queue entries,
//! transfer requests and errors, each with its mathematical view.

use vstd::prelude::*;

verus! {

/// Name of an account on the chain.
pub type AccountId = String;

/// Identifier of an encrypted data object.
pub type ECID = String;

/// Reference to the key that decrypts a data object.
pub type DecryptedKey = String;

/// Amount of tokens.
pub type Balance = u128;

/// Number of ledger base units in one token.
pub const ONE_NEAR: u128 = 1_000_000_000_000_000_000_000_000;

/// What the ledger service asks to be attached to a transfer request.
pub const TRANSFER_DEPOSIT: u128 = 1;

/// What the ledger service asks to be attached to a registration.
pub const REGISTRATION_DEPOSIT: u128 = 10_000_000_000_000_000_000_000;

/// Visibility of a listing.
#[derive(Clone, Copy, Debug, PartialEq, Eq, Structural)]
pub enum State {
    Private,
    Public,
}

/// The kinds of failure an operation can report.
#[derive(Clone, Copy, Debug, PartialEq, Eq, Structural)]
pub enum ErrorKind {
    /// An unknown listing, account or queue entry.
    NotFound,
    /// A listing id or a credential that is already there.
    AlreadyExists,
    /// The caller may not perform the operation, or holds no such credential.
    Unauthorized,
    /// The buyer's recorded balance does not cover the amount.
    InsufficientFunds,
    /// The operation does not fit the state of the listing or account.
    InvalidState,
}

/// A failure: its kind and the identifier that caused it.
#[derive(Debug, PartialEq, Eq)]
pub struct MarketError {
    pub kind: ErrorKind,
    pub id: String,
}

/// Mathematical value of a [`MarketError`].
pub struct Failure {
    pub kind: ErrorKind,
    pub id: Seq<char>,
}

impl View for MarketError {
    type V = Failure;

    open spec fn view(&self) -> Failure {
        Failure { kind: self.kind, id: self.id@ }
    }
}

/// A record of the listing catalog.
#[derive(Debug, PartialEq, Eq)]
pub struct Metadata {
    pub state: State,
    pub title: String,
    pub tags: String,
    pub owner: AccountId,
    pub cid_encrypted: ECID,
    pub price: Balance,
    pub size: String,
    /// Accounts that were granted access, in the order of the grants.
    pub list_access: Vec<AccountId>,
    /// The buyer whose purchase awaits a settlement decision.
    pub pending_buyer: Option<AccountId>,
    /// Set only in a snapshot handed to the account whose purchase is pending.
    pub is_active: bool,
}

/// Mathematical value of a [`Metadata`].
#[verifier::ext_equal]
pub struct Listing {
    pub state: State,
    pub title: Seq<char>,
    pub tags: Seq<char>,
    pub owner: Seq<char>,
    pub cid_encrypted: Seq<char>,
    pub price: u128,
    pub size: Seq<char>,
    pub list_access: Seq<Seq<char>>,
    pub pending_buyer: Option<Seq<char>>,
    pub is_active: bool,
}

/// View of an optional name.
pub open spec fn name_view(name: Option<String>) -> Option<Seq<char>> {
    match name {
        Some(n) => Some(n@),
        None => None,
    }
}

impl View for Metadata {
    type V = Listing;

    open spec fn view(&self) -> Listing {
        Listing {
            state: self.state,
            title: self.title@,
            tags: self.tags@,
            owner: self.owner@,
            cid_encrypted: self.cid_encrypted@,
            price: self.price,
            size: self.size@,
            list_access: self.list_access.deep_view(),
            pending_buyer: name_view(self.pending_buyer),
            is_active: self.is_active,
        }
    }
}

impl DeepView for Metadata {
    type V = Listing;

    open spec fn deep_view(&self) -> Listing {
        self@
    }
}

impl Listing {
    /// A freshly created listing: private, free, without grantees.
    pub open spec fn fresh(
        owner: Seq<char>,
        title: Seq<char>,
        tags: Seq<char>,
        cid: Seq<char>,
        size: Seq<char>,
    ) -> Listing {
        Listing {
            state: State::Private,
            title,
            tags,
            owner,
            cid_encrypted: cid,
            price: 0,
            size,
            list_access: Seq::empty(),
            pending_buyer: None,
            is_active: false,
        }
    }

    /// The listing with `account` among its grantees.
    pub open spec fn granted(self, account: Seq<char>) -> Listing {
        Listing { list_access: self.list_access.push(account), ..self }
    }

    /// The listing made public at `price`.
    pub open spec fn published(self, price: u128) -> Listing {
        Listing { state: State::Public, price, ..self }
    }

    /// The listing with its pending marker set to `buyer`.
    pub open spec fn pending(self, buyer: Option<Seq<char>>) -> Listing {
        Listing { pending_buyer: buyer, ..self }
    }

    /// The listing as shown to `user`: marked when `user`'s purchase is pending.
    pub open spec fn shown_to(self, user: Seq<char>) -> Listing {
        Listing { is_active: self.pending_buyer == Some(user), ..self }
    }

    /// `account` may read the data: it is the owner or a grantee.
    pub open spec fn admits(self, account: Seq<char>) -> bool {
        self.owner == account || self.list_access.contains(account)
    }

    /// What every stored listing satisfies.
    pub open spec fn well_formed(self) -> bool {
        &&& !self.is_active
        &&& self.state == State::Private ==> self.price == 0 && self.pending_buyer is None
        &&& !self.list_access.contains(self.owner)
        &&& self.list_access.no_duplicates()
        &&& self.pending_buyer != Some(self.owner)
    }
}

/// An access credential: what a buyer needs to decrypt a data object.
#[derive(Debug, PartialEq, Eq)]
pub struct DataValue {
    pub user_id: String,
    pub encrypted_cid: ECID,
    pub key_cid: DecryptedKey,
    pub pub_key: String,
}

/// Mathematical value of a [`DataValue`].
#[verifier::ext_equal]
pub struct Credential {
    pub user_id: Seq<char>,
    pub encrypted_cid: Seq<char>,
    pub key_cid: Seq<char>,
    pub pub_key: Seq<char>,
}

impl View for DataValue {
    type V = Credential;

    open spec fn view(&self) -> Credential {
        Credential {
            user_id: self.user_id@,
            encrypted_cid: self.encrypted_cid@,
            key_cid: self.key_cid@,
            pub_key: self.pub_key@,
        }
    }
}

impl DeepView for DataValue {
    type V = Credential;

    open spec fn deep_view(&self) -> Credential {
        self@
    }
}

/// A purchase that awaits the decision of the listing's owner.
#[derive(Debug, PartialEq, Eq)]
pub struct WaitingEntry {
    pub owner: AccountId,
    pub buyer: AccountId,
    pub cid_encrypted: ECID,
    pub pub_key: String,
}

/// Mathematical value of a [`WaitingEntry`].
#[verifier::ext_equal]
pub struct Waiting {
    pub owner: Seq<char>,
    pub buyer: Seq<char>,
    pub cid_encrypted: Seq<char>,
    pub pub_key: Seq<char>,
}

impl View for WaitingEntry {
    type V = Waiting;

    open spec fn view(&self) -> Waiting {
        Waiting {
            owner: self.owner@,
            buyer: self.buyer@,
            cid_encrypted: self.cid_encrypted@,
            pub_key: self.pub_key@,
        }
    }
}

impl DeepView for WaitingEntry {
    type V = Waiting;

    open spec fn deep_view(&self) -> Waiting {
        self@
    }
}

/// A transfer for the token ledger service to carry out.
#[derive(Debug, PartialEq, Eq)]
pub struct TransferRequest {
    /// Account of the ledger service that is asked.
    pub ledger: AccountId,
    pub sender: AccountId,
    pub receiver: AccountId,
    /// The amount in whole tokens; [`yocto_amount`] gives it in the base
    /// units that the ledger service counts in.
    pub amount: Balance,
    pub memo: String,
    /// What has to be attached to the request, in base units.
    pub deposit: Balance,
}

/// Mathematical value of a [`TransferRequest`].
#[verifier::ext_equal]
pub struct Transfer {
    pub ledger: Seq<char>,
    pub sender: Seq<char>,
    pub receiver: Seq<char>,
    pub amount: u128,
    pub memo: Seq<char>,
    pub deposit: u128,
}

impl View for TransferRequest {
    type V = Transfer;

    open spec fn view(&self) -> Transfer {
        Transfer {
            ledger: self.ledger@,
            sender: self.sender@,
            receiver: self.receiver@,
            amount: self.amount,
            memo: self.memo@,
            deposit: self.deposit,
        }
    }
}

/// The registration of an account for the token ledger service to carry out.
#[derive(Debug, PartialEq, Eq)]
pub struct RegistrationRequest {
    /// Account of the ledger service that is asked.
    pub ledger: AccountId,
    pub account: AccountId,
    /// What has to be attached to the request, in base units.
    pub deposit: Balance,
}

/// Mathematical value of a [`RegistrationRequest`].
#[verifier::ext_equal]
pub struct Registration {
    pub ledger: Seq<char>,
    pub account: Seq<char>,
    pub deposit: u128,
}

impl View for RegistrationRequest {
    type V = Registration;

    open spec fn view(&self) -> Registration {
        Registration { ledger: self.ledger@, account: self.account@, deposit: self.deposit }
    }
}

/// The account of the token ledger service at which accounts register.
pub open spec fn token_ledger() -> Seq<char> {
    "harvardtp_ft.testnet"@
}

/// The request to register `account` with the token ledger service.
pub open spec fn registration_of(account: Seq<char>) -> Registration {
    Registration { ledger: token_ledger(), account, deposit: REGISTRATION_DEPOSIT }
}

/// The memo that every transfer request of the marketplace carries.
pub open spec fn sale_memo() -> Seq<char> {
    "Sale from marketplace"@
}

/// The request to move `amount` from `sender` to `receiver` on the ledger `ledger`.
pub open spec fn transfer_of(
    ledger: Seq<char>,
    sender: Seq<char>,
    receiver: Seq<char>,
    amount: u128,
) -> Transfer {
    Transfer { ledger, sender, receiver, amount, memo: sale_memo(), deposit: TRANSFER_DEPOSIT }
}

/// A copy of a list of names.
pub fn clone_names(names: &Vec<String>) -> (copy: Vec<String>)
    ensures
        copy.deep_view() == names.deep_view(),
{
    let mut copy: Vec<String> = Vec::new();
    let mut i: usize = 0;
    while i < names.len()
        invariant
            i <= names.len(),
            copy.len() == i,
            forall|j: int| 0 <= j < i ==> copy[j]@ == names[j]@,
        decreases names.len() - i,
    {
        copy.push(names[i].clone());
        i += 1;
    }
    assert(copy.deep_view() =~= names.deep_view());
    copy
}

/// Whether no name occurs twice in `names`.
pub fn distinct_names(names: &Vec<String>) -> (distinct: bool)
    ensures
        distinct == names.deep_view().no_duplicates(),
{
    let mut i: usize = 0;
    while i < names.len()
        invariant
            i <= names.len(),
            forall|a: int, b: int| 0 <= a < b < names.len() && a < i ==> names[a]@ != names[b]@,
        decreases names.len() - i,
    {
        let mut j: usize = i + 1;
        while j < names.len()
            invariant
                i < j <= names.len(),
                forall|b: int| i < b < j ==> names[i as int]@ != names[b]@,
            decreases names.len() - j,
        {
            if names[i] == names[j] {
                assert(names.deep_view()[i as int] == names.deep_view()[j as int]);
                return false;
            }
            j += 1;
        }
        i += 1;
    }
    assert forall|a: int, b: int|
        0 <= a < names.deep_view().len() && 0 <= b < names.deep_view().len() && a
            != b implies names.deep_view()[a] != names.deep_view()[b] by {
        if a < b {
            assert(names[a]@ != names[b]@);
        } else {
            assert(names[b]@ != names[a]@);
        }
    }
    true
}

/// Whether `name` occurs in `names`.
pub fn contains_name(names: &Vec<String>, name: &String) -> (found: bool)
    ensures
        found == names.deep_view().contains(name@),
{
    let mut i: usize = 0;
    while i < names.len()
        invariant
            i <= names.len(),
            forall|j: int| 0 <= j < i ==> names[j]@ != name@,
        decreases names.len() - i,
    {
        if names[i] == *name {
            assert(names.deep_view()[i as int] == name@);
            return true;
        }
        i += 1;
    }
    assert forall|j: int| 0 <= j < names.deep_view().len() implies names.deep_view()[j] != name@ by {
        assert(names.deep_view()[j] == names[j]@);
    }
    false
}

impl Metadata {
    /// Whether the record is one that a catalog can hold.
    pub fn is_well_formed(&self) -> (sound: bool)
        ensures
            sound == self@.well_formed(),
    {
        if self.is_active {
            return false;
        }
        if self.state == State::Private && (self.price != 0 || self.pending_buyer.is_some()) {
            return false;
        }
        if contains_name(&self.list_access, &self.owner) || !distinct_names(&self.list_access) {
            return false;
        }
        match &self.pending_buyer {
            Some(buyer) => *buyer != self.owner,
            None => true,
        }
    }
}

impl Clone for MarketError {
    fn clone(&self) -> (copy: Self)
        ensures
            copy@ == self@,
    {
        MarketError { kind: self.kind, id: self.id.clone() }
    }
}

impl Clone for Metadata {
    fn clone(&self) -> (copy: Self)
        ensures
            copy@ == self@,
    {
        Metadata {
            state: self.state,
            title: self.title.clone(),
            tags: self.tags.clone(),
            owner: self.owner.clone(),
            cid_encrypted: self.cid_encrypted.clone(),
            price: self.price,
            size: self.size.clone(),
            list_access: clone_names(&self.list_access),
            pending_buyer: match &self.pending_buyer {
                Some(b) => Some(b.clone()),
                None => None,
            },
            is_active: self.is_active,
        }
    }
}

impl Clone for DataValue {
    fn clone(&self) -> (copy: Self)
        ensures
            copy@ == self@,
    {
        DataValue {
            user_id: self.user_id.clone(),
            encrypted_cid: self.encrypted_cid.clone(),
            key_cid: self.key_cid.clone(),
            pub_key: self.pub_key.clone(),
        }
    }
}

impl Clone for WaitingEntry {
    fn clone(&self) -> (copy: Self)
        ensures
            copy@ == self@,
    {
        WaitingEntry {
            owner: self.owner.clone(),
            buyer: self.buyer.clone(),
            cid_encrypted: self.cid_encrypted.clone(),
            pub_key: self.pub_key.clone(),
        }
    }
}

/// Builds the request to move `amount` from `sender` to `receiver` on the
/// ledger service `contract_id`.
pub fn cross_call(
    contract_id: &AccountId,
    sender: &AccountId,
    receiver: &AccountId,
    amount: Balance,
) -> (request: TransferRequest)
    ensures
        request@ == transfer_of(contract_id@, sender@, receiver@, amount),
{
    TransferRequest {
        ledger: contract_id.clone(),
        sender: sender.clone(),
        receiver: receiver.clone(),
        amount,
        memo: "Sale from marketplace".to_owned(),
        deposit: TRANSFER_DEPOSIT,
    }
}

/// Builds the request to register `account` with the token ledger service.
pub fn registration(account: &AccountId) -> (request: RegistrationRequest)
    ensures
        request@ == registration_of(account@),
{
    RegistrationRequest {
        ledger: "harvardtp_ft.testnet".to_owned(),
        account: account.clone(),
        deposit: REGISTRATION_DEPOSIT,
    }
}

/// An amount of whole tokens in the base units of the ledger service,
/// where it fits.
pub fn yocto_amount(tokens: Balance) -> (units: Option<Balance>)
    ensures
        units == if tokens * ONE_NEAR <= u128::MAX {
            Some((tokens * ONE_NEAR) as u128)
        } else {
            None::<u128>
        },
{
    tokens.checked_mul(ONE_NEAR)
}

} // verus!
