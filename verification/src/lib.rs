//! A marketplace for access to encrypted data objects.
//!
//! An owner lists an item and sets a price; a buyer pays into custody and,
//! once the owner confirms, receives the credential that decrypts it.  The
//! crate holds the state of such a marketplace and the rules by which it
//! changes.  Transfers of tokens are not carried out here: each operation
//! that needs one returns the request for the ledger service.

pub mod catalog;
pub mod contract;
pub mod credentials;
pub mod data_object;
pub mod laws;
pub mod ledger;
pub mod market;
pub mod project;
pub mod types;
pub mod user;
pub mod waiting;

pub use contract::{Contract, Snapshot};
pub use data_object::{AccessType, DataObject};
pub use project::{Contributor, FeedBack, Permision, ProjectPool, RequestContributeInfo, Status};
pub use types::{
    AccountId, Balance, DataValue, DecryptedKey, ErrorKind, MarketError, Metadata,
    RegistrationRequest, State, TransferRequest, WaitingEntry, ECID, ONE_NEAR,
    REGISTRATION_DEPOSIT, TRANSFER_DEPOSIT,
};
pub use user::{User, UserMetaData};
