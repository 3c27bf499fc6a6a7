//! A data object as its owner describes it.

use vstd::prelude::*;
use crate::types::{AccountId, Balance};

verus! {

/// Key under which a data object is stored.
pub type DataKey = String;

/// Who may see a data object.
#[derive(Clone, Copy, Debug, PartialEq, Eq, Structural)]
pub enum AccessType {
    Private,
    Public,
}

/// Description of a data object.
#[derive(Clone, Debug, PartialEq, Eq)]
pub struct DataObject {
    pub data_key: DataKey,
    pub title: String,
    pub description: String,
    pub owner: AccountId,
    pub price: Balance,
    pub access_type: AccessType,
}

} // verus!
