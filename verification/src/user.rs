//! An account holder as the marketplace presents them.

use vstd::prelude::*;
use crate::types::{AccountId, Balance};

verus! {

/// What a user tells about themselves.
#[derive(Clone, Debug, PartialEq, Eq)]
pub struct UserMetaData {
    pub name: String,
    pub email_address: String,
    pub age: u32,
    pub git: String,
    pub location: String,
}

/// A user: the account, its balance and the profile.
#[derive(Clone, Debug, PartialEq, Eq)]
pub struct User {
    pub id: AccountId,
    pub balance: Balance,
    pub meta_data: UserMetaData,
}

} // verus!
