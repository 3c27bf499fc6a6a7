//! Projects that are built on listed data, and the people who contribute.

use vstd::prelude::*;
use crate::types::{AccountId, Balance};

verus! {

/// How far a project has come.
#[derive(Clone, Copy, Debug, PartialEq, Eq, Structural)]
pub enum Status {
    Init,
    Inprogress,
    Testing,
    Beta,
}

/// What a contributor may do with the data of a project.
#[derive(Clone, Copy, Debug, PartialEq, Eq, Structural)]
pub enum Permision {
    FullAccess,
    ReadData,
    OnlyView,
}

/// A role in a project and the account that fills it.
#[derive(Clone, Debug, PartialEq, Eq)]
pub struct Contributor {
    pub account_id: String,
    pub role: String,
    pub permision: Permision,
    pub description: String,
}

/// A request to take a role in a project.
#[derive(Clone, Debug, PartialEq, Eq)]
pub struct RequestContributeInfo {
    pub account_id: AccountId,
    pub role: String,
    pub project_title: String,
    pub project_id: String,
}

/// A project with its funds, its roles and its links.
#[derive(Clone, Debug, PartialEq, Eq)]
pub struct ProjectPool {
    pub id: String,
    pub title: String,
    pub description: String,
    pub pool: Balance,
    pub staus: Status,
    pub owner: AccountId,
    pub contributors: Vec<Contributor>,
    pub urls: Vec<String>,
}

/// A remark on a project.
#[derive(Clone, Debug, PartialEq, Eq)]
pub struct FeedBack {
    pub account_id: AccountId,
    pub content: String,
}

} // verus!
