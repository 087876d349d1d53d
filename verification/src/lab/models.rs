//! The rows of the users table.
use vstd::prelude::*;

verus! {

/// A user as stored in the database.
#[derive(Clone)]
pub struct User {
    pub id: String,
    pub username: String,
}

/// A user about to be inserted into the database.
#[derive(Clone, Debug)]
pub struct NewUser<'a> {
    pub user_id: String,
    pub username: &'a str,
}

} // verus!
