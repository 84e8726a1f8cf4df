//! Rows of the user table.

use vstd::prelude::*;

verus! {

/// A user as stored, with the salt and hash of the password.
#[derive(Debug)]
pub struct DbUser {
    pub id: i64,
    pub email: String,
    pub username: String,
    pub password_salt: String,
    pub password_hash: String,
    pub role: String,
    pub created_at: String,
}

} // verus!
