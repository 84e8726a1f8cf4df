//! The public face of a user.

use vstd::prelude::*;
use vstd::std_specs::convert::FromSpecImpl;
use crate::db::models::DbUser;

verus! {

/// A user as shown to callers: the stored user without its password.
#[derive(Clone, Debug)]
pub struct User {
    pub id: i64,
    pub email: String,
    pub username: String,
    pub role: String,
    pub created_at: String,
}

/// The public user of a stored user.
pub open spec fn public_user(db_user: DbUser) -> User {
    User {
        id: db_user.id,
        email: db_user.email,
        username: db_user.username,
        role: db_user.role,
        created_at: db_user.created_at,
    }
}

impl From<DbUser> for User {
    fn from(db_user: DbUser) -> (user: User) {
        User {
            id: db_user.id,
            email: db_user.email,
            username: db_user.username,
            role: db_user.role,
            created_at: db_user.created_at,
        }
    }
}

impl FromSpecImpl<DbUser> for User {
    open spec fn obeys_from_spec() -> bool {
        true
    }

    open spec fn from_spec(db_user: DbUser) -> User {
        public_user(db_user)
    }
}

} // verus!
