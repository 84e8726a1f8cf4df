//! Login and signup: what is checked and what is answered.

use vstd::prelude::*;
use crate::db::models::DbUser;
use crate::error::AppError;
use crate::models::user::{public_user, User};

verus! {

/// The body of a login request.
#[derive(Debug)]
pub struct LoginRequest {
    pub email: String,
    pub password: String,
}

/// The body of a signup request.
#[derive(Debug)]
pub struct SignupRequest {
    pub email: String,
    pub username: String,
    pub password: String,
    pub confirm_password: String,
    pub interest: Option<String>,
}

/// The body of the answer to a login or signup.
#[derive(Debug)]
pub struct AuthResponse {
    pub user: User,
}

/// The rejection of a request with `message`.
pub open spec fn is_bad_request(error: AppError, message: Seq<char>) -> bool {
    error matches AppError::BadRequest(msg) && msg@ == message
}

impl SignupRequest {
    /// Checks a signup before anything is stored: the two passwords must
    /// agree, and the email must not be taken.
    pub fn validate(&self, email_taken: bool) -> (checked: Result<(), AppError>)
        ensures
            checked.is_ok() == (self.password@ == self.confirm_password@ && !email_taken),
            self.password@ != self.confirm_password@ ==> (checked matches Err(e) && is_bad_request(
                e,
                "Passwords do not match"@,
            )),
            self.password@ == self.confirm_password@ && email_taken ==> (checked matches Err(e)
                && is_bad_request(e, "Email already exists"@)),
    {
        if self.password != self.confirm_password {
            return Err(AppError::BadRequest("Passwords do not match".to_owned()));
        }
        if email_taken {
            return Err(AppError::BadRequest("Email already exists".to_owned()));
        }
        Ok(())
    }
}

/// The user a login is for: the user found under the email, or the
/// rejection when there is none.
pub fn login_user(found: Option<DbUser>) -> (user: Result<DbUser, AppError>)
    ensures
        match found {
            Some(u) => user == Ok::<DbUser, AppError>(u),
            None => user matches Err(e) && is_bad_request(e, "Invalid email or password"@),
        },
{
    match found {
        Some(u) => Ok(u),
        None => Err(AppError::BadRequest("Invalid email or password".to_owned())),
    }
}

/// The answer to a login once the password was checked: the public user when
/// it matched, the rejection when it did not.
pub fn login_answer(user: DbUser, password_matches: bool) -> (answer: Result<AuthResponse, AppError>)
    ensures
        match answer {
            Ok(response) => password_matches && response.user == public_user(user),
            Err(e) => !password_matches && is_bad_request(e, "Invalid email or password"@),
        },
{
    if !password_matches {
        return Err(AppError::BadRequest("Invalid email or password".to_owned()));
    }
    Ok(AuthResponse { user: User::from(user) })
}

/// The cookie that carries a session token for seven days.
pub open spec fn session_cookie_text(token: Seq<char>) -> Seq<char> {
    "token="@ + token + "; HttpOnly; Secure; SameSite=Strict; Path=/; Max-Age=604800"@
}

/// The cookie that opens a session with `token`.
pub fn session_cookie(token: &str) -> (cookie: String)
    ensures
        cookie@ == session_cookie_text(token@),
{
    let mut cookie = "token=".to_owned();
    cookie.append(token);
    cookie.append("; HttpOnly; Secure; SameSite=Strict; Path=/; Max-Age=604800");
    cookie
}

/// The cookie that closes the session.
pub fn logout_cookie() -> (cookie: String)
    ensures
        cookie@ == "token=; HttpOnly; Secure; SameSite=Strict; Path=/; Max-Age=0"@,
{
    "token=; HttpOnly; Secure; SameSite=Strict; Path=/; Max-Age=0".to_owned()
}

} // verus!
