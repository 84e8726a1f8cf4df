//! The error type shared by the library.

use vstd::prelude::*;

verus! {

/// What can go wrong while serving a request.
///
/// Failures of the store and internal failures carry their description as
/// text.
#[derive(Debug)]
pub enum AppError {
    /// The caller is not authenticated.
    Unauthorized,
    /// The caller may not do this.
    Forbidden,
    /// The route store failed.
    DatabaseError(String),
    /// The request is not valid.
    BadRequest(String),
    /// What was asked for does not exist.
    NotFound(String),
    /// Something failed inside the service.
    InternalServerError(String),
    /// An uploaded file could not be used.
    FileError(String),
    /// The matching engine failed.
    MatchingError(String),
}

/// HTTP status of an error.
pub open spec fn status_of(error: AppError) -> u16 {
    match error {
        AppError::Unauthorized => 401,
        AppError::Forbidden => 403,
        AppError::DatabaseError(_) => 500,
        AppError::BadRequest(_) => 400,
        AppError::NotFound(_) => 404,
        AppError::InternalServerError(_) => 500,
        AppError::FileError(_) => 400,
        AppError::MatchingError(_) => 500,
    }
}

/// Text shown to the caller for an error: the carried message for request,
/// lookup, file and matching errors, a fixed text otherwise.
pub open spec fn public_text_of(error: AppError) -> Seq<char> {
    match error {
        AppError::Unauthorized => "Unauthorized"@,
        AppError::Forbidden => "Forbidden"@,
        AppError::DatabaseError(_) => "Database error"@,
        AppError::BadRequest(msg) => msg@,
        AppError::NotFound(msg) => msg@,
        AppError::InternalServerError(_) => "Internal server error"@,
        AppError::FileError(msg) => msg@,
        AppError::MatchingError(msg) => msg@,
    }
}

/// Full description of an error: its kind, then the carried message.
pub open spec fn description_of(error: AppError) -> Seq<char> {
    match error {
        AppError::Unauthorized => "Unauthorized"@,
        AppError::Forbidden => "Forbidden"@,
        AppError::DatabaseError(msg) => "Database error: "@ + msg@,
        AppError::BadRequest(msg) => "Bad request: "@ + msg@,
        AppError::NotFound(msg) => "Not found: "@ + msg@,
        AppError::InternalServerError(msg) => "Internal server error: "@ + msg@,
        AppError::FileError(msg) => "File error: "@ + msg@,
        AppError::MatchingError(msg) => "Matching error: "@ + msg@,
    }
}

/// `prefix` followed by `message`.
fn prefixed(prefix: &str, message: &String) -> (text: String)
    ensures
        text@ == prefix@ + message@,
{
    let mut text = prefix.to_owned();
    text.append(message.as_str());
    text
}

impl AppError {
    /// The HTTP status this error is answered with.
    pub fn status_code(&self) -> (status: u16)
        ensures
            status == status_of(*self),
    {
        match self {
            AppError::Unauthorized => 401,
            AppError::Forbidden => 403,
            AppError::DatabaseError(_) => 500,
            AppError::BadRequest(_) => 400,
            AppError::NotFound(_) => 404,
            AppError::InternalServerError(_) => 500,
            AppError::FileError(_) => 400,
            AppError::MatchingError(_) => 500,
        }
    }

    /// The text sent to the caller in the body of the answer.
    pub fn error_message(&self) -> (text: String)
        ensures
            text@ == public_text_of(*self),
    {
        match self {
            AppError::Unauthorized => "Unauthorized".to_owned(),
            AppError::Forbidden => "Forbidden".to_owned(),
            AppError::DatabaseError(_) => "Database error".to_owned(),
            AppError::BadRequest(msg) => msg.clone(),
            AppError::NotFound(msg) => msg.clone(),
            AppError::InternalServerError(_) => "Internal server error".to_owned(),
            AppError::FileError(msg) => msg.clone(),
            AppError::MatchingError(msg) => msg.clone(),
        }
    }

    /// The full description of this error, as written to logs.
    pub fn message(&self) -> (text: String)
        ensures
            text@ == description_of(*self),
    {
        match self {
            AppError::Unauthorized => "Unauthorized".to_owned(),
            AppError::Forbidden => "Forbidden".to_owned(),
            AppError::DatabaseError(msg) => prefixed("Database error: ", msg),
            AppError::BadRequest(msg) => prefixed("Bad request: ", msg),
            AppError::NotFound(msg) => prefixed("Not found: ", msg),
            AppError::InternalServerError(msg) => prefixed("Internal server error: ", msg),
            AppError::FileError(msg) => prefixed("File error: ", msg),
            AppError::MatchingError(msg) => prefixed("Matching error: ", msg),
        }
    }

    /// The error for a failure of the route store.
    pub fn from_database(description: String) -> (error: AppError)
        ensures
            error == AppError::DatabaseError(description),
    {
        AppError::DatabaseError(description)
    }

    /// The error for an internal failure.
    pub fn from_internal(description: String) -> (error: AppError)
        ensures
            error == AppError::InternalServerError(description),
    {
        AppError::InternalServerError(description)
    }

    /// The error for a password that could not be hashed or checked.
    pub fn from_password_failure() -> (error: AppError)
        ensures
            error matches AppError::InternalServerError(msg) && msg@ == "Password hashing error"@,
    {
        AppError::InternalServerError("Password hashing error".to_owned())
    }

    /// The error for a token that could not be made or read.
    pub fn from_token_failure() -> (error: AppError)
        ensures
            error == AppError::Unauthorized,
    {
        AppError::Unauthorized
    }
}

} // verus!
