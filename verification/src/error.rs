//! The error kinds of the service and how each is shown to a client.

use vstd::prelude::*;

verus! {

/// Why an operation was refused or failed.
#[derive(Debug)]
pub enum AppError {
    /// The persistent store failed; the text is the store's own message.
    Database(String),
    /// The caller could not be identified.
    Authentication,
    /// The caller is identified but may not touch the resource.
    Authorization,
    /// The request breaks a rule of the protocol; the text says which.
    BadRequest(String),
    /// Any other failure inside the service.
    Internal(String),
}

/// The outcome of an operation that can fail.
pub type AppResult<T> = Result<T, AppError>;

/// The HTTP status that stands for an error kind.
pub open spec fn status_of(e: AppError) -> u16 {
    match e {
        AppError::Database(_) => 500,
        AppError::Authentication => 401,
        AppError::Authorization => 403,
        AppError::BadRequest(_) => 400,
        AppError::Internal(_) => 500,
    }
}

/// The text shown to the client: the reason of a bad request is passed on,
/// the details of server-side failures are not.
pub open spec fn client_message_of(e: AppError) -> Seq<char> {
    match e {
        AppError::Database(_) => "Database error"@,
        AppError::Authentication => "Authentication failed"@,
        AppError::Authorization => "Authorization failed"@,
        AppError::BadRequest(msg) => msg@,
        AppError::Internal(_) => "Internal server error"@,
    }
}

/// The full description of an error, with its details.
pub open spec fn description_of(e: AppError) -> Seq<char> {
    match e {
        AppError::Database(msg) => "Database error: "@ + msg@,
        AppError::Authentication => "Authentication failed"@,
        AppError::Authorization => "Authorization failed"@,
        AppError::BadRequest(msg) => "Bad request: "@ + msg@,
        AppError::Internal(msg) => "Internal server error: "@ + msg@,
    }
}

impl AppError {
    /// The HTTP status code of the response that reports this error.
    pub fn status_code(&self) -> (r: u16)
        ensures
            r == status_of(*self),
    {
        match self {
            AppError::Database(_) => 500,
            AppError::Authentication => 401,
            AppError::Authorization => 403,
            AppError::BadRequest(_) => 400,
            AppError::Internal(_) => 500,
        }
    }

    /// The message of the response that reports this error.
    pub fn client_message(&self) -> (r: String)
        ensures
            r@ == client_message_of(*self),
    {
        match self {
            AppError::Database(_) => String::from_str("Database error"),
            AppError::Authentication => String::from_str("Authentication failed"),
            AppError::Authorization => String::from_str("Authorization failed"),
            AppError::BadRequest(msg) => msg.clone(),
            AppError::Internal(_) => String::from_str("Internal server error"),
        }
    }

    /// The description of this error, details included.
    pub fn to_string(&self) -> (r: String)
        ensures
            r@ == description_of(*self),
    {
        match self {
            AppError::Database(msg) => String::from_str("Database error: ").concat(msg.as_str()),
            AppError::Authentication => String::from_str("Authentication failed"),
            AppError::Authorization => String::from_str("Authorization failed"),
            AppError::BadRequest(msg) => String::from_str("Bad request: ").concat(msg.as_str()),
            AppError::Internal(msg) => String::from_str("Internal server error: ").concat(
                msg.as_str(),
            ),
        }
    }
}

} // verus!
