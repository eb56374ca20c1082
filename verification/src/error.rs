//! The library's error type.
use vstd::prelude::*;
use crate::text::{concat, decimal, decimal_string, owned};

verus! {

/// Failures of the client. `Db` and `Http` carry the message of the failed
/// storage or transport operation.
#[derive(Debug, PartialEq)]
pub enum AppError {
    Db(String),
    Http(String),
    Api { status: u16, body: String },
    Keyring(String),
    NotConnected,
    InvalidConfig(String),
    Conflict(String),
    Other(String),
}

/// Result alias of the library.
pub type AppResult<T> = Result<T, AppError>;

/// The user-facing text of an error.
pub open spec fn error_text(e: AppError) -> Seq<char> {
    match e {
        AppError::Db(m) => "db error: "@ + m@,
        AppError::Http(m) => "http error: "@ + m@,
        AppError::Api { status, body } => "api error "@ + decimal(status as nat) + ": "@ + body@,
        AppError::Keyring(m) => "keyring error: "@ + m@,
        AppError::NotConnected => "not connected to an instance"@,
        AppError::InvalidConfig(m) => "invalid configuration: "@ + m@,
        AppError::Conflict(m) => "conflict: "@ + m@,
        AppError::Other(m) => m@,
    }
}

impl AppError {
    /// The user-facing text of this error.
    pub fn message(&self) -> (r: String)
        ensures
            r@ == error_text(*self),
    {
        match self {
            AppError::Db(m) => concat("db error: ", m.as_str()),
            AppError::Http(m) => concat("http error: ", m.as_str()),
            AppError::Api { status, body } => {
                let head = concat("api error ", decimal_string(*status as usize).as_str());
                let mid = concat(head.as_str(), ": ");
                let r = concat(mid.as_str(), body.as_str());
                proof {
                    assert(r@ =~= "api error "@ + decimal(*status as nat) + ": "@ + body@);
                }
                r
            }
            AppError::Keyring(m) => concat("keyring error: ", m.as_str()),
            AppError::NotConnected => owned("not connected to an instance"),
            AppError::InvalidConfig(m) => concat("invalid configuration: ", m.as_str()),
            AppError::Conflict(m) => concat("conflict: ", m.as_str()),
            AppError::Other(m) => owned(m.as_str()),
        }
    }
}

} // verus!
