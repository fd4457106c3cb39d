//! The errors that the service reports, with their HTTP status and message.

use vstd::prelude::*;
use vstd::string::*;
use crate::gate::Rejection;

verus! {

#[derive(Clone, Copy, Debug, PartialEq, Eq, Structural)]
pub enum ServerError {
    InternalError,
    AuthExpired,
    AuthInvalid,
    UserNameUsed,
    UserNotFound,
    UserPasswordError,
    UserLogoutFailed,
    DbError,
    RedisError,
}

pub type ServerResult<T> = Result<T, ServerError>;

/// The HTTP status of each error.
pub open spec fn status_of(e: ServerError) -> u16 {
    match e {
        ServerError::AuthExpired | ServerError::AuthInvalid | ServerError::UserPasswordError => 401,
        ServerError::UserNotFound => 404,
        ServerError::UserNameUsed => 409,
        _ => 500,
    }
}

/// The error that a gate rejection is reported as.
pub open spec fn rejection_error(r: Rejection) -> ServerError {
    match r {
        Rejection::Unauthenticated => ServerError::AuthInvalid,
        Rejection::Expired => ServerError::AuthExpired,
        Rejection::InfrastructureFailure => ServerError::RedisError,
    }
}

impl ServerError {
    pub fn status_code(&self) -> (r: u16)
        ensures
            r == status_of(*self),
    {
        match self {
            ServerError::AuthExpired | ServerError::AuthInvalid | ServerError::UserPasswordError => 401,
            ServerError::UserNotFound => 404,
            ServerError::UserNameUsed => 409,
            _ => 500,
        }
    }

    /// The message shown to the client: one for each kind of authentication
    /// failure, none for the rest, whose details stay in the server's log.
    pub fn msg(&self) -> (r: String)
        ensures
            *self == ServerError::AuthExpired ==> r@ == "Your authorization is expired, please login again."@,
            *self == ServerError::AuthInvalid ==> r@ == "Unauthorized, please login first."@,
            *self != ServerError::AuthExpired && *self != ServerError::AuthInvalid ==> r@.len() == 0,
    {
        match self {
            ServerError::AuthExpired => String::from_str("Your authorization is expired, please login again."),
            ServerError::AuthInvalid => String::from_str("Unauthorized, please login first."),
            _ => String::new(),
        }
    }

    /// The variant's name, the error code in a response body.
    pub fn code(&self) -> (r: String)
        ensures
            *self == ServerError::InternalError ==> r@ == "InternalError"@,
            *self == ServerError::AuthExpired ==> r@ == "AuthExpired"@,
            *self == ServerError::AuthInvalid ==> r@ == "AuthInvalid"@,
            *self == ServerError::UserNameUsed ==> r@ == "UserNameUsed"@,
            *self == ServerError::UserNotFound ==> r@ == "UserNotFound"@,
            *self == ServerError::UserPasswordError ==> r@ == "UserPasswordError"@,
            *self == ServerError::UserLogoutFailed ==> r@ == "UserLogoutFailed"@,
            *self == ServerError::DbError ==> r@ == "DbError"@,
            *self == ServerError::RedisError ==> r@ == "RedisError"@,
    {
        match self {
            ServerError::InternalError => String::from_str("InternalError"),
            ServerError::AuthExpired => String::from_str("AuthExpired"),
            ServerError::AuthInvalid => String::from_str("AuthInvalid"),
            ServerError::UserNameUsed => String::from_str("UserNameUsed"),
            ServerError::UserNotFound => String::from_str("UserNotFound"),
            ServerError::UserPasswordError => String::from_str("UserPasswordError"),
            ServerError::UserLogoutFailed => String::from_str("UserLogoutFailed"),
            ServerError::DbError => String::from_str("DbError"),
            ServerError::RedisError => String::from_str("RedisError"),
        }
    }

    /// How a gate rejection is reported.
    pub fn from_rejection(r: Rejection) -> (e: ServerError)
        ensures
            e == rejection_error(r),
    {
        match r {
            Rejection::Unauthenticated => ServerError::AuthInvalid,
            Rejection::Expired => ServerError::AuthExpired,
            Rejection::InfrastructureFailure => ServerError::RedisError,
        }
    }
}

/// Any failure of an underlying service, reported as an internal error.
pub fn internal<E>(e: E) -> (r: ServerError)
    ensures
        r == ServerError::InternalError,
{
    ServerError::InternalError
}

} // verus!
