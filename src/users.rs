//! Users: what the request handlers decide around the user store, which lives
//! outside this crate, and password hashing with Argon2.

use vstd::prelude::*;
use crate::codec::{token_text, TOKEN_VALID_TIME};
use crate::error::ServerError;
use crate::session::{issued_claims, Session, SessionManager};

verus! {

/// Salt of the stored password hashes.
pub const ARGON2_SALT: [u8; 11] = [97, 114, 103, 111, 110, 50, 95, 115, 97, 108, 116];

/// A row of the user store.
pub struct UserRecord {
    pub id: i32,
    pub name: String,
    /// The Argon2 encoded hash of the password.
    pub password: String,
    pub count: i32,
}

/// What a user is shown of their record.
pub struct UserInfo {
    pub name: String,
    pub count: i32,
}

/// What the user store answered to inserting a new user.
#[derive(Clone, Copy, Debug, PartialEq, Eq, Structural)]
pub enum InsertReply {
    Created(i32),
    NameTaken,
    Failed,
}

/// The encoded Argon2 hash (default configuration) of a password with a salt.
pub uninterp spec fn argon2_encoded_of(pwd: Seq<u8>, salt: Seq<u8>) -> Seq<char>;

/// Whether a password matches an encoded Argon2 hash.
pub uninterp spec fn argon2_accepts(encoded: Seq<char>, pwd: Seq<u8>) -> bool;

/// Relies on rust-argon2's `hash_encoded` with `Config::default()`: the encoded
/// hash is fixed by password and salt, and `verify_encoded` accepts the password
/// against it. It fails only on a length out of range (`Context::new`): a salt of
/// fewer than 8 or more than `u32::MAX` bytes, a password of more than `u32::MAX`.
#[verifier::external_body]
fn argon2_hash(pwd: &[u8], salt: &[u8]) -> (r: Option<String>)
    ensures
        r matches Some(h) ==> h@ == argon2_encoded_of(pwd@, salt@) && argon2_accepts(h@, pwd@),
        8 <= salt@.len() <= 0xFFFF_FFFF && pwd@.len() <= 0xFFFF_FFFF ==> r is Some,
{
    argon2::hash_encoded(pwd, salt, &argon2::Config::default()).ok()
}

/// Relies on rust-argon2's `verify_encoded`: whether the password hashes to the
/// encoded hash under the parameters it names; a hash it cannot read is no match.
#[verifier::external_body]
fn argon2_verify(encoded: &str, pwd: &[u8]) -> (r: bool)
    ensures
        r == argon2_accepts(encoded@, pwd@),
{
    argon2::verify_encoded(encoded, pwd).unwrap_or(false)
}

/// The hash to store for a new user's password.
pub fn hash_password(password: &[u8]) -> (r: Result<String, ServerError>)
    ensures
        password@.len() <= 0xFFFF_FFFF ==> r is Ok,
        r matches Ok(h) ==> h@ == argon2_encoded_of(password@, ARGON2_SALT@) && argon2_accepts(
            h@,
            password@,
        ),
        r matches Err(e) ==> e == ServerError::InternalError,
{
    let salt = ARGON2_SALT;
    assert(salt@.len() == 11);
    match argon2_hash(password, &salt) {
        Some(h) => Ok(h),
        None => Err(ServerError::InternalError),
    }
}

/// What registering reports, given the user store's answer: the new id, or
/// which error.
pub fn register(reply: InsertReply) -> (r: Result<i32, ServerError>)
    ensures
        match reply {
            InsertReply::Created(id) => r == Ok::<i32, ServerError>(id),
            InsertReply::NameTaken => r == Err::<i32, ServerError>(ServerError::UserNameUsed),
            InsertReply::Failed => r == Err::<i32, ServerError>(ServerError::DbError),
        },
{
    match reply {
        InsertReply::Created(id) => Ok(id),
        InsertReply::NameTaken => Err(ServerError::UserNameUsed),
        InsertReply::Failed => Err(ServerError::DbError),
    }
}

/// The login decision at time `now`, once the user was looked up by name and
/// the password checked: a session only for a known user with the right password.
pub fn login_at(
    sessions: &SessionManager,
    user: Option<&UserRecord>,
    password_accepted: bool,
    now: i64,
) -> (r: Result<Session, ServerError>)
    requires
        now <= i64::MAX - TOKEN_VALID_TIME,
    ensures
        match user {
            None => r == Err::<Session, ServerError>(ServerError::UserNotFound),
            Some(u) => if password_accepted {
                r matches Ok(s) && s.claims == issued_claims(u.id, now) && s.token@
                    == token_text(sessions@, s.claims)
            } else {
                r == Err::<Session, ServerError>(ServerError::UserPasswordError)
            },
        },
{
    match user {
        None => Err(ServerError::UserNotFound),
        Some(u) => if password_accepted {
            Ok(sessions.issue_at(u.id, now))
        } else {
            Err(ServerError::UserPasswordError)
        },
    }
}

/// Logs in at time `now` with the user found by name, if any, and the password
/// given: a new session, which replaces the user's earlier one once stored.
pub fn login(
    sessions: &SessionManager,
    user: Option<&UserRecord>,
    password: &[u8],
    now: i64,
) -> (r: Result<Session, ServerError>)
    requires
        now <= i64::MAX - TOKEN_VALID_TIME,
    ensures
        match user {
            None => r == Err::<Session, ServerError>(ServerError::UserNotFound),
            Some(u) => if argon2_accepts(u.password@, password@) {
                r matches Ok(s) && s.claims == issued_claims(u.id, now) && s.token@ == token_text(
                    sessions@,
                    s.claims,
                )
            } else {
                r == Err::<Session, ServerError>(ServerError::UserPasswordError)
            },
        },
{
    let accepted = match user {
        None => false,
        Some(u) => argon2_verify(u.password.as_str(), password),
    };
    login_at(sessions, user, accepted, now)
}

/// The user that a lookup by id found, or `UserNotFound`.
pub fn find_user_by_id(found: Option<UserRecord>) -> (r: Result<UserRecord, ServerError>)
    ensures
        match found {
            None => r matches Err(e) && e == ServerError::UserNotFound,
            Some(u) => r matches Ok(v) && v == u,
        },
{
    match found {
        None => Err(ServerError::UserNotFound),
        Some(u) => Ok(u),
    }
}

/// The record with its counter one higher, to be written back; an internal
/// error where the counter is at its largest value.
pub fn add_count(user: UserRecord) -> (r: Result<UserRecord, ServerError>)
    ensures
        user.count < i32::MAX ==> (r matches Ok(v) && v.id == user.id && v.name == user.name
            && v.password == user.password && v.count == user.count + 1),
        user.count == i32::MAX ==> (r matches Err(e) && e == ServerError::InternalError),
{
    if user.count == i32::MAX {
        return Err(ServerError::InternalError);
    }
    let count = user.count + 1;
    Ok(UserRecord { count, ..user })
}

impl From<UserRecord> for UserInfo {
    fn from(value: UserRecord) -> (r: UserInfo)
        ensures
            r.name == value.name,
            r.count == value.count,
    {
        UserInfo { name: value.name, count: value.count }
    }
}

impl vstd::std_specs::convert::FromSpecImpl<UserRecord> for UserInfo {
    open spec fn obeys_from_spec() -> bool {
        true
    }

    open spec fn from_spec(value: UserRecord) -> UserInfo {
        UserInfo { name: value.name, count: value.count }
    }
}

} // verus!
