use api::{
    add_count, find_user_by_id, hash_password, internal, login, login_at, register, session_key,
    DeleteReply, InsertReply, Rejection, ServerError, SessionManager, TokenCodec, UserInfo,
    UserRecord, TOKEN_VALID_TIME,
};

fn sessions() -> SessionManager {
    SessionManager::new(TokenCodec::new(b"k".to_vec()))
}

fn record(password: &str) -> UserRecord {
    UserRecord { id: 3, name: "ann".to_string(), password: password.to_string(), count: 4 }
}

#[test]
fn status_codes() {
    assert_eq!(ServerError::AuthExpired.status_code(), 401);
    assert_eq!(ServerError::AuthInvalid.status_code(), 401);
    assert_eq!(ServerError::UserPasswordError.status_code(), 401);
    assert_eq!(ServerError::UserNotFound.status_code(), 404);
    assert_eq!(ServerError::UserNameUsed.status_code(), 409);
    assert_eq!(ServerError::InternalError.status_code(), 500);
    assert_eq!(ServerError::DbError.status_code(), 500);
    assert_eq!(ServerError::RedisError.status_code(), 500);
    assert_eq!(ServerError::UserLogoutFailed.status_code(), 500);
}

#[test]
fn messages_and_codes() {
    assert_eq!(ServerError::AuthExpired.msg(), "Your authorization is expired, please login again.");
    assert_eq!(ServerError::AuthInvalid.msg(), "Unauthorized, please login first.");
    assert_eq!(ServerError::DbError.msg(), "");
    assert_eq!(ServerError::AuthExpired.code(), "AuthExpired");
    assert_eq!(ServerError::UserLogoutFailed.code(), "UserLogoutFailed");
    assert_eq!(ServerError::RedisError.code(), "RedisError");
}

#[test]
fn rejections_map_to_errors() {
    assert_eq!(ServerError::from_rejection(Rejection::Unauthenticated), ServerError::AuthInvalid);
    assert_eq!(ServerError::from_rejection(Rejection::Expired), ServerError::AuthExpired);
    assert_eq!(
        ServerError::from_rejection(Rejection::InfrastructureFailure),
        ServerError::RedisError
    );
}

#[test]
fn internal_is_internal_error() {
    let e = std::fmt::Error;
    assert_eq!(internal(e), ServerError::InternalError);
}

#[test]
fn revoke_outcomes() {
    assert_eq!(SessionManager::revoke_outcome(DeleteReply::Deleted), Ok(()));
    assert_eq!(
        SessionManager::revoke_outcome(DeleteReply::NothingToDelete),
        Err(ServerError::UserLogoutFailed)
    );
    assert_eq!(
        SessionManager::revoke_outcome(DeleteReply::Unavailable),
        Err(ServerError::RedisError)
    );
}

#[test]
fn session_keys() {
    assert_eq!(session_key(0), "session:80000000");
    assert_eq!(session_key(-1), "session:7fffffff");
    assert_eq!(session_key(42), "session:8000002a");
    assert_ne!(session_key(1), session_key(2));
}

#[test]
fn issue_at_sets_window() {
    let s = sessions().issue_at(8, 1_700_000_000);
    assert_eq!(s.claims.user_id, 8);
    assert_eq!(s.claims.iat, 1_700_000_000);
    assert_eq!(s.claims.exp - s.claims.iat, TOKEN_VALID_TIME);
}

#[test]
fn password_hash_and_login() {
    let h = hash_password(b"pw").unwrap();
    assert!(h.starts_with("$argon2"));
    assert_ne!(h, "pw");
    assert_eq!(hash_password(b"").map(|e| e.starts_with("$argon2")), Ok(true));
    let u = record(&h);
    let m = sessions();
    let s = login(&m, Some(&u), b"pw", 20).unwrap();
    assert_eq!(s.claims.user_id, 3);
    assert_eq!(s.claims.iat, 20);
    assert_eq!(s.claims.exp, 20 + TOKEN_VALID_TIME);
    assert_eq!(s.token, m.issue_at(3, 20).token);
    assert_eq!(login(&m, Some(&u), b"wrong", 20).err(), Some(ServerError::UserPasswordError));
    assert_eq!(login(&m, None, b"pw", 20).err(), Some(ServerError::UserNotFound));
    assert_eq!(
        login(&m, Some(&record("not a hash")), b"pw", 20).err(),
        Some(ServerError::UserPasswordError)
    );
}

#[test]
fn login_decision() {
    let m = sessions();
    let u = record("x");
    let s = login_at(&m, Some(&u), true, 10).unwrap();
    assert_eq!(s.claims.iat, 10);
    assert_eq!(s.claims.exp, 10 + TOKEN_VALID_TIME);
    assert_eq!(s.token, m.issue_at(3, 10).token);
    assert_eq!(login_at(&m, Some(&u), false, 10).err(), Some(ServerError::UserPasswordError));
    assert_eq!(login_at(&m, None, true, 10).err(), Some(ServerError::UserNotFound));
}

#[test]
fn register_outcomes() {
    assert_eq!(register(InsertReply::Created(5)), Ok(5));
    assert_eq!(register(InsertReply::NameTaken), Err(ServerError::UserNameUsed));
    assert_eq!(register(InsertReply::Failed), Err(ServerError::DbError));
}

#[test]
fn counting_and_lookup() {
    let u = add_count(record("h")).ok().unwrap();
    assert_eq!(u.count, 5);
    assert_eq!(u.name, "ann");
    let mut top = record("h");
    top.count = i32::MAX;
    assert_eq!(add_count(top).err(), Some(ServerError::InternalError));
    assert_eq!(find_user_by_id(None).err(), Some(ServerError::UserNotFound));
    assert_eq!(find_user_by_id(Some(record("h"))).ok().unwrap().id, 3);
    let info: UserInfo = record("h").into();
    assert_eq!(info.name, "ann");
    assert_eq!(info.count, 4);
}
