//! Bearer-token sessions with one live token per user: a signed claims codec,
//! the decisions of the authentication gate, and session issue and revoke,
//! all proved against their contracts.

pub mod hex;
pub mod text;
pub mod codec;
pub mod gate;
pub mod error;
pub mod session;
pub mod users;

pub use codec::{DecodeError, TokenClaims, TokenCodec, TOKEN_VALID_TIME};
pub use error::{internal, ServerError, ServerResult};
pub use gate::{AuthMiddleware, AuthMiddlewareFactory, GateOutcome, GateStep, Rejection, StoreReply};
pub use session::{session_key, DeleteReply, Session, SessionManager};
pub use users::{
    add_count, find_user_by_id, hash_password, login, login_at, register, InsertReply, UserInfo,
    UserRecord, ARGON2_SALT,
};
