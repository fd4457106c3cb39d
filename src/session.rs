//! Issuing and revoking sessions: at most one current token per user, held in
//! an outside key-value store that this module describes but does not reach.
//!
//! Issuing gives a token and the record to store under the user's key, which
//! replaces any earlier one; revoking deletes that record. The store's content
//! is modelled as a map from user id to that user's current token.

use vstd::prelude::*;
use vstd::utf8::is_ascii_chars;
use crate::codec::{
    decode_bytes, lemma_round_trip, lemma_token_shape, token_bytes, token_text, DecodeError,
    TokenClaims, TokenCodec, TOKEN_VALID_TIME,
};
use crate::error::ServerError;
use crate::gate::{
    begin_spec, bearer_credential, gate_spec, has_bearer_prefix, is_space, scheme, trim_back,
    trim_front, trimmed, GateOutcome, Rejection, StepView,
};
use crate::hex::{hex_digits, is_hex_char, lemma_hex_round_trip, lemma_pow16_values, push_hex};
use crate::text::{ascii_bytes, ascii_string, ascii_text, lemma_ascii_text_round_trip};

verus! {

/// A freshly issued session: its claims and the token that carries them.
pub struct Session {
    pub claims: TokenClaims,
    pub token: String,
}

/// What the store answered to a delete.
#[derive(Clone, Copy, Debug, PartialEq, Eq, Structural)]
pub enum DeleteReply {
    Deleted,
    NothingToDelete,
    Unavailable,
}

/// The claims of a session issued to `user_id` at time `now`.
pub open spec fn issued_claims(user_id: i32, now: i64) -> TokenClaims {
    TokenClaims { user_id, iat: now, exp: (now + TOKEN_VALID_TIME) as i64 }
}

/// The store after a session with `token` was issued to `user_id`.
pub open spec fn after_issue(store: Map<i32, Seq<char>>, user_id: i32, token: Seq<char>) -> Map<
    i32,
    Seq<char>,
> {
    store.insert(user_id, token)
}

/// The store after `user_id`'s session was revoked.
pub open spec fn after_revoke(store: Map<i32, Seq<char>>, user_id: i32) -> Map<i32, Seq<char>> {
    store.remove(user_id)
}

/// `Authorization: Bearer <token>`, the header's value.
pub open spec fn bearer_header(token: Seq<char>) -> Seq<char> {
    seq!['B', 'e', 'a', 'r', 'e', 'r', ' '] + token
}

/// Issues and revokes sessions, signing tokens with one secret.
pub struct SessionManager {
    codec: TokenCodec,
}

impl View for SessionManager {
    type V = Seq<u8>;

    /// The secret that tokens are signed with.
    closed spec fn view(&self) -> Seq<u8> {
        self.codec@
    }
}

impl SessionManager {
    pub fn new(codec: TokenCodec) -> (r: SessionManager)
        ensures
            r@ == codec@,
    {
        SessionManager { codec }
    }

    /// A session for `user_id` issued at time `now`; the caller stores its token
    /// under the user's key for `TOKEN_VALID_TIME` seconds.
    pub fn issue_at(&self, user_id: i32, now: i64) -> (r: Session)
        requires
            now <= i64::MAX - TOKEN_VALID_TIME,
        ensures
            r.claims == issued_claims(user_id, now),
            r.token@ == token_text(self@, r.claims),
    {
        let claims = TokenClaims { user_id, iat: now, exp: now + TOKEN_VALID_TIME };
        let token = self.codec.encode(&claims);
        Session { claims, token }
    }

    /// What a revoke reports, given the store's answer to deleting the record.
    pub fn revoke_outcome(reply: DeleteReply) -> (r: Result<(), ServerError>)
        ensures
            reply == DeleteReply::Deleted <==> r is Ok,
            reply == DeleteReply::NothingToDelete ==> r == Err::<(), ServerError>(
                ServerError::UserLogoutFailed,
            ),
            reply == DeleteReply::Unavailable ==> r == Err::<(), ServerError>(
                ServerError::RedisError,
            ),
    {
        match reply {
            DeleteReply::Deleted => Ok(()),
            DeleteReply::NothingToDelete => Err(ServerError::UserLogoutFailed),
            DeleteReply::Unavailable => Err(ServerError::RedisError),
        }
    }
}

/// A request bearing a token of `key` is decoded to that token's claims, or
/// turned away as expired once `now` is past their expiry.
pub proof fn lemma_bearer_token_decodes(key: Seq<u8>, c: TokenClaims, now: i64)
    ensures
        begin_spec(key, Some(bearer_header(token_text(key, c))), now) == (if now > c.exp {
            StepView::Reject(Rejection::Expired)
        } else {
            StepView::Lookup(c, token_bytes(key, c))
        }),
{
    let tb = token_bytes(key, c);
    let t = token_text(key, c);
    let h = bearer_header(t);
    lemma_token_shape(key, c);
    lemma_ascii_text_round_trip(tb);
    lemma_round_trip(key, c, now);
    let pre = seq!['B', 'e', 'a', 'r', 'e', 'r', ' '];
    assert(is_ascii_chars(h)) by {
        assert forall|i: int| 0 <= i < h.len() implies '\0' <= #[trigger] h[i] <= '\u{7f}' by {
            if i >= 7 {
                assert(h[i] == t[i - 7]);
            }
        }
    }
    let hb = ascii_bytes(h);
    assert(hb =~= seq![66u8, 101u8, 97u8, 114u8, 101u8, 114u8, 32u8] + tb);
    assert(has_bearer_prefix(hb)) by {
        assert forall|i: int| 0 <= i < 6 implies crate::gate::lower(#[trigger] hb[i]) == scheme()[i] by {
        }
    }
    let rest = hb.subrange(7, hb.len() as int);
    assert(rest =~= tb);
    assert(!is_space(tb[0])) by {
        assert(is_hex_char(tb[0]));
    }
    assert(trim_front(tb) == tb);
    let last = tb.len() - 1;
    assert(!is_space(tb.last())) by {
        assert(is_hex_char(tb[last]) || last == 40);
    }
    assert(trim_back(tb) == tb);
    assert(trimmed(rest) == tb);
    assert(bearer_credential(hb) == Some(tb));
    assert(decode_bytes(key, tb, now) == (if now > c.exp {
        Err::<TokenClaims, DecodeError>(DecodeError::Expired)
    } else {
        Ok(c)
    }));
}

/// A session just issued is let through with its own claims, and so the
/// user's id, until it expires.
pub proof fn lemma_issued_token_passes(
    key: Seq<u8>,
    store: Map<i32, Seq<char>>,
    user_id: i32,
    now: i64,
    later: i64,
)
    requires
        now <= i64::MAX - TOKEN_VALID_TIME,
        later <= now + TOKEN_VALID_TIME,
    ensures
        ({
            let c = issued_claims(user_id, now);
            let t = token_text(key, c);
            &&& gate_spec(key, Some(bearer_header(t)), later, after_issue(store, user_id, t))
                == GateOutcome::Pass(c)
            &&& c.user_id == user_id
        }),
{
    let c = issued_claims(user_id, now);
    lemma_bearer_token_decodes(key, c, later);
    lemma_token_shape(key, c);
    lemma_ascii_text_round_trip(token_bytes(key, c));
}

/// Issuing again to the same user supersedes the earlier token: a request bearing
/// it is turned away as expired, and one bearing the new token passes until the
/// new token expires.
pub proof fn lemma_reissue_supersedes(
    key: Seq<u8>,
    store: Map<i32, Seq<char>>,
    user_id: i32,
    first: i64,
    second: i64,
    later: i64,
)
    requires
        first <= i64::MAX - TOKEN_VALID_TIME,
        second <= i64::MAX - TOKEN_VALID_TIME,
        token_text(key, issued_claims(user_id, first)) != token_text(
            key,
            issued_claims(user_id, second),
        ),
    ensures
        ({
            let t1 = token_text(key, issued_claims(user_id, first));
            let t2 = token_text(key, issued_claims(user_id, second));
            let s = after_issue(after_issue(store, user_id, t1), user_id, t2);
            &&& gate_spec(key, Some(bearer_header(t1)), later, s) == GateOutcome::Reject(
                Rejection::Expired,
            )
            &&& later <= second + TOKEN_VALID_TIME ==> gate_spec(
                key,
                Some(bearer_header(t2)),
                later,
                s,
            ) == GateOutcome::Pass(issued_claims(user_id, second))
        }),
{
    let c1 = issued_claims(user_id, first);
    let c2 = issued_claims(user_id, second);
    lemma_bearer_token_decodes(key, c1, later);
    lemma_bearer_token_decodes(key, c2, later);
    lemma_token_shape(key, c1);
    lemma_token_shape(key, c2);
    lemma_ascii_text_round_trip(token_bytes(key, c1));
    lemma_ascii_text_round_trip(token_bytes(key, c2));
    assert(token_bytes(key, c1) != token_bytes(key, c2));
}

/// After a revoke, a request bearing the revoked token is turned away as expired.
pub proof fn lemma_revoked_token_rejected(
    key: Seq<u8>,
    store: Map<i32, Seq<char>>,
    user_id: i32,
    now: i64,
    later: i64,
)
    requires
        now <= i64::MAX - TOKEN_VALID_TIME,
    ensures
        ({
            let t = token_text(key, issued_claims(user_id, now));
            gate_spec(
                key,
                Some(bearer_header(t)),
                later,
                after_revoke(after_issue(store, user_id, t), user_id),
            ) == GateOutcome::Reject(Rejection::Expired)
        }),
{
    lemma_bearer_token_decodes(key, issued_claims(user_id, now), later);
}

/// A token past its expiry is turned away as expired, whatever the store holds,
/// even that same token.
pub proof fn lemma_expired_token_rejected(
    key: Seq<u8>,
    store: Map<i32, Seq<char>>,
    c: TokenClaims,
    now: i64,
)
    requires
        now > c.exp,
    ensures
        gate_spec(key, Some(bearer_header(token_text(key, c))), now, store) == GateOutcome::Reject(
            Rejection::Expired,
        ),
{
    lemma_bearer_token_decodes(key, c, now);
}

/// `session:` and the user id's eight digits: the store key of a user's current token.
pub open spec fn session_key_bytes(user_id: i32) -> Seq<u8> {
    seq![115u8, 101u8, 115u8, 115u8, 105u8, 111u8, 110u8, 58u8] + hex_digits(
        (user_id + 0x8000_0000) as nat,
        8,
    )
}

/// The store key under which `user_id`'s current token is kept; distinct users
/// have distinct keys.
pub fn session_key(user_id: i32) -> (r: String)
    ensures
        r@ == ascii_text(session_key_bytes(user_id)),
{
    let mut out: Vec<u8> = Vec::new();
    out.push(115u8);
    out.push(101u8);
    out.push(115u8);
    out.push(115u8);
    out.push(105u8);
    out.push(111u8);
    out.push(110u8);
    out.push(58u8);
    push_hex(&mut out, (user_id as i64 + 0x8000_0000) as u64, 8);
    assert(out@ =~= session_key_bytes(user_id));
    proof {
        lemma_hex_round_trip((user_id + 0x8000_0000) as nat, 8);
        let d = hex_digits((user_id + 0x8000_0000) as nat, 8);
        assert forall|i: int| 0 <= i < out@.len() implies #[trigger] out@[i] < 128 by {
            if i >= 8 {
                assert(out@[i] == d[i - 8]);
                assert(is_hex_char(d[i - 8]));
            }
        }
    }
    ascii_string(out)
}

/// Distinct users are kept under distinct keys.
pub proof fn lemma_session_keys_distinct(a: i32, b: i32)
    requires
        a != b,
    ensures
        session_key_bytes(a) != session_key_bytes(b),
{
    lemma_pow16_values();
    lemma_hex_round_trip((a + 0x8000_0000) as nat, 8);
    lemma_hex_round_trip((b + 0x8000_0000) as nat, 8);
    let ka = session_key_bytes(a);
    let kb = session_key_bytes(b);
    if ka == kb {
        assert(ka.subrange(8, 16) =~= hex_digits((a + 0x8000_0000) as nat, 8));
        assert(kb.subrange(8, 16) =~= hex_digits((b + 0x8000_0000) as nat, 8));
    }
}

} // verus!
