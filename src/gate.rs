//! The authentication gate: from a request's `Authorization` header and the
//! session store's answer to a pass with the caller's claims, or a rejection.
//!
//! It runs in two steps around the one store lookup: `begin` reads the header
//! and decodes the credential, `resolve` compares it with the stored token.

use vstd::prelude::*;
use vstd::utf8::is_ascii_chars;
use crate::codec::{decode_bytes, DecodeError, TokenClaims, TokenCodec};
use crate::text::{ascii_bytes, ascii_slice_bytes};

verus! {

/// Why a request was turned away.
#[derive(Clone, Copy, Debug, PartialEq, Eq, Structural)]
pub enum Rejection {
    /// No credential, or one that is not a correctly signed token.
    Unauthenticated,
    /// A signed token that has expired, or is no longer the user's live session.
    Expired,
    /// The session store could not be asked.
    InfrastructureFailure,
}

/// What the session store answered for a user's current token.
pub enum StoreReply {
    Found(String),
    Missing,
    Unavailable,
}

/// The store's answer, in terms of values.
pub enum ReplyView {
    Found(Seq<char>),
    Missing,
    Unavailable,
}

/// The first step's result: turned away, or a decoded credential whose user's
/// current token must be fetched.
#[derive(Debug)]
pub enum GateStep {
    Reject(Rejection),
    Lookup { claims: TokenClaims, token: Vec<u8> },
}

/// The first step's result, in terms of values.
pub enum StepView {
    Reject(Rejection),
    Lookup(TokenClaims, Seq<u8>),
}

/// The outcome of the check on one request.
#[derive(Clone, Copy, Debug, PartialEq, Eq, Structural)]
pub enum GateOutcome {
    Pass(TokenClaims),
    Reject(Rejection),
}

pub open spec fn reply_view(r: &StoreReply) -> ReplyView {
    match r {
        StoreReply::Found(s) => ReplyView::Found(s@),
        StoreReply::Missing => ReplyView::Missing,
        StoreReply::Unavailable => ReplyView::Unavailable,
    }
}

pub open spec fn step_view(s: &GateStep) -> StepView {
    match s {
        GateStep::Reject(r) => StepView::Reject(*r),
        GateStep::Lookup { claims, token } => StepView::Lookup(*claims, token@),
    }
}

pub open spec fn header_view(h: Option<&str>) -> Option<Seq<char>> {
    match h {
        Some(s) => Some(s@),
        None => None,
    }
}

/// Space, tab, line feed, form feed, carriage return.
pub open spec fn is_space(c: u8) -> bool {
    c == 32 || c == 9 || c == 10 || c == 12 || c == 13
}

pub open spec fn trim_front(s: Seq<u8>) -> Seq<u8>
    decreases s.len(),
{
    if s.len() > 0 && is_space(s[0]) {
        trim_front(s.drop_first())
    } else {
        s
    }
}

pub open spec fn trim_back(s: Seq<u8>) -> Seq<u8>
    decreases s.len(),
{
    if s.len() > 0 && is_space(s.last()) {
        trim_back(s.drop_last())
    } else {
        s
    }
}

/// `s` without the white space at either end.
pub open spec fn trimmed(s: Seq<u8>) -> Seq<u8> {
    trim_back(trim_front(s))
}

/// An ASCII letter in lower case; other bytes as they are.
pub open spec fn lower(c: u8) -> u8 {
    if 65 <= c <= 90 {
        (c + 32) as u8
    } else {
        c
    }
}

/// `bearer` in lower case.
pub open spec fn scheme() -> Seq<u8> {
    seq![98u8, 101u8, 97u8, 114u8, 101u8, 114u8]
}

/// The header starts with `Bearer ` in any case.
pub open spec fn has_bearer_prefix(h: Seq<u8>) -> bool {
    &&& h.len() >= 7
    &&& forall|i: int| 0 <= i < 6 ==> lower(#[trigger] h[i]) == scheme()[i]
    &&& h[6] == 32u8
}

/// The credential that a header carries: what follows the scheme, trimmed, if
/// anything is left.
pub open spec fn bearer_credential(h: Seq<u8>) -> Option<Seq<u8>> {
    if has_bearer_prefix(h) && trimmed(h.subrange(7, h.len() as int)).len() > 0 {
        Some(trimmed(h.subrange(7, h.len() as int)))
    } else {
        None
    }
}

/// The first step: read the header, decode the credential at time `now`.
pub open spec fn begin_spec(key: Seq<u8>, header: Option<Seq<char>>, now: i64) -> StepView {
    match header {
        None => StepView::Reject(Rejection::Unauthenticated),
        Some(h) => if !is_ascii_chars(h) {
            StepView::Reject(Rejection::Unauthenticated)
        } else {
            match bearer_credential(ascii_bytes(h)) {
                None => StepView::Reject(Rejection::Unauthenticated),
                Some(t) => match decode_bytes(key, t, now) {
                    Ok(c) => StepView::Lookup(c, t),
                    Err(DecodeError::Expired) => StepView::Reject(Rejection::Expired),
                    Err(_) => StepView::Reject(Rejection::Unauthenticated),
                },
            }
        },
    }
}

/// The second step: compare the presented credential with the stored token.
pub open spec fn resolve_spec(claims: TokenClaims, token: Seq<u8>, reply: ReplyView) -> GateOutcome {
    match reply {
        ReplyView::Unavailable => GateOutcome::Reject(Rejection::InfrastructureFailure),
        ReplyView::Missing => GateOutcome::Reject(Rejection::Expired),
        ReplyView::Found(s) => if is_ascii_chars(s) && ascii_bytes(s) == token {
            GateOutcome::Pass(claims)
        } else {
            GateOutcome::Reject(Rejection::Expired)
        },
    }
}

/// What a reachable store holding `store` answers for `user_id`.
pub open spec fn reply_of(store: Map<i32, Seq<char>>, user_id: i32) -> ReplyView {
    if store.contains_key(user_id) {
        ReplyView::Found(store[user_id])
    } else {
        ReplyView::Missing
    }
}

/// The whole gate against a reachable store whose current tokens are `store`.
pub open spec fn gate_spec(
    key: Seq<u8>,
    header: Option<Seq<char>>,
    now: i64,
    store: Map<i32, Seq<char>>,
) -> GateOutcome {
    match begin_spec(key, header, now) {
        StepView::Reject(r) => GateOutcome::Reject(r),
        StepView::Lookup(c, t) => resolve_spec(c, t, reply_of(store, c.user_id)),
    }
}

fn is_space_exec(c: u8) -> (r: bool)
    ensures
        r == is_space(c),
{
    c == 32 || c == 9 || c == 10 || c == 12 || c == 13
}

/// The bytes of `b` from `start` on, without the white space at either end.
fn trim_from(b: &[u8], start: usize) -> (r: Vec<u8>)
    requires
        start <= b@.len(),
    ensures
        r@ == trimmed(b@.subrange(start as int, b@.len() as int)),
{
    let len = b.len();
    let ghost whole = b@.subrange(start as int, len as int);
    let mut i = start;
    while i < len && is_space_exec(b[i])
        invariant
            len == b@.len(),
            start <= i <= len,
            trim_front(whole) == trim_front(b@.subrange(i as int, len as int)),
        decreases len - i,
    {
        assert(b@.subrange(i as int, len as int).drop_first() =~= b@.subrange(i + 1, len as int));
        i = i + 1;
    }
    assert(trim_front(whole) == b@.subrange(i as int, len as int));
    let mut j = len;
    while j > i && is_space_exec(b[j - 1])
        invariant
            len == b@.len(),
            i <= j <= len,
            trimmed(whole) == trim_back(b@.subrange(i as int, j as int)),
        decreases j,
    {
        assert(b@.subrange(i as int, j as int).drop_last() =~= b@.subrange(i as int, j - 1));
        j = j - 1;
    }
    assert(trimmed(whole) == b@.subrange(i as int, j as int));
    let mut out: Vec<u8> = Vec::new();
    let mut k = i;
    while k < j
        invariant
            len == b@.len(),
            i <= k <= j <= len,
            out@ == b@.subrange(i as int, k as int),
        decreases j - k,
    {
        out.push(b[k]);
        assert(out@ =~= b@.subrange(i as int, k + 1));
        k = k + 1;
    }
    out
}

fn lower_exec(c: u8) -> (r: u8)
    ensures
        r == lower(c),
{
    if 65 <= c && c <= 90 {
        c + 32
    } else {
        c
    }
}

/// The credential of a header's bytes.
pub fn bearer_token(h: &[u8]) -> (r: Option<Vec<u8>>)
    ensures
        match r {
            Some(t) => bearer_credential(h@) == Some(t@),
            None => bearer_credential(h@) is None,
        },
{
    if h.len() < 7 || h[6] != 32u8 {
        return None;
    }
    let name: [u8; 6] = [98u8, 101u8, 97u8, 114u8, 101u8, 114u8];
    assert(name@ =~= scheme());
    let mut i: usize = 0;
    while i < 6
        invariant
            h@.len() >= 7,
            name@ == scheme(),
            i <= 6,
            forall|k: int| 0 <= k < i ==> lower(#[trigger] h@[k]) == scheme()[k],
        decreases 6 - i,
    {
        if lower_exec(h[i]) != name[i] {
            return None;
        }
        i = i + 1;
    }
    let t = trim_from(h, 7);
    if t.len() == 0 {
        None
    } else {
        Some(t)
    }
}

/// Checks bearer credentials against their signature and the session store.
pub struct AuthMiddleware {
    codec: TokenCodec,
}

impl View for AuthMiddleware {
    type V = Seq<u8>;

    /// The secret that tokens are checked with.
    closed spec fn view(&self) -> Seq<u8> {
        self.codec@
    }
}

impl AuthMiddleware {
    pub fn new(codec: TokenCodec) -> (r: AuthMiddleware)
        ensures
            r@ == codec@,
    {
        AuthMiddleware { codec }
    }

    /// The first step for a request with this `Authorization` header (if any) at
    /// time `now`. A rejection here is final: no lookup is needed.
    pub fn begin(&self, header: Option<&str>, now: i64) -> (r: GateStep)
        ensures
            step_view(&r) == begin_spec(self@, header_view(header), now),
    {
        let h = match header {
            None => return GateStep::Reject(Rejection::Unauthenticated),
            Some(h) => h,
        };
        if !h.is_ascii() {
            return GateStep::Reject(Rejection::Unauthenticated);
        }
        let bytes = ascii_slice_bytes(h);
        let token = match bearer_token(bytes) {
            None => return GateStep::Reject(Rejection::Unauthenticated),
            Some(t) => t,
        };
        match self.codec.decode_bytes_of(token.as_slice(), now) {
            Ok(claims) => GateStep::Lookup { claims, token },
            Err(DecodeError::Expired) => GateStep::Reject(Rejection::Expired),
            Err(_) => GateStep::Reject(Rejection::Unauthenticated),
        }
    }

    /// The second step: the verdict once the store has answered for the user
    /// that `begin` named.
    pub fn resolve(&self, claims: TokenClaims, token: &[u8], reply: &StoreReply) -> (r: GateOutcome)
        ensures
            r == resolve_spec(claims, token@, reply_view(reply)),
    {
        match reply {
            StoreReply::Unavailable => GateOutcome::Reject(Rejection::InfrastructureFailure),
            StoreReply::Missing => GateOutcome::Reject(Rejection::Expired),
            StoreReply::Found(s) => {
                if !s.is_ascii() {
                    return GateOutcome::Reject(Rejection::Expired);
                }
                let stored = ascii_slice_bytes(s.as_str());
                if crate::codec::bytes_equal(stored, token) {
                    GateOutcome::Pass(claims)
                } else {
                    GateOutcome::Reject(Rejection::Expired)
                }
            },
        }
    }
}

/// Makes a gate for each service it guards, all with one secret.
pub struct AuthMiddlewareFactory {
    secret: Vec<u8>,
}

impl View for AuthMiddlewareFactory {
    type V = Seq<u8>;

    closed spec fn view(&self) -> Seq<u8> {
        self.secret@
    }
}

impl AuthMiddlewareFactory {
    pub fn new(secret: Vec<u8>) -> (r: AuthMiddlewareFactory)
        ensures
            r@ == secret@,
    {
        AuthMiddlewareFactory { secret }
    }

    /// A gate that checks tokens with this factory's secret.
    pub fn new_transform(&self) -> (r: AuthMiddleware)
        ensures
            r@ == self@,
    {
        let mut secret: Vec<u8> = Vec::new();
        let mut i: usize = 0;
        while i < self.secret.len()
            invariant
                i <= self.secret@.len(),
                secret@ == self.secret@.take(i as int),
            decreases self.secret@.len() - i,
        {
            secret.push(self.secret[i]);
            assert(secret@ =~= self.secret@.take(i as int + 1));
            i = i + 1;
        }
        assert(secret@ =~= self.secret@);
        AuthMiddleware::new(TokenCodec::new(secret))
    }
}

} // verus!
