//! The claims codec: claims to a signed token string and back.
//!
//! A token is the 40 hexadecimal digits of its claims (user id, issued-at,
//! expiry, each offset to be non-negative), a `.`, and the 64 hexadecimal
//! digits of the HMAC-SHA256 of those 40 bytes under the process secret.

use vstd::prelude::*;
use vstd::utf8::is_ascii_chars;
use crate::hex::{
    all_hex, bytes_hex, hex_digits, hex_value, is_hex_char, lemma_bytes_hex, lemma_hex_canonical,
    lemma_hex_round_trip, lemma_pow16_values, parse_hex, push_bytes_hex, push_hex,
};
use crate::text::{
    ascii_bytes, ascii_slice_bytes, ascii_string, ascii_text, is_ascii_bytes,
    lemma_ascii_text_round_trip,
};

verus! {

/// How long a token, and its record in the session store, stays valid: seven days.
pub const TOKEN_VALID_TIME: i64 = 7 * 24 * 60 * 60;

/// The signed claim set of a session.
#[derive(Clone, Copy, Debug, PartialEq, Eq, Structural)]
pub struct TokenClaims {
    pub user_id: i32,
    pub iat: i64,
    pub exp: i64,
}

/// Why a token string was not accepted.
#[derive(Clone, Copy, Debug, PartialEq, Eq, Structural)]
pub enum DecodeError {
    /// Not the shape of a token.
    Malformed,
    /// The signature does not match the claims under this secret.
    InvalidSignature,
    /// Correctly signed, but the expiry has passed.
    Expired,
}

pub open spec fn offset32() -> int {
    0x8000_0000
}

pub open spec fn offset64() -> int {
    0x8000_0000_0000_0000
}

/// The 40 digits that carry the claims.
pub open spec fn payload_bytes(c: TokenClaims) -> Seq<u8> {
    hex_digits((c.user_id + offset32()) as nat, 8) + hex_digits((c.iat + offset64()) as nat, 16)
        + hex_digits((c.exp + offset64()) as nat, 16)
}

/// What HMAC-SHA256 gives for a key and a message.
pub uninterp spec fn hmac_sha256_of(key: Seq<u8>, msg: Seq<u8>) -> Seq<u8>;

pub open spec fn signature_hex(key: Seq<u8>, payload: Seq<u8>) -> Seq<u8> {
    bytes_hex(hmac_sha256_of(key, payload))
}

/// The bytes of the token that `key` gives for `c`.
pub open spec fn token_bytes(key: Seq<u8>, c: TokenClaims) -> Seq<u8> {
    payload_bytes(c) + seq![46u8] + signature_hex(key, payload_bytes(c))
}

/// The token that `key` gives for `c`, as text.
pub open spec fn token_text(key: Seq<u8>, c: TokenClaims) -> Seq<char> {
    ascii_text(token_bytes(key, c))
}

/// A payload of digits and a `.` after it.
pub open spec fn well_formed(t: Seq<u8>) -> bool {
    &&& t.len() > 40
    &&& t[40] == 46u8
    &&& all_hex(t.subrange(0, 8))
    &&& all_hex(t.subrange(8, 24))
    &&& all_hex(t.subrange(24, 40))
}

/// The claims that a well-formed token's payload spells.
pub open spec fn claims_in(t: Seq<u8>) -> TokenClaims {
    TokenClaims {
        user_id: (hex_value(t.subrange(0, 8)) - offset32()) as i32,
        iat: (hex_value(t.subrange(8, 24)) - offset64()) as i64,
        exp: (hex_value(t.subrange(24, 40)) - offset64()) as i64,
    }
}

/// The signature part matches the payload under `key`.
pub open spec fn signed(key: Seq<u8>, t: Seq<u8>) -> bool {
    t.subrange(41, t.len() as int) == signature_hex(key, t.subrange(0, 40))
}

/// Decoding token bytes at time `now` (seconds).
pub open spec fn decode_bytes(key: Seq<u8>, t: Seq<u8>, now: i64) -> Result<TokenClaims, DecodeError> {
    if !well_formed(t) {
        Err(DecodeError::Malformed)
    } else if !signed(key, t) {
        Err(DecodeError::InvalidSignature)
    } else if now > claims_in(t).exp {
        Err(DecodeError::Expired)
    } else {
        Ok(claims_in(t))
    }
}

/// Decoding token text: text that is not ASCII is no token.
pub open spec fn decode_text(key: Seq<u8>, s: Seq<char>, now: i64) -> Result<TokenClaims, DecodeError> {
    if is_ascii_chars(s) {
        decode_bytes(key, ascii_bytes(s), now)
    } else {
        Err(DecodeError::Malformed)
    }
}

/// Relies on hmac's `Hmac<Sha256>` (with sha2's SHA-256): `new_from_slice` takes a
/// key of any length, and the tag is fixed by key and message.
#[verifier::external_body]
fn hmac_sha256(key: &[u8], msg: &[u8]) -> (r: Vec<u8>)
    ensures
        r@ == hmac_sha256_of(key@, msg@),
{
    let mut mac = <hmac::Hmac<sha2::Sha256> as hmac::Mac>::new_from_slice(key)
        .expect("HMAC takes keys of any length");
    hmac::Mac::update(&mut mac, msg);
    hmac::Mac::finalize(mac).into_bytes().to_vec()
}

/// Signs and reads tokens with one secret, given once at start-up.
pub struct TokenCodec {
    secret: Vec<u8>,
}

impl View for TokenCodec {
    type V = Seq<u8>;

    closed spec fn view(&self) -> Seq<u8> {
        self.secret@
    }
}

proof fn lemma_payload(c: TokenClaims)
    ensures
        payload_bytes(c).len() == 40,
        payload_bytes(c).subrange(0, 8) == hex_digits((c.user_id + offset32()) as nat, 8),
        payload_bytes(c).subrange(8, 24) == hex_digits((c.iat + offset64()) as nat, 16),
        payload_bytes(c).subrange(24, 40) == hex_digits((c.exp + offset64()) as nat, 16),
        all_hex(payload_bytes(c)),
{
    let a = hex_digits((c.user_id + offset32()) as nat, 8);
    let b = hex_digits((c.iat + offset64()) as nat, 16);
    let d = hex_digits((c.exp + offset64()) as nat, 16);
    lemma_hex_round_trip((c.user_id + offset32()) as nat, 8);
    lemma_hex_round_trip((c.iat + offset64()) as nat, 16);
    lemma_hex_round_trip((c.exp + offset64()) as nat, 16);
    let p = payload_bytes(c);
    assert(p.subrange(0, 8) =~= a);
    assert(p.subrange(8, 24) =~= b);
    assert(p.subrange(24, 40) =~= d);
    assert forall|i: int| 0 <= i < p.len() implies is_hex_char(#[trigger] p[i]) by {
        if i < 8 {
            assert(p[i] == a[i]);
        } else if i < 24 {
            assert(p[i] == b[i - 8]);
        } else {
            assert(p[i] == d[i - 24]);
        }
    }
}

/// The shape of an encoded token: payload, `.`, signature, all of it digits
/// but the `.`.
pub proof fn lemma_token_shape(key: Seq<u8>, c: TokenClaims)
    ensures
        forall|i: int|
            0 <= i < token_bytes(key, c).len() ==> is_hex_char(#[trigger] token_bytes(key, c)[i])
                || i == 40,
        token_bytes(key, c).len() > 40,
        token_bytes(key, c).subrange(0, 40) == payload_bytes(c),
        token_bytes(key, c)[40] == 46u8,
        token_bytes(key, c).subrange(41, token_bytes(key, c).len() as int) == signature_hex(
            key,
            payload_bytes(c),
        ),
        is_ascii_bytes(token_bytes(key, c)),
{
    lemma_payload(c);
    let p = payload_bytes(c);
    let s = signature_hex(key, p);
    let t = token_bytes(key, c);
    lemma_bytes_hex(hmac_sha256_of(key, p));
    assert(t.subrange(0, 40) =~= p);
    assert(t.subrange(41, t.len() as int) =~= s);
    assert forall|i: int| 0 <= i < t.len() implies #[trigger] t[i] < 128 && (is_hex_char(t[i])
        || i == 40) by {
        if i < 40 {
            assert(t[i] == p[i]);
            assert(is_hex_char(p[i]));
        } else if i > 40 {
            assert(t[i] == s[i - 41]);
            assert(is_hex_char(s[i - 41]));
        }
    }
}

/// Encoding and then decoding gives the claims back, whenever the expiry has not
/// passed; before that check the claims come back for every time.
pub proof fn lemma_round_trip(key: Seq<u8>, c: TokenClaims, now: i64)
    ensures
        decode_text(key, token_text(key, c), now) == (if now > c.exp {
            Err::<TokenClaims, DecodeError>(DecodeError::Expired)
        } else {
            Ok(c)
        }),
{
    let t = token_bytes(key, c);
    lemma_token_shape(key, c);
    lemma_payload(c);
    lemma_ascii_text_round_trip(t);
    assert(ascii_bytes(token_text(key, c)) == t);
    assert(t.subrange(0, 40).subrange(0, 8) =~= t.subrange(0, 8));
    assert(t.subrange(0, 40).subrange(8, 24) =~= t.subrange(8, 24));
    assert(t.subrange(0, 40).subrange(24, 40) =~= t.subrange(24, 40));
    lemma_pow16_values();
    lemma_hex_round_trip((c.user_id + offset32()) as nat, 8);
    lemma_hex_round_trip((c.iat + offset64()) as nat, 16);
    lemma_hex_round_trip((c.exp + offset64()) as nat, 16);
    assert(well_formed(t));
    assert(claims_in(t) == c);
}

/// A token that decodes is exactly the encoding of the claims it yields: no other
/// string, a one-bit change of a token included, decodes to those claims, and
/// one decodes at all only if it carries a valid signature over its own claims.
pub proof fn lemma_decoded_token_is_canonical(key: Seq<u8>, s: Seq<char>, now: i64)
    requires
        decode_text(key, s, now) is Ok,
    ensures
        s == token_text(key, decode_text(key, s, now)->Ok_0),
{
    let t = ascii_bytes(s);
    let c = claims_in(t);
    let a = t.subrange(0, 8);
    let b = t.subrange(8, 24);
    let d = t.subrange(24, 40);
    lemma_hex_canonical(a);
    lemma_hex_canonical(b);
    lemma_hex_canonical(d);
    lemma_pow16_values();
    assert((c.user_id + offset32()) as nat == hex_value(a));
    assert((c.iat + offset64()) as nat == hex_value(b));
    assert((c.exp + offset64()) as nat == hex_value(d));
    assert(t.subrange(0, 40) =~= a + b + d);
    assert(payload_bytes(c) =~= t.subrange(0, 40));
    assert(t =~= token_bytes(key, c));
    assert forall|i: int| 0 <= i < s.len() implies token_text(key, c)[i] == s[i] by {
        assert(t[i] == s[i] as u8);
        assert('\0' <= s[i] <= '\u{7f}');
    }
    assert(s =~= token_text(key, c));
}

pub(crate) fn bytes_equal(a: &[u8], b: &[u8]) -> (r: bool)
    ensures
        r == (a@ == b@),
{
    if a.len() != b.len() {
        return false;
    }
    let mut same = true;
    let mut i: usize = 0;
    assert(a@.take(0) =~= b@.take(0));
    while i < a.len()
        invariant
            a@.len() == b@.len(),
            i <= a@.len(),
            same == (a@.take(i as int) == b@.take(i as int)),
        decreases a@.len() - i,
    {
        proof {
            if same {
                assert(a@.take(i as int) =~= b@.take(i as int));
            }
            assert(a@.take(i as int + 1).take(i as int) =~= a@.take(i as int));
            assert(b@.take(i as int + 1).take(i as int) =~= b@.take(i as int));
        }
        same = same && a[i] == b[i];
        proof {
            if !same {
                if a@.take(i as int + 1) == b@.take(i as int + 1) {
                    assert(a@.take(i as int + 1)[i as int] == b@.take(i as int + 1)[i as int]);
                }
            } else {
                assert(a@.take(i as int + 1) =~= b@.take(i as int + 1));
            }
        }
        i = i + 1;
    }
    assert(a@.take(a@.len() as int) =~= a@);
    assert(b@.take(b@.len() as int) =~= b@);
    same
}

impl TokenCodec {
    /// A codec that signs with `secret`.
    pub fn new(secret: Vec<u8>) -> (r: TokenCodec)
        ensures
            r@ == secret@,
    {
        TokenCodec { secret }
    }

    /// The signed token for `claims`.
    pub fn encode(&self, claims: &TokenClaims) -> (r: String)
        ensures
            r@ == token_text(self@, *claims),
    {
        let mut out: Vec<u8> = Vec::new();
        push_hex(&mut out, (claims.user_id as i64 + 0x8000_0000) as u64, 8);
        push_hex(&mut out, (claims.iat as i128 + 0x8000_0000_0000_0000) as u64, 16);
        push_hex(&mut out, (claims.exp as i128 + 0x8000_0000_0000_0000) as u64, 16);
        assert(out@ =~= payload_bytes(*claims));
        let mac = hmac_sha256(self.secret.as_slice(), out.as_slice());
        out.push(46u8);
        push_bytes_hex(&mut out, mac.as_slice());
        assert(out@ =~= token_bytes(self@, *claims));
        proof {
            lemma_token_shape(self@, *claims);
        }
        ascii_string(out)
    }

    /// Reads a token at time `now` (seconds): its claims, or why it is refused.
    pub fn decode(&self, token: &str, now: i64) -> (r: Result<TokenClaims, DecodeError>)
        ensures
            r == decode_text(self@, token@, now),
    {
        if !token.is_ascii() {
            return Err(DecodeError::Malformed);
        }
        let t = ascii_slice_bytes(token);
        self.decode_bytes_of(t, now)
    }

    /// Reads token bytes at time `now`.
    pub fn decode_bytes_of(&self, t: &[u8], now: i64) -> (r: Result<TokenClaims, DecodeError>)
        ensures
            r == decode_bytes(self@, t@, now),
    {
        let len = t.len();
        if len <= 40 || t[40] != 46u8 {
            return Err(DecodeError::Malformed);
        }
        let user = match parse_hex(t, 0, 8) {
            Some(v) => v,
            None => return Err(DecodeError::Malformed),
        };
        let iat = match parse_hex(t, 8, 16) {
            Some(v) => v,
            None => return Err(DecodeError::Malformed),
        };
        let exp = match parse_hex(t, 24, 16) {
            Some(v) => v,
            None => return Err(DecodeError::Malformed),
        };
        proof {
            lemma_hex_canonical(t@.subrange(0, 8));
            lemma_hex_canonical(t@.subrange(8, 24));
            lemma_hex_canonical(t@.subrange(24, 40));
            lemma_pow16_values();
        }
        let payload = &t[0..40];
        let mac = hmac_sha256(self.secret.as_slice(), payload);
        let mut expected: Vec<u8> = Vec::new();
        push_bytes_hex(&mut expected, mac.as_slice());
        assert(expected@ =~= signature_hex(self@, t@.subrange(0, 40)));
        let sig = &t[41..len];
        if !bytes_equal(expected.as_slice(), sig) {
            return Err(DecodeError::InvalidSignature);
        }
        let claims = TokenClaims {
            user_id: (user as i64 - 0x8000_0000) as i32,
            iat: (iat as i128 - 0x8000_0000_0000_0000) as i64,
            exp: (exp as i128 - 0x8000_0000_0000_0000) as i64,
        };
        assert(well_formed(t@));
        assert(signed(self@, t@));
        assert(claims == claims_in(t@));
        if now > claims.exp {
            Err(DecodeError::Expired)
        } else {
            Ok(claims)
        }
    }
}

} // verus!
