use api::{DecodeError, TokenClaims, TokenCodec, TOKEN_VALID_TIME};

fn codec() -> TokenCodec {
    TokenCodec::new(b"secret".to_vec())
}

fn claims(user_id: i32, iat: i64) -> TokenClaims {
    TokenClaims { user_id, iat, exp: iat + TOKEN_VALID_TIME }
}

#[test]
fn encode_gives_exact_signed_token() {
    let t = codec().encode(&claims(42, 0));
    assert_eq!(
        t,
        "8000002a80000000000000008000000000093a80.3f88e15fd7d88ea7bd2597965c50aaa3c8ed598820b089c2d75fac0b72dbcab0"
    );
}

#[test]
fn round_trip_gives_claims_back() {
    let c = codec();
    for (user, iat) in [(42, 1_700_000_000i64), (0, 0), (-1, -5), (i32::MAX, 12), (i32::MIN, -12)] {
        let cl = claims(user, iat);
        let t = c.encode(&cl);
        assert_eq!(c.decode(&t, iat), Ok(cl));
        assert_eq!(c.decode(&t, cl.exp), Ok(cl));
    }
    let extreme = TokenClaims { user_id: 7, iat: i64::MIN, exp: i64::MAX };
    assert_eq!(c.decode(&c.encode(&extreme), 0), Ok(extreme));
}

#[test]
fn validity_window_is_seven_days() {
    assert_eq!(TOKEN_VALID_TIME, 604800);
}

#[test]
fn expired_token_is_refused() {
    let c = codec();
    let cl = claims(3, 100);
    let t = c.encode(&cl);
    assert_eq!(c.decode(&t, cl.exp + 1), Err(DecodeError::Expired));
}

#[test]
fn other_secret_gives_invalid_signature() {
    let t = codec().encode(&claims(3, 100));
    let other = TokenCodec::new(b"another".to_vec());
    assert_eq!(other.decode(&t, 100), Err(DecodeError::InvalidSignature));
}

#[test]
fn garbage_is_malformed() {
    let c = codec();
    assert_eq!(c.decode("", 0), Err(DecodeError::Malformed));
    assert_eq!(c.decode("abc", 0), Err(DecodeError::Malformed));
    assert_eq!(c.decode("é", 0), Err(DecodeError::Malformed));
    let t = c.encode(&claims(1, 0));
    let upper = t.to_uppercase();
    assert_eq!(c.decode(&upper, 0), Err(DecodeError::Malformed));
}

#[test]
fn every_single_bit_flip_is_refused() {
    let c = codec();
    let t = c.encode(&claims(42, 1000));
    let bytes = t.as_bytes().to_vec();
    for i in 0..bytes.len() {
        for bit in 0..8 {
            let mut flipped = bytes.clone();
            flipped[i] ^= 1 << bit;
            let r = c.decode_bytes_of(&flipped, 1000);
            assert!(
                r == Err(DecodeError::Malformed) || r == Err(DecodeError::InvalidSignature),
                "byte {} bit {} gave {:?}",
                i,
                bit,
                r
            );
        }
    }
}

#[test]
fn truncated_or_extended_token_is_refused() {
    let c = codec();
    let t = c.encode(&claims(42, 1000));
    assert_eq!(c.decode(&t[..t.len() - 1], 1000), Err(DecodeError::InvalidSignature));
    assert_eq!(c.decode(&format!("{}0", t), 1000), Err(DecodeError::InvalidSignature));
    assert_eq!(c.decode(&t[..40], 1000), Err(DecodeError::Malformed));
}
