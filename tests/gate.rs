use api::{
    AuthMiddleware, AuthMiddlewareFactory, GateOutcome, GateStep, Rejection, SessionManager,
    StoreReply, TokenClaims, TokenCodec, TOKEN_VALID_TIME,
};

const SECRET: &[u8] = b"0123456789abcdef";

fn gate() -> AuthMiddleware {
    AuthMiddlewareFactory::new(SECRET.to_vec()).new_transform()
}

fn sessions() -> SessionManager {
    SessionManager::new(TokenCodec::new(SECRET.to_vec()))
}

/// Runs both steps against a store that holds `stored` for the user named.
fn check(g: &AuthMiddleware, header: &str, now: i64, stored: Option<&str>) -> GateOutcome {
    match g.begin(Some(header), now) {
        GateStep::Reject(r) => GateOutcome::Reject(r),
        GateStep::Lookup { claims, token } => {
            let reply = match stored {
                Some(s) => StoreReply::Found(s.to_string()),
                None => StoreReply::Missing,
            };
            g.resolve(claims, &token, &reply)
        }
    }
}

#[test]
fn issued_token_passes_then_is_superseded() {
    let g = gate();
    let m = sessions();
    let s1 = m.issue_at(42, 1_000);
    let h1 = format!("Bearer {}", s1.token);
    let stored = s1.token.clone();
    match check(&g, &h1, 1_500, Some(&stored)) {
        GateOutcome::Pass(c) => assert_eq!(c.user_id, 42),
        other => panic!("expected a pass, got {:?}", other),
    }
    let s2 = m.issue_at(42, 2_000);
    assert_ne!(s1.token, s2.token);
    let h2 = format!("Bearer {}", s2.token);
    assert_eq!(check(&g, &h1, 2_500, Some(&s2.token)), GateOutcome::Reject(Rejection::Expired));
    assert_eq!(check(&g, &h2, 2_500, Some(&s2.token)), GateOutcome::Pass(s2.claims));
}

#[test]
fn missing_record_is_expired() {
    let g = gate();
    let s = sessions().issue_at(7, 50);
    let h = format!("Bearer {}", s.token);
    assert_eq!(check(&g, &h, 60, None), GateOutcome::Reject(Rejection::Expired));
}

#[test]
fn revoked_session_is_expired() {
    let g = gate();
    let s = sessions().issue_at(9, 50);
    let h = format!("Bearer {}", s.token);
    assert_eq!(check(&g, &h, 60, Some(&s.token)), GateOutcome::Pass(s.claims));
    assert_eq!(check(&g, &h, 61, None), GateOutcome::Reject(Rejection::Expired));
}

#[test]
fn wrong_scheme_is_rejected_before_lookup() {
    let g = gate();
    assert!(matches!(
        g.begin(Some("basic abc"), 0),
        GateStep::Reject(Rejection::Unauthenticated)
    ));
    let s = sessions().issue_at(1, 0);
    let h = format!("Basic {}", s.token);
    assert!(matches!(g.begin(Some(&h), 0), GateStep::Reject(Rejection::Unauthenticated)));
}

#[test]
fn missing_or_empty_header_is_unauthenticated() {
    let g = gate();
    assert!(matches!(g.begin(None, 0), GateStep::Reject(Rejection::Unauthenticated)));
    assert!(matches!(g.begin(Some(""), 0), GateStep::Reject(Rejection::Unauthenticated)));
    assert!(matches!(g.begin(Some("Bearer "), 0), GateStep::Reject(Rejection::Unauthenticated)));
    assert!(matches!(g.begin(Some("Bearer    "), 0), GateStep::Reject(Rejection::Unauthenticated)));
    assert!(matches!(g.begin(Some("Bearer\tabc"), 0), GateStep::Reject(Rejection::Unauthenticated)));
    assert!(matches!(g.begin(Some("Bearer abc"), 0), GateStep::Reject(Rejection::Unauthenticated)));
}

#[test]
fn scheme_is_case_insensitive_and_credential_trimmed() {
    let g = gate();
    let s = sessions().issue_at(5, 0);
    for h in [
        format!("bearer {}", s.token),
        format!("BEARER {}", s.token),
        format!("bEaReR   {} \t", s.token),
    ] {
        assert_eq!(check(&g, &h, 10, Some(&s.token)), GateOutcome::Pass(s.claims));
    }
}

#[test]
fn expired_token_is_rejected_even_when_stored() {
    let g = gate();
    let s = sessions().issue_at(5, 0);
    let h = format!("Bearer {}", s.token);
    let later = TOKEN_VALID_TIME + 1;
    assert!(matches!(g.begin(Some(&h), later), GateStep::Reject(Rejection::Expired)));
    assert_eq!(check(&g, &h, later, Some(&s.token)), GateOutcome::Reject(Rejection::Expired));
    assert_eq!(check(&g, &h, TOKEN_VALID_TIME, Some(&s.token)), GateOutcome::Pass(s.claims));
}

#[test]
fn foreign_signature_is_unauthenticated() {
    let g = gate();
    let other = SessionManager::new(TokenCodec::new(b"other".to_vec())).issue_at(5, 0);
    let h = format!("Bearer {}", other.token);
    assert!(matches!(g.begin(Some(&h), 1), GateStep::Reject(Rejection::Unauthenticated)));
}

#[test]
fn unreachable_store_is_infrastructure_failure() {
    let g = gate();
    let s = sessions().issue_at(5, 0);
    let c = TokenClaims { user_id: 5, iat: 0, exp: TOKEN_VALID_TIME };
    assert_eq!(s.claims, c);
    let r = g.resolve(c, s.token.as_bytes(), &StoreReply::Unavailable);
    assert_eq!(r, GateOutcome::Reject(Rejection::InfrastructureFailure));
}

#[test]
fn lookup_carries_claims_and_presented_token() {
    let g = gate();
    let s = sessions().issue_at(11, 3);
    let h = format!("Bearer  {}  ", s.token);
    match g.begin(Some(&h), 4) {
        GateStep::Lookup { claims, token } => {
            assert_eq!(claims, s.claims);
            assert_eq!(token, s.token.as_bytes().to_vec());
        }
        other => panic!("expected a lookup, got {:?}", other),
    }
}

#[test]
fn non_ascii_stored_token_does_not_match() {
    let g = gate();
    let s = sessions().issue_at(11, 3);
    let r = g.resolve(s.claims, s.token.as_bytes(), &StoreReply::Found("é".to_string()));
    assert_eq!(r, GateOutcome::Reject(Rejection::Expired));
}
