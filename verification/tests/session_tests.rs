use botinski::session::{AppSession, AppSessionCookie, CookieError, SessionRejection, SESSION_VALID_MS};

#[test]
fn cookie_round_trip_preserves_id_and_token() {
    let id = uuid::Uuid::new_v4().as_u128();
    let token = "abc.def".to_string();
    let raw = AppSessionCookie::new(id, token.clone()).to_cookie_value();
    let parsed = AppSessionCookie::from_cookie_str(&raw).ok().unwrap();
    assert_eq!(parsed.session_id(), id);
    assert_eq!(parsed.token(), token);
}

#[test]
fn cookie_parse_rejects_missing_separator() {
    assert!(AppSessionCookie::from_cookie_str("nope").is_err());
}

#[test]
fn cookie_value_is_hyphenated_id_colon_token() {
    let id: u128 = 0x67e55044_10b1_426f_9247_bb680e5fe0c8;
    let raw = AppSessionCookie::new(id, "tok:en".to_string()).to_cookie_value();
    assert_eq!(raw, "67e55044-10b1-426f-9247-bb680e5fe0c8:tok:en");
}

#[test]
fn cookie_splits_at_first_colon() {
    let parsed = AppSessionCookie::from_cookie_str("67e55044-10b1-426f-9247-bb680e5fe0c8:a:b")
        .ok()
        .unwrap();
    assert_eq!(parsed.session_id(), 0x67e55044_10b1_426f_9247_bb680e5fe0c8);
    assert_eq!(parsed.token(), "a:b");
}

#[test]
fn cookie_errors_name_their_cause() {
    assert!(matches!(AppSessionCookie::from_cookie_str("nope"), Err(CookieError::MissingSeparator)));
    assert!(matches!(AppSessionCookie::from_cookie_str("not-a-uuid:tok"), Err(CookieError::InvalidId)));
    assert!(matches!(AppSessionCookie::from_cookie_str(""), Err(CookieError::MissingSeparator)));
}

#[test]
fn minted_token_authenticates_until_expiry() {
    let now: i64 = 1_700_000_000_000;
    let (session, token) = AppSession::new(7, "agent".to_string(), "127.0.0.1".to_string(), now);
    assert_eq!(session.user_id, 7);
    assert_eq!(session.created_at, now);
    assert_eq!(session.expires_at, now + SESSION_VALID_MS);
    assert_eq!(session.hashed_token.len(), 32);
    // 32 bytes of URL-safe base64 without padding
    assert_eq!(token.len(), 43);
    assert!(session.authenticate(&token, now).is_ok());
    assert!(session.authenticate(&token, now + SESSION_VALID_MS).is_ok());
    assert!(matches!(
        session.authenticate(&token, now + SESSION_VALID_MS + 1),
        Err(SessionRejection::Expired)
    ));
}

#[test]
fn wrong_or_malformed_tokens_are_refused() {
    let now: i64 = 0;
    let (session, token) = AppSession::new(1, String::new(), String::new(), now);
    let (_, other) = AppSession::new(1, String::new(), String::new(), now);
    assert_ne!(token, other);
    assert!(matches!(session.authenticate(&other, now), Err(SessionRejection::TokenMismatch)));
    assert!(matches!(session.authenticate("***", now), Err(SessionRejection::MalformedToken)));
}

#[test]
fn sessions_get_distinct_ids() {
    let (a, _) = AppSession::new(1, String::new(), String::new(), 0);
    let (b, _) = AppSession::new(1, String::new(), String::new(), 0);
    assert_ne!(a.id, b.id);
}

#[test]
fn session_from_known_token_bytes() {
    let now: i64 = 1_000;
    let bytes = [0u8; 32];
    let (session, token) = AppSession::from_token_bytes(42, &bytes, 7, "agent".to_string(), "::1".to_string(), now);
    assert_eq!(session.id, 42);
    assert_eq!(token, "A".repeat(43));
    let hex: String = session.hashed_token.iter().map(|b| format!("{:02x}", b)).collect();
    assert_eq!(hex, "66687aadf862bd776c8fc18b8e9f8e20089714856ee233b3902a591d0d5f2925");
    assert!(session.authenticate(&token, now).is_ok());
    assert!(matches!(session.authenticate("AAAB", now), Err(SessionRejection::TokenMismatch)));
}
