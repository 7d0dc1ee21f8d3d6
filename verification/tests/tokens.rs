use basalytics::token::{bearer_token, text_starts_with, TokenClaims, TOKEN_LIFETIME};

#[test]
fn token_expires_after_365_days() {
    assert_eq!(TOKEN_LIFETIME, 365 * 24 * 60 * 60);
    let claims = TokenClaims::issue("01H4ZK3N8Q".to_string(), 1_689_000_000).unwrap();
    assert_eq!(claims.iss, "ferrite");
    assert_eq!(claims.sub, "01H4ZK3N8Q");
    assert_eq!(claims.iat, 1_689_000_000);
    assert_eq!(claims.exp, 1_720_536_000);
    let claims = TokenClaims::issued("a".to_string(), 0);
    assert_eq!(claims.exp, 31_536_000);
}

#[test]
fn token_beyond_the_counter_is_not_issued() {
    assert!(TokenClaims::issue("a".to_string(), usize::MAX).is_none());
    assert!(TokenClaims::issue("a".to_string(), usize::MAX - TOKEN_LIFETIME + 1).is_none());
    assert!(TokenClaims::issue("a".to_string(), usize::MAX - TOKEN_LIFETIME).is_some());
}

#[test]
fn token_survives_unless_issued_before_the_invalidation() {
    let claims = TokenClaims::issue("a".to_string(), 1_000).unwrap();
    assert!(claims.survives(None));
    assert!(claims.survives(Some(999)));
    assert!(claims.survives(Some(1_000)));
    assert!(!claims.survives(Some(1_001)));
}

#[test]
fn bearer_token_is_what_follows_the_scheme() {
    assert_eq!(bearer_token("Bearer abc.def.ghi"), Some("abc.def.ghi"));
    assert_eq!(bearer_token("Bearer "), Some(""));
    assert_eq!(bearer_token("Bearer  x"), Some(" x"));
    assert_eq!(bearer_token("Bearer é✓"), Some("é✓"));
    assert_eq!(bearer_token("Bearer"), None);
    assert_eq!(bearer_token("bearer abc"), None);
    assert_eq!(bearer_token("Basic abc"), None);
    assert_eq!(bearer_token(""), None);
    assert_eq!(bearer_token(" Bearer abc"), None);
    assert!(text_starts_with("abc", ""));
    assert!(text_starts_with("abc", "abc"));
    assert!(!text_starts_with("ab", "abc"));
}
