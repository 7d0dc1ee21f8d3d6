use basalytics::session::{
    derive_session_id, get_session_id, session_id_at, session_id_for, DayCodes, SessionError,
    TodayCode, DAY_MILLIS,
};
use http::{HeaderMap, HeaderValue};

fn headers(pairs: &[(&'static str, &str)]) -> HeaderMap {
    let mut map = HeaderMap::new();
    for (name, value) in pairs {
        map.insert(*name, HeaderValue::from_str(value).unwrap());
    }
    map
}

#[test]
fn session_id_is_the_encoded_digest() {
    let id = derive_session_id("2023-07-10", "c29tZWNvZGU", "203.0.113.7", "Mozilla/5.0");
    assert_eq!(id.0, "RU77sd+DBt7mM7JX1lPTg1tMf1BqqhqKJ+QXZl5+vQg");
    let id = derive_session_id("2023-07-10", "c29tZWNvZGU", "203.0.113.7", "");
    assert_eq!(id.0, "9WUVOGwotGLxxVDNVi9CLLsIiwNFhi7zuGzIlzGYci4");
}

#[test]
fn same_inputs_give_the_same_session_id() {
    let first = derive_session_id("2023-07-10", "c29tZWNvZGU", "203.0.113.7", "Mozilla/5.0");
    let second = derive_session_id("2023-07-10", "c29tZWNvZGU", "203.0.113.7", "Mozilla/5.0");
    assert_eq!(first.0, second.0);
}

#[test]
fn new_day_code_gives_another_session_id() {
    let before = derive_session_id("2023-07-10", "c29tZWNvZGU", "203.0.113.7", "Mozilla/5.0");
    let after = derive_session_id("2023-07-10", "b3RoZXJjb2Rl", "203.0.113.7", "Mozilla/5.0");
    assert_eq!(after.0, "elmkQTtYcfyOKBALjM0uC1bSNK1Nh+5pq6v8GhgAK5k");
    assert_ne!(before.0, after.0);
}

#[test]
fn another_date_or_client_gives_another_session_id() {
    let next_day = derive_session_id("2023-07-11", "c29tZWNvZGU", "203.0.113.7", "Mozilla/5.0");
    assert_eq!(next_day.0, "91g4a0tI77kcgGjhLa/7RpXe60qiyMTbGkdxjBnGLQI");
    let other_ip = derive_session_id("2023-07-10", "c29tZWNvZGU", "198.51.100.2", "Mozilla/5.0");
    assert_eq!(other_ip.0, "FQWJ13YGNjVi3FHv1PGvYeJnBHy4GqnuYUhmV1mG+TA");
}

#[test]
fn peer_address_is_used_without_a_configured_header() {
    let request = headers(&[("user-agent", "Mozilla/5.0"), ("x-forwarded-for", "198.51.100.2")]);
    let id = session_id_for("2023-07-10", "c29tZWNvZGU", "203.0.113.7", &request, &None);
    assert_eq!(id.0, "RU77sd+DBt7mM7JX1lPTg1tMf1BqqhqKJ+QXZl5+vQg");
}

#[test]
fn forwarded_address_is_used_where_configured_and_present() {
    let request = headers(&[("user-agent", "Mozilla/5.0"), ("x-forwarded-for", "198.51.100.2")]);
    let configured = Some("X-Forwarded-For".to_string());
    let id = session_id_for("2023-07-10", "c29tZWNvZGU", "203.0.113.7", &request, &configured);
    assert_eq!(id.0, "FQWJ13YGNjVi3FHv1PGvYeJnBHy4GqnuYUhmV1mG+TA");
}

#[test]
fn peer_address_is_used_where_the_configured_header_is_missing() {
    let request = headers(&[("user-agent", "Mozilla/5.0")]);
    let configured = Some("X-Real-Ip".to_string());
    let id = session_id_for("2023-07-10", "c29tZWNvZGU", "203.0.113.7", &request, &configured);
    assert_eq!(id.0, "RU77sd+DBt7mM7JX1lPTg1tMf1BqqhqKJ+QXZl5+vQg");
    let invalid_name = Some("not a header name".to_string());
    let id = session_id_for("2023-07-10", "c29tZWNvZGU", "203.0.113.7", &request, &invalid_name);
    assert_eq!(id.0, "RU77sd+DBt7mM7JX1lPTg1tMf1BqqhqKJ+QXZl5+vQg");
}

#[test]
fn missing_or_unreadable_user_agent_counts_as_empty() {
    let none = headers(&[]);
    let id = session_id_for("2023-07-10", "c29tZWNvZGU", "203.0.113.7", &none, &None);
    assert_eq!(id.0, "9WUVOGwotGLxxVDNVi9CLLsIiwNFhi7zuGzIlzGYci4");
    let mut opaque = HeaderMap::new();
    opaque.insert("user-agent", HeaderValue::from_bytes(b"Mozilla\xff").unwrap());
    let id = session_id_for("2023-07-10", "c29tZWNvZGU", "203.0.113.7", &opaque, &None);
    assert_eq!(id.0, "9WUVOGwotGLxxVDNVi9CLLsIiwNFhi7zuGzIlzGYci4");
}

#[test]
fn day_code_is_stale_after_more_than_a_day() {
    let code = TodayCode { last_updated: 1_000, code: "c29tZWNvZGU".to_string() };
    assert_eq!(DAY_MILLIS, 86_400_000);
    assert!(!code.is_stale(1_000));
    assert!(!code.is_stale(0));
    assert!(!code.is_stale(1_000 + DAY_MILLIS));
    assert!(code.is_stale(1_001 + DAY_MILLIS));
    let latest = TodayCode { last_updated: i64::MAX - 5, code: "x".to_string() };
    assert!(!latest.is_stale(i64::MAX));
}

#[test]
fn day_code_is_the_encoded_secret() {
    let secret: Vec<u8> = (0u8..32).collect();
    let code = TodayCode::from_secret(&secret, 42);
    assert_eq!(code.last_updated, 42);
    assert_eq!(code.code, "AAECAwQFBgcICQoLDA0ODxAREhMUFRYXGBkaGxwdHh8");
}

#[test]
fn new_day_codes_differ() {
    let first = TodayCode::new(7).unwrap();
    let second = TodayCode::new(7).unwrap();
    assert_eq!(first.last_updated, 7);
    assert_eq!(first.code.len(), 43);
    assert_ne!(first.code, second.code);
}

#[test]
fn fresh_code_is_handed_out_unchanged() {
    let codes = DayCodes::with_code(TodayCode { last_updated: 1_000, code: "c29tZWNvZGU".to_string() });
    let first = codes.get_today_code(2_000).unwrap();
    let second = codes.get_today_code(1_000 + DAY_MILLIS).unwrap();
    assert_eq!(first.code, "c29tZWNvZGU");
    assert_eq!(second.code, "c29tZWNvZGU");
    assert_eq!(second.last_updated, 1_000);
}

#[test]
fn stale_code_is_replaced_once() {
    let codes = DayCodes::with_code(TodayCode { last_updated: 1_000, code: "c29tZWNvZGU".to_string() });
    let now = 1_001 + DAY_MILLIS;
    let rotated = codes.get_today_code(now).unwrap();
    assert_ne!(rotated.code, "c29tZWNvZGU");
    assert_eq!(rotated.last_updated, now);
    assert_eq!(rotated.code.len(), 43);
    let again = codes.get_today_code(now + 5).unwrap();
    assert_eq!(again.code, rotated.code);
    assert_eq!(again.last_updated, now);
    let before = derive_session_id("2023-07-10", "c29tZWNvZGU", "203.0.113.7", "Mozilla/5.0");
    let after = derive_session_id("2023-07-10", &rotated.code, "203.0.113.7", "Mozilla/5.0");
    assert_ne!(before.0, after.0);
}

#[test]
fn session_id_of_a_request_now_is_stable() {
    let codes: Result<DayCodes, SessionError> = DayCodes::new(0);
    let codes = codes.unwrap();
    let request = headers(&[("user-agent", "Mozilla/5.0")]);
    let first = get_session_id(&codes, "203.0.113.7", &request, &None).unwrap();
    let second = get_session_id(&codes, "203.0.113.7", &request, &None).unwrap();
    let other = get_session_id(&codes, "198.51.100.2", &request, &None).unwrap();
    assert_eq!(first.0.len(), 43);
    assert_eq!(first.0, second.0);
    assert_ne!(first.0, other.0);
}

#[test]
fn answer_of_the_random_source_becomes_a_code_or_a_failure() {
    let secret: Vec<u8> = (0u8..32).collect();
    let code = TodayCode::from_drawn(Ok(secret), 42).unwrap();
    assert_eq!(code.last_updated, 42);
    assert_eq!(code.code, "AAECAwQFBgcICQoLDA0ODxAREhMUFRYXGBkaGxwdHh8");
    let failed = TodayCode::from_drawn(Err(getrandom::Error::UNSUPPORTED), 42);
    assert_eq!(failed.err(), Some(SessionError::RandomSourceFailed));
}

#[test]
fn session_id_at_a_moment_uses_the_code_of_that_moment() {
    let codes = DayCodes::with_code(TodayCode { last_updated: 1_000, code: "c29tZWNvZGU".to_string() });
    let request = headers(&[("user-agent", "Mozilla/5.0")]);
    let id = session_id_at(&codes, 2_000, "2023-07-10", "203.0.113.7", &request, &None).unwrap();
    assert_eq!(id.0, "RU77sd+DBt7mM7JX1lPTg1tMf1BqqhqKJ+QXZl5+vQg");
    let at_the_limit =
        session_id_at(&codes, 1_000 + DAY_MILLIS, "2023-07-10", "203.0.113.7", &request, &None).unwrap();
    assert_eq!(at_the_limit.0, "RU77sd+DBt7mM7JX1lPTg1tMf1BqqhqKJ+QXZl5+vQg");
    let later =
        session_id_at(&codes, 1_001 + DAY_MILLIS, "2023-07-10", "203.0.113.7", &request, &None).unwrap();
    assert_ne!(later.0, "RU77sd+DBt7mM7JX1lPTg1tMf1BqqhqKJ+QXZl5+vQg");
    let again =
        session_id_at(&codes, 1_002 + DAY_MILLIS, "2023-07-10", "203.0.113.7", &request, &None).unwrap();
    assert_eq!(again.0, later.0);
}

#[test]
fn code_made_now_is_handed_out_for_a_day() {
    let codes = DayCodes::new(5_000).unwrap();
    let first = codes.get_today_code(5_000).unwrap();
    assert_eq!(first.last_updated, 5_000);
    assert_eq!(first.code.len(), 43);
    let within = codes.get_today_code(5_000 + DAY_MILLIS).unwrap();
    assert_eq!(within.code, first.code);
    let earlier = codes.get_today_code(0).unwrap();
    assert_eq!(earlier.code, first.code);
}

#[test]
fn reader_takes_a_code_that_is_at_most_a_day_old() {
    let code = TodayCode { last_updated: 1_000, code: "c29tZWNvZGU".to_string() };
    let taken = code.current(1_000 + DAY_MILLIS).unwrap();
    assert_eq!(taken.code, "c29tZWNvZGU");
    assert_eq!(taken.last_updated, 1_000);
    assert!(code.current(1_001 + DAY_MILLIS).is_none());
}

#[test]
fn rotation_keeps_a_code_that_is_not_stale() {
    let mut code = TodayCode { last_updated: 1_000, code: "c29tZWNvZGU".to_string() };
    let handed = code.rotate(1_000 + DAY_MILLIS).unwrap();
    assert_eq!(handed.code, "c29tZWNvZGU");
    assert_eq!(handed.last_updated, 1_000);
    assert_eq!(code.code, "c29tZWNvZGU");
    assert_eq!(code.last_updated, 1_000);
}

#[test]
fn rotation_replaces_a_stale_code() {
    let mut code = TodayCode { last_updated: 1_000, code: "c29tZWNvZGU".to_string() };
    let now = 1_001 + DAY_MILLIS;
    let handed = code.rotate(now).unwrap();
    assert_ne!(handed.code, "c29tZWNvZGU");
    assert_eq!(handed.code.len(), 43);
    assert_eq!(handed.last_updated, now);
    assert_eq!(code.code, handed.code);
    assert_eq!(code.last_updated, now);
    let again = code.rotate(now + 1).unwrap();
    assert_eq!(again.code, handed.code);
}
