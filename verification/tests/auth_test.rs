use truncus::auth::{bearer_allowed, constant_time_eq};

#[test]
fn constant_time_eq_is_equality() {
    assert!(constant_time_eq("secret", "secret"));
    assert!(!constant_time_eq("secret", "secreT"));
    assert!(!constant_time_eq("secret", "secret2"));
    assert!(constant_time_eq("", ""));
    assert!(constant_time_eq("héllo", "héllo"));
    assert!(!constant_time_eq("é", "e\u{301}"));
}

#[test]
fn bearer_token_must_match() {
    assert!(bearer_allowed("tok", Some("Bearer tok")));
    assert!(!bearer_allowed("tok", Some("Bearer tok2")));
    assert!(!bearer_allowed("tok", Some("bearer tok")));
    assert!(!bearer_allowed("tok", Some("tok")));
    assert!(!bearer_allowed("tok", None));
}

#[test]
fn no_configured_token_rejects_everything() {
    assert!(!bearer_allowed("", Some("Bearer ")));
    assert!(!bearer_allowed("", None));
}
