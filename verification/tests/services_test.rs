use truncus::services::{digest_of, reflect_message, vectorize_failed, VectorIndex};

#[test]
fn reflect_message_names_project_and_digest() {
    assert_eq!(reflect_message("p", "- did x"), "Project: p\n\nSession digest:\n- did x");
}

#[test]
fn digest_is_trimmed_reply() {
    assert_eq!(digest_of(Some("  - a\n- b \n")), "- a\n- b");
    assert_eq!(digest_of(None), "");
}

#[test]
fn vectorize_addresses_and_failures() {
    let index = VectorIndex { account_id: "acc".to_string(), index: "idx".to_string(), token: "t".to_string() };
    assert_eq!(index.url("query"), "https://api.cloudflare.com/client/v4/accounts/acc/vectorize/v2/indexes/idx/query");
    assert_eq!(index.authorization(), "Bearer t");
    assert!(!vectorize_failed(200, Some(true)));
    assert!(vectorize_failed(200, Some(false)));
    assert!(vectorize_failed(200, None));
    assert!(vectorize_failed(300, Some(true)));
}
