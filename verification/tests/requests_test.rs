use truncus::dto::{IngestRequest, Msg};
use truncus::json::Json;
use truncus::requests::{cors_headers, ingest_complete, knowledge_limit, lesson_limit, list_limit, note_filter, reflect_limit, reflect_target, required_param, required_query, search_filter, search_limit, status_body};

fn cond(name: &str, value: &str) -> (String, Json) {
    (name.to_string(), Json::Object(vec![("$eq".to_string(), Json::Str(value.to_string()))]))
}

#[test]
fn queries_must_not_be_blank() {
    assert_eq!(required_query(Some(" login bug ")), Some(" login bug ".to_string()));
    assert_eq!(required_query(Some(" \t\n")), None);
    assert_eq!(required_query(Some("")), None);
    assert_eq!(required_query(None), None);
}

#[test]
fn required_params_must_not_be_empty() {
    assert_eq!(required_param(Some("proj")), Some("proj".to_string()));
    assert_eq!(required_param(Some(" ")), Some(" ".to_string()));
    assert_eq!(required_param(Some("")), None);
    assert_eq!(required_param(None), None);
}

#[test]
fn limits_default_and_cap() {
    assert_eq!(search_limit(None), 8);
    assert_eq!(search_limit(Some("80")), 50);
    assert_eq!(search_limit(Some("3")), 3);
    assert_eq!(knowledge_limit(Some("nope")), 8);
    assert_eq!(lesson_limit(None), 50);
    assert_eq!(lesson_limit(Some("500")), 200);
    assert_eq!(reflect_limit(None), 20);
    assert_eq!(reflect_limit(Some("99")), 50);
    assert_eq!(list_limit(None), 20);
    assert_eq!(list_limit(Some("1000")), 100);
}

#[test]
fn ingest_needs_id_and_messages() {
    let mut req = IngestRequest {
        session_id: "s".to_string(),
        project: "p".to_string(),
        cwd: "/".to_string(),
        machine: "m".to_string(),
        started_at: 0,
        ended_at: 0,
        messages: vec![Msg { role: "user".to_string(), text: "x".to_string() }],
    };
    assert!(ingest_complete(&req));
    req.messages.clear();
    assert!(!ingest_complete(&req));
    req.messages.push(Msg { role: "user".to_string(), text: "x".to_string() });
    req.session_id.clear();
    assert!(!ingest_complete(&req));
}

#[test]
fn search_filters() {
    assert_eq!(search_filter(None, None), None);
    assert_eq!(search_filter(Some(""), Some("")), None);
    assert_eq!(search_filter(Some("p"), None), Some(Json::Object(vec![cond("project", "p")])));
    assert_eq!(search_filter(None, Some("chunk")), Some(Json::Object(vec![cond("kind", "chunk")])));
    assert_eq!(
        search_filter(Some("p"), Some("summary")),
        Some(Json::Object(vec![cond("project", "p"), cond("kind", "summary")]))
    );
}

#[test]
fn note_filters_always_select_notes() {
    assert_eq!(note_filter(None), Json::Object(vec![cond("kind", "note")]));
    assert_eq!(note_filter(Some("")), Json::Object(vec![cond("kind", "note")]));
    assert_eq!(note_filter(Some("p")), Json::Object(vec![cond("kind", "note"), cond("project", "p")]));
}

#[test]
fn reflect_target_prefers_session() {
    assert_eq!(reflect_target(Some("s"), Some("p")), "s");
    assert_eq!(reflect_target(None, Some("p")), "p");
    assert_eq!(reflect_target(None, None), "recent");
}

#[test]
fn status_bodies() {
    assert_eq!(
        status_body("x", "deleted"),
        Json::Object(vec![("id".to_string(), Json::Str("x".to_string())), ("status".to_string(), Json::Str("deleted".to_string()))])
    );
}

#[test]
fn cors_headers_are_permissive() {
    let h = cors_headers();
    assert_eq!(h.len(), 4);
    assert_eq!(h[0], ("Access-Control-Allow-Origin".to_string(), "*".to_string()));
    assert_eq!(h[1].1, "GET, POST, DELETE, OPTIONS");
    assert_eq!(h[3], ("Access-Control-Max-Age".to_string(), "86400".to_string()));
}
