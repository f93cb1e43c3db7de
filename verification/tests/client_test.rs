use truncus::client::{api_base, clear_notes_request, context_request, delete_lesson_request, delete_session_request, endpoint, ingest_notes_request, ingest_request, is_success, knowledge_request, lessons_request, list_notes_request, note_content_request, note_projects_request, prune_notes_request, reflect_request, reprocess_request, search_request, session_request, sessions_request, ApiRequest, Method};

fn req(method: Method, path: &str, query: &[(&str, &str)]) -> ApiRequest {
    ApiRequest {
        method,
        path: path.to_string(),
        query: query.iter().map(|(k, v)| (k.to_string(), v.to_string())).collect(),
    }
}

#[test]
fn base_url_loses_trailing_slashes() {
    assert_eq!(api_base("https://x.dev///"), "https://x.dev");
    assert_eq!(api_base("https://x.dev"), "https://x.dev");
    assert_eq!(api_base("/"), "");
    assert_eq!(endpoint("https://x.dev", "/v1/search"), "https://x.dev/v1/search");
}

#[test]
fn session_requests() {
    assert_eq!(ingest_request(), req(Method::Post, "/v1/sessions", &[]));
    assert_eq!(reprocess_request("a1"), req(Method::Post, "/v1/sessions/a1/process", &[]));
    assert_eq!(delete_session_request("a1"), req(Method::Delete, "/v1/sessions/a1", &[]));
    assert_eq!(session_request("a1"), req(Method::Get, "/v1/sessions/a1", &[]));
    assert_eq!(context_request("p"), req(Method::Get, "/v1/context", &[("project", "p")]));
    assert_eq!(
        sessions_request(None, 20, 40),
        req(Method::Get, "/v1/sessions", &[("limit", "20"), ("offset", "40")])
    );
    assert_eq!(
        sessions_request(Some("p"), 1, 0),
        req(Method::Get, "/v1/sessions", &[("limit", "1"), ("offset", "0"), ("project", "p")])
    );
}

#[test]
fn search_requests() {
    assert_eq!(search_request("q x", None, 8), req(Method::Get, "/v1/search", &[("q", "q x"), ("limit", "8")]));
    assert_eq!(
        search_request("q", Some("p"), 50),
        req(Method::Get, "/v1/search", &[("q", "q"), ("limit", "50"), ("project", "p")])
    );
    assert_eq!(
        knowledge_request("k", Some("p"), 3),
        req(Method::Get, "/v1/knowledge", &[("q", "k"), ("limit", "3"), ("project", "p")])
    );
}

#[test]
fn lesson_and_note_requests() {
    assert_eq!(lessons_request(None, 50), req(Method::Get, "/v1/lessons", &[("limit", "50")]));
    assert_eq!(
        reflect_request(Some("p"), Some("s"), 20),
        req(Method::Post, "/v1/lessons/reflect", &[("limit", "20"), ("project", "p"), ("session", "s")])
    );
    assert_eq!(reflect_request(None, Some("s"), 5), req(Method::Post, "/v1/lessons/reflect", &[("limit", "5"), ("session", "s")]));
    assert_eq!(delete_lesson_request("l"), req(Method::Delete, "/v1/lessons/l", &[]));
    assert_eq!(note_projects_request(), req(Method::Get, "/v1/notes/projects", &[]));
    assert_eq!(list_notes_request("p"), req(Method::Get, "/v1/notes", &[("project", "p")]));
    assert_eq!(
        note_content_request("p", "a.md"),
        req(Method::Get, "/v1/notes/content", &[("project", "p"), ("path", "a.md")])
    );
    assert_eq!(ingest_notes_request(), req(Method::Post, "/v1/notes", &[]));
    assert_eq!(prune_notes_request(), req(Method::Post, "/v1/notes/prune", &[]));
    assert_eq!(clear_notes_request("p"), req(Method::Delete, "/v1/notes", &[("project", "p")]));
}

#[test]
fn success_is_2xx() {
    assert!(is_success(200));
    assert!(is_success(202));
    assert!(is_success(299));
    assert!(!is_success(199));
    assert!(!is_success(300));
    assert!(!is_success(404));
}
