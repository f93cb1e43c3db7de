use truncus::dto::SessionMeta;
use truncus::json::Json;
use truncus::reflect::{array_span, drafts_from_values, lesson_text, limit_drafts, reflectable, LessonDraft, MAX_LESSONS};

fn s(v: &str) -> Json {
    Json::Str(v.to_string())
}

fn obj(members: Vec<(&str, Json)>) -> Json {
    Json::Object(members.into_iter().map(|(k, v)| (k.to_string(), v)).collect())
}

fn draft(c: &str, t: &str, i: &str) -> LessonDraft {
    LessonDraft { category: c.to_string(), title: t.to_string(), insight: i.to_string() }
}

#[test]
fn array_span_takes_outer_brackets() {
    assert_eq!(array_span("Here: [1, [2]] done"), Some("[1, [2]]".to_string()));
    assert_eq!(array_span("[]"), Some("[]".to_string()));
    assert_eq!(array_span("no array"), None);
    assert_eq!(array_span("] before ["), None);
    assert_eq!(array_span("only ["), None);
}

#[test]
fn drafts_need_title_and_insight() {
    let values = vec![
        obj(vec![("category", s(" fix ")), ("title", s(" T1 ")), ("insight", s(" I1 "))]),
        obj(vec![("title", s("T2")), ("insight", s("I2"))]),
        obj(vec![("title", s("  ")), ("insight", s("I3"))]),
        obj(vec![("title", s("T4"))]),
        obj(vec![("title", Json::Number("4".to_string())), ("insight", s("I5"))]),
        obj(vec![("category", Json::Bool(true)), ("title", s("T6")), ("insight", s("I6"))]),
        Json::Null,
    ];
    assert_eq!(
        drafts_from_values(&values),
        vec![draft("fix", "T1", "I1"), draft("insight", "T2", "I2"), draft("insight", "T6", "I6")]
    );
}

#[test]
fn lesson_text_joins_title_and_insight() {
    assert_eq!(lesson_text(&draft("fix", "Title", "Insight")), "Title\nInsight");
}

#[test]
fn reflection_keeps_at_most_five_drafts() {
    let mut drafts: Vec<LessonDraft> = (0..7).map(|i| draft("c", &format!("t{i}"), "i")).collect();
    limit_drafts(&mut drafts);
    assert_eq!(drafts.len(), MAX_LESSONS);
    assert_eq!(drafts[4].title, "t4");
    let mut few = vec![draft("c", "t", "i")];
    limit_drafts(&mut few);
    assert_eq!(few.len(), 1);
}

#[test]
fn only_ready_summarised_sessions_are_reflected_on() {
    let mut m = SessionMeta {
        id: "s".to_string(),
        project: "p".to_string(),
        machine: "m".to_string(),
        started_at: 0,
        ended_at: 0,
        status: "ready".to_string(),
        summary: Some("x".to_string()),
        error: None,
        chunk_count: 0,
    };
    assert!(reflectable(&m));
    m.summary = None;
    assert!(!reflectable(&m));
    m.summary = Some("x".to_string());
    m.status = "failed".to_string();
    assert!(!reflectable(&m));
}
