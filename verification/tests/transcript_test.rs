use truncus::dto::Msg;
use truncus::json::Json;
use truncus::transcript::{extract_text, ingest_request, is_conversation_entry, timestamp_millis, transcript_from_entries, truncate_chars, Transcript, MAX_MSG_CHARS};

fn s(v: &str) -> Json {
    Json::Str(v.to_string())
}

fn obj(members: Vec<(&str, Json)>) -> Json {
    Json::Object(members.into_iter().map(|(k, v)| (k.to_string(), v)).collect())
}

fn entry(kind: &str, role: Option<&str>, content: Json, ts: Option<&str>) -> Json {
    let mut message = vec![("content", content)];
    if let Some(r) = role {
        message.push(("role", s(r)));
    }
    let mut members = vec![("type", s(kind)), ("message", obj(message))];
    if let Some(t) = ts {
        members.push(("timestamp", s(t)));
    }
    obj(members)
}

#[test]
fn truncate_counts_characters() {
    assert_eq!(truncate_chars("héllo", 2), "hé");
    assert_eq!(truncate_chars("abc", 10), "abc");
    assert_eq!(truncate_chars("abc", 0), "");
    assert_eq!(truncate_chars("日本語", 2), "日本");
}

#[test]
fn conversation_entries_are_user_or_assistant_turns() {
    assert!(is_conversation_entry(&obj(vec![("type", s("user"))])));
    assert!(is_conversation_entry(&obj(vec![("type", s("assistant")), ("isMeta", Json::Bool(false))])));
    assert!(!is_conversation_entry(&obj(vec![("type", s("system"))])));
    assert!(!is_conversation_entry(&obj(vec![("type", s("user")), ("isSidechain", Json::Bool(true))])));
    assert!(!is_conversation_entry(&obj(vec![("type", s("user")), ("isMeta", Json::Bool(true))])));
    assert!(!is_conversation_entry(&obj(vec![])));
    assert!(!is_conversation_entry(&Json::Null));
}

#[test]
fn text_is_extracted_and_trimmed() {
    assert_eq!(extract_text(&s("  hi \n")), Some("hi".to_string()));
    let blocks = Json::Array(vec![
        obj(vec![("type", s("text")), ("text", s("a"))]),
        obj(vec![("type", s("tool_use")), ("text", s("skip"))]),
        obj(vec![("type", s("text")), ("text", s("b"))]),
    ]);
    assert_eq!(extract_text(&blocks), Some("a\nb".to_string()));
}

#[test]
fn noise_and_non_text_are_dropped() {
    assert_eq!(extract_text(&s("<system-reminder>x")), None);
    assert_eq!(extract_text(&s("  <command-name>/clear")), None);
    assert_eq!(extract_text(&s("<local-command-stdout>")), None);
    assert_eq!(extract_text(&s("Caveat: the messages below")), None);
    assert_eq!(extract_text(&s("   ")), None);
    assert_eq!(extract_text(&Json::Number("5".to_string())), None);
    assert_eq!(extract_text(&Json::Array(vec![obj(vec![("type", s("image"))])])), None);
}

#[test]
fn timestamps_are_read_as_milliseconds() {
    assert_eq!(timestamp_millis(&obj(vec![("timestamp", s("2024-01-01T00:00:00Z"))])), Some(1_704_067_200_000));
    assert_eq!(timestamp_millis(&obj(vec![("timestamp", s("2024-01-01T00:00:00.123456+01:00"))])), Some(1_704_063_600_123));
    assert_eq!(timestamp_millis(&obj(vec![("timestamp", s("1969-12-31T23:59:59.9995Z"))])), Some(0));
    assert_eq!(timestamp_millis(&obj(vec![("timestamp", s("yesterday"))])), None);
    assert_eq!(timestamp_millis(&obj(vec![])), None);
}

#[test]
fn transcript_keeps_conversation_and_time_range() {
    let entries = vec![
        None,
        Some(entry("user", Some("user"), s("hi"), Some("2024-01-01T00:00:00Z"))),
        Some(obj(vec![("type", s("system")), ("timestamp", s("2023-01-01T00:00:00Z"))])),
        Some(entry("assistant", Some("assistant"), Json::Array(vec![obj(vec![("type", s("text")), ("text", s("yo"))])]), Some("2024-01-01T00:01:00Z"))),
        Some(entry("user", None, s("<system-reminder>x"), Some("2024-01-01T00:02:00Z"))),
        Some(entry("user", None, s("plain"), None)),
    ];
    let t = transcript_from_entries(&entries);
    assert_eq!(
        t.messages,
        vec![
            Msg { role: "user".to_string(), text: "hi".to_string() },
            Msg { role: "assistant".to_string(), text: "yo".to_string() },
            Msg { role: "user".to_string(), text: "plain".to_string() },
        ]
    );
    assert_eq!(t.started_at, 1_704_067_200_000);
    assert_eq!(t.ended_at, 1_704_067_320_000);
}

#[test]
fn long_messages_are_cut() {
    let long = "é".repeat(MAX_MSG_CHARS + 5);
    let t = transcript_from_entries(&[Some(entry("user", Some("user"), s(&long), None))]);
    assert_eq!(t.messages[0].text.chars().count(), MAX_MSG_CHARS);
    assert_eq!(t.started_at, 0);
}

#[test]
fn empty_transcript_sends_nothing() {
    let t = Transcript { messages: vec![], started_at: 0, ended_at: 0 };
    assert!(ingest_request("s", "p".to_string(), "/w", "m".to_string(), t).is_none());
    let t = Transcript { messages: vec![Msg { role: "user".to_string(), text: "x".to_string() }], started_at: 1, ended_at: 2 };
    let req = ingest_request("s", "p".to_string(), "/w", "m".to_string(), t).unwrap();
    assert_eq!(req.session_id, "s");
    assert_eq!(req.project, "p");
    assert_eq!(req.cwd, "/w");
    assert_eq!(req.machine, "m");
    assert_eq!((req.started_at, req.ended_at), (1, 2));
    assert_eq!(req.messages.len(), 1);
}
