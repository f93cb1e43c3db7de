use truncus::dto::Msg;
use truncus::install::updated_settings;
use truncus::pipeline::floor_boundary;
use truncus::reflect::{parse_drafts, LessonDraft};
use truncus::text::{is_blank, lines, trim_str};
use truncus::transcript::parse_jsonl;

#[test]
fn whitespace_agrees_with_std() {
    let mut chars: Vec<char> = (0u32..0x3100).filter_map(char::from_u32).collect();
    chars.extend(['\u{FEFF}', '\u{180E}', '\u{10FFFF}', '\u{E000}']);
    for c in chars {
        assert_eq!(is_blank(&c.to_string()), c.is_whitespace(), "{:?}", c);
    }
    assert_eq!(trim_str("\u{3000} hi\u{85}\t"), "hi");
}

#[test]
fn lines_agree_with_std() {
    for text in ["", "a", "a\n", "a\r\nb", "a\r", "\n", "\n\n", "a\n\nb\r\n", "x\r\r\ny", "é\nü"] {
        let expected: Vec<String> = text.lines().map(str::to_string).collect();
        assert_eq!(lines(text), expected, "{text:?}");
    }
}

#[test]
fn session_log_is_read_line_by_line() {
    let content = [
        "{\"type\":\"user\",\"timestamp\":\"2024-01-01T00:00:00Z\",\"message\":{\"role\":\"user\",\"content\":\"hi\"}}\n",
        "not json\n",
        "{\"type\":\"system\"}\r\n",
        "{\"type\":\"assistant\",\"timestamp\":\"2024-01-01T00:01:00Z\",\"message\":{\"role\":\"assistant\",\"content\":[{\"type\":\"text\",\"text\":\"yo\"}]}}\r\n",
        "\n",
    ]
    .concat();
    let content = content.as_str();
    let t = parse_jsonl(content);
    assert_eq!(
        t.messages,
        vec![
            Msg { role: "user".to_string(), text: "hi".to_string() },
            Msg { role: "assistant".to_string(), text: "yo".to_string() },
        ]
    );
    assert_eq!((t.started_at, t.ended_at), (1_704_067_200_000, 1_704_067_260_000));
    assert!(parse_jsonl("").messages.is_empty());
}

fn draft(c: &str, t: &str, i: &str) -> LessonDraft {
    LessonDraft { category: c.to_string(), title: t.to_string(), insight: i.to_string() }
}

#[test]
fn lesson_reply_is_read() {
    let raw = "Sure! [{\"category\":\"fix\",\"title\":\" T \",\"insight\":\"I\"},{\"title\":\"\",\"insight\":\"x\"},{\"title\":\"U\",\"insight\":\"J\"}] done";
    assert_eq!(parse_drafts(raw), vec![draft("fix", "T", "I"), draft("insight", "U", "J")]);
    assert!(parse_drafts("no array").is_empty());
    assert!(parse_drafts("[not json]").is_empty());
    assert!(parse_drafts("[] and [").is_empty());
}

#[test]
fn settings_file_gains_the_hooks() {
    let fresh = updated_settings(None, "/b/truncus-hook").unwrap();
    let v: serde_json::Value = serde_json::from_str(&fresh).unwrap();
    assert_eq!(v["hooks"]["SessionEnd"][0]["hooks"][0]["command"], "/b/truncus-hook session-end");
    assert_eq!(v["hooks"]["SessionStart"][0]["matcher"], "startup|resume|clear");
    assert_eq!(v["hooks"]["Stop"][0]["hooks"][0]["command"], "/b/truncus-hook capture");
    assert_eq!(updated_settings(Some("not json"), "/b/truncus-hook"), Some(fresh.clone()));
    assert_eq!(updated_settings(Some("null"), "/b/truncus-hook"), Some(fresh.clone()));
    assert_eq!(updated_settings(Some("[]"), "/b/truncus-hook"), None);
    assert_eq!(updated_settings(Some("5"), "/b/truncus-hook"), None);
    let kept = updated_settings(Some("{\"theme\":\"dark\",\"hooks\":{\"Stop\":[{\"hooks\":[{\"type\":\"command\",\"command\":\"notify\"}]}]}}"), "/b/truncus-hook").unwrap();
    let v: serde_json::Value = serde_json::from_str(&kept).unwrap();
    assert_eq!(v["theme"], "dark");
    assert_eq!(v["hooks"]["Stop"].as_array().unwrap().len(), 2);
    assert_eq!(v["hooks"]["Stop"][0]["hooks"][0]["command"], "notify");
    assert_eq!(updated_settings(Some(&kept), "/b/truncus-hook"), Some(kept.clone()));
}

#[test]
fn floor_boundary_past_the_end_is_the_length() {
    assert_eq!(floor_boundary("héllo", 99), 6);
    assert_eq!(floor_boundary("", 3), 0);
}
