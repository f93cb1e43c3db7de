use truncus::dto::SessionMeta;
use truncus::textview::{empty_page, first_line, hits, knowledge, lessons, page_footer, page_window, session, sessions, HitView, LessonView};
use truncus::timefmt::date;

fn meta(summary: Option<&str>, error: Option<&str>) -> SessionMeta {
    SessionMeta {
        id: "id1".to_string(),
        project: "proj".to_string(),
        machine: "box".to_string(),
        started_at: 0,
        ended_at: 1_546_300_800_000,
        status: "ready".to_string(),
        summary: summary.map(|s| s.to_string()),
        error: error.map(|s| s.to_string()),
        chunk_count: 3,
    }
}

#[test]
fn date_formats_utc_days() {
    assert_eq!(date(0), "1970-01-01");
    assert_eq!(date(1_546_300_800_000), "2019-01-01");
    assert_eq!(date(-1), "1970-01-01");
    assert_eq!(date(-86_400_001), "1969-12-31");
    assert_eq!(date(253_402_300_799_999), "9999-12-31");
    assert_eq!(date(i64::MAX), "");
}

#[test]
fn first_line_matches_std_lines() {
    for text in ["abc\r\ndef", "abc\r", "", "\nabc", "one\ntwo", "no newline", "a\r\r\nb"] {
        assert_eq!(first_line(text), text.lines().next().unwrap_or_default(), "{text:?}");
    }
}

#[test]
fn empty_listing_says_so() {
    assert_eq!(sessions(&[]), "No sessions stored yet.");
}

#[test]
fn listing_shows_first_summary_line() {
    let ms = vec![meta(Some("first line\nsecond"), None), meta(None, None)];
    assert_eq!(
        sessions(&ms),
        "2019-01-01 · proj · id1 · ready · 3 chunks\nfirst line\n\n2019-01-01 · proj · id1 · ready · 3 chunks\n(no summary yet)"
    );
}

#[test]
fn session_view_shows_error_and_placeholder() {
    let mut m = meta(None, Some("boom"));
    m.status = "failed".to_string();
    assert_eq!(
        session(&m),
        "session id1\nproject: proj\nmachine: box\nrange: 1970-01-01 → 2019-01-01\nstatus: failed (boom)\n\n(no summary yet)"
    );
    let m2 = meta(Some("all good"), None);
    assert_eq!(
        session(&m2),
        "session id1\nproject: proj\nmachine: box\nrange: 1970-01-01 → 2019-01-01\nstatus: ready\n\nall good"
    );
}

fn hit(score: &str, text: &str) -> HitView {
    HitView {
        score: score.to_string(),
        kind: "summary".to_string(),
        project: "p".to_string(),
        ended_at: 1_546_300_800_000,
        session_id: "s1".to_string(),
        text: text.to_string(),
    }
}

#[test]
fn hits_are_listed_with_their_scores() {
    assert_eq!(
        hits(&[hit("0.912", "t"), hit("0.700", "u")], false),
        "[0.912] summary · p · 2019-01-01 · session s1\nt\n\n[0.700] summary · p · 2019-01-01 · session s1\nu"
    );
}

#[test]
fn weak_hits_carry_a_warning() {
    let text = hits(&[hit("0.312", "t")], true);
    assert!(text.starts_with("⚠ Low-confidence recall"));
    assert!(text.ends_with("\n\n[0.312] summary · p · 2019-01-01 · session s1\nt"));
}

#[test]
fn no_hits_say_so() {
    assert_eq!(hits(&[], true), "No matching memories found. Say you don't know rather than inventing an answer.");
    assert_eq!(knowledge(&[], false), "No matching knowledge found. Say you don't know rather than guessing.");
}

#[test]
fn knowledge_hits_show_the_note_path() {
    let mut h = hit("0.500", "[A]\nbody");
    h.session_id = "notes/a.md".to_string();
    assert_eq!(knowledge(&[h], false), "[0.500] p · notes/a.md\n[A]\nbody");
}

#[test]
fn lessons_are_listed() {
    let l = LessonView {
        category: "fix".to_string(),
        title: "T".to_string(),
        times_seen: 2,
        confidence_percent: "65".to_string(),
        insight: "I".to_string(),
    };
    assert_eq!(lessons(&[l]), "[fix] T · seen ×2 · 65% confidence\nI");
    assert_eq!(lessons(&[]), "No lessons learned yet.");
}

#[test]
fn page_window_takes_at_least_one() {
    assert_eq!(page_window(0, 0), (1, 1, 0));
    assert_eq!(page_window(20, 3), (20, 3, 40));
}

#[test]
fn page_texts() {
    assert_eq!(empty_page(2, 0, 20), "No sessions stored yet.");
    assert_eq!(empty_page(5, 45, 20), "No sessions on page 5 (total 45, 3 pages).");
    assert_eq!(page_footer(20, 20, 45, 2, 20), "\n— 21–40 of 45 · page 2/3 —");
    assert_eq!(page_footer(40, 5, 45, 3, 0), "\n— 41–45 of 45 · page 3/45 —");
}
