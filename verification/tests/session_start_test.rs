use truncus::dto::SessionBrief;
use truncus::json::Json;
use truncus::session_start::{has_context, render, start_output, ContextBundle, LessonNote};

fn brief(id: &str, project: &str, summary: &str) -> SessionBrief {
    SessionBrief { id: id.to_string(), project: project.to_string(), ended_at: 1_546_300_800_000, summary: summary.to_string() }
}

const TAIL: &str = "\n## Grounding — say \"I don't know\" when unsure\nAnswer from this memory, the loaded lessons, the knowledge base (knowledge_search), and the actual code. If none of those support a specific claim — a file, API, name, number, or past decision — say \"I don't know\" or \"I'm not sure\" plainly and stop. A wrong confident answer is worse than admitting uncertainty; never invent specifics to fill a gap, and don't dress up a low-confidence recall as fact.\n\nUse the truncus MCP tools (memory_search, recent_sessions, get_session, lessons, knowledge_search) for deeper recall.\n";

#[test]
fn empty_bundle_has_no_context() {
    let b = ContextBundle { project_sessions: vec![], other_sessions: vec![], lessons: vec![], note_count: 0 };
    assert!(!has_context(&b));
    let b = ContextBundle { project_sessions: vec![], other_sessions: vec![], lessons: vec![], note_count: 2 };
    assert!(has_context(&b));
}

#[test]
fn render_lists_every_section() {
    let b = ContextBundle {
        project_sessions: vec![brief("s1", "here", "did things")],
        other_sessions: vec![brief("s2", "there", "other things")],
        lessons: vec![LessonNote { category: "fix".to_string(), title: "Do X".to_string(), insight: "Because Y".to_string() }],
        note_count: 4,
    };
    let expected = String::from("Truncus memory — distilled summaries of your past Assistant sessions:\n")
        + "\n## Recent sessions in here\n"
        + "\n### 2019-01-01 (session s1)\ndid things\n"
        + "\n## Recent sessions in other projects\n"
        + "\n### 2019-01-01 — there (session s2)\nother things\n"
        + "\n## Lessons learned in here — apply these\n"
        + "\n- **[fix] Do X** — Because Y\n"
        + "\n## Knowledge base\nThis project has a knowledge base of 4 notes synced from your vault. Use the `knowledge_search` MCP tool to pull relevant notes on demand instead of loading everything.\n"
        + TAIL;
    assert_eq!(render("here", "Assistant", &b), expected);
}

#[test]
fn render_skips_empty_sections() {
    let b = ContextBundle { project_sessions: vec![], other_sessions: vec![], lessons: vec![], note_count: 0 };
    let expected = String::from("Truncus memory — distilled summaries of your past Assistant sessions:\n") + TAIL;
    assert_eq!(render("here", "Assistant", &b), expected);
}

#[test]
fn start_output_wraps_the_context() {
    let v = start_output("ctx".to_string());
    let inner = Json::Object(vec![
        ("hookEventName".to_string(), Json::Str("SessionStart".to_string())),
        ("additionalContext".to_string(), Json::Str("ctx".to_string())),
    ]);
    assert_eq!(v, Json::Object(vec![("hookSpecificOutput".to_string(), inner)]));
}
