use truncus::sql::{count_sessions, decay_lessons, delete_note, hydrate_chunks, hydrate_note_chunks, list_lessons, list_sessions, recent_briefs, reinforce_lesson, replace_chunks, replace_note_chunks, set_status, unstick_sessions, upsert_lesson, Bind, Statement};

fn t(v: &str) -> Bind {
    Bind::Text(v.to_string())
}

fn st(sql: &str, binds: Vec<Bind>) -> Statement {
    Statement { sql: sql.to_string(), binds }
}

fn strs(v: &[&str]) -> Vec<String> {
    v.iter().map(|s| s.to_string()).collect()
}

#[test]
fn session_listing_filters_by_project() {
    assert_eq!(
        list_sessions(Some("p"), 20, 40),
        st("SELECT id, project, machine, started_at, ended_at, status, summary, error, chunk_count FROM sessions WHERE project=?1 ORDER BY ended_at DESC LIMIT ?2 OFFSET ?3", vec![t("p"), Bind::Int(20), Bind::Int(40)])
    );
    assert_eq!(
        list_sessions(None, 20, 0),
        st("SELECT id, project, machine, started_at, ended_at, status, summary, error, chunk_count FROM sessions ORDER BY ended_at DESC LIMIT ?1 OFFSET ?2", vec![Bind::Int(20), Bind::Int(0)])
    );
    assert_eq!(count_sessions(None), st("SELECT COUNT(*) AS n FROM sessions", vec![]));
}

#[test]
fn recent_briefs_compare_the_project() {
    assert_eq!(
        recent_briefs("p", true, 3).sql,
        "SELECT id, project, ended_at, summary FROM sessions WHERE status='ready' AND summary IS NOT NULL AND project = ?1 ORDER BY ended_at DESC LIMIT ?2"
    );
    assert_eq!(
        recent_briefs("p", false, 2),
        st("SELECT id, project, ended_at, summary FROM sessions WHERE status='ready' AND summary IS NOT NULL AND project != ?1 ORDER BY ended_at DESC LIMIT ?2", vec![t("p"), Bind::Int(2)])
    );
}

#[test]
fn hydration_binds_one_placeholder_per_id() {
    assert_eq!(hydrate_chunks(&[]), None);
    assert_eq!(
        hydrate_chunks(&strs(&["a#c0", "b#c1"])),
        Some(st("SELECT c.id, c.session_id, c.text, s.project, s.ended_at FROM chunks c JOIN sessions s ON s.id = c.session_id WHERE c.id IN (?1, ?2)", vec![t("a#c0"), t("b#c1")]))
    );
    assert!(hydrate_note_chunks(&strs(&["n#n0"])).unwrap().sql.ends_with("WHERE nc.id IN (?1)"));
}

#[test]
fn replacing_chunks_deletes_then_inserts() {
    let sts = replace_chunks("s", &strs(&["x", "y"]));
    assert_eq!(sts.len(), 3);
    assert_eq!(sts[0], st("DELETE FROM chunks WHERE session_id=?1", vec![t("s")]));
    assert_eq!(
        sts[2],
        st("INSERT INTO chunks (id, session_id, seq, text) VALUES (?1, ?2, ?3, ?4)", vec![t("s#c1"), t("s"), Bind::Int(1), t("y")])
    );
    let nsts = replace_note_chunks("n", &strs(&["z"]));
    assert_eq!(
        nsts[1],
        st("INSERT INTO note_chunks (id, note_id, seq, text) VALUES (?1, ?2, ?3, ?4)", vec![t("n#n0"), t("n"), Bind::Int(0), t("z")])
    );
    assert_eq!(delete_note("n")[1], st("DELETE FROM notes WHERE id=?1", vec![t("n")]));
}

#[test]
fn status_updates_bind_null_without_error() {
    assert_eq!(
        set_status("s", "processing", None, 7),
        st("UPDATE sessions SET status=?2, error=?3, updated_at=?4 WHERE id=?1", vec![t("s"), t("processing"), Bind::Null, Bind::Int(7)])
    );
    assert_eq!(set_status("s", "failed", Some("boom"), 7).binds[2], t("boom"));
    assert_eq!(unstick_sessions(1_000_000).binds, vec![Bind::Int(1_000_000), Bind::Int(400_000)]);
}

const SET6: &str = "times_seen = times_seen + (CASE WHEN instr(evidence, ?6) > 0 THEN 0 ELSE 1 END), confidence = CASE WHEN instr(evidence, ?6) > 0 THEN confidence ELSE MIN(1.0, confidence + 0.15) END, evidence = CASE WHEN evidence = '' THEN ?6 WHEN instr(evidence, ?6) > 0 THEN evidence ELSE evidence || ',' || ?6 END";

#[test]
fn lesson_statements() {
    let up = upsert_lesson("id", "p", "fix", "T", "I", "s", 9, "[0.1]");
    assert_eq!(
        up.sql,
        format!("INSERT INTO lessons (id, project, category, title, insight, evidence, confidence, times_seen, created_at, updated_at, embedding) VALUES (?1, ?2, ?3, ?4, ?5, ?6, 0.5, 1, ?7, ?7, ?8) ON CONFLICT(id) DO UPDATE SET {SET6}, updated_at = ?7")
    );
    assert_eq!(up.binds.len(), 8);
    let re = reinforce_lesson("id", "s", 9);
    assert_eq!(re.sql, format!("UPDATE lessons SET {}, updated_at = ?3 WHERE id = ?1", SET6.replace("?6", "?2")));
    let decay = decay_lessons(300_000_000);
    assert_eq!(decay[0].binds, vec![Bind::Int(40_800_000)]);
    assert_eq!(decay[1], st("DELETE FROM lessons WHERE confidence < 0.2", vec![]));
    assert_eq!(
        list_lessons(None, 8),
        st("SELECT id, project, category, title, insight, evidence, confidence, times_seen, created_at, updated_at FROM lessons ORDER BY confidence DESC, updated_at DESC LIMIT ?1", vec![Bind::Int(8)])
    );
}
