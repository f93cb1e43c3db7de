//! The statements the Worker runs against its database: their SQL and bound parameters.
use vstd::prelude::*;

use crate::notes::{vector_id, vector_id_of};
use crate::pipeline::{chunk_vector_id, chunk_vector_id_of};
use crate::store::{placeholders, placeholders_of};
use crate::text::{concat, concat3};

verus! {

/// A value bound to a statement parameter.
#[derive(Debug, PartialEq, Eq)]
pub enum Bind {
    Text(String),
    Int(i64),
    Null,
}

/// A SQL statement with its parameters `?1, ?2, ...` in order.
#[derive(Debug, PartialEq, Eq)]
pub struct Statement {
    pub sql: String,
    pub binds: Vec<Bind>,
}

/// Milliseconds after which a session still processing is taken as stuck.
pub const STUCK_THRESHOLD_MS: i64 = 600_000;

/// Milliseconds a lesson keeps its confidence without being seen again.
pub const DECAY_GRACE_MS: i64 = 259_200_000;

/// The bound value is this text.
pub open spec fn is_text(b: Bind, s: Seq<char>) -> bool {
    b matches Bind::Text(t) && t@ == s
}

/// The statement has this SQL.
pub open spec fn has_sql(st: Statement, sql: Seq<char>) -> bool {
    st.sql@ == sql
}

fn text(s: &str) -> (b: Bind)
    ensures
        is_text(b, s@),
{
    Bind::Text(s.to_owned())
}

fn statement(sql: String, binds: Vec<Bind>) -> (st: Statement)
    ensures
        st.sql == sql,
        st.binds == binds,
{
    Statement { sql, binds }
}

/// Records a session as waiting to be processed, replacing what was stored of it.
pub fn upsert_pending(id: &str, project: &str, cwd: &str, machine: &str, started_at: i64, ended_at: i64, now: i64) -> (st: Statement)
    ensures
        has_sql(st, "INSERT INTO sessions (id, project, cwd, machine, started_at, ended_at, status, updated_at) VALUES (?1, ?2, ?3, ?4, ?5, ?6, 'pending', ?7) ON CONFLICT(id) DO UPDATE SET project=?2, cwd=?3, machine=?4, started_at=?5, ended_at=?6, status='pending', error=NULL, updated_at=?7"@),
        st.binds@.len() == 7,
        is_text(st.binds@[0], id@),
        is_text(st.binds@[1], project@),
        is_text(st.binds@[2], cwd@),
        is_text(st.binds@[3], machine@),
        st.binds@[4] == Bind::Int(started_at),
        st.binds@[5] == Bind::Int(ended_at),
        st.binds@[6] == Bind::Int(now),
{
    statement(
        "INSERT INTO sessions (id, project, cwd, machine, started_at, ended_at, status, updated_at) VALUES (?1, ?2, ?3, ?4, ?5, ?6, 'pending', ?7) ON CONFLICT(id) DO UPDATE SET project=?2, cwd=?3, machine=?4, started_at=?5, ended_at=?6, status='pending', error=NULL, updated_at=?7".to_owned(),
        vec![text(id), text(project), text(cwd), text(machine), Bind::Int(started_at), Bind::Int(ended_at), Bind::Int(now)],
    )
}

/// Sets the status of a session, with the error of a failed run or none.
pub fn set_status(id: &str, status: &str, error: Option<&str>, now: i64) -> (st: Statement)
    ensures
        has_sql(st, "UPDATE sessions SET status=?2, error=?3, updated_at=?4 WHERE id=?1"@),
        st.binds@.len() == 4,
        is_text(st.binds@[0], id@),
        is_text(st.binds@[1], status@),
        match error {
            Some(e) => is_text(st.binds@[2], e@),
            None => st.binds@[2] == Bind::Null,
        },
        st.binds@[3] == Bind::Int(now),
{
    let e = match error {
        Some(e) => text(e),
        None => Bind::Null,
    };
    statement("UPDATE sessions SET status=?2, error=?3, updated_at=?4 WHERE id=?1".to_owned(), vec![text(id), text(status), e, Bind::Int(now)])
}

/// Marks as failed the sessions that have been processing for longer than
/// [`STUCK_THRESHOLD_MS`].
pub fn unstick_sessions(now: i64) -> (st: Statement)
    requires
        now - STUCK_THRESHOLD_MS >= i64::MIN,
    ensures
        has_sql(st, "UPDATE sessions SET status='failed', error='reset: processing exceeded time budget (likely a Workers AI capacity timeout) — reprocess to retry', updated_at=?1 WHERE status='processing' AND updated_at > 0 AND updated_at < ?2"@),
        st.binds@ == seq![Bind::Int(now), Bind::Int((now - STUCK_THRESHOLD_MS) as i64)],
{
    let cutoff = now - STUCK_THRESHOLD_MS;
    let st = statement(
        "UPDATE sessions SET status='failed', error='reset: processing exceeded time budget (likely a Workers AI capacity timeout) — reprocess to retry', updated_at=?1 WHERE status='processing' AND updated_at > 0 AND updated_at < ?2".to_owned(),
        vec![Bind::Int(now), Bind::Int(cutoff)],
    );
    assert(st.binds@ =~= seq![Bind::Int(now), Bind::Int(cutoff)]);
    st
}

/// Records a processed session: ready, with its summary and number of chunks.
pub fn set_ready(id: &str, summary: &str, chunk_count: i64, now: i64) -> (st: Statement)
    ensures
        has_sql(st, "UPDATE sessions SET status='ready', error=NULL, summary=?2, chunk_count=?3, updated_at=?4 WHERE id=?1"@),
        st.binds@.len() == 4,
        is_text(st.binds@[0], id@),
        is_text(st.binds@[1], summary@),
        st.binds@[2] == Bind::Int(chunk_count),
        st.binds@[3] == Bind::Int(now),
{
    statement(
        "UPDATE sessions SET status='ready', error=NULL, summary=?2, chunk_count=?3, updated_at=?4 WHERE id=?1".to_owned(),
        vec![text(id), text(summary), Bind::Int(chunk_count), Bind::Int(now)],
    )
}

/// An insertion of chunk `seq` with text `text` of the session (or note) `owner`, under
/// the identifier `id`.
pub open spec fn is_chunk_insert(st: Statement, sql: Seq<char>, id: Seq<char>, owner: Seq<char>, seq: int, text: Seq<char>) -> bool {
    &&& has_sql(st, sql)
    &&& st.binds@.len() == 4
    &&& is_text(st.binds@[0], id)
    &&& is_text(st.binds@[1], owner)
    &&& st.binds@[2] == Bind::Int(seq as i64)
    &&& is_text(st.binds@[3], text)
}

/// Replaces the stored chunks of a session: one deletion, then one insertion per chunk in
/// order, each under its vector identifier.
pub fn replace_chunks(session_id: &str, chunks: &[String]) -> (sts: Vec<Statement>)
    requires
        chunks@.len() <= i64::MAX,
    ensures
        sts@.len() == chunks@.len() + 1,
        has_sql(sts@[0], "DELETE FROM chunks WHERE session_id=?1"@),
        sts@[0].binds@.len() == 1,
        is_text(sts@[0].binds@[0], session_id@),
        forall|k: int|
            0 <= k < chunks@.len() ==> is_chunk_insert(
                #[trigger] sts@[k + 1],
                "INSERT INTO chunks (id, session_id, seq, text) VALUES (?1, ?2, ?3, ?4)"@,
                chunk_vector_id_of(session_id@, k as nat),
                session_id@,
                k,
                chunks@[k]@,
            ),
{
    let mut sts: Vec<Statement> = Vec::new();
    sts.push(statement("DELETE FROM chunks WHERE session_id=?1".to_owned(), vec![text(session_id)]));
    let n = chunks.len();
    for k in 0..n
        invariant
            n == chunks@.len(),
            n <= i64::MAX,
            sts@.len() == k + 1,
            has_sql(sts@[0], "DELETE FROM chunks WHERE session_id=?1"@),
            sts@[0].binds@.len() == 1,
            is_text(sts@[0].binds@[0], session_id@),
            forall|j: int|
                0 <= j < k ==> is_chunk_insert(
                    #[trigger] sts@[j + 1],
                    "INSERT INTO chunks (id, session_id, seq, text) VALUES (?1, ?2, ?3, ?4)"@,
                    chunk_vector_id_of(session_id@, j as nat),
                    session_id@,
                    j,
                    chunks@[j]@,
                ),
    {
        let id = chunk_vector_id(session_id, k);
        let st = statement(
            "INSERT INTO chunks (id, session_id, seq, text) VALUES (?1, ?2, ?3, ?4)".to_owned(),
            vec![Bind::Text(id), text(session_id), Bind::Int(k as i64), text(chunks[k].as_str())],
        );
        sts.push(st);
    }
    sts
}

/// Reads one stored session.
pub fn get_session(id: &str) -> (st: Statement)
    ensures
        has_sql(st, "SELECT id, project, machine, started_at, ended_at, status, summary, error, chunk_count FROM sessions WHERE id=?1"@),
        st.binds@.len() == 1,
        is_text(st.binds@[0], id@),
{
    statement(
        "SELECT id, project, machine, started_at, ended_at, status, summary, error, chunk_count FROM sessions WHERE id=?1".to_owned(),
        vec![text(id)],
    )
}

/// Reads the position and text of each stored chunk of a session.
pub fn chunk_seq_texts(session_id: &str) -> (st: Statement)
    ensures
        has_sql(st, "SELECT seq, text FROM chunks WHERE session_id=?1"@),
        st.binds@.len() == 1,
        is_text(st.binds@[0], session_id@),
{
    statement("SELECT seq, text FROM chunks WHERE session_id=?1".to_owned(), vec![text(session_id)])
}

/// Deletes a session: its chunks, then the session.
pub fn delete_session(id: &str) -> (sts: Vec<Statement>)
    ensures
        sts@.len() == 2,
        has_sql(sts@[0], "DELETE FROM chunks WHERE session_id=?1"@),
        sts@[0].binds@.len() == 1,
        is_text(sts@[0].binds@[0], id@),
        has_sql(sts@[1], "DELETE FROM sessions WHERE id=?1"@),
        sts@[1].binds@.len() == 1,
        is_text(sts@[1].binds@[0], id@),
{
    vec![
        statement("DELETE FROM chunks WHERE session_id=?1".to_owned(), vec![text(id)]),
        statement("DELETE FROM sessions WHERE id=?1".to_owned(), vec![text(id)]),
    ]
}

/// Reads a page of stored sessions, newest first, of one project when given.
pub fn list_sessions(project: Option<&str>, limit: i64, offset: i64) -> (st: Statement)
    ensures
        match project {
            Some(p) => has_sql(st, "SELECT id, project, machine, started_at, ended_at, status, summary, error, chunk_count FROM sessions WHERE project=?1 ORDER BY ended_at DESC LIMIT ?2 OFFSET ?3"@)
                && st.binds@.len() == 3 && is_text(st.binds@[0], p@) && st.binds@[1] == Bind::Int(limit)
                && st.binds@[2] == Bind::Int(offset),
            None => has_sql(st, "SELECT id, project, machine, started_at, ended_at, status, summary, error, chunk_count FROM sessions ORDER BY ended_at DESC LIMIT ?1 OFFSET ?2"@)
                && st.binds@ == seq![Bind::Int(limit), Bind::Int(offset)],
        },
{
    match project {
        Some(p) => statement(
            "SELECT id, project, machine, started_at, ended_at, status, summary, error, chunk_count FROM sessions WHERE project=?1 ORDER BY ended_at DESC LIMIT ?2 OFFSET ?3".to_owned(),
            vec![text(p), Bind::Int(limit), Bind::Int(offset)],
        ),
        None => {
            let st = statement(
                "SELECT id, project, machine, started_at, ended_at, status, summary, error, chunk_count FROM sessions ORDER BY ended_at DESC LIMIT ?1 OFFSET ?2".to_owned(),
                vec![Bind::Int(limit), Bind::Int(offset)],
            );
            assert(st.binds@ =~= seq![Bind::Int(limit), Bind::Int(offset)]);
            st
        },
    }
}

/// Counts the stored sessions, of one project when given.
pub fn count_sessions(project: Option<&str>) -> (st: Statement)
    ensures
        match project {
            Some(p) => has_sql(st, "SELECT COUNT(*) AS n FROM sessions WHERE project=?1"@) && st.binds@.len()
                == 1 && is_text(st.binds@[0], p@),
            None => has_sql(st, "SELECT COUNT(*) AS n FROM sessions"@) && st.binds@.len() == 0,
        },
{
    match project {
        Some(p) => statement("SELECT COUNT(*) AS n FROM sessions WHERE project=?1".to_owned(), vec![text(p)]),
        None => statement("SELECT COUNT(*) AS n FROM sessions".to_owned(), Vec::new()),
    }
}

/// Reads the newest summarised sessions of the project (`same_project`) or of the other
/// projects.
pub fn recent_briefs(project: &str, same_project: bool, limit: i64) -> (st: Statement)
    ensures
        has_sql(
            st,
            "SELECT id, project, ended_at, summary FROM sessions WHERE status='ready' AND summary IS NOT NULL AND project "@
                + (if same_project { "="@ } else { "!="@ }) + " ?1 ORDER BY ended_at DESC LIMIT ?2"@,
        ),
        st.binds@.len() == 2,
        is_text(st.binds@[0], project@),
        st.binds@[1] == Bind::Int(limit),
{
    let comparator = if same_project {
        "="
    } else {
        "!="
    };
    let sql = concat3(
        "SELECT id, project, ended_at, summary FROM sessions WHERE status='ready' AND summary IS NOT NULL AND project ",
        comparator,
        " ?1 ORDER BY ended_at DESC LIMIT ?2",
    );
    statement(sql, vec![text(project), Bind::Int(limit)])
}

/// The identifiers bound one per placeholder.
pub open spec fn binds_ids(binds: Seq<Bind>, ids: Seq<String>) -> bool {
    binds.len() == ids.len() && forall|k: int| 0 <= k < ids.len() ==> is_text(#[trigger] binds[k], ids[k]@)
}

fn id_binds(ids: &[String]) -> (binds: Vec<Bind>)
    ensures
        binds_ids(binds@, ids@),
{
    let mut binds: Vec<Bind> = Vec::new();
    let n = ids.len();
    for k in 0..n
        invariant
            n == ids@.len(),
            binds@.len() == k,
            forall|j: int| 0 <= j < k ==> is_text(#[trigger] binds@[j], ids@[j]@),
    {
        binds.push(text(ids[k].as_str()));
    }
    binds
}

/// A statement over a list of identifiers: `prefix`, one placeholder per identifier,
/// `)`; nothing when there are no identifiers.
fn in_list(prefix: &str, ids: &[String]) -> (r: Option<Statement>)
    ensures
        match r {
            Some(st) => ids@.len() > 0 && has_sql(st, prefix@ + placeholders_of(ids@.len()) + ")"@)
                && binds_ids(st.binds@, ids@),
            None => ids@.len() == 0,
        },
{
    if ids.len() == 0 {
        return None;
    }
    let p = placeholders(ids.len());
    Some(statement(concat3(prefix, p.as_str(), ")"), id_binds(ids)))
}

/// Reads the chunks found by a search, with their session's project and end time.
pub fn hydrate_chunks(ids: &[String]) -> (r: Option<Statement>)
    ensures
        match r {
            Some(st) => ids@.len() > 0 && has_sql(st, "SELECT c.id, c.session_id, c.text, s.project, s.ended_at FROM chunks c JOIN sessions s ON s.id = c.session_id WHERE c.id IN ("@
                + placeholders_of(ids@.len()) + ")"@) && binds_ids(st.binds@, ids@),
            None => ids@.len() == 0,
        },
{
    in_list("SELECT c.id, c.session_id, c.text, s.project, s.ended_at FROM chunks c JOIN sessions s ON s.id = c.session_id WHERE c.id IN (", ids)
}

/// Reads the summaries of the sessions found by a search.
pub fn hydrate_summaries(ids: &[String]) -> (r: Option<Statement>)
    ensures
        match r {
            Some(st) => ids@.len() > 0 && has_sql(st, "SELECT id, project, ended_at, summary FROM sessions WHERE summary IS NOT NULL AND id IN ("@
                + placeholders_of(ids@.len()) + ")"@) && binds_ids(st.binds@, ids@),
            None => ids@.len() == 0,
        },
{
    in_list("SELECT id, project, ended_at, summary FROM sessions WHERE summary IS NOT NULL AND id IN (", ids)
}

/// Reads the note chunks found by a knowledge search, with their note.
pub fn hydrate_note_chunks(ids: &[String]) -> (r: Option<Statement>)
    ensures
        match r {
            Some(st) => ids@.len() > 0 && has_sql(st, "SELECT nc.id AS chunk_id, n.path AS path, n.title AS title, n.project AS project, n.updated_at AS updated_at, nc.text AS text FROM note_chunks nc JOIN notes n ON n.id = nc.note_id WHERE nc.id IN ("@
                + placeholders_of(ids@.len()) + ")"@) && binds_ids(st.binds@, ids@),
            None => ids@.len() == 0,
        },
{
    in_list("SELECT nc.id AS chunk_id, n.path AS path, n.title AS title, n.project AS project, n.updated_at AS updated_at, nc.text AS text FROM note_chunks nc JOIN notes n ON n.id = nc.note_id WHERE nc.id IN (", ids)
}

/// How a lesson is reinforced by a session bound as `param`: seen once more and more
/// confident, with the session added to its evidence, unless the evidence already holds it.
pub open spec fn reinforce_set(param: Seq<char>) -> Seq<char> {
    "times_seen = times_seen + (CASE WHEN instr(evidence, "@ + param
        + ") > 0 THEN 0 ELSE 1 END), confidence = CASE WHEN instr(evidence, "@ + param
        + ") > 0 THEN confidence ELSE MIN(1.0, confidence + 0.15) END, evidence = CASE WHEN evidence = '' THEN "@
        + param + " WHEN instr(evidence, "@ + param + ") > 0 THEN evidence ELSE evidence || ',' || "@
        + param + " END"@
}

fn reinforce_set_text(param: &str) -> (s: String)
    ensures
        s@ == reinforce_set(param@),
{
    let mut s = "times_seen = times_seen + (CASE WHEN instr(evidence, ".to_owned();
    s.append(param);
    s.append(") > 0 THEN 0 ELSE 1 END), confidence = CASE WHEN instr(evidence, ");
    s.append(param);
    s.append(") > 0 THEN confidence ELSE MIN(1.0, confidence + 0.15) END, evidence = CASE WHEN evidence = '' THEN ");
    s.append(param);
    s.append(" WHEN instr(evidence, ");
    s.append(param);
    s.append(") > 0 THEN evidence ELSE evidence || ',' || ");
    s.append(param);
    s.append(" END");
    s
}

/// Stores a new lesson, or reinforces the stored one with the same identifier.
pub fn upsert_lesson(id: &str, project: &str, category: &str, title: &str, insight: &str, session_id: &str, ts: i64, embedding: &str) -> (st: Statement)
    ensures
        has_sql(
            st,
            "INSERT INTO lessons (id, project, category, title, insight, evidence, confidence, times_seen, created_at, updated_at, embedding) VALUES (?1, ?2, ?3, ?4, ?5, ?6, 0.5, 1, ?7, ?7, ?8) ON CONFLICT(id) DO UPDATE SET "@
                + reinforce_set("?6"@) + ", updated_at = ?7"@,
        ),
        st.binds@.len() == 8,
        is_text(st.binds@[0], id@),
        is_text(st.binds@[1], project@),
        is_text(st.binds@[2], category@),
        is_text(st.binds@[3], title@),
        is_text(st.binds@[4], insight@),
        is_text(st.binds@[5], session_id@),
        st.binds@[6] == Bind::Int(ts),
        is_text(st.binds@[7], embedding@),
{
    let set = reinforce_set_text("?6");
    let sql = concat3(
        "INSERT INTO lessons (id, project, category, title, insight, evidence, confidence, times_seen, created_at, updated_at, embedding) VALUES (?1, ?2, ?3, ?4, ?5, ?6, 0.5, 1, ?7, ?7, ?8) ON CONFLICT(id) DO UPDATE SET ",
        set.as_str(),
        ", updated_at = ?7",
    );
    statement(
        sql,
        vec![text(id), text(project), text(category), text(title), text(insight), text(session_id), Bind::Int(ts), text(embedding)],
    )
}

/// Reinforces a stored lesson with the evidence of a session.
pub fn reinforce_lesson(id: &str, session_id: &str, ts: i64) -> (st: Statement)
    ensures
        has_sql(st, "UPDATE lessons SET "@ + reinforce_set("?2"@) + ", updated_at = ?3 WHERE id = ?1"@),
        st.binds@.len() == 3,
        is_text(st.binds@[0], id@),
        is_text(st.binds@[1], session_id@),
        st.binds@[2] == Bind::Int(ts),
{
    let set = reinforce_set_text("?2");
    let sql = concat3("UPDATE lessons SET ", set.as_str(), ", updated_at = ?3 WHERE id = ?1");
    statement(sql, vec![text(id), text(session_id), Bind::Int(ts)])
}

/// Reads the identifier and embedding of each lesson of a project that has one.
pub fn lesson_vectors(project: &str) -> (st: Statement)
    ensures
        has_sql(st, "SELECT id, embedding FROM lessons WHERE project=?1 AND embedding <> ''"@),
        st.binds@.len() == 1,
        is_text(st.binds@[0], project@),
{
    statement("SELECT id, embedding FROM lessons WHERE project=?1 AND embedding <> ''".to_owned(), vec![text(project)])
}

/// Lowers the confidence of the lessons not seen for [`DECAY_GRACE_MS`], then deletes the
/// lessons whose confidence fell below the floor.
pub fn decay_lessons(now: i64) -> (sts: Vec<Statement>)
    requires
        now - DECAY_GRACE_MS >= i64::MIN,
    ensures
        sts@.len() == 2,
        has_sql(sts@[0], "UPDATE lessons SET confidence = MAX(0.0, confidence - 0.05) WHERE updated_at < ?1"@),
        sts@[0].binds@ == seq![Bind::Int((now - DECAY_GRACE_MS) as i64)],
        has_sql(sts@[1], "DELETE FROM lessons WHERE confidence < 0.2"@),
        sts@[1].binds@.len() == 0,
{
    let cutoff = now - DECAY_GRACE_MS;
    let sts = vec![
        statement("UPDATE lessons SET confidence = MAX(0.0, confidence - 0.05) WHERE updated_at < ?1".to_owned(), vec![Bind::Int(cutoff)]),
        statement("DELETE FROM lessons WHERE confidence < 0.2".to_owned(), Vec::new()),
    ];
    assert(sts@[0].binds@ =~= seq![Bind::Int(cutoff)]);
    sts
}

/// The columns of a lesson as it is read.
pub open spec fn lesson_columns() -> Seq<char> {
    "id, project, category, title, insight, evidence, confidence, times_seen, created_at, updated_at"@
}

/// Reads the most confident lessons, then the most recent, of one project when given.
pub fn list_lessons(project: Option<&str>, limit: i64) -> (st: Statement)
    ensures
        match project {
            Some(p) => has_sql(st, "SELECT "@ + lesson_columns() + " FROM lessons WHERE project=?1 ORDER BY confidence DESC, updated_at DESC LIMIT ?2"@)
                && st.binds@.len() == 2 && is_text(st.binds@[0], p@) && st.binds@[1] == Bind::Int(limit),
            None => has_sql(st, "SELECT "@ + lesson_columns() + " FROM lessons ORDER BY confidence DESC, updated_at DESC LIMIT ?1"@)
                && st.binds@ == seq![Bind::Int(limit)],
        },
{
    let columns = "id, project, category, title, insight, evidence, confidence, times_seen, created_at, updated_at";
    match project {
        Some(p) => {
            let sql = concat3("SELECT ", columns, " FROM lessons WHERE project=?1 ORDER BY confidence DESC, updated_at DESC LIMIT ?2");
            statement(sql, vec![text(p), Bind::Int(limit)])
        },
        None => {
            let sql = concat3("SELECT ", columns, " FROM lessons ORDER BY confidence DESC, updated_at DESC LIMIT ?1");
            let st = statement(sql, vec![Bind::Int(limit)]);
            assert(st.binds@ =~= seq![Bind::Int(limit)]);
            st
        },
    }
}

/// Deletes a lesson.
pub fn delete_lesson(id: &str) -> (st: Statement)
    ensures
        has_sql(st, "DELETE FROM lessons WHERE id=?1"@),
        st.binds@.len() == 1,
        is_text(st.binds@[0], id@),
{
    statement("DELETE FROM lessons WHERE id=?1".to_owned(), vec![text(id)])
}

/// Reads the content hash and chunk count of a stored note.
pub fn note_state(id: &str) -> (st: Statement)
    ensures
        has_sql(st, "SELECT content_hash, chunk_count FROM notes WHERE id=?1"@),
        st.binds@.len() == 1,
        is_text(st.binds@[0], id@),
{
    statement("SELECT content_hash, chunk_count FROM notes WHERE id=?1".to_owned(), vec![text(id)])
}

/// Stores a note, or updates the stored one with the same identifier.
pub fn upsert_note(id: &str, project: &str, path: &str, title: &str, content_hash: &str, chunk_count: i64, ts: i64, content: &str) -> (st: Statement)
    ensures
        has_sql(st, "INSERT INTO notes (id, project, path, title, content_hash, chunk_count, updated_at, content) VALUES (?1, ?2, ?3, ?4, ?5, ?6, ?7, ?8) ON CONFLICT(id) DO UPDATE SET title=?4, content_hash=?5, chunk_count=?6, updated_at=?7, content=?8"@),
        st.binds@.len() == 8,
        is_text(st.binds@[0], id@),
        is_text(st.binds@[1], project@),
        is_text(st.binds@[2], path@),
        is_text(st.binds@[3], title@),
        is_text(st.binds@[4], content_hash@),
        st.binds@[5] == Bind::Int(chunk_count),
        st.binds@[6] == Bind::Int(ts),
        is_text(st.binds@[7], content@),
{
    statement(
        "INSERT INTO notes (id, project, path, title, content_hash, chunk_count, updated_at, content) VALUES (?1, ?2, ?3, ?4, ?5, ?6, ?7, ?8) ON CONFLICT(id) DO UPDATE SET title=?4, content_hash=?5, chunk_count=?6, updated_at=?7, content=?8".to_owned(),
        vec![text(id), text(project), text(path), text(title), text(content_hash), Bind::Int(chunk_count), Bind::Int(ts), text(content)],
    )
}

/// Replaces the stored content of a note.
pub fn set_note_content(project: &str, path: &str, content: &str) -> (st: Statement)
    ensures
        has_sql(st, "UPDATE notes SET content=?3 WHERE project=?1 AND path=?2"@),
        st.binds@.len() == 3,
        is_text(st.binds@[0], project@),
        is_text(st.binds@[1], path@),
        is_text(st.binds@[2], content@),
{
    statement("UPDATE notes SET content=?3 WHERE project=?1 AND path=?2".to_owned(), vec![text(project), text(path), text(content)])
}

/// Reads the path, title and content of a note.
pub fn get_note_content(project: &str, path: &str) -> (st: Statement)
    ensures
        has_sql(st, "SELECT path, title, content FROM notes WHERE project=?1 AND path=?2"@),
        st.binds@.len() == 2,
        is_text(st.binds@[0], project@),
        is_text(st.binds@[1], path@),
{
    statement("SELECT path, title, content FROM notes WHERE project=?1 AND path=?2".to_owned(), vec![text(project), text(path)])
}

/// Replaces the stored chunks of a note: one deletion, then one insertion per chunk in
/// order, each under its vector identifier.
pub fn replace_note_chunks(note_id: &str, chunks: &[String]) -> (sts: Vec<Statement>)
    requires
        chunks@.len() <= i64::MAX,
    ensures
        sts@.len() == chunks@.len() + 1,
        has_sql(sts@[0], "DELETE FROM note_chunks WHERE note_id=?1"@),
        sts@[0].binds@.len() == 1,
        is_text(sts@[0].binds@[0], note_id@),
        forall|k: int|
            0 <= k < chunks@.len() ==> is_chunk_insert(
                #[trigger] sts@[k + 1],
                "INSERT INTO note_chunks (id, note_id, seq, text) VALUES (?1, ?2, ?3, ?4)"@,
                vector_id_of(note_id@, k as nat),
                note_id@,
                k,
                chunks@[k]@,
            ),
{
    let mut sts: Vec<Statement> = Vec::new();
    sts.push(statement("DELETE FROM note_chunks WHERE note_id=?1".to_owned(), vec![text(note_id)]));
    let n = chunks.len();
    for k in 0..n
        invariant
            n == chunks@.len(),
            n <= i64::MAX,
            sts@.len() == k + 1,
            has_sql(sts@[0], "DELETE FROM note_chunks WHERE note_id=?1"@),
            sts@[0].binds@.len() == 1,
            is_text(sts@[0].binds@[0], note_id@),
            forall|j: int|
                0 <= j < k ==> is_chunk_insert(
                    #[trigger] sts@[j + 1],
                    "INSERT INTO note_chunks (id, note_id, seq, text) VALUES (?1, ?2, ?3, ?4)"@,
                    vector_id_of(note_id@, j as nat),
                    note_id@,
                    j,
                    chunks@[j]@,
                ),
    {
        let id = vector_id(note_id, k);
        let st = statement(
            "INSERT INTO note_chunks (id, note_id, seq, text) VALUES (?1, ?2, ?3, ?4)".to_owned(),
            vec![Bind::Text(id), text(note_id), Bind::Int(k as i64), text(chunks[k].as_str())],
        );
        sts.push(st);
    }
    sts
}

/// Reads the notes of a project, by path.
pub fn list_notes(project: &str) -> (st: Statement)
    ensures
        has_sql(st, "SELECT path, title, content_hash, chunk_count, updated_at FROM notes WHERE project=?1 ORDER BY path"@),
        st.binds@.len() == 1,
        is_text(st.binds@[0], project@),
{
    statement(
        "SELECT path, title, content_hash, chunk_count, updated_at FROM notes WHERE project=?1 ORDER BY path".to_owned(),
        vec![text(project)],
    )
}

/// Reads each project that has notes, with its number of notes.
pub fn note_projects() -> (st: Statement)
    ensures
        has_sql(st, "SELECT project, COUNT(*) AS note_count FROM notes GROUP BY project ORDER BY project"@),
        st.binds@.len() == 0,
{
    statement("SELECT project, COUNT(*) AS note_count FROM notes GROUP BY project ORDER BY project".to_owned(), Vec::new())
}

/// Counts the notes of a project.
pub fn note_count(project: &str) -> (st: Statement)
    ensures
        has_sql(st, "SELECT COUNT(*) AS n FROM notes WHERE project=?1"@),
        st.binds@.len() == 1,
        is_text(st.binds@[0], project@),
{
    statement("SELECT COUNT(*) AS n FROM notes WHERE project=?1".to_owned(), vec![text(project)])
}

/// Reads the identifier, path and chunk count of each note of a project.
pub fn note_refs(project: &str) -> (st: Statement)
    ensures
        has_sql(st, "SELECT id, path, chunk_count FROM notes WHERE project=?1"@),
        st.binds@.len() == 1,
        is_text(st.binds@[0], project@),
{
    statement("SELECT id, path, chunk_count FROM notes WHERE project=?1".to_owned(), vec![text(project)])
}

/// Deletes a note: its chunks, then the note.
pub fn delete_note(id: &str) -> (sts: Vec<Statement>)
    ensures
        sts@.len() == 2,
        has_sql(sts@[0], "DELETE FROM note_chunks WHERE note_id=?1"@),
        sts@[0].binds@.len() == 1,
        is_text(sts@[0].binds@[0], id@),
        has_sql(sts@[1], "DELETE FROM notes WHERE id=?1"@),
        sts@[1].binds@.len() == 1,
        is_text(sts@[1].binds@[0], id@),
{
    vec![
        statement("DELETE FROM note_chunks WHERE note_id=?1".to_owned(), vec![text(id)]),
        statement("DELETE FROM notes WHERE id=?1".to_owned(), vec![text(id)]),
    ]
}

} // verus!
