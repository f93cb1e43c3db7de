//! Plain data exchanged between the hook, the CLI, the MCP server and the Worker.
use vstd::prelude::*;

verus! {

/// One conversation message: who spoke and what was said.
#[derive(Debug, PartialEq, Eq)]
pub struct Msg {
    pub role: String,
    pub text: String,
}

/// A session transcript sent for ingestion.
#[derive(Debug, PartialEq, Eq)]
pub struct IngestRequest {
    pub session_id: String,
    pub project: String,
    pub cwd: String,
    pub machine: String,
    pub started_at: i64,
    pub ended_at: i64,
    pub messages: Vec<Msg>,
}

/// The Worker's answer to an ingestion or a reprocess request.
#[derive(Debug, PartialEq, Eq)]
pub struct IngestResponse {
    pub id: String,
    pub status: String,
}

/// What is stored about one session.
#[derive(Debug, PartialEq, Eq)]
pub struct SessionMeta {
    pub id: String,
    pub project: String,
    pub machine: String,
    pub started_at: i64,
    pub ended_at: i64,
    pub status: String,
    pub summary: Option<String>,
    pub error: Option<String>,
    pub chunk_count: i64,
}

/// One page of sessions.
#[derive(Debug, PartialEq, Eq)]
pub struct SessionList {
    pub sessions: Vec<SessionMeta>,
    pub total: i64,
    pub limit: i64,
    pub offset: i64,
}

/// A session reduced to its summary, for recall at session start.
#[derive(Debug, PartialEq, Eq)]
pub struct SessionBrief {
    pub id: String,
    pub project: String,
    pub ended_at: i64,
    pub summary: String,
}

/// A note of a knowledge base, as uploaded.
#[derive(Debug, PartialEq, Eq)]
pub struct NoteInput {
    pub path: String,
    pub title: String,
    pub content: String,
}

/// What is stored about one note.
#[derive(Debug, PartialEq, Eq)]
pub struct NoteMeta {
    pub path: String,
    pub title: String,
    pub content_hash: String,
    pub chunk_count: i64,
    pub updated_at: i64,
}

/// The notes of one project.
#[derive(Debug, PartialEq, Eq)]
pub struct NoteList {
    pub notes: Vec<NoteMeta>,
}

/// The full text of one note.
#[derive(Debug, PartialEq, Eq)]
pub struct NoteContent {
    pub path: String,
    pub title: String,
    pub content: String,
}

/// A batch of notes to ingest into one project.
#[derive(Debug, PartialEq, Eq)]
pub struct NotesIngest {
    pub project: String,
    pub notes: Vec<NoteInput>,
}

/// Counts reported after a notes ingestion.
#[derive(Debug, PartialEq, Eq)]
pub struct NotesIngestResponse {
    pub ingested: i64,
    pub skipped: i64,
    pub chunks: i64,
}

/// The paths of a project's notes that are to be kept; the others are removed.
#[derive(Debug, PartialEq, Eq)]
pub struct NotesPrune {
    pub project: String,
    pub paths: Vec<String>,
}

/// How many notes a prune or a clear removed.
#[derive(Debug, PartialEq, Eq)]
pub struct NotesRemoved {
    pub removed: i64,
}

/// A project that has notes, with their number.
#[derive(Debug, PartialEq, Eq)]
pub struct NoteProject {
    pub project: String,
    pub note_count: i64,
}

/// All projects that have notes.
#[derive(Debug, PartialEq, Eq)]
pub struct NoteProjectList {
    pub projects: Vec<NoteProject>,
}

} // verus!
