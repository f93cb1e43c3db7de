//! The requests the API client sends: their method, address and query.
use vstd::prelude::*;

use crate::text::{chars_of, concat, concat3, dec, fmt_u64, string_of};

verus! {

/// `s` without its trailing `/` characters.
pub open spec fn trim_trailing_slashes(s: Seq<char>) -> Seq<char>
    decreases s.len(),
{
    if s.len() > 0 && s.last() == '/' {
        trim_trailing_slashes(s.drop_last())
    } else {
        s
    }
}

/// The base URL of the API: the configured URL without trailing slashes.
pub fn api_base(url: &str) -> (res: String)
    ensures
        res@ == trim_trailing_slashes(url@),
{
    let v = chars_of(url);
    let mut j = v.len();
    assert(v@.subrange(0, j as int) =~= url@);
    while j > 0 && v[j - 1] == '/'
        invariant
            v@ == url@,
            j <= v@.len(),
            trim_trailing_slashes(url@) == trim_trailing_slashes(v@.subrange(0, j as int)),
        decreases j,
    {
        assert(v@.subrange(0, j as int).drop_last() =~= v@.subrange(0, j - 1));
        j = j - 1;
    }
    string_of(v.as_slice(), 0, j)
}

/// The full URL of an API path: the base followed by the path.
pub fn endpoint(base: &str, path: &str) -> (res: String)
    ensures
        res@ == base@ + path@,
{
    concat(base, path)
}

/// An HTTP method the API uses.
#[derive(Debug, PartialEq, Eq, Clone, Copy)]
pub enum Method {
    Get,
    Post,
    Delete,
}

/// A request to the API, before the body (if any) and the token are attached: method,
/// path under the base URL, and query parameters in order.
#[derive(Debug, PartialEq, Eq)]
pub struct ApiRequest {
    pub method: Method,
    pub path: String,
    pub query: Vec<(String, String)>,
}

/// The query parameters as text pairs.
pub open spec fn query_view(q: Seq<(String, String)>) -> Seq<(Seq<char>, Seq<char>)> {
    q.map_values(|p: (String, String)| (p.0@, p.1@))
}

/// The request has this method, path and query.
pub open spec fn is_request(r: ApiRequest, method: Method, path: Seq<char>, query: Seq<(Seq<char>, Seq<char>)>) -> bool {
    r.method == method && r.path@ == path && query_view(r.query@) == query
}

/// The query pair for an optional parameter: one pair when given, none otherwise.
pub open spec fn optional(name: Seq<char>, value: Option<&str>) -> Seq<(Seq<char>, Seq<char>)> {
    match value {
        Some(v) => seq![(name, v@)],
        None => Seq::empty(),
    }
}

fn request(method: Method, path: String, query: Vec<(String, String)>) -> (r: ApiRequest)
    ensures
        r.method == method,
        r.path == path,
        r.query == query,
{
    ApiRequest { method, path, query }
}

fn push_pair(q: &mut Vec<(String, String)>, name: &str, value: String)
    ensures
        query_view(final(q)@) == query_view(old(q)@).push((name@, value@)),
{
    q.push((name.to_owned(), value));
    assert(query_view(q@) =~= query_view(old(q)@).push((name@, value@)));
}

fn push_optional(q: &mut Vec<(String, String)>, name: &str, value: Option<&str>)
    ensures
        query_view(final(q)@) == query_view(old(q)@) + optional(name@, value),
{
    match value {
        Some(v) => {
            push_pair(q, name, v.to_owned());
        },
        None => {
            assert(query_view(q@) =~= query_view(old(q)@) + optional(name@, value));
        },
    }
}

fn no_query() -> (q: Vec<(String, String)>)
    ensures
        query_view(q@) == Seq::<(Seq<char>, Seq<char>)>::empty(),
{
    let q: Vec<(String, String)> = Vec::new();
    assert(query_view(q@) =~= Seq::<(Seq<char>, Seq<char>)>::empty());
    q
}

/// Sends a finished session: `POST /v1/sessions`.
pub fn ingest_request() -> (r: ApiRequest)
    ensures
        is_request(r, Method::Post, "/v1/sessions"@, Seq::empty()),
{
    request(Method::Post, "/v1/sessions".to_owned(), no_query())
}

/// Processes a stored session again: `POST /v1/sessions/{id}/process`.
pub fn reprocess_request(id: &str) -> (r: ApiRequest)
    ensures
        is_request(r, Method::Post, "/v1/sessions/"@ + id@ + "/process"@, Seq::empty()),
{
    request(Method::Post, concat3("/v1/sessions/", id, "/process"), no_query())
}

/// Deletes a stored session: `DELETE /v1/sessions/{id}`.
pub fn delete_session_request(id: &str) -> (r: ApiRequest)
    ensures
        is_request(r, Method::Delete, "/v1/sessions/"@ + id@, Seq::empty()),
{
    request(Method::Delete, concat("/v1/sessions/", id), no_query())
}

/// Searches the sessions: `GET /v1/search?q=..&limit=..[&project=..]`.
pub fn search_request(query: &str, project: Option<&str>, limit: usize) -> (r: ApiRequest)
    ensures
        is_request(
            r,
            Method::Get,
            "/v1/search"@,
            seq![("q"@, query@), ("limit"@, dec(limit as nat))] + optional("project"@, project),
        ),
{
    let mut q = no_query();
    push_pair(&mut q, "q", query.to_owned());
    push_pair(&mut q, "limit", fmt_u64(limit as u64));
    push_optional(&mut q, "project", project);
    let r = request(Method::Get, "/v1/search".to_owned(), q);
    assert(query_view(r.query@) =~= seq![("q"@, query@), ("limit"@, dec(limit as nat))] + optional("project"@, project));
    r
}

/// The recall bundle of a project: `GET /v1/context?project=..`.
pub fn context_request(project: &str) -> (r: ApiRequest)
    ensures
        is_request(r, Method::Get, "/v1/context"@, seq![("project"@, project@)]),
{
    let mut q = no_query();
    push_pair(&mut q, "project", project.to_owned());
    let r = request(Method::Get, "/v1/context".to_owned(), q);
    assert(query_view(r.query@) =~= seq![("project"@, project@)]);
    r
}

/// A page of stored sessions: `GET /v1/sessions?limit=..&offset=..[&project=..]`.
pub fn sessions_request(project: Option<&str>, limit: usize, offset: usize) -> (r: ApiRequest)
    ensures
        is_request(
            r,
            Method::Get,
            "/v1/sessions"@,
            seq![("limit"@, dec(limit as nat)), ("offset"@, dec(offset as nat))] + optional("project"@, project),
        ),
{
    let mut q = no_query();
    push_pair(&mut q, "limit", fmt_u64(limit as u64));
    push_pair(&mut q, "offset", fmt_u64(offset as u64));
    push_optional(&mut q, "project", project);
    let r = request(Method::Get, "/v1/sessions".to_owned(), q);
    assert(query_view(r.query@) =~= seq![("limit"@, dec(limit as nat)), ("offset"@, dec(offset as nat))] + optional("project"@, project));
    r
}

/// One stored session: `GET /v1/sessions/{id}`.
pub fn session_request(id: &str) -> (r: ApiRequest)
    ensures
        is_request(r, Method::Get, "/v1/sessions/"@ + id@, Seq::empty()),
{
    request(Method::Get, concat("/v1/sessions/", id), no_query())
}

/// The lessons: `GET /v1/lessons?limit=..[&project=..]`.
pub fn lessons_request(project: Option<&str>, limit: usize) -> (r: ApiRequest)
    ensures
        is_request(
            r,
            Method::Get,
            "/v1/lessons"@,
            seq![("limit"@, dec(limit as nat))] + optional("project"@, project),
        ),
{
    let mut q = no_query();
    push_pair(&mut q, "limit", fmt_u64(limit as u64));
    push_optional(&mut q, "project", project);
    let r = request(Method::Get, "/v1/lessons".to_owned(), q);
    assert(query_view(r.query@) =~= seq![("limit"@, dec(limit as nat))] + optional("project"@, project));
    r
}

/// A reflection backfill: `POST /v1/lessons/reflect?limit=..[&project=..][&session=..]`.
pub fn reflect_request(project: Option<&str>, session: Option<&str>, limit: usize) -> (r: ApiRequest)
    ensures
        is_request(
            r,
            Method::Post,
            "/v1/lessons/reflect"@,
            seq![("limit"@, dec(limit as nat))] + optional("project"@, project) + optional("session"@, session),
        ),
{
    let mut q = no_query();
    push_pair(&mut q, "limit", fmt_u64(limit as u64));
    push_optional(&mut q, "project", project);
    push_optional(&mut q, "session", session);
    let r = request(Method::Post, "/v1/lessons/reflect".to_owned(), q);
    assert(query_view(r.query@) =~= seq![("limit"@, dec(limit as nat))] + optional("project"@, project) + optional("session"@, session));
    r
}

/// Deletes a lesson: `DELETE /v1/lessons/{id}`.
pub fn delete_lesson_request(id: &str) -> (r: ApiRequest)
    ensures
        is_request(r, Method::Delete, "/v1/lessons/"@ + id@, Seq::empty()),
{
    request(Method::Delete, concat("/v1/lessons/", id), no_query())
}

/// The projects with notes: `GET /v1/notes/projects`.
pub fn note_projects_request() -> (r: ApiRequest)
    ensures
        is_request(r, Method::Get, "/v1/notes/projects"@, Seq::empty()),
{
    request(Method::Get, "/v1/notes/projects".to_owned(), no_query())
}

/// The notes of a project: `GET /v1/notes?project=..`.
pub fn list_notes_request(project: &str) -> (r: ApiRequest)
    ensures
        is_request(r, Method::Get, "/v1/notes"@, seq![("project"@, project@)]),
{
    let mut q = no_query();
    push_pair(&mut q, "project", project.to_owned());
    let r = request(Method::Get, "/v1/notes".to_owned(), q);
    assert(query_view(r.query@) =~= seq![("project"@, project@)]);
    r
}

/// The content of one note: `GET /v1/notes/content?project=..&path=..`.
pub fn note_content_request(project: &str, path: &str) -> (r: ApiRequest)
    ensures
        is_request(r, Method::Get, "/v1/notes/content"@, seq![("project"@, project@), ("path"@, path@)]),
{
    let mut q = no_query();
    push_pair(&mut q, "project", project.to_owned());
    push_pair(&mut q, "path", path.to_owned());
    let r = request(Method::Get, "/v1/notes/content".to_owned(), q);
    assert(query_view(r.query@) =~= seq![("project"@, project@), ("path"@, path@)]);
    r
}

/// Sends notes for indexing: `POST /v1/notes`.
pub fn ingest_notes_request() -> (r: ApiRequest)
    ensures
        is_request(r, Method::Post, "/v1/notes"@, Seq::empty()),
{
    request(Method::Post, "/v1/notes".to_owned(), no_query())
}

/// Removes the notes not listed: `POST /v1/notes/prune`.
pub fn prune_notes_request() -> (r: ApiRequest)
    ensures
        is_request(r, Method::Post, "/v1/notes/prune"@, Seq::empty()),
{
    request(Method::Post, "/v1/notes/prune".to_owned(), no_query())
}

/// Removes all notes of a project: `DELETE /v1/notes?project=..`.
pub fn clear_notes_request(project: &str) -> (r: ApiRequest)
    ensures
        is_request(r, Method::Delete, "/v1/notes"@, seq![("project"@, project@)]),
{
    let mut q = no_query();
    push_pair(&mut q, "project", project.to_owned());
    let r = request(Method::Delete, "/v1/notes".to_owned(), q);
    assert(query_view(r.query@) =~= seq![("project"@, project@)]);
    r
}

/// Searches the knowledge base: `GET /v1/knowledge?q=..&limit=..[&project=..]`.
pub fn knowledge_request(query: &str, project: Option<&str>, limit: usize) -> (r: ApiRequest)
    ensures
        is_request(
            r,
            Method::Get,
            "/v1/knowledge"@,
            seq![("q"@, query@), ("limit"@, dec(limit as nat))] + optional("project"@, project),
        ),
{
    let mut q = no_query();
    push_pair(&mut q, "q", query.to_owned());
    push_pair(&mut q, "limit", fmt_u64(limit as u64));
    push_optional(&mut q, "project", project);
    let r = request(Method::Get, "/v1/knowledge".to_owned(), q);
    assert(query_view(r.query@) =~= seq![("q"@, query@), ("limit"@, dec(limit as nat))] + optional("project"@, project));
    r
}

/// Whether an HTTP status reports success (2xx).
pub fn is_success(status: u16) -> (r: bool)
    ensures
        r == (200 <= status <= 299),
{
    200 <= status && status <= 299
}

} // verus!
