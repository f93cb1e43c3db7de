//! What the Worker's endpoints accept, and the small documents they answer with.
use vstd::prelude::*;

use crate::dto::IngestRequest;
use crate::json::Json;
use crate::paging::{clamped_param, clamped_param_of};
use crate::text::{blank, is_blank};

verus! {

/// Search results returned when the request names no limit.
pub const DEFAULT_SEARCH_LIMIT: usize = 8;

/// Most search results one request may ask for.
pub const MAX_SEARCH_LIMIT: usize = 50;

/// Recent sessions of the current project recalled at session start.
pub const CONTEXT_PROJECT_SESSIONS: usize = 3;

/// Recent sessions of other projects recalled at session start.
pub const CONTEXT_OTHER_SESSIONS: usize = 2;

/// Lessons recalled at session start.
pub const CONTEXT_LESSONS: usize = 8;

/// Sessions listed per page when the request names no limit.
pub const DEFAULT_LIST_LIMIT: usize = 20;

/// Most sessions listed per page.
pub const MAX_LIST_LIMIT: usize = 100;

/// Knowledge-base results returned when the request names no limit.
pub const KNOWLEDGE_LIMIT: usize = 8;

/// Most knowledge-base results one request may ask for.
pub const KNOWLEDGE_MAX: usize = 50;

/// Lessons listed when the request names no limit.
pub const DEFAULT_LESSON_LIMIT: usize = 50;

/// Most lessons listed at once.
pub const MAX_LESSON_LIMIT: usize = 200;

/// Sessions reflected on when a backfill names no limit.
pub const REFLECT_DEFAULT: usize = 20;

/// Most sessions one backfill reflects on.
pub const REFLECT_MAX: usize = 50;

/// The view of an optional text parameter.
pub open spec fn param_view(p: Option<&str>) -> Option<Seq<char>> {
    match p {
        Some(s) => Some(s@),
        None => None,
    }
}

/// A search query parameter: present and not blank.
pub fn required_query(q: Option<&str>) -> (r: Option<String>)
    ensures
        match r {
            Some(s) => q matches Some(x) && s@ == x@ && !blank(x@),
            None => q matches Some(x) ==> blank(x@),
        },
{
    match q {
        Some(x) => {
            if is_blank(x) {
                None
            } else {
                Some(x.to_owned())
            }
        },
        None => None,
    }
}

/// A required parameter such as the project: present and not empty.
pub fn required_param(p: Option<&str>) -> (r: Option<String>)
    ensures
        match r {
            Some(s) => p matches Some(x) && s@ == x@ && x@.len() > 0,
            None => p matches Some(x) ==> x@.len() == 0,
        },
{
    match p {
        Some(x) => {
            if x.is_empty() {
                None
            } else {
                Some(x.to_owned())
            }
        },
        None => None,
    }
}

/// The number of search results a request asks for: its `limit` when readable, else the
/// default, never more than the maximum.
pub fn search_limit(raw: Option<&str>) -> (r: usize)
    ensures
        r == clamped_param_of(param_view(raw), DEFAULT_SEARCH_LIMIT as nat, MAX_SEARCH_LIMIT as nat),
{
    clamped_param(raw, DEFAULT_SEARCH_LIMIT, MAX_SEARCH_LIMIT)
}

/// The number of knowledge-base results a request asks for.
pub fn knowledge_limit(raw: Option<&str>) -> (r: usize)
    ensures
        r == clamped_param_of(param_view(raw), KNOWLEDGE_LIMIT as nat, KNOWLEDGE_MAX as nat),
{
    clamped_param(raw, KNOWLEDGE_LIMIT, KNOWLEDGE_MAX)
}

/// The number of lessons a request asks for.
pub fn lesson_limit(raw: Option<&str>) -> (r: usize)
    ensures
        r == clamped_param_of(param_view(raw), DEFAULT_LESSON_LIMIT as nat, MAX_LESSON_LIMIT as nat),
{
    clamped_param(raw, DEFAULT_LESSON_LIMIT, MAX_LESSON_LIMIT)
}

/// The number of sessions a backfill reflects on.
pub fn reflect_limit(raw: Option<&str>) -> (r: usize)
    ensures
        r == clamped_param_of(param_view(raw), REFLECT_DEFAULT as nat, REFLECT_MAX as nat),
{
    clamped_param(raw, REFLECT_DEFAULT, REFLECT_MAX)
}

/// The page size of a session listing.
pub fn list_limit(raw: Option<&str>) -> (r: usize)
    ensures
        r == clamped_param_of(param_view(raw), DEFAULT_LIST_LIMIT as nat, MAX_LIST_LIMIT as nat),
{
    clamped_param(raw, DEFAULT_LIST_LIMIT, MAX_LIST_LIMIT)
}

/// An ingest request carries a session id and at least one message.
pub fn ingest_complete(req: &IngestRequest) -> (r: bool)
    ensures
        r == (req.session_id@.len() > 0 && req.messages@.len() > 0),
{
    !req.session_id.as_str().is_empty() && req.messages.len() > 0
}

/// `{"$eq": value}`.
pub open spec fn is_eq_condition(v: Json, value: Seq<char>) -> bool {
    v matches Json::Object(ms) && ms@.len() == 1 && ms@[0].0@ == "$eq"@ && (ms@[0].1 matches Json::Str(
        s,
    ) && s@ == value)
}

/// An index filter member `name: {"$eq": value}`.
pub open spec fn is_condition(m: (String, Json), name: Seq<char>, value: Seq<char>) -> bool {
    m.0@ == name && is_eq_condition(m.1, value)
}

fn condition(name: &str, value: &str) -> (m: (String, Json))
    ensures
        is_condition(m, name@, value@),
{
    let mut inner: Vec<(String, Json)> = Vec::new();
    inner.push(("$eq".to_owned(), Json::Str(value.to_owned())));
    (name.to_owned(), Json::Object(inner))
}

/// The vector index filter of a search: the project and the kind, each when given and
/// not empty, in that order; no filter when neither is.
pub fn search_filter(project: Option<&str>, kind: Option<&str>) -> (r: Option<Json>)
    ensures
        ({
            let p = match project {
                Some(x) => x@.len() > 0,
                None => false,
            };
            let k = match kind {
                Some(x) => x@.len() > 0,
                None => false,
            };
            match r {
                None => !p && !k,
                Some(f) => (p || k) && (f matches Json::Object(ms) && ms@.len() == (if p { 1int } else { 0int }) + (if k { 1int } else { 0int })
                    && (p ==> is_condition(ms@[0], "project"@, project.unwrap()@))
                    && (k ==> is_condition(ms@[ms@.len() - 1], "kind"@, kind.unwrap()@))),
            }
        }),
{
    let mut members: Vec<(String, Json)> = Vec::new();
    match project {
        Some(p) => {
            if !p.is_empty() {
                members.push(condition("project", p));
            }
        },
        None => {},
    }
    match kind {
        Some(k) => {
            if !k.is_empty() {
                members.push(condition("kind", k));
            }
        },
        None => {},
    }
    if members.len() == 0 {
        None
    } else {
        Some(Json::Object(members))
    }
}

/// The vector index filter of a knowledge-base search: notes only, and of the project when
/// one is given and not empty.
pub fn note_filter(project: Option<&str>) -> (f: Json)
    ensures
        ({
            let p = match project {
                Some(x) => x@.len() > 0,
                None => false,
            };
            f matches Json::Object(ms) && ms@.len() == (if p { 2int } else { 1int }) && is_condition(
                ms@[0],
                "kind"@,
                "note"@,
            ) && (p ==> is_condition(ms@[1], "project"@, project.unwrap()@))
        }),
{
    let mut members: Vec<(String, Json)> = Vec::new();
    members.push(condition("kind", "note"));
    match project {
        Some(p) => {
            if !p.is_empty() {
                members.push(condition("project", p));
            }
        },
        None => {},
    }
    Json::Object(members)
}

/// What a backfill reports it reflects on: the session when one is named, else the
/// project, else `"recent"`.
pub fn reflect_target(session: Option<&str>, project: Option<&str>) -> (r: String)
    ensures
        r@ == match session {
            Some(s) => s@,
            None => match project {
                Some(p) => p@,
                None => "recent"@,
            },
        },
{
    match session {
        Some(s) => s.to_owned(),
        None => match project {
            Some(p) => p.to_owned(),
            None => "recent".to_owned(),
        },
    }
}

/// `{"id": id, "status": status}`.
pub open spec fn is_status_body(v: Json, id: Seq<char>, status: Seq<char>) -> bool {
    &&& v matches Json::Object(ms)
    &&& ms@.len() == 2
    &&& ms@[0].0@ == "id"@
    &&& ms@[0].1 matches Json::Str(i) && i@ == id
    &&& ms@[1].0@ == "status"@
    &&& ms@[1].1 matches Json::Str(s) && s@ == status
}

/// The answer to a request acted on later or at once: `{"id": id, "status": status}`, as
/// with `"reflecting"` for a backfill and `"deleted"` for a removed lesson.
pub fn status_body(id: &str, status: &str) -> (v: Json)
    ensures
        is_status_body(v, id@, status@),
{
    let mut members: Vec<(String, Json)> = Vec::new();
    members.push(("id".to_owned(), Json::Str(id.to_owned())));
    members.push(("status".to_owned(), Json::Str(status.to_owned())));
    Json::Object(members)
}

/// The headers that let browsers call the API from any origin.
pub open spec fn cors_headers_of() -> Seq<(Seq<char>, Seq<char>)> {
    seq![
        ("Access-Control-Allow-Origin"@, "*"@),
        ("Access-Control-Allow-Methods"@, "GET, POST, DELETE, OPTIONS"@),
        ("Access-Control-Allow-Headers"@, "Authorization, Content-Type"@),
        ("Access-Control-Max-Age"@, "86400"@),
    ]
}

/// The headers set on every response, in order.
pub fn cors_headers() -> (r: Vec<(String, String)>)
    ensures
        r@.map_values(|h: (String, String)| (h.0@, h.1@)) == cors_headers_of(),
{
    let r = vec![
        ("Access-Control-Allow-Origin".to_owned(), "*".to_owned()),
        ("Access-Control-Allow-Methods".to_owned(), "GET, POST, DELETE, OPTIONS".to_owned()),
        ("Access-Control-Allow-Headers".to_owned(), "Authorization, Content-Type".to_owned()),
        ("Access-Control-Max-Age".to_owned(), "86400".to_owned()),
    ];
    assert(r@.map_values(|h: (String, String)| (h.0@, h.1@)) =~= cors_headers_of());
    r
}

} // verus!
