//! Parameters of the MCP tools.
use vstd::prelude::*;

verus! {

/// Parameters of `memory_search`.
#[derive(Debug, PartialEq, Eq)]
pub struct SearchParams {
    /// Natural-language query over past session memory.
    pub query: String,
    /// Optional project name to scope the search.
    pub project: Option<String>,
    /// Most results.
    pub limit: Option<u32>,
}

/// Parameters of `recent_sessions`.
#[derive(Debug, PartialEq, Eq)]
pub struct RecentParams {
    /// Optional project name to scope the listing.
    pub project: Option<String>,
    /// Most sessions.
    pub limit: Option<u32>,
}

/// Parameters of `get_session`.
#[derive(Debug, PartialEq, Eq)]
pub struct GetSessionParams {
    /// Id of the session to fetch.
    pub session_id: String,
}

/// The number of hits `memory_search` asks for: the given limit, else 8.
pub fn search_limit(params: &SearchParams) -> (r: usize)
    ensures
        r == match params.limit {
            Some(l) => l as int,
            None => 8,
        },
{
    match params.limit {
        Some(l) => l as usize,
        None => 8,
    }
}

/// The number of sessions `recent_sessions` lists: the given limit, else 10.
pub fn recent_limit(params: &RecentParams) -> (r: usize)
    ensures
        r == match params.limit {
            Some(l) => l as int,
            None => 10,
        },
{
    match params.limit {
        Some(l) => l as usize,
        None => 10,
    }
}

} // verus!
