//! What is sent to the AI models and the vector index, and what is kept of their replies.
use vstd::prelude::*;

use crate::paging::{batches, batches_of};
use crate::text::{concat, trim, trim_str};

verus! {

/// Texts embedded in one call of the embedding model.
pub const EMBED_BATCH: usize = 20;

/// Most tokens of a session digest.
pub const SUMMARY_MAX_TOKENS: u32 = 640;

/// Most tokens of a reflection.
pub const REFLECT_MAX_TOKENS: u32 = 700;

/// The batches in which `n` texts are embedded.
pub fn embed_batches(n: usize) -> (r: Vec<(usize, usize)>)
    ensures
        r@ == batches_of(n as nat, EMBED_BATCH as nat),
{
    batches(n, EMBED_BATCH)
}

/// The user message of a reflection: the project, then the session digest.
pub fn reflect_message(project: &str, summary: &str) -> (res: String)
    ensures
        res@ == "Project: "@ + project@ + "\n\nSession digest:\n"@ + summary@,
{
    let mut s = "Project: ".to_owned();
    s.append(project);
    s.append("\n\nSession digest:\n");
    s.append(summary);
    s
}

/// The digest kept of the summary model's reply: its text trimmed, or nothing.
pub fn digest_of(response: Option<&str>) -> (res: String)
    ensures
        res@ == match response {
            Some(r) => trim(r@),
            None => Seq::empty(),
        },
{
    match response {
        Some(r) => trim_str(r),
        None => String::new(),
    }
}

/// A Vectorize index of an account, and the API token that may change it.
#[derive(Debug, PartialEq, Eq)]
pub struct VectorIndex {
    pub account_id: String,
    pub index: String,
    pub token: String,
}

impl VectorIndex {
    /// The address of an operation (`upsert`, `query`, `delete_by_ids`) on the index.
    pub fn url(&self, op: &str) -> (res: String)
        ensures
            res@ == "https://api.cloudflare.com/client/v4/accounts/"@ + self.account_id@
                + "/vectorize/v2/indexes/"@ + self.index@ + "/"@ + op@,
    {
        let mut s = "https://api.cloudflare.com/client/v4/accounts/".to_owned();
        s.append(self.account_id.as_str());
        s.append("/vectorize/v2/indexes/");
        s.append(self.index.as_str());
        s.append("/");
        s.append(op);
        s
    }

    /// The `authorization` header value of the index's calls.
    pub fn authorization(&self) -> (res: String)
        ensures
            res@ == "Bearer "@ + self.token@,
    {
        concat("Bearer ", self.token.as_str())
    }
}

/// Whether a vector index call failed: an HTTP status of 300 or more, or a reply whose
/// `success` is not `true`.
pub fn vectorize_failed(status: u16, success: Option<bool>) -> (r: bool)
    ensures
        r == (status >= 300 || success != Some(true)),
{
    status >= 300 || !matches!(success, Some(true))
}

} // verus!
