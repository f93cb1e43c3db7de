//! Session memory for an AI coding assistant: transcripts are chunked, summarised,
//! indexed and recalled. This crate holds the logic; I/O lives in the application.
use vstd::prelude::*;

pub mod auth;
pub mod capture;
pub mod chunk;
pub mod client;
pub mod config;
pub mod dto;
pub mod install;
pub mod json;
pub mod mcp;
pub mod notes;
pub mod paging;
pub mod pipeline;
pub mod reflect;
pub mod requests;
pub mod search;
pub mod services;
pub mod session_start;
pub mod sql;
pub mod store;
pub mod text;
pub mod textview;
pub mod timefmt;
pub mod transcript;

verus! {
}
