//! Where the client finds the API.
use vstd::prelude::*;

verus! {

/// The API's URL and the token that authorises requests to it.
#[derive(Debug, PartialEq, Eq)]
pub struct Config {
    pub url: String,
    pub token: String,
}

} // verus!
