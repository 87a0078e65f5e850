use vstd::prelude::*;

use crate::text::{push_str, string_of};

verus! {

/// Client for the edge-functions service.
#[derive(Debug, Clone)]
pub struct FunctionsClient {
    pub base_url: String,
    pub api_key: String,
}

impl FunctionsClient {
    /// A client for the functions service under `base_url`.
    pub fn new(base_url: String, api_key: String) -> (c: Self)
        ensures
            c.base_url@ == base_url@ + "/v1/functions"@,
            c.api_key == api_key,
    {
        let mut url: Vec<char> = Vec::new();
        push_str(&mut url, base_url.as_str());
        push_str(&mut url, "/v1/functions");
        FunctionsClient { base_url: string_of(url.as_slice()), api_key }
    }
}

} // verus!
