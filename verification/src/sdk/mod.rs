pub mod auth;
pub mod functions;
pub mod postgrest;
pub mod realtime;
pub mod storage;

use vstd::prelude::*;

use crate::sdk::auth::AuthClient;
use crate::sdk::functions::FunctionsClient;
use crate::sdk::postgrest::{PostgrestClient, QueryBuilder};
use crate::sdk::realtime::{websocket_url, RealtimeClient};
use crate::sdk::storage::StorageClient;
use crate::text::{chars_of, string_of, trim_end_all, trim_end_matches};

verus! {

/// A client for every service of one server.
#[derive(Debug, Clone)]
pub struct ChocoClient {
    pub base_url: String,
    pub api_key: String,
    pub auth: AuthClient,
    pub postgrest: PostgrestClient,
    pub storage: StorageClient,
    pub functions: FunctionsClient,
    pub realtime: RealtimeClient,
}

impl ChocoClient {
    /// A client for the server at `base_url` (trailing slashes dropped) with key `api_key`.
    pub fn new(base_url: &str, api_key: &str) -> (c: Self)
        ensures
            c.base_url@ == trim_end_all(base_url@, seq!['/']),
            c.api_key@ == api_key@,
            c.auth.base_url@ == c.base_url@ + "/v1/auth"@,
            c.auth.api_key@ == api_key@,
            c.postgrest.base_url@ == c.base_url@,
            c.postgrest.api_key@ == api_key@,
            c.storage.base_url@ == c.base_url@ + "/v1/storage/v1"@,
            c.storage.api_key@ == api_key@,
            c.functions.base_url@ == c.base_url@ + "/v1/functions"@,
            c.functions.api_key@ == api_key@,
            c.realtime.base_url@ == websocket_url(c.base_url@) + "/v1/realtime"@,
            c.realtime.api_key@ == api_key@,
    {
        let cs = chars_of(base_url);
        let mut slash: Vec<char> = Vec::new();
        slash.push('/');
        assert(slash@ =~= seq!['/']);
        let trimmed = trim_end_matches(cs.as_slice(), slash.as_slice());
        let clean_url = string_of(trimmed.as_slice());
        ChocoClient {
            base_url: clean_url.clone(),
            api_key: api_key.to_string(),
            auth: AuthClient::new(clean_url.clone(), api_key.to_string()),
            postgrest: PostgrestClient::new(clean_url.clone(), api_key.to_string()),
            storage: StorageClient::new(clean_url.clone(), api_key.to_string()),
            functions: FunctionsClient::new(clean_url.clone(), api_key.to_string()),
            realtime: RealtimeClient::new(clean_url, api_key.to_string()),
        }
    }

    /// A request against `table`.
    pub fn from(&self, table: &str) -> (q: QueryBuilder)
        ensures
            q.base_url@ == self.postgrest.base_url@ + "/rest/v1/"@ + table@,
            q.table@ == table@,
            q.api_key@ == self.postgrest.api_key@,
            q.params@ == Map::<Seq<char>, Seq<char>>::empty(),
    {
        self.postgrest.from(table)
    }

    /// A request against `table` (the same as `from`).
    pub fn table(&self, table: &str) -> (q: QueryBuilder)
        ensures
            q.base_url@ == self.postgrest.base_url@ + "/rest/v1/"@ + table@,
            q.table@ == table@,
            q.api_key@ == self.postgrest.api_key@,
            q.params@ == Map::<Seq<char>, Seq<char>>::empty(),
    {
        self.from(table)
    }
}

/// A client for the server at `base_url` with key `api_key`.
pub fn create_client(base_url: &str, api_key: &str) -> (c: ChocoClient)
    ensures
        c.base_url@ == trim_end_all(base_url@, seq!['/']),
        c.api_key@ == api_key@,
        c.auth.base_url@ == c.base_url@ + "/v1/auth"@,
        c.postgrest.base_url@ == c.base_url@,
        c.storage.base_url@ == c.base_url@ + "/v1/storage/v1"@,
        c.functions.base_url@ == c.base_url@ + "/v1/functions"@,
        c.realtime.base_url@ == websocket_url(c.base_url@) + "/v1/realtime"@,
{
    ChocoClient::new(base_url, api_key)
}

} // verus!
