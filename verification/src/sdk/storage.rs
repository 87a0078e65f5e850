use vstd::prelude::*;

use crate::text::{nat_decimal, push_str, push_u64_decimal, string_of};

verus! {

/// Client for one storage bucket.
#[derive(Debug, Clone)]
pub struct BucketClient {
    pub base_url: String,
    pub bucket: String,
    pub api_key: String,
}

impl BucketClient {
    /// The signed download address of `path`, valid for `expires_in` seconds.
    pub fn create_signed_url(&self, path: &str, expires_in: u64) -> (s: String)
        ensures
            s@ == self.base_url@ + "/sign/"@ + path@ + "?expires_in="@ + nat_decimal(
                expires_in as nat,
            ),
    {
        let mut out: Vec<char> = Vec::new();
        push_str(&mut out, self.base_url.as_str());
        push_str(&mut out, "/sign/");
        push_str(&mut out, path);
        push_str(&mut out, "?expires_in=");
        push_u64_decimal(&mut out, expires_in);
        string_of(out.as_slice())
    }
}

/// Client for the storage service.
#[derive(Debug, Clone)]
pub struct StorageClient {
    pub base_url: String,
    pub api_key: String,
}

impl StorageClient {
    /// A client for the storage service under `base_url`.
    pub fn new(base_url: String, api_key: String) -> (c: Self)
        ensures
            c.base_url@ == base_url@ + "/v1/storage/v1"@,
            c.api_key == api_key,
    {
        let mut url: Vec<char> = Vec::new();
        push_str(&mut url, base_url.as_str());
        push_str(&mut url, "/v1/storage/v1");
        StorageClient { base_url: string_of(url.as_slice()), api_key }
    }

    /// A client for the bucket `bucket`.
    pub fn from(&self, bucket: &str) -> (b: BucketClient)
        ensures
            b.base_url@ == self.base_url@ + "/object/"@ + bucket@,
            b.bucket@ == bucket@,
            b.api_key@ == self.api_key@,
    {
        let mut url: Vec<char> = Vec::new();
        push_str(&mut url, self.base_url.as_str());
        push_str(&mut url, "/object/");
        push_str(&mut url, bucket);
        BucketClient {
            base_url: string_of(url.as_slice()),
            bucket: bucket.to_string(),
            api_key: self.api_key.clone(),
        }
    }
}

} // verus!
