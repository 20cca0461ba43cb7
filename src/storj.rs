//! Configuration of the S3-compatible object store that holds the envelopes.
use vstd::prelude::*;

verus! {

/// Credentials and location of the bucket.
#[derive(Debug, Clone)]
pub struct StorjConfig {
    pub access_key_id: String,
    pub secret_access_key: String,
    pub endpoint: String,
    pub bucket_name: String,
    pub region: String,
}

impl StorjConfig {
    /// A configuration in region `"us-east-1"`.
    pub fn new(access_key_id: String, secret_access_key: String, endpoint: String, bucket_name: String) -> (r:
        Self)
        ensures
            r.access_key_id@ == access_key_id@,
            r.secret_access_key@ == secret_access_key@,
            r.endpoint@ == endpoint@,
            r.bucket_name@ == bucket_name@,
            r.region@ == "us-east-1"@,
    {
        StorjConfig { access_key_id, secret_access_key, endpoint, bucket_name, region: "us-east-1".to_owned() }
    }
}

/// Errors of the object store.
#[derive(Debug, Clone, PartialEq, Eq)]
pub enum StorjError {
    Config(String),
    S3(String),
    Io(String),
    NotFound,
}

} // verus!
