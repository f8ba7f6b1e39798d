//! The client configuration: the credential and the endpoint that every
//! request is sent to.  The HTTP exchange itself happens outside the
//! library; this type only carries the configuration into it.

use vstd::prelude::*;

verus! {

/// Configuration for one client: an API key and a GraphQL endpoint.
#[derive(Debug, Clone)]
pub struct NewRelicClient {
    pub api_key: String,
    pub endpoint: String,
}

impl NewRelicClient {
    /// A client that will authenticate with `api_key` against `endpoint`.
    pub fn new(api_key: String, endpoint: String) -> (r: Self)
        ensures
            r.api_key@ == api_key@,
            r.endpoint@ == endpoint@,
    {
        NewRelicClient { api_key, endpoint }
    }
}

} // verus!
