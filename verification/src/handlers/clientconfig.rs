//! What a client is told about the service.

use vstd::prelude::*;

verus! {

/// What a client is told about the service.
#[derive(Debug)]
pub struct ClientConfig {
    pub mygpo: MyGpoConfig,
    pub update_timeout: i64,
}

/// Where the service is reached.
#[derive(Debug)]
pub struct MyGpoConfig {
    pub base_url: String,
}

/// The configuration for clients: the base URL, and that it is good for
/// seven days.
pub fn get_client_config(base_url: String) -> (r: ClientConfig)
    ensures
        r.mygpo.base_url == base_url,
        r.update_timeout == 604800,
{
    ClientConfig { mygpo: MyGpoConfig { base_url }, update_timeout: 604800 }
}

} // verus!
