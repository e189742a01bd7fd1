//! The remote secret source's connection settings. The network client
//! itself is an external collaborator; what the run decides on — where to
//! connect and as whom — is held here as plain values.

use vstd::prelude::*;

verus! {

/// The settings the remote client is built with.
pub struct BitwardenClient {
    pub identity_url: String,
    pub api_url: String,
    pub user_agent: String,
    pub access_token: String,
}

impl BitwardenClient {
    /// The fixed endpoints and agent, with the caller's token.
    pub fn new(access_token: String) -> (r: BitwardenClient)
        ensures
            r.identity_url@ == "https://identity.bitwarden.com"@,
            r.api_url@ == "https://api.bitwarden.com"@,
            r.user_agent@ == "Bitwarden Rust-SDK"@,
            r.access_token@ == access_token@,
    {
        BitwardenClient {
            identity_url: "https://identity.bitwarden.com".to_owned(),
            api_url: "https://api.bitwarden.com".to_owned(),
            user_agent: "Bitwarden Rust-SDK".to_owned(),
            access_token,
        }
    }
}

} // verus!
