//! Configuration of the server: where it listens and which Baikal
//! addressbook it manages.

use vstd::prelude::*;

verus! {

#[derive(Debug, Clone)]
pub struct Config {
    /// Address the API server binds to, e.g. "127.0.0.1:8080"
    pub bind_addr: String,
    pub baikal: BaikalConfig,
}

#[derive(Debug, Clone)]
pub struct BaikalConfig {
    /// Base URL of the Baikal instance, e.g. "http://localhost"
    pub base_url: String,
    /// Username used to authenticate against Baikal's CardDAV endpoint.
    pub username: String,
    /// Password used to authenticate against Baikal's CardDAV endpoint.
    pub password: String,
    /// Path (relative to base_url) of the addressbook collection to manage,
    /// e.g. "/dav.php/addressbooks/alan/default/"
    pub addressbook_path: String,
}

/// The address the server binds to when the configuration names none.
pub fn default_bind_addr() -> (addr: String)
    ensures
        addr@ == "127.0.0.1:8080"@,
{
    String::from_str("127.0.0.1:8080")
}

} // verus!
