//! Process configuration, as plain values. Reading the environment is
//! the caller's business; the library only carries the values.

use vstd::prelude::*;

verus! {

/// The configuration the process runs under.
pub struct AppConfig {
    pub token_secret: String,
    pub db_url: String,
    pub jwt_secret: String,
    pub rp_id: String,
    pub rp_origin: String,
    pub is_dev: bool,
    pub client_origin: String,
    pub server_addr: String,
}

} // verus!
