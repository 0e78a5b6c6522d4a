use vstd::prelude::*;

verus! {

/// Process configuration; reading it from the environment is the
/// transport layer's concern.
#[derive(Clone, Debug)]
pub struct Config {
    pub mysql_host: String,
    pub mysql_database: String,
    pub mysql_username: String,
    pub mysql_password: String,
    pub google_oauth_client_id: String,
    pub google_oauth_client_secret: String,
    pub google_api_key: String,
}

} // verus!
