//! How a reader connects.

use vstd::prelude::*;

verus! {

/// How a reader proves who it is.
#[derive(Debug, Clone, Copy, PartialEq, Eq, Structural)]
pub enum SnowflakeAuthenticator {
    /// With a token that is signed by a private key.
    SnowflakeJwt,
}

/// The settings with which a reader connects.
#[derive(Debug)]
pub struct SnowflakeReaderConfig {
    pub account: String,
    pub user: String,
    pub authenticator: SnowflakeAuthenticator,
    pub role: Option<String>,
    pub warehouse: Option<String>,
    pub database: Option<String>,
    pub schema: Option<String>,
    pub private_key_file: String,
    pub private_key_file_pwd: Option<String>,
}

} // verus!
