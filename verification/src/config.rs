//! The application's startup configuration.
//!
//! The values are loaded from configuration files by the surrounding
//! program and handed in as plain data; the signing secret joins them to
//! form the immutable [`TokenConfig`] the token issuer and validator use.

use vstd::prelude::*;

use crate::textutil::str_eq;
use crate::token::TokenConfig;

verus! {

/// What the configuration files provide.
#[derive(Debug)]
pub struct AppConfig {
    pub port: u16,
    pub rust_log: Option<String>,
    pub database_url: String,
    pub jwt_issuer: String,
    pub jwt_audience: String,
    pub jwt_exp_secs: u64,
}

impl AppConfig {
    /// Whether this configuration is production-flavored: the log level
    /// is exactly `info`.
    pub fn is_production(&self) -> (r: bool)
        ensures
            r == (self.rust_log matches Some(s) && s@ == "info"@),
    {
        match &self.rust_log {
            Some(s) => str_eq(s.as_str(), "info"),
            None => false,
        }
    }

    /// The immutable signing configuration: these settings plus the
    /// secret, with issuer/audience checking as the caller chooses.
    pub fn token_config(&self, secret: Vec<u8>, check_issuer: bool, check_audience: bool) -> (c:
        TokenConfig)
        ensures
            c.issuer@ == self.jwt_issuer@,
            c.audience@ == self.jwt_audience@,
            c.exp_secs == self.jwt_exp_secs,
            c.secret == secret,
            c.check_issuer == check_issuer,
            c.check_audience == check_audience,
    {
        TokenConfig {
            issuer: self.jwt_issuer.clone(),
            audience: self.jwt_audience.clone(),
            exp_secs: self.jwt_exp_secs,
            secret,
            check_issuer,
            check_audience,
        }
    }
}

} // verus!
