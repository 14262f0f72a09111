//! The service's settings.

use vstd::prelude::*;

verus! {

/// How the service is set up.
#[derive(Clone, Debug)]
pub struct Settings {
    /// Address of the schedule site.
    pub scraper_base_url: String,
    pub debug: bool,
    /// The token that requests must present.
    pub auth_token: String,
    pub enable_swagger: bool,
    pub port: u16,
    /// The gym's address, where it is fixed rather than read from the site.
    pub location: Option<String>,
}

} // verus!
