//! The feed's required external configuration and its load order.

use vstd::prelude::*;

use crate::error::{Error, ErrorKind};

verus! {

/// The configuration the feed build requires; neither field has a default.
#[derive(Debug, Clone)]
pub struct Config {
    /// The server base URL (for example `https://example.org`).
    pub base_url: String,
    /// The webroot path (for example `/var/www`).
    pub webroot: String,
}

impl Config {
    /// Picks the configuration by precedence: the environment first, then the
    /// directory-local file, then the per-user file; with every source
    /// absent, the configuration is missing. The caller supplies each source
    /// already read and parsed, or `None` where it is absent.
    pub fn load(env: Option<Config>, local: Option<Config>, user: Option<Config>) -> (r: Result<
        Config,
        Error,
    >)
        ensures
            env matches Some(c) ==> r matches Ok(rc) && rc == c,
            env is None ==> (local matches Some(c) ==> r matches Ok(rc) && rc == c),
            env is None && local is None ==> (user matches Some(c) ==> r matches Ok(rc) && rc == c),
            env is None && local is None && user is None ==> (r matches Err(e) && e.kind
                == ErrorKind::NotFound),
    {
        if let Some(c) = env {
            return Ok(c);
        }
        if let Some(c) = local {
            return Ok(c);
        }
        if let Some(c) = user {
            return Ok(c);
        }
        Err(Error::new(ErrorKind::NotFound, "missing obligatory config file".to_owned()))
    }
}

} // verus!
