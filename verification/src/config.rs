//! The settings of an application.

use vstd::prelude::*;
use vstd::string::*;

verus! {

/// The settings of an application: whether it runs in debug mode, and the
/// host and port that it is meant to serve on.
#[derive(Debug, Clone)]
pub struct FlaskConfig {
    pub debug: bool,
    pub host: String,
    pub port: u16,
}

impl Default for FlaskConfig {
    /// Debug mode off, on the local host at port 8080.
    fn default() -> (out: Self)
        ensures
            !out.debug,
            out.host@ == "127.0.0.1"@,
            out.port == 8080,
    {
        FlaskConfig { debug: false, host: String::from_str("127.0.0.1"), port: 8080 }
    }
}

} // verus!
