//! Listener settings.
use vstd::prelude::*;

verus! {

/// The port of the management API.
pub const API_PORT: i32 = 3005;

/// Listener ports.
#[derive(Debug, Clone, Copy, PartialEq, Eq, Structural)]
pub struct Config {
    pub api_port: i32,
    pub https_port: i32,
}

impl Config {
    /// The settings for a given HTTPS port.
    pub fn new(https_port: i32) -> (r: Config)
        ensures
            r.api_port == API_PORT,
            r.https_port == https_port,
    {
        Config { api_port: API_PORT, https_port }
    }
}

} // verus!
