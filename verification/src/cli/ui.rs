//! `maggraph ui`: arguments of the dashboard command.
use vstd::prelude::*;

verus! {

/// Arguments of `maggraph ui`.
#[derive(Debug, Clone, PartialEq, Eq)]
pub struct UiArgs {
    /// Host to bind (must be loopback: 127.0.0.1 or ::1)
    pub host: String,
    /// TCP port for the dashboard
    pub port: u16,
    /// Print the URL and exit without starting the server
    pub dry_run: bool,
}

} // verus!
