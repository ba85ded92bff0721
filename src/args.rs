//! The options that steer one run.
use vstd::prelude::*;

verus! {

/// The options of one run. Paths are kept as the text that was given.
pub struct Args {
    /// Use this architecture instead of detecting the installed ones.
    pub architecture: Option<String>,
    /// Query this rebuilderd instance instead of the default ones.
    pub rebuilderd: Option<String>,
    /// Read the package database listing from this file.
    pub dpkg_query_output: Option<String>,
    /// Read the rebuilderd package list from this file.
    pub rebuilderd_query_output: Option<String>,
    /// Show only the packages of this status (`GOOD`, `BAD` or `UNKWN`).
    pub filter: Option<String>,
    /// Show only the summary.
    pub summary: bool,
}

} // verus!
