//! Audits the packages installed on a Debian system against the results
//! published by a rebuilderd instance: parsing of the local inventory,
//! choice of the remote endpoints, the join of both, and the summary.

pub mod args;
pub mod dpkg;
pub mod endpoints;
pub mod remote;
pub mod report;
pub mod text;
pub mod verification;
