//! The TOML configuration of the single-command variant.

use vstd::prelude::*;

verus! {

/// The configuration read from a TOML file.
#[derive(Debug)]
pub struct Config {
    pub target: String,
    pub jobs: u16,
    pub threads_per_job: u16,
    pub folders: Vec<String>,
}

} // verus!
