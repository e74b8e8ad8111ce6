//! How many workers process the discovered media, and where to look for it.

use vstd::prelude::*;

verus! {

/// The processing settings shared by all commands.
#[derive(Debug)]
pub struct JobConfig {
    /// Number of media files processed concurrently.
    pub jobs: u8,
    /// Number of threads each job may use.
    pub threads_per_job: u8,
    /// Folders searched for media containers.
    pub paths: Vec<String>,
}

} // verus!
