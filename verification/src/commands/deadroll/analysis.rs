//! Settings of the black and silence analysis.

use vstd::prelude::*;
use crate::config::Config;

verus! {

/// A frame type that can be created empty, to be filled by a decoder.
pub trait EmptyFrame: Sized {
    fn empty() -> Self;
}

/// Settings of one analysis job.
#[derive(Debug)]
pub struct AnalysisJobConfig {
    pub threads_per_job: usize,
    pub logging_enabled: bool,
}

/// The analysis settings taken from the configuration.
pub fn analysis_job_config(config: &Config) -> (c: AnalysisJobConfig)
    ensures
        c.threads_per_job == config.processing.threads_per_job as usize,
        c.logging_enabled == config.logging.enabled,
{
    AnalysisJobConfig {
        threads_per_job: config.processing.threads_per_job as usize,
        logging_enabled: config.logging.enabled,
    }
}

} // verus!
