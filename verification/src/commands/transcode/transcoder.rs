//! The settings handed to each transcoder.

use vstd::prelude::*;
use crate::config::{CodecOptions, Config};
use crate::media::video_codec::VideoCodec;

verus! {

/// Settings of one transcode job.
#[derive(Debug)]
pub struct TranscodeJobConfig {
    pub threads_per_job: usize,
    pub target: VideoCodec,
    /// Encoder options, as name and value pairs.
    pub opts: CodecOptions,
}

/// The transcoder settings for a job, from the configuration and the
/// encoder options of the target codec.
pub fn transcode_job_config(config: &Config, opts: CodecOptions) -> (c: TranscodeJobConfig)
    ensures
        c.threads_per_job == config.processing.threads_per_job as usize,
        c.target == config.transcode.target,
        c.opts == opts,
{
    TranscodeJobConfig {
        threads_per_job: config.processing.threads_per_job as usize,
        target: config.transcode.target,
        opts,
    }
}

} // verus!
