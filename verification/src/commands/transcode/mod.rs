//! The transcode command: its flags, and the encoder options it uses.

use vstd::prelude::*;
use crate::commands::{ProcessingOverrides, carries_processing};
use crate::config::{CodecOptions, Config, copy_codec_options, distinct_names};
use crate::media::video_codec::VideoCodec;
use crate::text::copy_optional_strings;

pub mod pipeline;
pub mod stream_route;
pub mod transcoder;

verus! {

/// The transcode flags that were given, shaped like the `transcode` section
/// of the configuration.
#[derive(Debug)]
pub struct TranscodeOverrides {
    pub target: Option<VideoCodec>,
    pub force: Option<bool>,
}

/// The flags of the transcode command, nested like the configuration so
/// that they can be merged onto its sections.
#[derive(Debug)]
pub struct Overrides {
    pub transcode: TranscodeOverrides,
    pub processing: ProcessingOverrides,
}

/// The flags of the transcode command.
#[derive(Debug)]
pub struct Options {
    /// The codec to transcode video into.
    pub target: Option<VideoCodec>,
    /// Number of transcode jobs run concurrently.
    pub jobs: Option<u8>,
    /// Number of threads each job may use.
    pub threads_per_job: Option<u8>,
    /// Folders searched for media containers.
    pub paths: Option<Vec<String>>,
    /// Allows re-transcoding a file that has already been through stampede,
    /// which costs further quality.
    pub force: Option<bool>,
}

/// Whether `o` carries exactly the flags of `opts`.
pub open spec fn is_overrides_of(o: Overrides, opts: Options) -> bool {
    &&& o.transcode.target == opts.target
    &&& o.transcode.force == opts.force
    &&& carries_processing(o.processing, opts.jobs, opts.threads_per_job, opts.paths)
}

/// The overrides of the transcode command carry each flag as it was given:
/// target, force, jobs, threads per job and paths, field by field.
pub proof fn law_overrides_carry_each_flag(o: Overrides, opts: Options)
    requires
        is_overrides_of(o, opts),
    ensures
        o.transcode.target == opts.target,
        o.transcode.force == opts.force,
        o.processing.jobs == opts.jobs,
        o.processing.threads_per_job == opts.threads_per_job,
        o.processing.paths.deep_view() == opts.paths.deep_view(),
{
}

impl Options {
    /// Reshapes the flat flags into the nested layout of the configuration.
    pub fn overrides(&self) -> (o: Overrides)
        ensures
            is_overrides_of(o, *self),
            o.transcode.target == self.target,
            o.transcode.force == self.force,
            o.processing.jobs == self.jobs,
            o.processing.threads_per_job == self.threads_per_job,
            o.processing.paths.deep_view() == self.paths.deep_view(),
    {
        Overrides {
            transcode: TranscodeOverrides { target: self.target, force: self.force },
            processing: ProcessingOverrides {
                jobs: self.jobs,
                threads_per_job: self.threads_per_job,
                paths: copy_optional_strings(&self.paths),
            },
        }
    }
}

/// The encoder options configured for a codec, if any.
pub fn get_codec_opts(config: &Config, codec: VideoCodec) -> (opts: Option<&CodecOptions>)
    ensures
        opts is Some == config.transcode.codecs.spec_get(codec) is Some,
        opts is Some ==> *opts.unwrap() == config.transcode.codecs.spec_get(codec).unwrap(),
        opts is Some ==> distinct_names(opts.unwrap()@),
{
    config.transcode.codecs.get(codec)
}

/// The encoder options used for the target codec: those configured for it,
/// or none.
pub fn target_codec_options(config: &Config) -> (opts: CodecOptions)
    ensures
        opts.deep_view() == (match config.transcode.codecs.spec_get(config.transcode.target) {
            Some(o) => o.deep_view(),
            None => Seq::empty(),
        }),
        distinct_names(opts@),
{
    match get_codec_opts(config, config.transcode.target) {
        Some(o) => {
            let out = copy_codec_options(o);
            assert(out.deep_view().len() == out@.len() && o.deep_view().len() == o@.len());
            assert forall|i: int, j: int| 0 <= i < j < out@.len() implies (#[trigger] out@[i]).0@
                != (#[trigger] out@[j]).0@ by {
                assert(out.deep_view()[i] == o.deep_view()[i]);
                assert(out.deep_view()[j] == o.deep_view()[j]);
                assert(o@[i].0@ != o@[j].0@);
            }
            out
        },
        None => Vec::new(),
    }
}

} // verus!
