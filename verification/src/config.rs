//! The configuration read from YAML files, the environment and the command
//! line.

use vstd::prelude::*;
use crate::media::job::JobConfig;
use crate::media::video_codec::VideoCodec;

verus! {

/// Encoder options for one codec, as name and value pairs.
pub type CodecOptions = Vec<(String, String)>;

/// Whether no option name occurs twice among the pairs.
pub open spec fn distinct_names(opts: Seq<(String, String)>) -> bool {
    forall|i: int, j: int| 0 <= i < j < opts.len() ==> (#[trigger] opts[i]).0@ != (#[trigger] opts[j]).0@
}

/// Encoder options per target codec; a codec may have none. Within the
/// options of a codec, each name occurs once.
#[derive(Debug)]
pub struct CodecOptionTable {
    h264: Option<CodecOptions>,
    h265: Option<CodecOptions>,
    av1: Option<CodecOptions>,
    vp9: Option<CodecOptions>,
}

impl CodecOptionTable {
    /// The options stored for a codec.
    pub closed spec fn spec_get(&self, codec: VideoCodec) -> Option<CodecOptions> {
        match codec {
            VideoCodec::H264 => self.h264,
            VideoCodec::H265 => self.h265,
            VideoCodec::Av1 => self.av1,
            VideoCodec::Vp9 => self.vp9,
        }
    }

    #[verifier::type_invariant]
    spec fn names_are_distinct(&self) -> bool {
        &&& self.h264 matches Some(o) ==> distinct_names(o@)
        &&& self.h265 matches Some(o) ==> distinct_names(o@)
        &&& self.av1 matches Some(o) ==> distinct_names(o@)
        &&& self.vp9 matches Some(o) ==> distinct_names(o@)
    }

    /// A table with no options for any codec.
    pub fn new() -> (table: CodecOptionTable)
        ensures
            forall|c: VideoCodec| (#[trigger] table.spec_get(c)) is None,
    {
        CodecOptionTable { h264: None, h265: None, av1: None, vp9: None }
    }

    /// The options stored for a codec, if any; no name occurs twice in
    /// them.
    pub fn get(&self, codec: VideoCodec) -> (opts: Option<&CodecOptions>)
        ensures
            opts is Some == self.spec_get(codec) is Some,
            opts is Some ==> *opts.unwrap() == self.spec_get(codec).unwrap(),
            opts is Some ==> distinct_names(opts.unwrap()@),
    {
        proof {
            use_type_invariant(self);
        }
        match codec {
            VideoCodec::H264 => self.h264.as_ref(),
            VideoCodec::H265 => self.h265.as_ref(),
            VideoCodec::Av1 => self.av1.as_ref(),
            VideoCodec::Vp9 => self.vp9.as_ref(),
        }
    }

    /// Stores the options for a codec, replacing any it had; the other
    /// codecs keep theirs. The options name each setting once, as the keys
    /// of a map do.
    pub fn insert(&mut self, codec: VideoCodec, opts: CodecOptions)
        requires
            distinct_names(opts@),
        ensures
            final(self).spec_get(codec) == Some(opts),
            forall|c: VideoCodec| c != codec ==> #[trigger] final(self).spec_get(c) == old(self).spec_get(c),
    {
        proof {
            use_type_invariant(&*self);
        }
        match codec {
            VideoCodec::H264 => self.h264 = Some(opts),
            VideoCodec::H265 => self.h265 = Some(opts),
            VideoCodec::Av1 => self.av1 = Some(opts),
            VideoCodec::Vp9 => self.vp9 = Some(opts),
        }
    }
}

/// Copies a list of option pairs.
pub fn copy_codec_options(opts: &CodecOptions) -> (out: CodecOptions)
    ensures
        out.deep_view() == opts.deep_view(),
{
    let mut out: CodecOptions = Vec::new();
    let mut i: usize = 0;
    while i < opts.len()
        invariant
            0 <= i <= opts@.len(),
            out@.len() == i,
            forall|k: int| 0 <= k < i ==> (#[trigger] out@[k]).0@ == opts@[k].0@ && out@[k].1@ == opts@[k].1@,
        decreases opts@.len() - i,
    {
        let (name, value) = &opts[i];
        out.push((name.clone(), value.clone()));
        i = i + 1;
    }
    assert(out.deep_view() =~= opts.deep_view());
    out
}

/// Settings of the transcode command.
#[derive(Debug)]
pub struct TranscodeConfig {
    /// The codec video streams are transcoded into.
    pub target: VideoCodec,
    /// Allows re-transcoding a file that has already been through stampede,
    /// which costs further quality.
    pub force: bool,
    /// Encoder options per codec.
    pub codecs: CodecOptionTable,
}

/// Settings of the dead roll command.
#[derive(Debug)]
pub struct BlackrollConfig {
    /// Shortest black or silent span, in seconds, that counts as dead roll.
    pub min_duration: usize,
    /// Silence threshold, in decibels below full scale.
    pub min_db: usize,
    /// Allows detecting dead roll again on a file that has already been
    /// through stampede.
    pub force: bool,
}

/// Logging settings.
#[derive(Debug)]
pub struct LoggingConfig {
    pub enabled: bool,
}

impl Default for LoggingConfig {
    fn default() -> (c: LoggingConfig)
        ensures
            !c.enabled,
    {
        LoggingConfig { enabled: false }
    }
}

/// The whole configuration.
#[derive(Debug)]
pub struct Config {
    pub transcode: TranscodeConfig,
    pub blackroll: BlackrollConfig,
    pub processing: JobConfig,
    pub logging: LoggingConfig,
}

} // verus!
