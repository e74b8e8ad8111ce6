//! The single-command variant of the tool: one configuration for
//! transcoding, read from YAML files, the environment and the command line.

use vstd::prelude::*;
use crate::config::{CodecOptions, CodecOptionTable, distinct_names};
use crate::media::video_codec::VideoCodec;
use crate::text::copy_strings;

pub mod config;
pub mod discover;
pub mod transcode;

verus! {

/// The configuration.
#[derive(Debug)]
pub struct Config {
    pub target: VideoCodec,
    pub jobs: u8,
    pub threads_per_job: u8,
    pub folders: Vec<String>,
    pub codecs: CodecOptionTable,
}

/// The command line.
#[derive(Debug)]
pub struct Options {
    /// Configuration files given on the command line, in order.
    pub config: Vec<String>,
    /// The codec to transcode video into.
    pub target: Option<VideoCodec>,
    /// Number of transcode jobs run concurrently.
    pub jobs: Option<u8>,
    /// Number of threads each job may use.
    pub threads_per_job: Option<u8>,
    /// Folders searched for media containers.
    pub folders: Option<Vec<String>>,
}

/// One layer of configuration; later layers take precedence.
#[derive(Debug)]
pub enum ConfigLayer {
    /// Environment variables that start with `STAMPEDE_`.
    Environment,
    /// A YAML file.
    YamlFile(String),
    /// The flags given on the command line (all but the configuration
    /// files).
    CommandLine,
}

impl Options {
    /// The configuration layers in merge order: the environment, each
    /// configuration file in turn (those given on the command line, or else
    /// the entries of the search path), then the command line.
    pub fn figment_layers(&self, search_path_entries: &Vec<String>) -> (layers: Vec<ConfigLayer>)
        ensures
            ({
                let files = if self.config@.len() == 0 {
                    search_path_entries.deep_view()
                } else {
                    self.config.deep_view()
                };
                let n = files.len() as int;
                &&& layers@.len() == n + 2
                &&& layers@[0] is Environment
                &&& forall|i: int| 1 <= i <= n ==> (#[trigger] layers@[i] matches ConfigLayer::YamlFile(p) && p@ == files[i - 1])
                &&& layers@[n + 1] is CommandLine
            }),
    {
        let files = if self.config.len() == 0 {
            copy_strings(search_path_entries)
        } else {
            copy_strings(&self.config)
        };
        let ghost fv = files.deep_view();
        let mut layers: Vec<ConfigLayer> = Vec::new();
        layers.push(ConfigLayer::Environment);
        let mut i: usize = 0;
        while i < files.len()
            invariant
                0 <= i <= files@.len(),
                fv == files.deep_view(),
                layers@.len() == 1 + i,
                layers@[0] is Environment,
                forall|k: int| 1 <= k <= i ==> (#[trigger] layers@[k] matches ConfigLayer::YamlFile(p) && p@ == fv[k - 1]),
            decreases files@.len() - i,
        {
            layers.push(ConfigLayer::YamlFile(files[i].clone()));
            i = i + 1;
        }
        layers.push(ConfigLayer::CommandLine);
        layers
    }
}

/// The encoder options configured for a codec, if any.
pub fn get_codec_opts(config: &Config, codec: VideoCodec) -> (opts: Option<&CodecOptions>)
    ensures
        opts is Some == config.codecs.spec_get(codec) is Some,
        opts is Some ==> *opts.unwrap() == config.codecs.spec_get(codec).unwrap(),
        opts is Some ==> distinct_names(opts.unwrap()@),
{
    config.codecs.get(codec)
}

} // verus!
