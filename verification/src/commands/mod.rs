//! The command line: which command runs, and the layers of configuration it
//! reads.

use vstd::prelude::*;
use crate::text::{copy_strings, copy_optional_strings};

pub mod deadroll;
pub mod transcode;

verus! {

/// The commands.
#[derive(Debug)]
pub enum Subcommand {
    /// Transcode discovered media containers into the target codec.
    Transcode(transcode::Options),
    /// Detect and remove dead roll.
    Deadroll(deadroll::Options),
}

/// The command line.
#[derive(Debug)]
pub struct Options {
    /// Configuration files given on the command line, in order.
    pub config: Vec<String>,
    pub subcommand: Subcommand,
}

/// Processing flags shared by the commands.
#[derive(Debug)]
pub struct ProcessingOptions {
    pub jobs: Option<u8>,
    pub threads_per_job: Option<u8>,
    pub paths: Option<Vec<String>>,
}

/// The processing flags that were given, shaped like the `processing`
/// section of the configuration.
#[derive(Debug)]
pub struct ProcessingOverrides {
    pub jobs: Option<u8>,
    pub threads_per_job: Option<u8>,
    pub paths: Option<Vec<String>>,
}

/// Whether `o` carries exactly the given processing flags.
pub open spec fn carries_processing(o: ProcessingOverrides, jobs: Option<u8>, threads_per_job: Option<u8>, paths: Option<Vec<String>>) -> bool {
    &&& o.jobs == jobs
    &&& o.threads_per_job == threads_per_job
    &&& o.paths.deep_view() == paths.deep_view()
}

/// Processing overrides carry each flag as it was given: jobs, threads per
/// job and paths, field by field.
pub proof fn law_processing_overrides_carry_each_flag(
    o: ProcessingOverrides,
    jobs: Option<u8>,
    threads_per_job: Option<u8>,
    paths: Option<Vec<String>>,
)
    requires
        carries_processing(o, jobs, threads_per_job, paths),
    ensures
        o.jobs == jobs,
        o.threads_per_job == threads_per_job,
        o.paths.deep_view() == paths.deep_view(),
{
}

impl ProcessingOptions {
    /// The processing flags as configuration overrides.
    pub fn overrides(&self) -> (o: ProcessingOverrides)
        ensures
            carries_processing(o, self.jobs, self.threads_per_job, self.paths),
            o.jobs == self.jobs,
            o.threads_per_job == self.threads_per_job,
            o.paths.deep_view() == self.paths.deep_view(),
    {
        ProcessingOverrides {
            jobs: self.jobs,
            threads_per_job: self.threads_per_job,
            paths: copy_optional_strings(&self.paths),
        }
    }
}

/// The flag that allows processing media again.
#[derive(Debug)]
pub struct ForceOptions {
    pub force: Option<bool>,
}

impl ForceOptions {
    /// The flag as a configuration override.
    pub fn overrides(&self) -> (o: Option<bool>)
        ensures
            o == self.force,
    {
        self.force
    }
}

/// Name of the environment variable that lists configuration files.
pub const CONFIG_PATH_VAR: &'static str = "STAMPEDE_CONFIG";

/// Configuration file read when none is named.
pub const DEFAULT_CONFIG_PATH: &'static str = "config.yaml";

/// Prefix of the environment variables read as configuration.
pub const ENV_PREFIX: &'static str = "STAMPEDE_";

/// One layer of configuration; later layers take precedence over earlier
/// ones when they are merged.
#[derive(Debug)]
pub enum ConfigLayer {
    /// Environment variables that start with `ENV_PREFIX`.
    Environment,
    /// A YAML file.
    YamlFile(String),
    /// The transcode flags given on the command line.
    TranscodeFlags(transcode::Overrides),
}

impl Options {
    /// The list of configuration files to read when none is given on the
    /// command line: the value of `STAMPEDE_CONFIG` when it is set,
    /// `config.yaml` otherwise.
    pub fn config_search_path(env_value: Option<String>) -> (list: String)
        ensures
            list@ == (match env_value {
                Some(v) => v@,
                None => DEFAULT_CONFIG_PATH@,
            }),
    {
        match env_value {
            Some(v) => v,
            None => String::from_str(DEFAULT_CONFIG_PATH),
        }
    }

    /// The configuration files read: those given on the command line, or
    /// else the entries of the search path.
    pub fn config_files(&self, search_path_entries: &Vec<String>) -> (files: Vec<String>)
        ensures
            files.deep_view() == (if self.config@.len() == 0 {
                search_path_entries.deep_view()
            } else {
                self.config.deep_view()
            }),
    {
        if self.config.len() == 0 {
            copy_strings(search_path_entries)
        } else {
            copy_strings(&self.config)
        }
    }

    /// The configuration layers in merge order: the environment first, then
    /// each configuration file in turn, then, for the transcode command, the
    /// flags given on the command line. `search_path_entries` are the
    /// entries of `config_search_path`, used when no file is given on the
    /// command line.
    pub fn figment_layers(&self, search_path_entries: &Vec<String>) -> (layers: Vec<ConfigLayer>)
        ensures
            ({
                let files = if self.config@.len() == 0 {
                    search_path_entries.deep_view()
                } else {
                    self.config.deep_view()
                };
                let n = files.len() as int;
                &&& layers@.len() == 1 + n + (if self.subcommand is Transcode { 1int } else { 0 })
                &&& layers@[0] is Environment
                &&& forall|i: int| 1 <= i <= n ==> (#[trigger] layers@[i] matches ConfigLayer::YamlFile(p) && p@ == files[i - 1])
                &&& match self.subcommand {
                    Subcommand::Transcode(opts) => layers@[1 + n] matches ConfigLayer::TranscodeFlags(o)
                        && transcode::is_overrides_of(o, opts),
                    Subcommand::Deadroll(_) => true,
                }
            }),
    {
        let files = self.config_files(search_path_entries);
        let ghost fv = files.deep_view();
        let mut layers: Vec<ConfigLayer> = Vec::new();
        layers.push(ConfigLayer::Environment);
        let mut i: usize = 0;
        while i < files.len()
            invariant
                0 <= i <= files@.len(),
                fv == files.deep_view(),
                layers@.len() == 1 + i,
                layers@[0] is Environment,
                forall|k: int| 1 <= k <= i ==> (#[trigger] layers@[k] matches ConfigLayer::YamlFile(p) && p@ == fv[k - 1]),
            decreases files@.len() - i,
        {
            layers.push(ConfigLayer::YamlFile(files[i].clone()));
            i = i + 1;
        }
        match &self.subcommand {
            Subcommand::Transcode(opts) => {
                layers.push(ConfigLayer::TranscodeFlags(opts.overrides()));
            },
            Subcommand::Deadroll(_) => {},
        }
        layers
    }
}

} // verus!
