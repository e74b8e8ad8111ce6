use stampede::commands::deadroll::{self, intersect_ranges as pairwise_intersect};
use stampede::commands::deadroll::analysis::analysis_job_config;
use stampede::commands::transcode::pipeline::{any_transcoder_idle, setup_stream_mapping};
use stampede::commands::transcode::stream_route::{StreamRoute, StreamRoutingCtx};
use stampede::commands::transcode::transcoder::transcode_job_config;
use stampede::commands::transcode::{self, get_codec_opts, target_codec_options};
use stampede::commands::{ConfigLayer, ForceOptions, Options, ProcessingOptions, Subcommand};
use stampede::config::{
    BlackrollConfig, CodecOptionTable, Config, LoggingConfig, TranscodeConfig,
};
use stampede::media::job::JobConfig;
use stampede::media::stream::{InputStream, MediaType};
use stampede::media::timebase::Rational;
use stampede::media::video_codec::VideoCodec;

fn transcode_options() -> transcode::Options {
    transcode::Options {
        target: Some(VideoCodec::H264),
        jobs: Some(3),
        threads_per_job: None,
        paths: Some(vec!["/media".to_string()]),
        force: Some(true),
    }
}

fn sample_config() -> Config {
    let mut codecs = CodecOptionTable::new();
    codecs.insert(VideoCodec::H265, vec![("crf".to_string(), "28".to_string())]);
    Config {
        transcode: TranscodeConfig { target: VideoCodec::H265, force: false, codecs },
        blackroll: BlackrollConfig { min_duration: 2, min_db: 50, force: false },
        processing: JobConfig { jobs: 2, threads_per_job: 4, paths: vec!["/media".to_string()] },
        logging: LoggingConfig::default(),
    }
}

#[test]
fn transcode_flags_become_nested_overrides() {
    let o = transcode_options().overrides();
    assert_eq!(o.transcode.target, Some(VideoCodec::H264));
    assert_eq!(o.transcode.force, Some(true));
    assert_eq!(o.processing.jobs, Some(3));
    assert_eq!(o.processing.threads_per_job, None);
    assert_eq!(o.processing.paths, Some(vec!["/media".to_string()]));
}

#[test]
fn deadroll_flags_become_nested_overrides() {
    let opts = deadroll::Options {
        min_duration: Some(4),
        min_db: None,
        processing: ProcessingOptions { jobs: None, threads_per_job: Some(8), paths: None },
        force: ForceOptions { force: Some(false) },
    };
    let o = opts.overrides();
    assert_eq!(o.blackroll.min_duration, Some(4));
    assert_eq!(o.blackroll.min_db, None);
    assert_eq!(o.blackroll.force, Some(false));
    assert_eq!(o.processing.jobs, None);
    assert_eq!(o.processing.threads_per_job, Some(8));
    assert_eq!(o.processing.paths, None);
}

#[test]
fn config_search_path_defaults_to_config_yaml() {
    assert_eq!(Options::config_search_path(None), "config.yaml");
    assert_eq!(Options::config_search_path(Some("custom.yaml".to_string())), "custom.yaml");
}

#[test]
fn command_line_config_files_replace_the_search_path() {
    let opts = Options {
        config: vec!["a.yaml".to_string(), "b.yaml".to_string()],
        subcommand: Subcommand::Transcode(transcode_options()),
    };
    let layers = opts.figment_layers(&vec!["config.yaml".to_string()]);
    assert_eq!(layers.len(), 4);
    assert!(matches!(layers[0], ConfigLayer::Environment));
    assert!(matches!(&layers[1], ConfigLayer::YamlFile(p) if p == "a.yaml"));
    assert!(matches!(&layers[2], ConfigLayer::YamlFile(p) if p == "b.yaml"));
    match &layers[3] {
        ConfigLayer::TranscodeFlags(o) => assert_eq!(o.transcode.target, Some(VideoCodec::H264)),
        _ => panic!("the transcode flags come last"),
    }
}

#[test]
fn deadroll_layers_have_no_flag_layer() {
    let opts = Options {
        config: vec![],
        subcommand: Subcommand::Deadroll(deadroll::Options {
            min_duration: None,
            min_db: None,
            processing: ProcessingOptions { jobs: None, threads_per_job: None, paths: None },
            force: ForceOptions { force: None },
        }),
    };
    let layers = opts.figment_layers(&vec!["custom.yaml".to_string()]);
    assert_eq!(layers.len(), 2);
    assert!(matches!(layers[0], ConfigLayer::Environment));
    assert!(matches!(&layers[1], ConfigLayer::YamlFile(p) if p == "custom.yaml"));
}

#[test]
fn codec_options_are_looked_up_by_codec() {
    let config = sample_config();
    assert_eq!(get_codec_opts(&config, VideoCodec::H265), Some(&vec![("crf".to_string(), "28".to_string())]));
    assert_eq!(get_codec_opts(&config, VideoCodec::H264), None);
    assert_eq!(target_codec_options(&config), vec![("crf".to_string(), "28".to_string())]);
}

#[test]
fn codec_table_insert_replaces_only_its_codec() {
    let mut table = CodecOptionTable::new();
    table.insert(VideoCodec::Av1, vec![("preset".to_string(), "8".to_string())]);
    table.insert(VideoCodec::Vp9, vec![]);
    table.insert(VideoCodec::Av1, vec![("preset".to_string(), "4".to_string())]);
    assert_eq!(table.get(VideoCodec::Av1), Some(&vec![("preset".to_string(), "4".to_string())]));
    assert_eq!(table.get(VideoCodec::Vp9), Some(&vec![]));
    assert_eq!(table.get(VideoCodec::H264), None);
}

#[test]
fn target_without_options_gets_none() {
    let mut config = sample_config();
    config.transcode.target = VideoCodec::Vp9;
    assert!(target_codec_options(&config).is_empty());
}

#[test]
fn job_configs_come_from_the_configuration() {
    let config = sample_config();
    let a = analysis_job_config(&config);
    assert_eq!(a.threads_per_job, 4);
    assert!(!a.logging_enabled);
    let t = transcode_job_config(&config, vec![]);
    assert_eq!(t.threads_per_job, 4);
    assert_eq!(t.target, VideoCodec::H265);
}

#[test]
fn routing_starts_with_every_stream_skipped() {
    let ctx = StreamRoutingCtx::new(3);
    assert_eq!(ctx.routes, vec![StreamRoute::Skip; 3]);
    assert!(ctx.output_time_bases.is_empty());
}

#[test]
fn streams_are_routed_to_consecutive_outputs() {
    let tb = Rational { num: 1, den: 1000 };
    let streams = [
        InputStream { medium: MediaType::Data, codec: None, time_base: tb },
        InputStream { medium: MediaType::Video, codec: None, time_base: tb },
        InputStream { medium: MediaType::Audio, codec: None, time_base: Rational { num: 1, den: 48_000 } },
        InputStream { medium: MediaType::Video, codec: Some(VideoCodec::H265), time_base: tb },
        InputStream { medium: MediaType::Subtitle, codec: None, time_base: tb },
    ];
    let mut ctx = StreamRoutingCtx::new(5);
    setup_stream_mapping(&streams, VideoCodec::H265, &mut ctx);
    assert_eq!(
        ctx.routes,
        vec![
            StreamRoute::Skip,
            StreamRoute::Transcode { output_stream_idx: 0 },
            StreamRoute::Copy { output_stream_idx: 1, input_stream_time_base: Rational { num: 1, den: 48_000 } },
            StreamRoute::Copy { output_stream_idx: 2, input_stream_time_base: tb },
            StreamRoute::Copy { output_stream_idx: 3, input_stream_time_base: tb },
        ]
    );
}

#[test]
fn idle_transcoders_fail_the_job() {
    assert!(any_transcoder_idle(&[12, 0]));
    assert!(!any_transcoder_idle(&[12, 3]));
    assert!(!any_transcoder_idle(&[]));
}

#[test]
fn pairwise_intersection_lists_every_overlap() {
    assert_eq!(pairwise_intersect(&[(0, 10)], &[(2, 5), (4, 8)]), vec![(2, 5), (4, 8)]);
    assert_eq!(pairwise_intersect(&[(0, 3), (5, 9)], &[(2, 6), (8, 10)]), vec![(2, 3), (5, 6), (8, 9)]);
    assert!(pairwise_intersect(&[(0, 1)], &[(1, 2)]).is_empty());
}
