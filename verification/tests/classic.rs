use stampede::classic::discover::classify_entry;
use stampede::classic::transcode::{
    iterate_streams, logging_enabled_and_eligible, mark_input_stream_ineligible, StreamSetup,
    TranscodingCtx,
};
use stampede::classic::{get_codec_opts, Config, ConfigLayer, Options};
use stampede::config::CodecOptionTable;
use stampede::media::discover::WalkStep;
use stampede::media::stream::{InputStream, MediaType};
use stampede::media::timebase::Rational;
use stampede::media::video_codec::VideoCodec;

#[test]
fn classic_walk_queues_every_regular_file() {
    assert_eq!(classify_entry(true, false), WalkStep::Descend);
    assert_eq!(classify_entry(false, true), WalkStep::Enqueue);
    assert_eq!(classify_entry(false, false), WalkStep::Ignore);
}

#[test]
fn classic_layers_end_with_the_command_line() {
    let opts = Options { config: vec![], target: None, jobs: Some(1), threads_per_job: None, folders: None };
    let layers = opts.figment_layers(&vec!["a.yaml".to_string(), "b.yaml".to_string()]);
    assert_eq!(layers.len(), 4);
    assert!(matches!(layers[0], ConfigLayer::Environment));
    assert!(matches!(&layers[1], ConfigLayer::YamlFile(p) if p == "a.yaml"));
    assert!(matches!(&layers[2], ConfigLayer::YamlFile(p) if p == "b.yaml"));
    assert!(matches!(layers[3], ConfigLayer::CommandLine));
}

#[test]
fn classic_codec_options_lookup() {
    let mut codecs = CodecOptionTable::new();
    codecs.insert(VideoCodec::H264, vec![("preset".to_string(), "slow".to_string())]);
    let config = Config { target: VideoCodec::H264, jobs: 1, threads_per_job: 1, folders: vec![], codecs };
    assert_eq!(get_codec_opts(&config, VideoCodec::H264), Some(&vec![("preset".to_string(), "slow".to_string())]));
    assert_eq!(get_codec_opts(&config, VideoCodec::Av1), None);
}

#[test]
fn marking_a_stream_ineligible() {
    let mut mapping = vec![0isize, 1, 2];
    mark_input_stream_ineligible(&mut mapping, 1);
    assert_eq!(mapping, vec![0, -1, 2]);
}

#[test]
fn every_stream_keeps_its_index_in_the_classic_mapping() {
    let tb = Rational { num: 1, den: 90_000 };
    let streams = [
        InputStream { medium: MediaType::Video, codec: None, time_base: tb },
        InputStream { medium: MediaType::Data, codec: None, time_base: Rational { num: 1, den: 1 } },
        InputStream { medium: MediaType::Video, codec: None, time_base: tb },
    ];
    let zero = Rational { num: 0, den: 0 };
    let mut ctx = TranscodingCtx::new(VideoCodec::Av1, vec![0; 3], vec![zero; 3], vec![zero; 3]);
    let setups = iterate_streams(&streams, Some(2), &mut ctx);
    assert_eq!(ctx.stream_mapping, vec![0, 1, 2]);
    assert_eq!(ctx.input_stream_time_bases, vec![tb, Rational { num: 1, den: 1 }, tb]);
    assert_eq!(
        setups,
        vec![
            StreamSetup::Transcode { output_stream_idx: 0, logging_enabled: false },
            StreamSetup::Copy { output_stream_idx: 1 },
            StreamSetup::Transcode { output_stream_idx: 2, logging_enabled: true },
        ]
    );
}

#[test]
fn progress_logging_gate() {
    assert!(logging_enabled_and_eligible(true, 0, 500, 5_000_000_000));
    assert!(logging_enabled_and_eligible(false, 150, 100, 10));
    assert!(!logging_enabled_and_eligible(false, 200, 100, 10));
    assert!(!logging_enabled_and_eligible(false, 150, 100, 1_000_000_000));
}
