use stampede::media::discover::{classify_entry, is_allowed_extension, is_allowed_media_file, WalkStep};
use stampede::media::io::{already_processed, tmp_file_name, tmp_output_path};
use stampede::media::stream::{eligible_input_stream_medium, MediaType};
use stampede::media::timebase::{micros_to_ticks, ticks_to_micros, Rational};
use stampede::media::video_codec::VideoCodec;
use stampede::text::usize_to_decimal;

#[test]
fn media_files_are_recognized_by_extension() {
    assert!(is_allowed_media_file("/media/show/episode.mkv"));
    assert!(is_allowed_media_file("clip.m2ts"));
    assert!(!is_allowed_media_file("notes.txt"));
    assert!(!is_allowed_media_file("mkv"));
    assert!(!is_allowed_media_file(".mkv"));
    assert!(!is_allowed_media_file("archive.mkv.zip"));
}

#[test]
fn media_extensions_ignore_case() {
    assert!(is_allowed_media_file("MOVIE.MKV"));
    assert!(is_allowed_media_file("trailer.Mp4"));
    assert!(!is_allowed_extension("MKV"));
    assert!(is_allowed_extension("webm"));
}

#[test]
fn walk_descends_into_directories_and_queues_media() {
    assert_eq!(classify_entry(true, "/media/show"), WalkStep::Descend);
    assert_eq!(classify_entry(false, "/media/show/a.avi"), WalkStep::Enqueue);
    assert_eq!(classify_entry(false, "/media/show/a.srt"), WalkStep::Ignore);
}

#[test]
fn temporary_output_sits_next_to_the_media() {
    assert_eq!(tmp_output_path("/media/show/episode.mkv"), "/media/show/episode.tmp.mkv");
    assert_eq!(tmp_output_path("movie.mp4"), "movie.tmp.mp4");
    assert_eq!(tmp_output_path("/media/noext"), "/media/noext.tmp.");
    assert_eq!(tmp_file_name("a", "b"), "a.tmp.b");
}

#[test]
fn processed_media_is_refused_unless_forced() {
    assert!(already_processed(false, true));
    assert!(!already_processed(true, true));
    assert!(!already_processed(false, false));
    assert!(!already_processed(true, false));
}

#[test]
fn codec_names_round_trip() {
    for codec in [VideoCodec::H264, VideoCodec::H265, VideoCodec::Av1, VideoCodec::Vp9] {
        assert_eq!(VideoCodec::parse(codec.as_str()), Ok(codec));
        assert_eq!(VideoCodec::from_lowercase_name(codec.as_str()), Some(codec));
    }
}

#[test]
fn codec_aliases_and_case_are_accepted() {
    assert_eq!(VideoCodec::parse("AVC"), Ok(VideoCodec::H264));
    assert_eq!(VideoCodec::parse("hevc"), Ok(VideoCodec::H265));
    assert_eq!(VideoCodec::parse("H265"), Ok(VideoCodec::H265));
    assert_eq!("Vp9".parse::<VideoCodec>(), Ok(VideoCodec::Vp9));
    assert_eq!(VideoCodec::from_lowercase_name("AV1"), None);
}

#[test]
fn codec_names_read_back_in_any_case() {
    for codec in [VideoCodec::H264, VideoCodec::H265, VideoCodec::Av1, VideoCodec::Vp9] {
        let upper = codec.as_str().to_uppercase();
        assert_eq!(VideoCodec::parse(&upper), Ok(codec));
        assert_eq!(upper.parse::<VideoCodec>(), Ok(codec));
    }
    assert_eq!(VideoCodec::parse("Av1"), Ok(VideoCodec::Av1));
    assert_eq!(VideoCodec::parse("hEvC"), Ok(VideoCodec::H265));
}

#[test]
fn lower_case_names_are_read_as_they_stand() {
    assert_eq!(VideoCodec::from_lowercase("vp9"), Ok(VideoCodec::Vp9));
    assert_eq!(VideoCodec::from_lowercase("avc"), Ok(VideoCodec::H264));
    assert_eq!(VideoCodec::from_lowercase("VP9"), Err("unrecognized codec: VP9".to_string()));
}

#[test]
fn unknown_codec_is_reported_in_lower_case() {
    assert_eq!(VideoCodec::parse("MPEG2"), Err("unrecognized codec: mpeg2".to_string()));
}

#[test]
fn carried_stream_kinds() {
    assert!(eligible_input_stream_medium(&MediaType::Video));
    assert!(eligible_input_stream_medium(&MediaType::Audio));
    assert!(eligible_input_stream_medium(&MediaType::Subtitle));
    assert!(!eligible_input_stream_medium(&MediaType::Data));
    assert!(!eligible_input_stream_medium(&MediaType::Attachment));
    assert!(!eligible_input_stream_medium(&MediaType::Unknown));
}

#[test]
fn ticks_convert_to_microseconds_rounding_down() {
    assert_eq!(ticks_to_micros(90_000, Rational { num: 1, den: 90_000 }), Some(1_000_000));
    assert_eq!(ticks_to_micros(1, Rational { num: 1, den: 3 }), Some(333_333));
    assert_eq!(ticks_to_micros(-1, Rational { num: 1, den: 3 }), Some(-333_334));
    assert_eq!(ticks_to_micros(5, Rational { num: 1001, den: 30_000 }), Some(166_833));
    assert_eq!(ticks_to_micros(5, Rational { num: 1, den: 0 }), None);
    assert_eq!(ticks_to_micros(i64::MAX, Rational { num: 1, den: 1 }), None);
}

#[test]
fn microseconds_convert_to_ticks_rounding_toward_zero() {
    assert_eq!(micros_to_ticks(1_000_000, Rational { num: 1, den: 90_000 }), Some(90_000));
    assert_eq!(micros_to_ticks(1_500, Rational { num: 1, den: 1000 }), Some(1));
    assert_eq!(micros_to_ticks(-1_500, Rational { num: 1, den: 1000 }), Some(-1));
    assert_eq!(micros_to_ticks(10, Rational { num: 0, den: 1000 }), None);
}

#[test]
fn decimal_formatting_matches_display() {
    for n in [0usize, 7, 10, 99, 100, 12345, usize::MAX] {
        assert_eq!(usize_to_decimal(n), n.to_string());
    }
}
