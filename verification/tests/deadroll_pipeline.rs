use stampede::commands::deadroll::pipeline::{
    audio_filter_spec, cut_duration_before, deadroll_finish, intersect_ranges, is_packet_cut,
    is_within_cut, keyframe_time, media_duration, normalize_ranges, setup_output_streams,
    snap_to_keyframes, stamp_shifted, video_filter_spec, DeadrollFinish, DeadrollStreamInfo, Stamp,
    END_OF_STREAM, NO_PTS_VALUE,
};
use stampede::media::timebase::{Rational, MICROS_PER_SECOND};

const S: i64 = MICROS_PER_SECOND;

#[test]
fn normalize_sorts_and_merges_overlapping_and_touching() {
    let got = normalize_ranges(vec![(3, 6), (0, 2), (1, 4), (6, 8), (9, 9)]);
    assert_eq!(got, vec![(0, 8)]);
}

#[test]
fn intersect_normalizes_messy_inputs() {
    let got = intersect_ranges(&[(0, 10)], &[(2, 5), (4, 8)]);
    assert_eq!(got, vec![(2, 8)]);
}

#[test]
fn intersect_keeps_only_common_spans() {
    let got = intersect_ranges(&[(0, 3), (5, 9)], &[(2, 6), (8, 10)]);
    assert_eq!(got, vec![(2, 3), (5, 6), (8, 9)]);
}

#[test]
fn membership_is_half_open() {
    let ranges = [(10, 20), (30, 40)];
    assert!(!is_within_cut(5, &ranges));
    assert!(is_within_cut(10, &ranges));
    assert!(is_within_cut(15, &ranges));
    assert!(!is_within_cut(20, &ranges));
    assert!(!is_within_cut(25, &ranges));
    assert!(is_within_cut(35, &ranges));
}

#[test]
fn shift_sums_only_cuts_that_end_before_t() {
    let ranges = [(10, 20), (30, 40)];
    assert_eq!(cut_duration_before(5, &ranges), 0);
    assert_eq!(cut_duration_before(25, &ranges), 10);
    assert_eq!(cut_duration_before(45, &ranges), 20);
}

#[test]
fn snap_widens_cut_to_surrounding_keyframes() {
    let keyframes = [0, 10 * S, 20 * S, 30 * S, 40 * S];
    let got = snap_to_keyframes(&[(12 * S, 18 * S)], &keyframes, Some(45 * S));
    assert_eq!(got, vec![(10 * S, 20 * S)]);
}

#[test]
fn snap_extends_trailing_deadroll_to_eof() {
    let keyframes = [0, 10 * S, 20 * S, 30 * S, 40 * S];
    let got = snap_to_keyframes(&[(42 * S, 45 * S)], &keyframes, Some(45 * S));
    assert_eq!(got, vec![(40 * S, END_OF_STREAM)]);
}

#[test]
fn snap_skips_mid_file_cut_with_no_following_keyframe() {
    let got = snap_to_keyframes(&[(50 * S, 60 * S)], &[0], Some(200 * S));
    assert!(got.is_empty());
}

#[test]
fn normalize_keeps_canonical_input_unchanged() {
    let canonical = vec![(0, 2), (5, 7), (9, 12)];
    assert_eq!(normalize_ranges(canonical.clone()), canonical);
    let once = normalize_ranges(vec![(4, 5), (1, 2), (2, 3), (7, 7)]);
    assert_eq!(normalize_ranges(once.clone()), once);
}

#[test]
fn normalize_drops_empty_and_reversed_spans() {
    assert!(normalize_ranges(vec![(5, 5), (7, 3)]).is_empty());
    assert!(normalize_ranges(vec![]).is_empty());
}

#[test]
fn intersection_is_commutative() {
    let a = [(0, 3), (5, 9), (12, 20)];
    let b = [(2, 6), (8, 14), (19, 30)];
    assert_eq!(intersect_ranges(&a, &b), intersect_ranges(&b, &a));
    assert_eq!(intersect_ranges(&a, &b), vec![(2, 3), (5, 6), (8, 9), (12, 14), (19, 20)]);
}

#[test]
fn self_intersection_is_the_canonical_form() {
    let a = [(4, 6), (0, 2), (1, 3)];
    assert_eq!(intersect_ranges(&a, &a), normalize_ranges(a.to_vec()));
}

#[test]
fn intersect_with_nothing_is_empty() {
    assert!(intersect_ranges(&[(0, 10)], &[]).is_empty());
    assert!(intersect_ranges(&[(0, 5)], &[(5, 10)]).is_empty());
}

#[test]
fn cut_duration_stops_at_first_cut_ending_after_t() {
    let ranges = [(10, 20), (5, 50), (60, 61)];
    assert_eq!(cut_duration_before(100, &ranges), 10 + 45 + 1);
    assert_eq!(cut_duration_before(30, &ranges), 10);
}

#[test]
fn snap_keeps_start_when_no_keyframe_precedes_it() {
    let got = snap_to_keyframes(&[(2 * S, 5 * S)], &[3 * S, 10 * S], Some(20 * S));
    assert_eq!(got, vec![(2 * S, 10 * S)]);
}

#[test]
fn snap_drops_trailing_cut_when_duration_unknown() {
    let got = snap_to_keyframes(&[(42 * S, 45 * S)], &[0, 40 * S], None);
    assert!(got.is_empty());
}

#[test]
fn snap_merges_cuts_that_share_keyframes() {
    let keyframes = [0, 10 * S, 20 * S, 30 * S];
    let got = snap_to_keyframes(&[(12 * S, 14 * S), (16 * S, 18 * S), (22 * S, 25 * S)], &keyframes, Some(40 * S));
    assert_eq!(got, vec![(10 * S, 30 * S)]);
}

#[test]
fn snap_extends_cut_within_tolerance_of_the_end() {
    let got = snap_to_keyframes(&[(41 * S, 44 * S)], &[0, 40 * S], Some(45 * S));
    assert_eq!(got, vec![(40 * S, END_OF_STREAM)]);
    let got = snap_to_keyframes(&[(41 * S, 43 * S)], &[0, 40 * S], Some(45 * S));
    assert!(got.is_empty());
}

#[test]
fn stamp_shifts_back_by_the_cut_time() {
    let tb = Rational { num: 1, den: 1000 };
    let mut info = DeadrollStreamInfo { output_stream_idx: 0, input_time_base: tb, last_output_dts: None };
    let cuts = [(10 * S, 20 * S)];
    // anchored at 25 s: 10 s of the timeline was cut before it
    let stamp = stamp_shifted(&mut info, Some(25_000), Some(24_000), Some(25_000), Some(24_000), tb, &cuts);
    assert_eq!(stamp, Stamp::Shifted { pts: Some(15_000), dts: Some(14_000) });
    assert_eq!(info.last_output_dts, Some(14_000));
}

#[test]
fn stamp_keeps_decoding_timestamps_increasing() {
    let tb = Rational { num: 1, den: 1000 };
    let mut info = DeadrollStreamInfo { output_stream_idx: 0, input_time_base: tb, last_output_dts: Some(14_000) };
    let stamp = stamp_shifted(&mut info, Some(5_000), Some(5_000), Some(5_000), Some(5_000), tb, &[]);
    assert_eq!(stamp, Stamp::Shifted { pts: Some(5_000), dts: Some(14_001) });
    assert_eq!(info.last_output_dts, Some(14_001));
}

#[test]
fn stamp_leaves_packets_without_timestamps() {
    let tb = Rational { num: 1, den: 1000 };
    let mut info = DeadrollStreamInfo { output_stream_idx: 3, input_time_base: tb, last_output_dts: Some(7) };
    assert_eq!(stamp_shifted(&mut info, None, None, None, None, tb, &[(0, 10)]), Stamp::Untouched);
    assert_eq!(info.last_output_dts, Some(7));
}

#[test]
fn stamp_anchors_on_dts_without_pts() {
    let in_tb = Rational { num: 1, den: 90_000 };
    let out_tb = Rational { num: 1, den: 1000 };
    let mut info = DeadrollStreamInfo { output_stream_idx: 0, input_time_base: in_tb, last_output_dts: None };
    let cuts = [(0, 2 * S)];
    let stamp = stamp_shifted(&mut info, None, Some(270_000), None, Some(3_000), out_tb, &cuts);
    assert_eq!(stamp, Stamp::Shifted { pts: None, dts: Some(1_000) });
}

#[test]
fn stamp_refuses_an_overflowing_timestamp() {
    let tb = Rational { num: 1, den: 1000 };
    let mut info = DeadrollStreamInfo { output_stream_idx: 0, input_time_base: tb, last_output_dts: Some(i64::MAX) };
    assert_eq!(stamp_shifted(&mut info, Some(0), Some(0), Some(0), Some(0), tb, &[]), Stamp::Unrepresentable);
}

#[test]
fn packets_inside_cuts_are_dropped() {
    let tb = Rational { num: 1, den: 1000 };
    let cuts = [(10 * S, 20 * S)];
    assert!(is_packet_cut(Some(15_000), tb, &cuts));
    assert!(!is_packet_cut(Some(20_000), tb, &cuts));
    assert!(!is_packet_cut(None, tb, &cuts));
    assert!(is_packet_cut(Some(1_500), Rational { num: 1, den: 100 }, &cuts));
}

#[test]
fn output_streams_follow_input_streams() {
    let tbs = [Rational { num: 1, den: 25 }, Rational { num: 1, den: 48_000 }];
    let mapping = setup_output_streams(&tbs);
    assert_eq!(
        mapping,
        vec![
            Some(DeadrollStreamInfo { output_stream_idx: 0, input_time_base: tbs[0], last_output_dts: None }),
            Some(DeadrollStreamInfo { output_stream_idx: 1, input_time_base: tbs[1], last_output_dts: None }),
        ]
    );
}

#[test]
fn keyframe_times_come_from_key_video_packets() {
    let tb = Rational { num: 1, den: 90_000 };
    assert_eq!(keyframe_time(true, true, Some(180_000), tb), Some(2 * S));
    assert_eq!(keyframe_time(true, false, Some(180_000), tb), None);
    assert_eq!(keyframe_time(false, true, Some(180_000), tb), None);
    assert_eq!(keyframe_time(true, true, None, tb), None);
}

#[test]
fn finish_depends_on_keyframes_and_kept_packets() {
    assert_eq!(deadroll_finish(false, 0), DeadrollFinish::NothingToCut);
    assert_eq!(deadroll_finish(false, 12), DeadrollFinish::NothingToCut);
    assert_eq!(deadroll_finish(true, 0), DeadrollFinish::EmptyOutput);
    assert_eq!(deadroll_finish(true, 12), DeadrollFinish::ReplaceOriginal);
}

#[test]
fn unknown_duration_is_recognized() {
    assert_eq!(media_duration(NO_PTS_VALUE), None);
    assert_eq!(media_duration(45 * S), Some(45 * S));
}

#[test]
fn filter_descriptions_carry_the_thresholds() {
    assert_eq!(video_filter_spec(2), "blackdetect=d=2");
    assert_eq!(video_filter_spec(120), "blackdetect=d=120");
    assert_eq!(audio_filter_spec(50, 3), "silencedetect=n=-50dB:d=3");
    assert_eq!(audio_filter_spec(0, 10), "silencedetect=n=-0dB:d=10");
}

#[test]
fn cut_time_never_shrinks_as_time_moves_on() {
    let cuts = normalize_ranges(vec![(10, 20), (30, 40), (50, 55)]);
    let mut previous = 0;
    for t in 0..70 {
        let cut = cut_duration_before(t, &cuts);
        assert!(cut >= previous);
        previous = cut;
    }
}

#[test]
fn cut_time_never_shrinks_even_for_unsorted_spans() {
    let cuts = [(30, 40), (10, 25), (20, 22), (5, 5)];
    let mut previous = 0;
    for t in 0..70 {
        let cut = cut_duration_before(t, &cuts);
        assert!(cut >= previous);
        previous = cut;
    }
    assert_eq!(cut_duration_before(69, &cuts), 10 + 15 + 2);
}

#[test]
fn kept_moments_stay_in_order_after_shifting() {
    let cuts = normalize_ranges(vec![(10, 20), (30, 40), (50, 55)]);
    let kept: Vec<i64> = (0..70).filter(|t| !is_within_cut(*t, &cuts)).collect();
    let shifted: Vec<i128> = kept.iter().map(|t| *t as i128 - cut_duration_before(*t, &cuts)).collect();
    assert!(shifted.windows(2).all(|w| w[0] <= w[1]));
    assert_eq!(shifted.last(), Some(&(69 - 25)));
}

#[test]
fn snapped_cuts_hold_every_detected_moment() {
    let keyframes = [0, 10 * S, 20 * S, 30 * S];
    let detected = [(12 * S, 14 * S), (25 * S, 27 * S)];
    let snapped = snap_to_keyframes(&detected, &keyframes, Some(35 * S));
    for (start, end) in detected {
        for t in [start, (start + end) / 2, end - 1] {
            assert!(is_within_cut(t, &snapped));
        }
    }
    assert_eq!(snapped, vec![(10 * S, 30 * S)]);
}
