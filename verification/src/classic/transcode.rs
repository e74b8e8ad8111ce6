//! Stream set-up and progress logging of the single-command variant.

use vstd::prelude::*;
use crate::media::stream::{InputStream, MediaType};
use crate::media::timebase::Rational;
use crate::media::video_codec::VideoCodec;

verus! {

/// The state of a transcode: where each input stream goes and the time
/// bases of the streams.
#[derive(Debug)]
pub struct TranscodingCtx {
    pub target: VideoCodec,
    /// Output stream of each input stream, or -1 for one left out.
    pub stream_mapping: Vec<isize>,
    pub input_stream_time_bases: Vec<Rational>,
    pub output_stream_time_bases: Vec<Rational>,
}

impl TranscodingCtx {
    pub fn new(
        target: VideoCodec,
        stream_mapping: Vec<isize>,
        input_stream_time_bases: Vec<Rational>,
        output_stream_time_bases: Vec<Rational>,
    ) -> (ctx: TranscodingCtx)
        ensures
            ctx.target == target,
            ctx.stream_mapping == stream_mapping,
            ctx.input_stream_time_bases == input_stream_time_bases,
            ctx.output_stream_time_bases == output_stream_time_bases,
    {
        TranscodingCtx { target, stream_mapping, input_stream_time_bases, output_stream_time_bases }
    }
}

/// Marks an input stream as left out of the output.
pub fn mark_input_stream_ineligible(stream_mapping: &mut Vec<isize>, input_stream_idx: usize)
    requires
        input_stream_idx < old(stream_mapping)@.len(),
    ensures
        final(stream_mapping)@ == old(stream_mapping)@.update(input_stream_idx as int, -1isize),
{
    stream_mapping.set(input_stream_idx, -1);
}

/// How one input stream is set up in the output.
#[derive(Debug, Clone, Copy, PartialEq, Eq, Structural)]
pub enum StreamSetup {
    /// A video stream gets a transcoder writing to `output_stream_idx`;
    /// progress is logged for the best video stream only.
    Transcode { output_stream_idx: usize, logging_enabled: bool },
    /// Any other stream is copied to a new output stream.
    Copy { output_stream_idx: usize },
}

/// Sets up every input stream in order. Each input stream gets the output
/// stream at its own index: a stream of a kind that is not carried is first
/// marked as left out, then mapped like the others. Video streams are
/// transcoded, logging progress when they are the best video stream; the
/// others are copied.
pub fn iterate_streams(streams: &[InputStream], video_stream_idx: Option<usize>, ctx: &mut TranscodingCtx) -> (setups: Vec<StreamSetup>)
    requires
        old(ctx).stream_mapping@.len() >= streams@.len(),
        old(ctx).input_stream_time_bases@.len() >= streams@.len(),
        streams@.len() <= isize::MAX,
    ensures
        setups@.len() == streams@.len(),
        final(ctx).target == old(ctx).target,
        final(ctx).output_stream_time_bases == old(ctx).output_stream_time_bases,
        final(ctx).stream_mapping@.len() == old(ctx).stream_mapping@.len(),
        final(ctx).input_stream_time_bases@.len() == old(ctx).input_stream_time_bases@.len(),
        forall|i: int| 0 <= i < streams@.len() ==> #[trigger] final(ctx).stream_mapping@[i] == i,
        forall|i: int| streams@.len() <= i < old(ctx).stream_mapping@.len() ==> #[trigger] final(ctx).stream_mapping@[i]
            == old(ctx).stream_mapping@[i],
        forall|i: int| 0 <= i < streams@.len() ==> #[trigger] final(ctx).input_stream_time_bases@[i] == streams@[i].time_base,
        forall|i: int| streams@.len() <= i < old(ctx).input_stream_time_bases@.len() ==> #[trigger] final(ctx).input_stream_time_bases@[i]
            == old(ctx).input_stream_time_bases@[i],
        forall|i: int| 0 <= i < streams@.len() ==> #[trigger] setups@[i] == if streams@[i].medium == MediaType::Video {
            StreamSetup::Transcode { output_stream_idx: i as usize, logging_enabled: video_stream_idx == Some(i as usize) }
        } else {
            StreamSetup::Copy { output_stream_idx: i as usize }
        },
{
    let ghost old_mapping = ctx.stream_mapping@;
    let ghost old_tbs = ctx.input_stream_time_bases@;
    let mut setups: Vec<StreamSetup> = Vec::new();
    let mut output_stream_idx: isize = 0;
    let mut i: usize = 0;
    while i < streams.len()
        invariant
            0 <= i <= streams@.len(),
            streams@.len() <= isize::MAX,
            output_stream_idx == i,
            setups@.len() == i,
            ctx.target == old(ctx).target,
            ctx.output_stream_time_bases == old(ctx).output_stream_time_bases,
            ctx.stream_mapping@.len() == old_mapping.len(),
            ctx.input_stream_time_bases@.len() == old_tbs.len(),
            old_mapping.len() >= streams@.len(),
            old_tbs.len() >= streams@.len(),
            forall|k: int| 0 <= k < i ==> #[trigger] ctx.stream_mapping@[k] == k,
            forall|k: int| i <= k < old_mapping.len() ==> #[trigger] ctx.stream_mapping@[k] == old_mapping[k],
            forall|k: int| 0 <= k < i ==> #[trigger] ctx.input_stream_time_bases@[k] == streams@[k].time_base,
            forall|k: int| i <= k < old_tbs.len() ==> #[trigger] ctx.input_stream_time_bases@[k] == old_tbs[k],
            forall|k: int| 0 <= k < i ==> #[trigger] setups@[k] == if streams@[k].medium == MediaType::Video {
                StreamSetup::Transcode { output_stream_idx: k as usize, logging_enabled: video_stream_idx == Some(k as usize) }
            } else {
                StreamSetup::Copy { output_stream_idx: k as usize }
            },
        decreases streams@.len() - i,
    {
        let stream = streams[i];
        if !crate::media::stream::eligible_input_stream_medium(&stream.medium) {
            mark_input_stream_ineligible(&mut ctx.stream_mapping, i);
        }
        ctx.stream_mapping.set(i, output_stream_idx);
        ctx.input_stream_time_bases.set(i, stream.time_base);
        if stream.medium == MediaType::Video {
            let logging_enabled = match video_stream_idx {
                Some(v) => v == i,
                None => false,
            };
            setups.push(StreamSetup::Transcode { output_stream_idx: i, logging_enabled });
        } else {
            setups.push(StreamSetup::Copy { output_stream_idx: i });
        }
        output_stream_idx = output_stream_idx + 1;
        i = i + 1;
    }
    setups
}

/// Frames between progress lines.
pub const LOG_FRAME_INTERVAL: usize = 100;

/// Nanoseconds between progress lines.
pub const LOG_TIME_INTERVAL_NANOS: u128 = 1_000_000_000;

/// Whether a progress line is written: always when logging is enabled for
/// the transcoder, and otherwise while fewer than `LOG_FRAME_INTERVAL`
/// frames and less than a second have passed since the last line.
pub fn logging_enabled_and_eligible(
    logging_enabled: bool,
    frame_count: usize,
    last_log_frame_count: usize,
    nanos_since_last_log: u128,
) -> (log: bool)
    requires
        logging_enabled || frame_count >= last_log_frame_count,
    ensures
        log == (logging_enabled || (frame_count - last_log_frame_count < LOG_FRAME_INTERVAL
            && nanos_since_last_log < LOG_TIME_INTERVAL_NANOS)),
{
    logging_enabled || (frame_count - last_log_frame_count < LOG_FRAME_INTERVAL
        && nanos_since_last_log < LOG_TIME_INTERVAL_NANOS)
}

} // verus!
