//! The decisions of a transcode job: which streams are transcoded, copied
//! or left out, and whether the result replaces the original.

use vstd::prelude::*;
use crate::commands::transcode::stream_route::{StreamRoute, StreamRoutingCtx};
use crate::media::stream::{InputStream, MediaType, is_eligible_medium, eligible_input_stream_medium};
use crate::media::video_codec::VideoCodec;

verus! {

/// How many of the streams are carried into the output.
pub open spec fn eligible_count(streams: Seq<InputStream>) -> nat
    decreases streams.len(),
{
    if streams.len() == 0 {
        0
    } else {
        eligible_count(streams.drop_last()) + if is_eligible_medium(streams.last().medium) { 1nat } else { 0nat }
    }
}

/// Whether a stream is encoded again: it is video not already in the
/// target codec.
pub open spec fn needs_transcode(stream: InputStream, target: VideoCodec) -> bool {
    stream.medium == MediaType::Video && stream.codec != Some(target)
}

/// The route of the carried stream at index `i`: its output stream is the
/// number of carried streams before it.
pub open spec fn planned_route(streams: Seq<InputStream>, i: int, target: VideoCodec) -> StreamRoute {
    let out = eligible_count(streams.take(i)) as usize;
    if needs_transcode(streams[i], target) {
        StreamRoute::Transcode { output_stream_idx: out }
    } else {
        StreamRoute::Copy { output_stream_idx: out, input_stream_time_base: streams[i].time_base }
    }
}

proof fn lemma_eligible_count_step(streams: Seq<InputStream>, i: int)
    requires
        0 <= i < streams.len(),
    ensures
        eligible_count(streams.take(i + 1)) == eligible_count(streams.take(i)) + if is_eligible_medium(
            streams[i].medium,
        ) {
            1nat
        } else {
            0nat
        },
        eligible_count(streams.take(i)) <= i,
    decreases i,
{
    assert(streams.take(i + 1).drop_last() == streams.take(i));
    assert(streams.take(i + 1).last() == streams[i]);
    if i > 0 {
        lemma_eligible_count_step(streams, i - 1);
    } else {
        assert(streams.take(0).len() == 0);
    }
}

/// Routes the carried streams in order: video not already in the target
/// codec is transcoded, every other carried stream is copied, and carried
/// streams take the output streams in turn. Streams that are not carried
/// keep the route they had.
pub fn setup_stream_mapping(streams: &[InputStream], target: VideoCodec, ctx: &mut StreamRoutingCtx)
    requires
        old(ctx).routes@.len() >= streams@.len(),
    ensures
        final(ctx).routes@.len() == old(ctx).routes@.len(),
        final(ctx).output_time_bases == old(ctx).output_time_bases,
        forall|i: int| 0 <= i < streams@.len() ==> #[trigger] final(ctx).routes@[i] == if is_eligible_medium(
            streams@[i].medium,
        ) {
            planned_route(streams@, i, target)
        } else {
            old(ctx).routes@[i]
        },
        forall|i: int| streams@.len() <= i < old(ctx).routes@.len() ==> #[trigger] final(ctx).routes@[i] == old(ctx).routes@[i],
        forall|i: int| 0 <= i < streams@.len() && is_eligible_medium(streams@[i].medium) ==> (
            #[trigger] final(ctx).routes@[i] is Transcode <==> (streams@[i].medium == MediaType::Video
                && streams@[i].codec != Some(target))),
{
    let ghost old_routes = ctx.routes@;
    let mut output_stream_idx: usize = 0;
    let mut i: usize = 0;
    while i < streams.len()
        invariant
            0 <= i <= streams@.len(),
            ctx.routes@.len() == old_routes.len(),
            old_routes.len() >= streams@.len(),
            ctx.output_time_bases == old(ctx).output_time_bases,
            output_stream_idx == eligible_count(streams@.take(i as int)),
            output_stream_idx <= i,
            forall|k: int| 0 <= k < i ==> #[trigger] ctx.routes@[k] == if is_eligible_medium(streams@[k].medium) {
                planned_route(streams@, k, target)
            } else {
                old_routes[k]
            },
            forall|k: int| i <= k < old_routes.len() ==> #[trigger] ctx.routes@[k] == old_routes[k],
        decreases streams@.len() - i,
    {
        let stream = streams[i];
        proof {
            lemma_eligible_count_step(streams@, i as int);
        }
        if eligible_input_stream_medium(&stream.medium) {
            let route = if stream.medium == MediaType::Video && stream.codec != Some(target) {
                StreamRoute::Transcode { output_stream_idx }
            } else {
                StreamRoute::Copy { output_stream_idx, input_stream_time_base: stream.time_base }
            };
            ctx.routes.set(i, route);
            output_stream_idx = output_stream_idx + 1;
        }
        i = i + 1;
    }
    assert(streams@.take(streams@.len() as int) == streams@);
}

proof fn lemma_eligible_count_monotone(streams: Seq<InputStream>, i: int, j: int)
    requires
        0 <= i <= j <= streams.len(),
    ensures
        eligible_count(streams.take(i)) <= eligible_count(streams.take(j)),
    decreases j - i,
{
    if i < j {
        lemma_eligible_count_monotone(streams, i, j - 1);
        lemma_eligible_count_step(streams, j - 1);
    }
}

/// Carried streams get distinct output streams in the order of the input,
/// and every one of them lies below the number of carried streams: the
/// output streams are numbered without gaps.
pub proof fn law_output_streams_are_dense(streams: Seq<InputStream>, i: int, j: int)
    requires
        0 <= i < j < streams.len(),
        is_eligible_medium(streams[i].medium),
    ensures
        eligible_count(streams.take(i)) < eligible_count(streams.take(j)),
        eligible_count(streams.take(i)) < eligible_count(streams),
{
    lemma_eligible_count_step(streams, i);
    lemma_eligible_count_monotone(streams, i + 1, j);
    lemma_eligible_count_monotone(streams, i + 1, streams.len() as int);
    assert(streams.take(streams.len() as int) == streams);
}

/// The route a carried stream gets, stated over the stream itself: a video
/// stream is transcoded exactly when its codec is not the target (one in an
/// unknown codec included), so only video already in the target codec is
/// copied; audio and subtitles are always copied, with their own time base;
/// and the output stream is the number of carried streams before it.
pub proof fn law_route_follows_medium_and_codec(streams: Seq<InputStream>, i: int, target: VideoCodec)
    requires
        0 <= i < streams.len(),
        is_eligible_medium(streams[i].medium),
    ensures
        planned_route(streams, i, target) is Transcode <==> (streams[i].medium == MediaType::Video
            && streams[i].codec != Some(target)),
        streams[i].medium == MediaType::Video && streams[i].codec == Some(target) ==> planned_route(streams, i, target)
            == (StreamRoute::Copy {
            output_stream_idx: eligible_count(streams.take(i)) as usize,
            input_stream_time_base: streams[i].time_base,
        }),
        streams[i].medium != MediaType::Video ==> planned_route(streams, i, target) == (StreamRoute::Copy {
            output_stream_idx: eligible_count(streams.take(i)) as usize,
            input_stream_time_base: streams[i].time_base,
        }),
        streams[i].medium == MediaType::Video && streams[i].codec != Some(target) ==> planned_route(streams, i, target)
            == (StreamRoute::Transcode { output_stream_idx: eligible_count(streams.take(i)) as usize }),
{
}

/// Whether some transcoder received no frame at all, given the frame count
/// of each transcoded stream. The job then fails and the original is kept.
pub fn any_transcoder_idle(frame_counts: &[usize]) -> (idle: bool)
    ensures
        idle == exists|i: int| 0 <= i < frame_counts@.len() && #[trigger] frame_counts@[i] == 0,
{
    let mut i: usize = 0;
    while i < frame_counts.len()
        invariant
            0 <= i <= frame_counts@.len(),
            forall|k: int| 0 <= k < i ==> #[trigger] frame_counts@[k] != 0,
        decreases frame_counts@.len() - i,
    {
        if frame_counts[i] == 0 {
            return true;
        }
        i = i + 1;
    }
    false
}

} // verus!
