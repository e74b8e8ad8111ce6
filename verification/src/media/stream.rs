//! What the library reads of a container's streams.

use vstd::prelude::*;
use crate::media::timebase::Rational;
use crate::media::video_codec::VideoCodec;

verus! {

/// The kind of data a stream carries.
#[derive(Debug, Clone, Copy, PartialEq, Eq, Structural)]
pub enum MediaType {
    Unknown,
    Video,
    Audio,
    Data,
    Subtitle,
    Attachment,
}

/// An input stream as the routing decisions see it: its kind, which of the
/// target codecs it is already encoded with (if any), and its time base.
#[derive(Debug, Clone, Copy, PartialEq, Eq, Structural)]
pub struct InputStream {
    pub medium: MediaType,
    pub codec: Option<VideoCodec>,
    pub time_base: Rational,
}

/// Whether streams of this kind are carried into the output.
pub open spec fn is_eligible_medium(medium: MediaType) -> bool {
    medium == MediaType::Video || medium == MediaType::Audio || medium == MediaType::Subtitle
}

/// Whether streams of this kind are carried into the output: video, audio
/// and subtitles are; data, attachments and unknown streams are not.
pub fn eligible_input_stream_medium(input_stream_medium: &MediaType) -> (r: bool)
    ensures
        r == is_eligible_medium(*input_stream_medium),
{
    match input_stream_medium {
        MediaType::Video | MediaType::Audio | MediaType::Subtitle => true,
        _ => false,
    }
}

} // verus!
