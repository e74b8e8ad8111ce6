use vstd::prelude::*;
use crate::text::{lowercase, to_lowercase, str_eq, all_ascii, ascii_lowercase, ascii_lower_char};

verus! {

/// The video codecs that media can be transcoded into.
#[derive(Debug, Clone, Copy, PartialEq, Eq, Structural, Hash)]
pub enum VideoCodec {
    H264,
    H265,
    Av1,
    Vp9,
}

/// The lower-case name under which a codec is written in configuration and
/// in the marker left on transcoded media.
pub open spec fn codec_name(codec: VideoCodec) -> Seq<char> {
    match codec {
        VideoCodec::H264 => "h264"@,
        VideoCodec::H265 => "h265"@,
        VideoCodec::Av1 => "av1"@,
        VideoCodec::Vp9 => "vp9"@,
    }
}

/// The codec a lower-case name stands for: its own name, or "avc" for H.264
/// and "hevc" for H.265.
pub open spec fn codec_from_name(name: Seq<char>) -> Option<VideoCodec> {
    if name == "h264"@ || name == "avc"@ {
        Some(VideoCodec::H264)
    } else if name == "h265"@ || name == "hevc"@ {
        Some(VideoCodec::H265)
    } else if name == "av1"@ {
        Some(VideoCodec::Av1)
    } else if name == "vp9"@ {
        Some(VideoCodec::Vp9)
    } else {
        None
    }
}

impl VideoCodec {
    /// The codec's lower-case name.
    pub fn as_str(&self) -> (s: &'static str)
        ensures
            s@ == codec_name(*self),
    {
        match self {
            VideoCodec::H264 => "h264",
            VideoCodec::H265 => "h265",
            VideoCodec::Av1 => "av1",
            VideoCodec::Vp9 => "vp9",
        }
    }

    /// The codec named by a name already in lower case.
    pub fn from_lowercase_name(name: &str) -> (r: Option<VideoCodec>)
        ensures
            r == codec_from_name(name@),
    {
        if str_eq(name, "h264") || str_eq(name, "avc") {
            Some(VideoCodec::H264)
        } else if str_eq(name, "h265") || str_eq(name, "hevc") {
            Some(VideoCodec::H265)
        } else if str_eq(name, "av1") {
            Some(VideoCodec::Av1)
        } else if str_eq(name, "vp9") {
            Some(VideoCodec::Vp9)
        } else {
            None
        }
    }

    /// Reads a codec name that is already in lower case; an unknown name
    /// gives the message `unrecognized codec: <name>`.
    pub fn from_lowercase(lower: &str) -> (r: Result<VideoCodec, String>)
        ensures
            match r {
                Ok(c) => codec_from_name(lower@) == Some(c),
                Err(msg) => codec_from_name(lower@) is None && msg@ == "unrecognized codec: "@ + lower@,
            },
    {
        match VideoCodec::from_lowercase_name(lower) {
            Some(c) => Ok(c),
            None => {
                let msg = String::from_str("unrecognized codec: ");
                Err(msg.concat(lower))
            },
        }
    }

    /// Reads a codec name without regard to case; an unknown name gives the
    /// message `unrecognized codec: <name in lower case>`.
    pub fn parse(s: &str) -> (r: Result<VideoCodec, String>)
        ensures
            match r {
                Ok(c) => codec_from_name(lowercase(s@)) == Some(c),
                Err(msg) => codec_from_name(lowercase(s@)) is None && msg@ == "unrecognized codec: "@
                    + lowercase(s@),
            },
            all_ascii(s@) ==> match r {
                Ok(c) => codec_from_name(ascii_lowercase(s@)) == Some(c),
                Err(msg) => codec_from_name(ascii_lowercase(s@)) is None && msg@ == "unrecognized codec: "@
                    + ascii_lowercase(s@),
            },
    {
        let lower = to_lowercase(s);
        VideoCodec::from_lowercase(lower.as_str())
    }
}

impl std::str::FromStr for VideoCodec {
    type Err = String;

    /// Reads a codec name without regard to case, as `VideoCodec::parse`.
    fn from_str(s: &str) -> (r: Result<Self, Self::Err>)
        ensures
            match r {
                Ok(c) => codec_from_name(lowercase(s@)) == Some(c),
                Err(msg) => codec_from_name(lowercase(s@)) is None && msg@ == "unrecognized codec: "@
                    + lowercase(s@),
            },
            all_ascii(s@) ==> match r {
                Ok(c) => codec_from_name(ascii_lowercase(s@)) == Some(c),
                Err(msg) => codec_from_name(ascii_lowercase(s@)) is None && msg@ == "unrecognized codec: "@
                    + ascii_lowercase(s@),
            },
    {
        VideoCodec::parse(s)
    }
}

/// Reading back a codec's own name gives the codec.
pub proof fn law_codec_name_round_trip(codec: VideoCodec)
    ensures
        codec_from_name(codec_name(codec)) == Some(codec),
{
    reveal_strlit("h264");
    reveal_strlit("avc");
    reveal_strlit("h265");
    reveal_strlit("hevc");
    reveal_strlit("av1");
    reveal_strlit("vp9");
    assert("h265"@[3] != "h264"@[3]);
    assert("h265"@.len() != "avc"@.len());
    assert("av1"@[0] != "avc"@[0] || "av1"@[2] != "avc"@[2]);
    assert("av1"@.len() != "h264"@.len() && "av1"@.len() != "h265"@.len() && "av1"@.len() != "hevc"@.len());
    assert("vp9"@[0] != "avc"@[0] && "vp9"@[0] != "av1"@[0]);
    assert("vp9"@.len() != "h264"@.len() && "vp9"@.len() != "h265"@.len() && "vp9"@.len() != "hevc"@.len());
}

/// A codec's name read in any case names the codec: every string whose
/// ASCII lower-case form is the name, such as "H264" or "Av1", is made of
/// ASCII characters and reads back as the codec.
pub proof fn law_codec_name_read_in_any_case(codec: VideoCodec, s: Seq<char>)
    requires
        ascii_lowercase(s) == codec_name(codec),
    ensures
        all_ascii(s),
        codec_from_name(ascii_lowercase(s)) == Some(codec),
{
    law_codec_name_round_trip(codec);
    reveal_strlit("h264");
    reveal_strlit("h265");
    reveal_strlit("av1");
    reveal_strlit("vp9");
    let name = codec_name(codec);
    assert(forall|i: int| 0 <= i < name.len() ==> (#[trigger] name[i] as u32) < 128);
    assert forall|i: int| 0 <= i < s.len() implies (#[trigger] s[i] as u32) < 128 by {
        assert(ascii_lowercase(s)[i] == ascii_lower_char(s[i]));
        assert((name[i] as u32) < 128);
    }
}

} // verus!
