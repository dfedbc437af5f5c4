//! Video codecs and the per-direction choice of which one to send with.
use vstd::prelude::*;

verus! {

/// A video codec a build can encode into or decode out of.
#[derive(Debug, Clone, Copy, PartialEq, Eq, Structural)]
pub enum VideoCodec {
    Av1,
    H264,
    H265,
}

/// Codecs in order of preference: H.265 needs the least bitrate, then
/// H.264, then AV1.
pub open spec fn preference_order() -> Seq<VideoCodec> {
    seq![VideoCodec::H265, VideoCodec::H264, VideoCodec::Av1]
}

/// A codec's place in `preference_order`.
pub open spec fn preference_rank(c: VideoCodec) -> int {
    match c {
        VideoCodec::H265 => 0,
        VideoCodec::H264 => 1,
        VideoCodec::Av1 => 2,
    }
}

/// Whether both lists hold `c`.
pub open spec fn usable(mine: Seq<VideoCodec>, theirs: Seq<VideoCodec>, c: VideoCodec) -> bool {
    mine.contains(c) && theirs.contains(c)
}

/// The send codec: the first in preference order that this device can
/// encode and the peer can decode; none where there is no such codec.
pub open spec fn spec_send_codec(mine: Seq<VideoCodec>, theirs: Seq<VideoCodec>) -> Option<VideoCodec> {
    if usable(mine, theirs, VideoCodec::H265) {
        Some(VideoCodec::H265)
    } else if usable(mine, theirs, VideoCodec::H264) {
        Some(VideoCodec::H264)
    } else if usable(mine, theirs, VideoCodec::Av1) {
        Some(VideoCodec::Av1)
    } else {
        None
    }
}

fn holds(list: &[VideoCodec], c: VideoCodec) -> (r: bool)
    ensures
        r == list@.contains(c),
{
    let mut i: usize = 0;
    while i < list.len()
        invariant
            i <= list@.len(),
            forall|j: int| 0 <= j < i ==> list@[j] != c,
        decreases list@.len() - i,
    {
        if list[i] == c {
            return true;
        }
        i += 1;
    }
    false
}

/// Picks the codec this device should encode outgoing video with: what
/// matters is what the receiver can decode, not what it can encode. There
/// is no fallback: `None` where nothing fits.
pub fn negotiate_send_codec(my_encode_codecs: &[VideoCodec], their_decode_codecs: &[VideoCodec]) -> (r: Option<
    VideoCodec,
>)
    ensures
        r == spec_send_codec(my_encode_codecs@, their_decode_codecs@),
{
    let order = [VideoCodec::H265, VideoCodec::H264, VideoCodec::Av1];
    let mut i: usize = 0;
    while i < 3
        invariant
            order@ == preference_order(),
            i <= 3,
            forall|j: int| 0 <= j < i ==> !usable(my_encode_codecs@, their_decode_codecs@, #[trigger] order@[j]),
        decreases 3 - i,
    {
        let c = order[i];
        if holds(my_encode_codecs, c) && holds(their_decode_codecs, c) {
            proof {
                assert(!usable(my_encode_codecs@, their_decode_codecs@, order@[0]) || i == 0);
            }
            return Some(c);
        }
        i += 1;
    }
    proof {
        assert(!usable(my_encode_codecs@, their_decode_codecs@, order@[0]));
        assert(!usable(my_encode_codecs@, their_decode_codecs@, order@[1]));
        assert(!usable(my_encode_codecs@, their_decode_codecs@, order@[2]));
    }
    None
}

/// The hardware (or built-in) decoders of a desktop build: AV1, which the
/// software decoder always handles.
pub fn available_hw_decode_codecs() -> (r: Vec<VideoCodec>)
    ensures
        r@ == seq![VideoCodec::Av1],
{
    let mut v: Vec<VideoCodec> = Vec::new();
    v.push(VideoCodec::Av1);
    proof {
        assert(v@ =~= seq![VideoCodec::Av1]);
    }
    v
}

/// The encoders of a desktop build: AV1.
pub fn available_hw_encode_codecs() -> (r: Vec<VideoCodec>)
    ensures
        r@ == seq![VideoCodec::Av1],
{
    let mut v: Vec<VideoCodec> = Vec::new();
    v.push(VideoCodec::Av1);
    proof {
        assert(v@ =~= seq![VideoCodec::Av1]);
    }
    v
}

/// The MIME type a platform codec API knows each codec by.
pub fn mime_for(codec: VideoCodec) -> (r: &'static str)
    ensures
        r@ == match codec {
            VideoCodec::H264 => "video/avc"@,
            VideoCodec::H265 => "video/hevc"@,
            VideoCodec::Av1 => "video/av01"@,
        },
{
    match codec {
        VideoCodec::H264 => "video/avc",
        VideoCodec::H265 => "video/hevc",
        VideoCodec::Av1 => "video/av01",
    }
}

/// Whatever the peer decodes, the chosen codec is one this device can
/// encode and the peer can decode, and none preferred over it is.
pub proof fn lemma_send_codec_is_best_usable(mine: Seq<VideoCodec>, theirs: Seq<VideoCodec>)
    ensures
        spec_send_codec(mine, theirs) matches Some(c) ==> usable(mine, theirs, c) && forall|j: int|
            0 <= j < 3 && usable(mine, theirs, #[trigger] preference_order()[j]) ==> preference_rank(c) <= j,
        spec_send_codec(mine, theirs) is None ==> forall|c: VideoCodec| !usable(mine, theirs, c),
{
    assert(preference_order()[0] == VideoCodec::H265);
    assert(preference_order()[1] == VideoCodec::H264);
    assert(preference_order()[2] == VideoCodec::Av1);
    assert forall|c: VideoCodec| spec_send_codec(mine, theirs) is None implies !usable(mine, theirs, c) by {
        match c {
            VideoCodec::Av1 => {},
            VideoCodec::H264 => {},
            VideoCodec::H265 => {},
        }
    }
}

} // verus!
