//! Media frames as they travel between the transport and the interpretation modules.

use vstd::prelude::*;

verus! {

/// Video track number.
pub const TRACK_VIDEO: u8 = 0;

/// Audio track number.
pub const TRACK_AUDIO: u8 = 1;

/// Track number of peer-to-peer channel chunks.
pub const TRACK_CHANNEL: u8 = 2;

/// H.264 video.
pub const CODEC_H264: u8 = 1;

/// AAC audio.
pub const CODEC_AAC: u8 = 2;

/// Channel chunk payload.
pub const CODEC_CHANNEL: u8 = 3;

/// Flag bit of a key frame.
pub const FLAG_KEYFRAME: u8 = 1;

/// Header of a media frame.
#[derive(Debug, Clone, Copy, PartialEq, Eq, Structural)]
pub struct FrameHeader {
    pub track: u8,
    pub codec: u8,
    pub flags: u8,
    /// Presentation time in milliseconds.
    pub pts: u32,
    /// Sequence number; zero on lossless transports.
    pub seq: u32,
}

impl FrameHeader {
    /// Whether the key frame bit is set.
    pub open spec fn keyframe(self) -> bool {
        self.flags & FLAG_KEYFRAME != 0
    }

    /// Whether the frame can be decoded without the frames before it.
    pub fn is_keyframe(&self) -> (r: bool)
        ensures
            r == self.keyframe(),
    {
        self.flags & FLAG_KEYFRAME != 0
    }
}

/// A media frame.
#[derive(Debug)]
pub struct Frame {
    pub header: FrameHeader,
    pub payload: Vec<u8>,
}

impl Frame {
    /// A frame without a sequence number.
    pub fn new(track: u8, codec: u8, flags: u8, pts: u32, payload: Vec<u8>) -> (r: Frame)
        ensures
            r == (Frame { header: FrameHeader { track, codec, flags, pts, seq: 0 }, payload }),
    {
        Frame::with_seq(track, codec, flags, pts, 0, payload)
    }

    /// A frame with the sequence number `seq`.
    pub fn with_seq(
        track: u8,
        codec: u8,
        flags: u8,
        pts: u32,
        seq: u32,
        payload: Vec<u8>,
    ) -> (r: Frame)
        ensures
            r == (Frame { header: FrameHeader { track, codec, flags, pts, seq }, payload }),
    {
        Frame { header: FrameHeader { track, codec, flags, pts, seq }, payload }
    }
}

/// A frame holds what it was made of; without a sequence number its number is zero.
pub proof fn law_frame_holds_what_it_was_made_of(
    track: u8,
    codec: u8,
    flags: u8,
    pts: u32,
    seq: u32,
    payload: Vec<u8>,
    r: Frame,
    plain: Frame,
)
    requires
        call_ensures(Frame::with_seq, (track, codec, flags, pts, seq, payload), r),
        call_ensures(Frame::new, (track, codec, flags, pts, payload), plain),
    ensures
        r.payload@ == payload@ && plain.payload@ == payload@,
        r.header.track == track && plain.header.track == track,
        r.header.codec == codec && plain.header.codec == codec,
        r.header.flags == flags && plain.header.flags == flags,
        r.header.pts == pts && plain.header.pts == pts,
        r.header.seq == seq,
        plain.header.seq == 0,
{
}

/// The lowest flag tells a key frame: a frame is one exactly when its flags are an odd number.
pub proof fn law_lowest_flag_tells_a_key_frame(header: &FrameHeader, r: bool)
    requires
        call_ensures(FrameHeader::is_keyframe, (header,), r),
    ensures
        r <==> header.flags % 2 == 1,
{
    let f: u8 = header.flags;
    assert((f & 1 != 0) == (f % 2 == 1)) by (bit_vector);
}

} // verus!
