//! IVF container headers, as the ffmpeg hardware path writes and reads
//! them: a 32-byte file header and a 12-byte header before each frame,
//! all fields little-endian.
use vstd::prelude::*;

verus! {

/// Largest encoded video frame accepted from the encoder (4 MiB).
pub const MAX_VIDEO_FRAME_BYTES: u32 = 4194304;

/// Little-endian bytes of a 16-bit value.
pub open spec fn le16(x: u16) -> Seq<u8> {
    seq![(x % 256) as u8, (x / 256) as u8]
}

/// Little-endian bytes of a 32-bit value.
pub open spec fn le32(x: u32) -> Seq<u8> {
    seq![(x % 256) as u8, ((x / 256) % 256) as u8, ((x / 65536) % 256) as u8, (x / 16777216) as u8]
}

/// Little-endian bytes of a 64-bit value.
pub open spec fn le64(x: u64) -> Seq<u8> {
    le32((x % 0x1_0000_0000) as u32) + le32((x / 0x1_0000_0000) as u32)
}

/// The file header: `DKIF`, version 0, header length 32, fourcc `AV01`,
/// width, height, frame rate over a time scale of 1, and zeros.
pub open spec fn spec_ivf_file_header(width: u16, height: u16, fps: u32) -> Seq<u8> {
    seq![68u8, 75u8, 73u8, 70u8] + le16(0) + le16(32) + seq![65u8, 86u8, 48u8, 49u8] + le16(width) + le16(height)
        + le32(fps) + le32(1) + Seq::new(8, |i: int| 0u8)
}

/// A frame header: the frame's size, then its timestamp.
pub open spec fn spec_ivf_frame_header(size: u32, timestamp: u64) -> Seq<u8> {
    le32(size) + le64(timestamp)
}

fn put_le32(h: &mut [u8], at: usize, x: u32)
    requires
        at + 4 <= old(h)@.len(),
    ensures
        final(h)@.len() == old(h)@.len(),
        final(h)@.subrange(at as int, at + 4) == le32(x),
        forall|i: int| 0 <= i < old(h)@.len() && !(at <= i < at + 4) ==> final(h)@[i] == old(h)@[i],
{
    h[at] = (x % 256) as u8;
    h[at + 1] = ((x / 256) % 256) as u8;
    h[at + 2] = ((x / 65536) % 256) as u8;
    h[at + 3] = (x / 16777216) as u8;
    proof {
        assert(h@.subrange(at as int, at + 4) =~= le32(x));
    }
}

fn put_le16(h: &mut [u8], at: usize, x: u16)
    requires
        at + 2 <= old(h)@.len(),
    ensures
        final(h)@.len() == old(h)@.len(),
        final(h)@.subrange(at as int, at + 2) == le16(x),
        forall|i: int| 0 <= i < old(h)@.len() && !(at <= i < at + 2) ==> final(h)@[i] == old(h)@[i],
{
    h[at] = (x % 256) as u8;
    h[at + 1] = (x / 256) as u8;
    proof {
        assert(h@.subrange(at as int, at + 2) =~= le16(x));
    }
}

/// The 32-byte IVF file header for an AV1 stream.
pub fn ivf_file_header(width: u16, height: u16, fps: u32) -> (r: [u8; 32])
    ensures
        r@ == spec_ivf_file_header(width, height, fps),
{
    let mut h = [0u8; 32];
    h[0] = 68;
    h[1] = 75;
    h[2] = 73;
    h[3] = 70;
    put_le16(&mut h, 6, 32);
    h[8] = 65;
    h[9] = 86;
    h[10] = 48;
    h[11] = 49;
    put_le16(&mut h, 12, width);
    put_le16(&mut h, 14, height);
    put_le32(&mut h, 16, fps);
    put_le32(&mut h, 20, 1);
    proof {
        let s = spec_ivf_file_header(width, height, fps);
        assert(h@.subrange(6, 8) == le16(32));
        assert(h@.subrange(12, 14) == le16(width));
        assert(h@.subrange(14, 16) == le16(height));
        assert(h@.subrange(16, 20) == le32(fps));
        assert(h@.subrange(20, 24) == le32(1));
        assert forall|i: int| 0 <= i < 32 implies h@[i] == s[i] by {
            if 6 <= i < 8 {
                assert(h@[i] == h@.subrange(6, 8)[i - 6]);
            } else if 12 <= i < 14 {
                assert(h@[i] == h@.subrange(12, 14)[i - 12]);
            } else if 14 <= i < 16 {
                assert(h@[i] == h@.subrange(14, 16)[i - 14]);
            } else if 16 <= i < 20 {
                assert(h@[i] == h@.subrange(16, 20)[i - 16]);
            } else if 20 <= i < 24 {
                assert(h@[i] == h@.subrange(20, 24)[i - 20]);
            }
        }
        assert(h@ =~= s);
    }
    h
}

/// The 12-byte IVF header of one frame.
pub fn ivf_frame_header(size: u32, timestamp: u64) -> (r: [u8; 12])
    ensures
        r@ == spec_ivf_frame_header(size, timestamp),
{
    let mut h = [0u8; 12];
    put_le32(&mut h, 0, size);
    put_le32(&mut h, 4, (timestamp % 0x1_0000_0000) as u32);
    put_le32(&mut h, 8, (timestamp / 0x1_0000_0000) as u32);
    proof {
        let s = spec_ivf_frame_header(size, timestamp);
        assert forall|i: int| 0 <= i < 12 implies h@[i] == s[i] by {
            if i < 4 {
                assert(h@[i] == h@.subrange(0, 4)[i]);
            } else if i < 8 {
                assert(h@[i] == h@.subrange(4, 8)[i - 4]);
            } else {
                assert(h@[i] == h@.subrange(8, 12)[i - 8]);
            }
        }
        assert(h@ =~= s);
    }
    h
}

/// The size field of a frame header.
pub fn ivf_frame_size(header: &[u8; 12]) -> (r: u32)
    ensures
        r == header@[0] as int + 256 * header@[1] as int + 65536 * header@[2] as int + 16777216 * header@[3] as int,
{
    header[0] as u32 + 256 * (header[1] as u32) + 65536 * (header[2] as u32) + 16777216 * (header[3] as u32)
}

/// Whether a frame of this declared size is taken from the encoder's
/// stream; empty or oversized frames are skipped rather than trusted.
pub fn accept_ivf_frame_size(size: u32) -> (r: bool)
    ensures
        r == (0 < size && size <= MAX_VIDEO_FRAME_BYTES),
{
    size != 0 && size <= MAX_VIDEO_FRAME_BYTES
}

/// A frame header's size field reads back as the size written.
pub proof fn lemma_frame_size_roundtrip(size: u32, timestamp: u64)
    ensures
        ({
            let h = spec_ivf_frame_header(size, timestamp);
            h[0] as int + 256 * h[1] as int + 65536 * h[2] as int + 16777216 * h[3] as int == size
        }),
{
    let h = spec_ivf_frame_header(size, timestamp);
    assert(h[0] == (size % 256) as u8);
    assert(h[1] == ((size / 256) % 256) as u8);
    assert(h[2] == ((size / 65536) % 256) as u8);
    assert(h[3] == (size / 16777216) as u8);
}

} // verus!
