use siar::calls::audio::downmix_i16;
use siar::calls::codec::{available_hw_decode_codecs, available_hw_encode_codecs, mime_for, negotiate_send_codec, VideoCodec};
use siar::calls::jitter::JitterBuffer;

#[test]
fn codec_negotiation_prefers_efficiency_order() {
    let all = [VideoCodec::Av1, VideoCodec::H264, VideoCodec::H265];
    assert_eq!(negotiate_send_codec(&all, &all), Some(VideoCodec::H265));
    assert_eq!(negotiate_send_codec(&[VideoCodec::Av1, VideoCodec::H264], &all), Some(VideoCodec::H264));
    assert_eq!(negotiate_send_codec(&[VideoCodec::Av1], &all), Some(VideoCodec::Av1));
}

#[test]
fn codec_negotiation_never_invents_a_fallback() {
    assert_eq!(negotiate_send_codec(&[VideoCodec::Av1], &[VideoCodec::H264]), None);
    assert_eq!(negotiate_send_codec(&[], &[VideoCodec::H265]), None);
}

#[test]
fn codec_choice_follows_what_the_peer_decodes_not_what_it_encodes() {
    let mine = [VideoCodec::H265, VideoCodec::Av1];
    let their_decode = [VideoCodec::Av1];
    assert_eq!(negotiate_send_codec(&mine, &their_decode), Some(VideoCodec::Av1));
}

#[test]
fn desktop_builds_offer_av1_both_ways() {
    assert_eq!(available_hw_decode_codecs(), vec![VideoCodec::Av1]);
    assert_eq!(available_hw_encode_codecs(), vec![VideoCodec::Av1]);
}

#[test]
fn codec_mime_types() {
    assert_eq!(mime_for(VideoCodec::H264), "video/avc");
    assert_eq!(mime_for(VideoCodec::H265), "video/hevc");
    assert_eq!(mime_for(VideoCodec::Av1), "video/av01");
}

#[test]
fn buffers_until_capacity_then_releases_the_oldest() {
    let mut jb = JitterBuffer::new(3);
    assert!(jb.push(100, "a").is_empty());
    assert!(jb.push(300, "c").is_empty());
    assert!(jb.push(200, "b").is_empty());
    let released = jb.push(400, "d");
    assert_eq!(released, vec![(100, "a")]);
    assert_eq!(jb.len(), 3);
}

#[test]
fn out_of_order_arrivals_are_released_in_timestamp_order() {
    let mut jb = JitterBuffer::new(4);
    jb.push(300, "c");
    jb.push(100, "a");
    jb.push(200, "b");
    let released = jb.flush();
    assert_eq!(released, vec![(100, "a"), (200, "b"), (300, "c")]);
}

#[test]
fn flush_drains_everything_still_pending_and_empties_the_buffer() {
    let mut jb: JitterBuffer<&str> = JitterBuffer::new(5);
    jb.push(50, "x");
    assert!(!jb.is_empty());
    let released = jb.flush();
    assert_eq!(released, vec![(50, "x")]);
    assert!(jb.is_empty());
}

#[test]
fn duplicate_timestamps_are_kept_in_arrival_order() {
    let mut jb = JitterBuffer::new(4);
    jb.push(100, "first");
    jb.push(100, "second");
    let released = jb.flush();
    assert_eq!(released, vec![(100, "first"), (100, "second")]);
}

#[test]
fn a_late_arrival_older_than_everything_is_released_first_when_full() {
    let mut jb = JitterBuffer::new(2);
    jb.push(200, "b");
    jb.push(300, "c");
    assert_eq!(jb.push(100, "a"), vec![(100, "a")]);
    assert_eq!(jb.flush(), vec![(200, "b"), (300, "c")]);
}

#[test]
fn downmix_averages_each_frame_toward_zero() {
    assert_eq!(downmix_i16(&[10, 20, -3, -4], 2), vec![15, -3]);
    assert_eq!(downmix_i16(&[1, 2, 3, 4, 5], 2), vec![1, 3, 2]);
    assert_eq!(downmix_i16(&[7, -8], 1), vec![7, -8]);
    assert_eq!(downmix_i16(&[7, -8], 0), vec![7, -8]);
    assert_eq!(downmix_i16(&[i16::MAX, i16::MAX], 2), vec![i16::MAX]);
}

#[test]
fn the_jitter_buffer_holds_what_was_pushed_and_not_yet_released() {
    let mut jb = JitterBuffer::new(2);
    let mut pushed = 0usize;
    let mut released = 0usize;
    for ts in [30u64, 10, 20, 40] {
        released += jb.push(ts, ts).len();
        pushed += 1;
        assert!(jb.len() <= 2);
        assert_eq!(jb.len(), pushed - released);
    }
    released += jb.flush().len();
    assert_eq!(jb.len(), 0);
    assert!(jb.is_empty());
    assert_eq!(released, pushed);
    released += jb.push(5, 5).len();
    pushed += 1;
    assert_eq!(jb.len(), pushed - released);
}
