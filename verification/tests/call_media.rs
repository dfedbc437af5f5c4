use siar::calls::audio::fill_frames;
use siar::calls::codec::VideoCodec;
use siar::calls::ivf::{accept_ivf_frame_size, ivf_file_header, ivf_frame_header, ivf_frame_size};
use siar::calls::plan::{connected_codec, plan_after_answer, plan_answer};
use siar::calls::resample::resample_fixed;
use siar::calls::video_wire::{
    accept_video_frame, decode_clip_packets, decode_frame_msg, encode_clip_packets, encode_frame_msg,
};
use siar::calls::yuv::{i420_to_rgb, rgb_to_i420, rgb_to_i420_planes};
use siar::varint::WireError;
use siar::calls::video_support::{
    classify_camera_error, contains_str, describe_camera_error, hw_encoder_extra_args, jpeg_data_uri, CameraProblem,
};

#[test]
fn both_ends_of_a_call_agree_on_video_and_codecs() {
    let caller_encode = [VideoCodec::Av1];
    let caller_decode = [VideoCodec::Av1, VideoCodec::H265];
    let callee_encode = [VideoCodec::H265, VideoCodec::Av1];
    let callee_decode = [VideoCodec::Av1];
    let callee = plan_answer(true, true, true, &callee_encode, &callee_decode, &caller_encode, &caller_decode);
    assert!(callee.video);
    assert_eq!(callee.send_codec, Some(VideoCodec::H265));
    assert_eq!(callee.receive_codec, Some(VideoCodec::Av1));
    let caller = plan_after_answer(callee.video, &caller_encode, &caller_decode, &callee_encode, &callee_decode);
    assert!(caller.video);
    assert_eq!(caller.send_codec, callee.receive_codec);
    assert_eq!(caller.receive_codec, callee.send_codec);
    assert_eq!(connected_codec(&caller), VideoCodec::Av1);
}

#[test]
fn no_camera_or_no_codec_means_audio_only() {
    let all = [VideoCodec::Av1, VideoCodec::H264];
    assert!(!plan_answer(true, true, false, &all, &all, &all, &all).video);
    assert!(!plan_answer(false, true, true, &all, &all, &all, &all).video);
    let none = plan_answer(true, true, true, &[VideoCodec::H264], &all, &all, &[VideoCodec::Av1]);
    assert!(!none.video);
    assert_eq!(connected_codec(&none), VideoCodec::Av1);
}

#[test]
fn fixed_point_resampling_interpolates() {
    let (out, pos) = resample_fixed(&[0, 100, 200], 32768, 0);
    assert_eq!(out, vec![0, 50, 100, 150]);
    assert_eq!(pos, 131072);
    let (down, end) = resample_fixed(&[10, -10, 30, 40], 131072, 0);
    assert_eq!(down, vec![10, 30]);
    assert_eq!(end, 262144);
    let (neg, _) = resample_fixed(&[0, -3], 16384, 0);
    assert_eq!(neg, vec![0, -1, -2, -3]);
}

#[test]
fn upmix_fills_every_channel_and_pads_with_silence() {
    let mut out = [9i16; 7];
    fill_frames(&mut out, &[1, 2], 3);
    assert_eq!(out, [1, 1, 1, 2, 2, 2, 0]);
    let mut mono_out = [9i16; 2];
    fill_frames(&mut mono_out, &[5, 6, 7], 0);
    assert_eq!(mono_out, [5, 6]);
}

#[test]
fn ivf_headers_are_little_endian() {
    let h = ivf_file_header(640, 360, 15);
    assert_eq!(&h[0..4], b"DKIF");
    assert_eq!(&h[6..8], &32u16.to_le_bytes());
    assert_eq!(&h[8..12], b"AV01");
    assert_eq!(&h[12..14], &640u16.to_le_bytes());
    assert_eq!(&h[14..16], &360u16.to_le_bytes());
    assert_eq!(&h[16..20], &15u32.to_le_bytes());
    assert_eq!(&h[20..24], &1u32.to_le_bytes());
    assert_eq!(&h[24..32], &[0u8; 8]);
    let f = ivf_frame_header(0x0102_0304, 0x1122_3344_5566_7788);
    assert_eq!(&f[0..4], &0x0102_0304u32.to_le_bytes());
    assert_eq!(&f[4..12], &0x1122_3344_5566_7788u64.to_le_bytes());
    assert_eq!(ivf_frame_size(&f), 0x0102_0304);
    assert!(accept_ivf_frame_size(1));
    assert!(!accept_ivf_frame_size(0));
    assert!(!accept_ivf_frame_size(4 * 1024 * 1024 + 1));
}

#[test]
fn video_frames_round_trip_and_foreign_codecs_are_dropped() {
    let bytes = encode_frame_msg(VideoCodec::H264, &[1, 2, 3]);
    assert_eq!(bytes, vec![1, 3, 1, 2, 3]);
    assert_eq!(decode_frame_msg(&bytes).unwrap(), (VideoCodec::H264, vec![1, 2, 3]));
    assert_eq!(accept_video_frame(&bytes, VideoCodec::H264), Some(vec![1, 2, 3]));
    assert_eq!(accept_video_frame(&bytes, VideoCodec::Av1), None);
    assert_eq!(decode_frame_msg(&[7, 0]).unwrap_err(), WireError::UnknownVariant);
    assert_eq!(decode_frame_msg(&[0, 5, 1]).unwrap_err(), WireError::UnexpectedEnd);
}

#[test]
fn clips_round_trip_and_untagged_clips_read_as_av1() {
    let packets = vec![vec![1u8, 2], vec![], vec![3u8]];
    let blob = encode_clip_packets(VideoCodec::H265, &packets);
    assert_eq!(decode_clip_packets(&blob).unwrap(), (VideoCodec::H265, packets.clone()));
    let legacy = vec![2u8, 1, 9, 2, 8, 7];
    assert_eq!(decode_clip_packets(&legacy).unwrap(), (VideoCodec::Av1, vec![vec![9u8], vec![8u8, 7]]));
    assert_eq!(decode_clip_packets(&[0, 3, 1]).unwrap(), (VideoCodec::Av1, vec![]));
    assert_eq!(decode_clip_packets(&[5]).unwrap_err(), WireError::UnexpectedEnd);
}

#[test]
fn grey_converts_both_ways() {
    let w = 2;
    let h = 2;
    let rgb = vec![128u8; w * h * 3];
    let planes = rgb_to_i420_planes(&rgb, w, h);
    assert_eq!(planes.y, vec![128, 128, 128, 128]);
    assert_eq!(planes.u, vec![128]);
    assert_eq!(planes.v, vec![128]);
    let packed = rgb_to_i420(&rgb, w, h);
    assert_eq!(packed, vec![128, 128, 128, 128, 128, 128]);
    let back = i420_to_rgb(&packed, w, h);
    assert_eq!(back, vec![128u8; 12]);
    assert_eq!(i420_to_rgb(&packed[..5], w, h), vec![0u8; 12]);
}

#[test]
fn short_rgb_buffers_convert_only_what_they_hold() {
    let rgb = vec![255u8, 0, 0, 0, 255];
    let planes = rgb_to_i420_planes(&rgb, 2, 2);
    assert_eq!(planes.y.len(), 1);
    assert_eq!(planes.y[0], 76);
    let packed = rgb_to_i420(&rgb, 2, 2);
    assert_eq!(packed[0], 76);
    assert_eq!(&packed[1..4], &[0, 0, 0]);
}

#[test]
fn camera_errors_are_classified_by_their_words() {
    assert_eq!(classify_camera_error("Device or resource BUSY"), CameraProblem::InUse);
    assert_eq!(classify_camera_error("Permission denied (os error 13)"), CameraProblem::Denied);
    assert_eq!(classify_camera_error("No camera attached"), CameraProblem::NotFound);
    assert_eq!(classify_camera_error("capture didn't start"), CameraProblem::NotFound);
    assert_eq!(classify_camera_error("weird failure"), CameraProblem::Other);
    assert_eq!(describe_camera_error("Not Found"), "no camera found on this device");
    assert_eq!(describe_camera_error("Weird Failure"), "camera unavailable (Weird Failure)");
    assert_eq!(jpeg_data_uri(b"Hello world"), "data:image/jpeg;base64,SGVsbG8gd29ybGQ=");
}

#[test]
fn only_vaapi_needs_extra_encoder_arguments() {
    let (before, after) = hw_encoder_extra_args("av1_vaapi");
    assert_eq!(before, vec!["-vaapi_device".to_string(), "/dev/dri/renderD128".to_string()]);
    assert_eq!(after, vec!["-vf".to_string(), "format=nv12,hwupload".to_string()]);
    let (b2, a2) = hw_encoder_extra_args("av1_nvenc");
    assert!(b2.is_empty() && a2.is_empty());
    assert!(contains_str("abc", ""));
    assert!(contains_str("abc", "bc"));
    assert!(!contains_str("ab", "abc"));
}
