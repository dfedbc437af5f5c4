//! Call media helpers: the reorder buffer, the media transport's channel
//! and error types, and video codec negotiation.

pub mod jitter;
pub mod codec;
pub mod transport;
pub mod audio;
pub mod plan;
pub mod resample;
pub mod ivf;
pub mod video_wire;
pub mod yuv;
pub mod video_support;
pub mod signal;
pub mod flow;
