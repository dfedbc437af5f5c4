//! The message wire format: envelopes and their bodies, and the
//! adaptive-compression frame they travel in.

pub mod frame;
pub mod message;
pub mod codec;
