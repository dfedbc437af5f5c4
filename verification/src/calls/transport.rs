//! The media transport's channel names and errors.
use vstd::prelude::*;

verus! {

/// Which media stream a frame belongs to.
#[derive(Debug, Clone, Copy, PartialEq, Eq, Structural)]
pub enum MediaChannel {
    Video,
    Audio,
}

/// Why a media send or receive failed.
#[derive(Debug, Clone)]
pub enum TransportError {
    /// The connection closed.
    Closed,
    /// Any other transport failure, with its description.
    Other(String),
}

} // verus!
