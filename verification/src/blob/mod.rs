//! The chunked, ciphertext-addressed blob subsystem: chunking, content
//! identities, manifests with enforced limits, verification, resume
//! bitmaps and the transfer state machine.

pub mod chunking;
pub mod ids;
pub mod limits;
pub mod descriptor;
pub mod manifest;
pub mod verify;
pub mod resume;
pub mod transfer_state;
pub mod encryption;
