//! Verified core of the siar messenger: capability negotiation, the
//! chunked blob manifest, call-media helpers, mesh and message framing.

pub mod util;
pub mod digest;
pub mod random;
pub mod clock;
pub mod text;
pub mod varint;
pub mod wire;
pub mod capability;
pub mod blob;
pub mod calls;
pub mod protocol;
pub mod mesh;
pub mod store;
pub mod transfer;
pub mod registry;
pub mod conv_docs;
pub mod contacts;
pub mod ticket;
pub mod routes;
pub mod paths;
pub mod radix;
