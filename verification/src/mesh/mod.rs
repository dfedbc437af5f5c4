//! The offline mesh's verified core: the flooded envelope and its wire
//! form, the dedup cache, and the recently-seen-peers count.

pub mod recent;
pub mod envelope;
pub mod status;
pub mod lan;
