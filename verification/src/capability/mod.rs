//! Capability negotiation: identifiers, versions, descriptors, canonical
//! sets, registry validation, policy filtering and the pure negotiation
//! function itself.

pub mod version;
pub mod id;
pub mod descriptor;
pub mod set;
pub mod policy;
pub mod error;
pub mod registry;
pub mod negotiate;
pub mod encoding;
pub mod hash;
pub mod transcript;
pub mod extension;
pub mod files_extension;
pub mod dtn_extension;
