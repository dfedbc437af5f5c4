//! Bounds a manifest must respect, so a small frame cannot declare
//! millions of chunks and force a huge allocation.
use vstd::prelude::*;

verus! {

/// Upper bounds on one manifest.
#[derive(Debug, Clone, Copy, PartialEq, Eq, Structural)]
pub struct ManifestLimits {
    pub max_chunks: u32,
    pub max_manifest_bytes: u64,
    pub max_file_bytes: u64,
}

impl Default for ManifestLimits {
    /// One million chunks, 64 MiB of manifest, 10 GiB of file.
    fn default() -> (r: Self)
        ensures
            r.max_chunks == 1_000_000,
            r.max_manifest_bytes == 64 * 1024 * 1024,
            r.max_file_bytes == 10 * 1024 * 1024 * 1024,
    {
        ManifestLimits {
            max_chunks: 1_000_000,
            max_manifest_bytes: 64 * 1024 * 1024,
            max_file_bytes: 10 * 1024 * 1024 * 1024,
        }
    }
}

} // verus!
