//! Chunking and encryption descriptors, and bounded file names.
use vstd::prelude::*;
use vstd::utf8::encode_utf8;

verus! {

/// The longest display name accepted, in UTF-8 bytes.
pub const MAX_FILE_NAME_BYTES: usize = 255;

/// How a blob was chunked.
#[derive(Debug, Clone, Copy, PartialEq, Eq, Structural)]
pub struct ChunkingDescriptor {
    pub chunk_size: u32,
}

/// The authenticated cipher a blob is sealed with.
#[derive(Debug, Clone, Copy, PartialEq, Eq, Structural)]
pub enum EncryptionAlgorithm {
    ChaCha20Poly1305,
}

/// The algorithm and the one nonce a whole-blob seal used.
#[derive(Debug, Clone, Copy, PartialEq, Eq)]
pub struct EncryptionDescriptor {
    pub algorithm: EncryptionAlgorithm,
    pub nonce: [u8; 12],
}

/// The UTF-8 length of a string, in bytes.
pub open spec fn utf8_len(s: Seq<char>) -> nat {
    encode_utf8(s).len()
}

/// A display name of at most 255 UTF-8 bytes, a limit every common file
/// system can store.
#[derive(Debug, Clone, PartialEq, Eq)]
pub struct FileName(String);

/// Rejection of a name over the byte limit, with its length.
#[derive(Debug, Clone, PartialEq, Eq, Structural)]
pub struct FileNameTooLong {
    len: usize,
}

impl FileNameTooLong {
    pub closed spec fn spec_len(&self) -> usize {
        self.len
    }

    /// The rejected name's length in bytes.
    pub fn len(&self) -> (r: usize)
        ensures
            r == self.spec_len(),
    {
        self.len
    }
}

impl View for FileName {
    type V = Seq<char>;

    closed spec fn view(&self) -> Seq<char> {
        self.0@
    }
}

impl FileName {
    /// Accepts `name` unless it is over 255 bytes.
    pub fn new(name: String) -> (r: Result<Self, FileNameTooLong>)
        requires
            utf8_len(name@) <= usize::MAX,
        ensures
            match r {
                Ok(f) => utf8_len(name@) <= MAX_FILE_NAME_BYTES && f@ == name@,
                Err(e) => utf8_len(name@) > MAX_FILE_NAME_BYTES && e.spec_len() == utf8_len(name@),
            },
    {
        let len = name.as_str().len();
        if len > MAX_FILE_NAME_BYTES {
            return Err(FileNameTooLong { len });
        }
        Ok(FileName(name))
    }

    pub fn as_str(&self) -> (r: &str)
        ensures
            r@ == self@,
    {
        self.0.as_str()
    }
}

} // verus!
