//! Fixed-size chunking and the size-class heuristic for picking a chunk
//! size.
use vstd::prelude::*;

verus! {

/// Files up to this size are sent as one chunk.
pub const MEDIUM_THRESHOLD: u64 = 1048576;

/// Files over this size use the large chunk size.
pub const LARGE_THRESHOLD: u64 = 16777216;

/// Chunk size used for medium files (512 KiB).
pub const MEDIUM_CHUNK_SIZE: u32 = 524288;

/// Chunk size used for large files (4 MiB).
pub const LARGE_CHUNK_SIZE: u32 = 4194304;

/// Size classes for choosing a chunk size.
#[derive(Debug, Clone, Copy, PartialEq, Eq, Structural)]
pub enum ChunkSizeClass {
    /// A single chunk.
    Small,
    /// 256 KiB – 1 MiB chunks.
    Medium,
    /// 1 MiB – 4 MiB chunks.
    Large,
}

/// The class a file of `total_size` bytes falls into.
pub open spec fn spec_class_for(total_size: u64) -> ChunkSizeClass {
    if total_size <= MEDIUM_THRESHOLD {
        ChunkSizeClass::Small
    } else if total_size <= LARGE_THRESHOLD {
        ChunkSizeClass::Medium
    } else {
        ChunkSizeClass::Large
    }
}

/// The chunk size a class picks: a small file is one chunk of its own
/// size (at least 1, at most `u32::MAX`).
pub open spec fn spec_default_chunk_size(class: ChunkSizeClass, total_size: u64) -> u32 {
    match class {
        ChunkSizeClass::Small => if total_size == 0 {
            1
        } else if total_size > u32::MAX {
            u32::MAX
        } else {
            total_size as u32
        },
        ChunkSizeClass::Medium => MEDIUM_CHUNK_SIZE,
        ChunkSizeClass::Large => LARGE_CHUNK_SIZE,
    }
}

impl ChunkSizeClass {
    /// Classifies by file size alone; a caller that knows the transport
    /// may override the chunk size.
    pub fn for_file_size(total_size: u64) -> (r: Self)
        ensures
            r == spec_class_for(total_size),
    {
        if total_size <= MEDIUM_THRESHOLD {
            ChunkSizeClass::Small
        } else if total_size <= LARGE_THRESHOLD {
            ChunkSizeClass::Medium
        } else {
            ChunkSizeClass::Large
        }
    }

    /// A concrete chunk size within this class's range.
    pub fn default_chunk_size(self, total_size: u64) -> (r: u32)
        ensures
            r == spec_default_chunk_size(self, total_size),
    {
        match self {
            ChunkSizeClass::Small => {
                if total_size == 0 {
                    1
                } else if total_size > 0xffff_ffffu64 {
                    u32::MAX
                } else {
                    total_size as u32
                }
            },
            ChunkSizeClass::Medium => MEDIUM_CHUNK_SIZE,
            ChunkSizeClass::Large => LARGE_CHUNK_SIZE,
        }
    }
}

/// Each class's chunk size lies in its range: a small file is a single
/// chunk of the file's own size (at least one byte, at most `u32::MAX`), a
/// medium file uses 512 KiB chunks (inside 256 KiB – 1 MiB), a large file
/// 4 MiB chunks (inside 1 MiB – 4 MiB).
pub proof fn lemma_chunk_size_in_class_range(class: ChunkSizeClass, total_size: u64)
    ensures
        class == ChunkSizeClass::Small ==> {
            let c = spec_default_chunk_size(class, total_size);
            &&& c >= 1
            &&& c <= total_size || total_size == 0
            &&& total_size <= 0xffff_ffff ==> chunk_count(total_size as nat, c as nat) <= 1
            &&& total_size == 0 ==> c == 1
            &&& total_size > 0xffff_ffff ==> c == 0xffff_ffff
        },
        class == ChunkSizeClass::Medium ==> spec_default_chunk_size(class, total_size) == 512 * 1024
            && 256 * 1024 <= spec_default_chunk_size(class, total_size) <= 1024 * 1024,
        class == ChunkSizeClass::Large ==> spec_default_chunk_size(class, total_size) == 4 * 1024 * 1024
            && 1024 * 1024 <= spec_default_chunk_size(class, total_size) <= 4 * 1024 * 1024,
{
    if class == ChunkSizeClass::Small && total_size > 0 && total_size <= 0xffff_ffff {
        let c = spec_default_chunk_size(class, total_size);
        assert(c == total_size);
        assert((total_size + c - 1) / c as int == 1) by {
            vstd::arithmetic::div_mod::lemma_fundamental_div_mod_converse(
                total_size + c - 1,
                c as int,
                1,
                c - 1,
            );
        }
    }
}

/// The class follows the file size: one chunk up to 1 MiB, medium up to
/// 16 MiB, large beyond.
pub proof fn lemma_class_by_size(total_size: u64)
    ensures
        total_size <= 1024 * 1024 ==> spec_class_for(total_size) == ChunkSizeClass::Small,
        1024 * 1024 < total_size <= 16 * 1024 * 1024 ==> spec_class_for(total_size) == ChunkSizeClass::Medium,
        16 * 1024 * 1024 < total_size ==> spec_class_for(total_size) == ChunkSizeClass::Large,
{
}

/// How many chunks `len` bytes split into: none for no data, one whole
/// chunk when the size is zero, else the size rounded up.
pub open spec fn chunk_count(len: nat, size: nat) -> nat {
    if len == 0 {
        0
    } else if size == 0 {
        1
    } else {
        ((len + size - 1) / size as int) as nat
    }
}

/// Where chunk `i` starts.
pub open spec fn chunk_start(i: int, size: nat) -> int {
    i * size
}

/// Where chunk `i` ends (exclusive): the last chunk is whatever remains.
pub open spec fn chunk_end(i: int, len: nat, size: nat) -> int {
    if size == 0 {
        len as int
    } else if (i + 1) * size < len {
        (i + 1) * size
    } else {
        len as int
    }
}

/// Chunk `i` of `data`.
pub open spec fn spec_chunk(data: Seq<u8>, size: nat, i: int) -> Seq<u8> {
    data.subrange(chunk_start(i, size), chunk_end(i, data.len(), size))
}

/// `data` split into consecutive chunks of `size` bytes, unpadded.
pub open spec fn spec_chunks(data: Seq<u8>, size: nat) -> Seq<Seq<u8>> {
    Seq::new(chunk_count(data.len(), size), |i: int| spec_chunk(data, size, i))
}

proof fn lemma_ceil_div(len: nat, size: nat, n: nat)
    requires
        size > 0,
        n > 0,
        (n - 1) * size < len,
        len <= n * size,
    ensures
        (len + size - 1) / size as int == n,
{
    assert((n - 1) * size == n * size - size) by (nonlinear_arith);
    let r: int = len + size - 1 - n * size;
    assert(0 <= r < size);
    vstd::arithmetic::div_mod::lemma_fundamental_div_mod_converse(len + size - 1, size as int, n as int, r);
}

/// Chunk boundaries are in range and ordered.
pub proof fn lemma_chunk_bounds(len: nat, size: nat, i: int)
    requires
        0 <= i < chunk_count(len, size),
    ensures
        0 <= chunk_start(i, size) < chunk_end(i, len, size) <= len,
        size > 0 ==> chunk_end(i, len, size) - chunk_start(i, size) <= size,
{
    if size > 0 {
        let n = chunk_count(len, size);
        assert(n * size < len + size) by {
            vstd::arithmetic::div_mod::lemma_fundamental_div_mod(len + size - 1, size as int);
            let q = (len + size - 1) / size as int;
            assert(q * size <= len + size - 1) by {
                vstd::arithmetic::div_mod::lemma_mod_pos_bound(len + size - 1, size as int);
            }
        }
        assert(0 <= i * size) by (nonlinear_arith)
            requires
                i >= 0,
                size > 0,
        ;
        assert(i * size + size <= n * size) by (nonlinear_arith)
            requires
                i < n,
                size > 0,
        ;
        assert((i + 1) * size == i * size + size) by (nonlinear_arith);
    }
}

proof fn lemma_last_chunk_ends_at_len(len: nat, size: nat)
    requires
        len > 0,
    ensures
        chunk_end(chunk_count(len, size) - 1, len, size) == len,
{
    if size > 0 {
        let n = chunk_count(len, size);
        let x: int = len + size - 1;
        vstd::arithmetic::div_mod::lemma_fundamental_div_mod(x, size as int);
        vstd::arithmetic::div_mod::lemma_mod_pos_bound(x, size as int);
        assert(x == size * n + x % (size as int));
        assert(size * n == n * size) by (nonlinear_arith);
        assert(n * size >= len);
        assert((n - 1 + 1) * size == n * size);
    }
}

proof fn lemma_prefix_reassembles(data: Seq<u8>, size: nat, k: int)
    requires
        0 <= k <= chunk_count(data.len(), size),
    ensures
        spec_chunks(data, size).take(k).flatten_alt() == data.subrange(
            0,
            if k == 0 {
                0
            } else {
                chunk_end(k - 1, data.len(), size)
            },
        ),
    decreases k,
{
    let c = spec_chunks(data, size);
    if k == 0 {
        assert(c.take(0).flatten_alt() =~= data.subrange(0, 0));
    } else {
        lemma_prefix_reassembles(data, size, k - 1);
        lemma_chunk_bounds(data.len(), size, k - 1);
        assert(c.take(k).drop_last() =~= c.take(k - 1));
        assert(c.take(k).last() == spec_chunk(data, size, k - 1));
        let a = chunk_start(k - 1, size);
        if k - 1 > 0 {
            lemma_chunk_bounds(data.len(), size, k - 2);
            if size > 0 {
                assert((k - 2 + 1) * size == (k - 1) * size);
            } else {
                assert((k - 1) * size == 0) by (nonlinear_arith)
                    requires
                        size == 0,
                ;
            }
            assert(chunk_end(k - 2, data.len(), size) == a);
        } else {
            assert(a == 0);
        }
        assert(data.subrange(0, a) + data.subrange(a, chunk_end(k - 1, data.len(), size)) =~= data.subrange(
            0,
            chunk_end(k - 1, data.len(), size),
        ));
    }
}

/// Concatenating the chunks in order gives back the data: chunking loses,
/// pads and reorders nothing.
pub proof fn lemma_chunks_reassemble(data: Seq<u8>, size: nat)
    ensures
        spec_chunks(data, size).flatten() == data,
{
    let c = spec_chunks(data, size);
    let n = chunk_count(data.len(), size);
    lemma_prefix_reassembles(data, size, n as int);
    assert(c.take(n as int) =~= c);
    c.lemma_flatten_and_flatten_alt_are_equivalent();
    if n > 0 {
        lemma_last_chunk_ends_at_len(data.len(), size);
        assert(c.flatten_alt() == data.subrange(0, data.len() as int));
        assert(data.subrange(0, data.len() as int) =~= data);
    } else {
        if data.len() > 0 && size > 0 {
            let x: int = data.len() + size - 1;
            vstd::arithmetic::div_mod::lemma_fundamental_div_mod(x, size as int);
            vstd::arithmetic::div_mod::lemma_mod_pos_bound(x, size as int);
            assert(x == size * 0 + x % (size as int));
        }
        assert(data.len() == 0);
        assert(c.flatten_alt() == data.subrange(0, 0));
        assert(data.subrange(0, 0) =~= data);
    }
}

/// Splits `data` into fixed-size slices; the last is whatever remains and
/// is not padded. A zero chunk size gives the whole input as one chunk.
pub fn chunk_fixed_size(data: &[u8], chunk_size: u32) -> (r: Vec<&[u8]>)
    ensures
        r@.len() == chunk_count(data@.len(), chunk_size as nat),
        forall|i: int| 0 <= i < r@.len() ==> (#[trigger] r@[i])@ == spec_chunk(data@, chunk_size as nat, i),
{
    let len = data.len();
    if chunk_size == 0 || len == 0 {
        if len == 0 {
            return Vec::new();
        }
        let mut one: Vec<&[u8]> = Vec::new();
        one.push(data);
        proof {
            assert(data@.subrange(0, data@.len() as int) =~= data@);
        }
        return one;
    }
    let size = chunk_size as usize;
    let ghost sz: nat = chunk_size as nat;
    let mut out: Vec<&[u8]> = Vec::new();
    let mut offset: usize = 0;
    while offset < len
        invariant
            len == data@.len(),
            size == sz,
            sz > 0,
            offset <= len,
            offset < len ==> offset == out@.len() * sz,
            out@.len() > 0 ==> (out@.len() - 1) * sz < len,
            out@.len() > 0 && offset == len ==> len <= out@.len() * sz,
            out@.len() == 0 ==> offset == 0,
            forall|i: int| 0 <= i < out@.len() ==> (#[trigger] out@[i])@ == spec_chunk(data@, sz, i),
        decreases len - offset,
    {
        let ghost k = out@.len();
        let end = if len - offset > size {
            offset + size
        } else {
            len
        };
        proof {
            assert((k + 1) * sz == k * sz + sz) by (nonlinear_arith);
            assert(chunk_start(k as int, sz) == offset);
            assert(chunk_end(k as int, len as nat, sz) == end);
        }
        out.push(&data[offset..end]);
        offset = end;
        proof {
            assert(out@.len() == k + 1);
            assert((out@.len() - 1) * sz < len) by {
                assert((out@.len() - 1) * sz == k * sz);
            }
        }
    }
    proof {
        let n = out@.len();
        lemma_ceil_div(len as nat, sz, n);
    }
    out
}

} // verus!
