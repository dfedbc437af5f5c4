//! File-transfer helpers: which files are worth compressing, a MIME guess
//! from the extension, and making a peer-supplied file name safe to
//! write.
use vstd::prelude::*;
use vstd::string::StringExecFns;
use crate::protocol::frame::{spec_zstd_decode_all, spec_zstd_encode_all, zstd_decode_all, zstd_encode_all};
use crate::text::{
    is_last_segment, is_separator, last_segment, path_extension, path_file_name, spec_path_extension,
    spec_path_file_name, spec_to_lowercase, to_lowercase,
};
use crate::util::str_eq;
use vstd::utf8::encode_utf8;

verus! {

/// Extensions of formats that are already compressed.
pub open spec fn already_compressed_exts() -> Seq<Seq<char>> {
    seq![
        "jpg"@, "jpeg"@, "png"@, "webp"@, "gif"@, "heic"@, "avif"@, "mp4"@, "mkv"@, "webm"@, "mov"@, "avi"@,
        "mp3"@, "opus"@, "aac"@, "ogg"@, "flac"@, "zip"@, "gz"@, "zst"@, "7z"@, "rar"@, "xz"@, "pdf"@,
    ]
}

/// ASCII lowercase of one byte; other bytes are unchanged.
pub open spec fn ascii_lower(b: u8) -> u8 {
    if 65 <= b <= 90 {
        (b + 32) as u8
    } else {
        b
    }
}

/// Byte strings equal up to ASCII case (what `eq_ignore_ascii_case` tests).
pub open spec fn eq_ignore_ascii_case(a: Seq<u8>, b: Seq<u8>) -> bool {
    a.len() == b.len() && forall|i: int| 0 <= i < a.len() ==> ascii_lower(#[trigger] a[i]) == ascii_lower(b[i])
}

/// A file is compressed unless its extension names an already-compressed
/// format (in any ASCII case); a file without one is compressed.
pub open spec fn spec_should_compress(path: Seq<char>) -> bool {
    match spec_path_extension(path) {
        Some(ext) => !exists|i: int|
            0 <= i < already_compressed_exts().len() && eq_ignore_ascii_case(
                encode_utf8(#[trigger] already_compressed_exts()[i]),
                encode_utf8(ext),
            ),
        None => true,
    }
}

fn lower_byte(b: u8) -> (r: u8)
    ensures
        r == ascii_lower(b),
{
    if 65 <= b && b <= 90 {
        b + 32
    } else {
        b
    }
}

/// Byte-wise comparison up to ASCII case.
fn eq_ignore_case(a: &[u8], b: &[u8]) -> (r: bool)
    ensures
        r == eq_ignore_ascii_case(a@, b@),
{
    if a.len() != b.len() {
        return false;
    }
    let mut i: usize = 0;
    while i < a.len()
        invariant
            a@.len() == b@.len(),
            i <= a@.len(),
            forall|j: int| 0 <= j < i ==> ascii_lower(#[trigger] a@[j]) == ascii_lower(b@[j]),
        decreases a@.len() - i,
    {
        if lower_byte(a[i]) != lower_byte(b[i]) {
            return false;
        }
        i += 1;
    }
    true
}

/// Whether a file is worth zstd-compressing before it is stored.
pub fn should_compress(path: &str) -> (r: bool)
    ensures
        r == spec_should_compress(path@),
{
    let ext = match path_extension(path) {
        Some(e) => e,
        None => {
            return true;
        },
    };
    let known = [
        "jpg", "jpeg", "png", "webp", "gif", "heic", "avif", "mp4", "mkv", "webm", "mov", "avi", "mp3",
        "opus", "aac", "ogg", "flac", "zip", "gz", "zst", "7z", "rar", "xz", "pdf",
    ];
    proof {
        assert(known@.map_values(|k: &str| k@) =~= already_compressed_exts());
    }
    let mut i: usize = 0;
    while i < known.len()
        invariant
            known@.map_values(|k: &str| k@) == already_compressed_exts(),
            i <= known@.len(),
            spec_path_extension(path@) == Some(ext@),
            forall|j: int| 0 <= j < i ==> !eq_ignore_ascii_case(
                encode_utf8(#[trigger] already_compressed_exts()[j]),
                encode_utf8(ext@),
            ),
        decreases known@.len() - i,
    {
        if eq_ignore_case(known[i].as_bytes(), ext.as_bytes()) {
            proof {
                assert(already_compressed_exts()[i as int] == known@[i as int]@);
            }
            return false;
        }
        proof {
            assert(already_compressed_exts()[i as int] == known@[i as int]@);
        }
        i += 1;
    }
    true
}

/// The MIME type guessed from a lowercased extension.
pub open spec fn spec_mime_for(ext: Seq<char>) -> Seq<char> {
    if ext == "png"@ {
        "image/png"@
    } else if ext == "jpg"@ || ext == "jpeg"@ {
        "image/jpeg"@
    } else if ext == "gif"@ {
        "image/gif"@
    } else if ext == "webp"@ {
        "image/webp"@
    } else if ext == "pdf"@ {
        "application/pdf"@
    } else if ext == "mp4"@ {
        "video/mp4"@
    } else if ext == "mp3"@ {
        "audio/mpeg"@
    } else if ext == "opus"@ {
        "audio/opus"@
    } else if ext == "zip"@ {
        "application/zip"@
    } else if ext == "txt"@ || ext == "md"@ {
        "text/plain"@
    } else {
        "application/octet-stream"@
    }
}

/// A MIME type from the path's extension, in any case; unknown or missing
/// extensions give `application/octet-stream`.
pub fn mime_guess_simple(path: &str) -> (r: String)
    ensures
        r@ == spec_mime_for(
            spec_to_lowercase(
                match spec_path_extension(path@) {
                    Some(e) => e,
                    None => ""@,
                },
            ),
        ),
{
    let ext = match path_extension(path) {
        Some(e) => e,
        None => "",
    };
    let lowered = to_lowercase(ext);
    let e = lowered.as_str();
    let mime = if str_eq(e, "png") {
        "image/png"
    } else if str_eq(e, "jpg") || str_eq(e, "jpeg") {
        "image/jpeg"
    } else if str_eq(e, "gif") {
        "image/gif"
    } else if str_eq(e, "webp") {
        "image/webp"
    } else if str_eq(e, "pdf") {
        "application/pdf"
    } else if str_eq(e, "mp4") {
        "video/mp4"
    } else if str_eq(e, "mp3") {
        "audio/mpeg"
    } else if str_eq(e, "opus") {
        "audio/opus"
    } else if str_eq(e, "zip") {
        "application/zip"
    } else if str_eq(e, "txt") || str_eq(e, "md") {
        "text/plain"
    } else {
        "application/octet-stream"
    };
    mime.to_owned()
}

/// A last path segment that may not be written as a file name.
pub open spec fn unusable_name(seg: Seq<char>) -> bool {
    seg.len() == 0 || seg == "."@ || seg == ".."@
}

/// The file name written for a peer-supplied name: what follows its last
/// `/` or `\`, or `received_file` where that is empty, `.` or `..`.
pub open spec fn spec_sanitized(name: Seq<char>, seg: Seq<char>) -> Seq<char> {
    if unusable_name(seg) {
        "received_file"@
    } else {
        seg
    }
}

/// Strips any directory part from a received file name, so a peer cannot
/// make us write outside the destination directory. The result is never
/// empty, `.` or `..`, and holds no separator.
pub fn sanitize_filename(name: &str) -> (r: String)
    ensures
        exists|seg: Seq<char>| is_last_segment(name@, seg) && r@ == spec_sanitized(name@, seg),
        !unusable_name(r@),
        forall|j: int| 0 <= j < r@.len() ==> !is_separator(#[trigger] r@[j]),
{
    let seg = last_segment(name);
    proof {
        reveal_strlit("received_file");
        reveal_strlit(".");
        reveal_strlit("..");
        let i = choose|i: int|
            0 <= i <= name@.len() && seg@ == name@.skip(i) && (i == 0 || is_separator(name@[i - 1])) && forall|
                j: int,
            | i <= j < name@.len() ==> !is_separator(#[trigger] name@[j]);
        assert forall|j: int| 0 <= j < seg@.len() implies !is_separator(#[trigger] seg@[j]) by {
            assert(seg@[j] == name@[i + j]);
        }
    }
    if seg.is_empty() || str_eq(seg, ".") || str_eq(seg, "..") {
        "received_file".to_owned()
    } else {
        seg.to_owned()
    }
}

/// The last segment of a name is determined by the name.
pub proof fn lemma_last_segment_unique(s: Seq<char>, a: Seq<char>, b: Seq<char>)
    requires
        is_last_segment(s, a),
        is_last_segment(s, b),
    ensures
        a == b,
{
    let i = choose|i: int|
        0 <= i <= s.len() && a == s.skip(i) && (i == 0 || is_separator(s[i - 1])) && forall|j: int|
            i <= j < s.len() ==> !is_separator(#[trigger] s[j]);
    let k = choose|k: int|
        0 <= k <= s.len() && b == s.skip(k) && (k == 0 || is_separator(s[k - 1])) && forall|j: int|
            k <= j < s.len() ==> !is_separator(#[trigger] s[j]);
    if i < k {
        assert(!is_separator(s[k - 1]));
    }
    if k < i {
        assert(!is_separator(s[i - 1]));
    }
}

/// zstd level for files: they are not latency-sensitive, so a better
/// ratio is worth the CPU.
pub const FILE_ZSTD_LEVEL: i32 = 9;

/// The name a file is announced under: the path's file name, or `file`.
pub fn announced_name(path: &str) -> (r: String)
    ensures
        r@ == match spec_path_file_name(path@) {
            Some(n) => n,
            None => "file"@,
        },
{
    match path_file_name(path) {
        Some(n) => n,
        None => String::from_str("file"),
    }
}

/// What a stored blob holds for a received file: zstd-decompressed where
/// the sender compressed it.
pub open spec fn spec_unpack(bytes: Seq<u8>, compressed: bool) -> Option<Seq<u8>> {
    if compressed {
        spec_zstd_decode_all(bytes)
    } else {
        Some(bytes)
    }
}

/// The bytes stored for an outgoing file, and whether they are
/// compressed: zstd where the file type is worth it, else as they are.
/// `None` where compression reports an error. What is stored unpacks to
/// the file.
pub fn pack_for_transfer(path: &str, raw: Vec<u8>) -> (r: Option<(Vec<u8>, bool)>)
    ensures
        spec_should_compress(path@) ==> (r matches Some((b, c)) ==> c && b@ == spec_zstd_encode_all(
            raw@,
            FILE_ZSTD_LEVEL,
        )),
        !spec_should_compress(path@) ==> (r matches Some((b, c)) && !c && b@ == raw@),
        r matches Some((b, c)) ==> spec_unpack(b@, c) == Some(raw@),
{
    if should_compress(path) {
        match zstd_encode_all(raw.as_slice(), FILE_ZSTD_LEVEL) {
            Some(c) => Some((c, true)),
            None => None,
        }
    } else {
        Some((raw, false))
    }
}

/// A received file's bytes from the downloaded blob; `None` where a
/// compressed blob does not decompress.
pub fn unpack_transfer(bytes: Vec<u8>, compressed: bool) -> (r: Option<Vec<u8>>)
    ensures
        match r {
            Some(b) => spec_unpack(bytes@, compressed) == Some(b@),
            None => compressed,
        },
        spec_unpack(bytes@, compressed) is None ==> r is None,
{
    if compressed {
        zstd_decode_all(bytes.as_slice())
    } else {
        Some(bytes)
    }
}

} // verus!
