//! Helpers around the video pipeline: describing camera failures from
//! their message, preview frames as data URIs, and the extra arguments a
//! hardware encoder needs.
use vstd::prelude::*;
use crate::radix::base64_padded;
use vstd::utf8::encode_utf8;
use vstd::string::StringExecFns;
use crate::text::{spec_to_lowercase, to_lowercase};

verus! {

/// Why a camera could not be opened.
#[derive(Debug, Clone, Copy, PartialEq, Eq, Structural)]
pub enum CameraProblem {
    /// Another app or window holds it.
    InUse,
    /// The operating system refused access.
    Denied,
    /// There is none.
    NotFound,
    /// Anything else.
    Other,
}

/// `needle` occurs in `hay`, byte for byte.
pub open spec fn contains_bytes(hay: Seq<u8>, needle: Seq<u8>) -> bool {
    exists|i: int| 0 <= i && i + needle.len() <= hay.len() && #[trigger] hay.subrange(i, i + needle.len()) == needle
}

/// `needle` occurs in the UTF-8 form of `hay`.
pub open spec fn mentions(hay: Seq<char>, needle: Seq<char>) -> bool {
    contains_bytes(encode_utf8(hay), encode_utf8(needle))
}

/// What a (lowercased) error message says about the camera, by the words
/// that backends use.
pub open spec fn spec_camera_problem(msg: Seq<char>) -> CameraProblem {
    if mentions(msg, "busy"@) || mentions(msg, "already"@) || mentions(msg, "in use"@) {
        CameraProblem::InUse
    } else if mentions(msg, "permission"@) || mentions(msg, "denied"@) {
        CameraProblem::Denied
    } else if mentions(msg, "didn't start"@) || mentions(msg, "no camera"@) || mentions(msg, "not found"@) {
        CameraProblem::NotFound
    } else {
        CameraProblem::Other
    }
}

/// `str::contains` for a string pattern: a byte-wise substring search.
pub fn contains_str(hay: &str, needle: &str) -> (r: bool)
    ensures
        r == contains_bytes(encode_utf8(hay@), encode_utf8(needle@)),
{
    let h = hay.as_bytes();
    let n = needle.as_bytes();
    if n.len() > h.len() {
        proof {
            assert forall|i: int| 0 <= i && i + n@.len() <= h@.len() implies #[trigger] h@.subrange(i, i + n@.len()) != n@ by {
            }
        }
        return false;
    }
    let hlen = h.len();
    let last = hlen - n.len();
    let mut i: usize = 0;
    while i <= last
        invariant
            h@ == encode_utf8(hay@),
            n@ == encode_utf8(needle@),
            last == h@.len() - n@.len(),
            hlen == h@.len(),
            i <= last + 1,
            forall|k: int| 0 <= k < i ==> #[trigger] h@.subrange(k, k + n@.len()) != n@,
        decreases last + 1 - i,
    {
        let mut j: usize = 0;
        let mut same = true;
        while j < n.len()
            invariant
                h@ == encode_utf8(hay@),
                n@ == encode_utf8(needle@),
                i <= last,
                last == h@.len() - n@.len(),
                hlen == h@.len(),
                j <= n@.len(),
                same == (forall|m: int| 0 <= m < j ==> h@[i + m] == n@[m]),
            decreases n@.len() - j,
        {
            if h[i + j] != n[j] {
                same = false;
            }
            j += 1;
        }
        if same {
            proof {
                assert(h@.subrange(i as int, i + n@.len()) =~= n@);
            }
            return true;
        }
        proof {
            assert(!same);
            let m = choose|m: int| 0 <= m < n@.len() && h@[i + m] != n@[m];
            assert(h@.subrange(i as int, i + n@.len())[m] != n@[m]);
        }
        if i == last {
            proof {
                assert forall|k: int| 0 <= k && k + n@.len() <= h@.len() implies #[trigger] h@.subrange(k, k + n@.len()) != n@ by {
                    assert(k <= i);
                }
            }
            return false;
        }
        i += 1;
    }
    false
}

/// Classifies a camera failure from its error message, ignoring case.
pub fn classify_camera_error(message: &str) -> (r: CameraProblem)
    ensures
        r == spec_camera_problem(spec_to_lowercase(message@)),
{
    let lowered = to_lowercase(message);
    let m = lowered.as_str();
    if contains_str(m, "busy") || contains_str(m, "already") || contains_str(m, "in use") {
        CameraProblem::InUse
    } else if contains_str(m, "permission") || contains_str(m, "denied") {
        CameraProblem::Denied
    } else if contains_str(m, "didn't start") || contains_str(m, "no camera") || contains_str(m, "not found") {
        CameraProblem::NotFound
    } else {
        CameraProblem::Other
    }
}

/// The advice shown for a classified problem's text.
pub open spec fn problem_text(problem: CameraProblem) -> Seq<char> {
    match problem {
        CameraProblem::InUse => "camera is already in use by another app (or another window of this app — only one process can hold a webcam open at a time)"@,
        CameraProblem::Denied => "camera access was denied — check this OS's camera permission settings for this app"@,
        CameraProblem::NotFound => "no camera found on this device"@,
        CameraProblem::Other => Seq::empty(),
    }
}

/// A camera failure as the user sees it: advice for the recognised
/// kinds, else the message itself in parentheses.
pub fn describe_camera_error(message: &str) -> (r: String)
    ensures
        r@ == (if spec_camera_problem(spec_to_lowercase(message@)) == CameraProblem::Other {
            "camera unavailable ("@ + message@ + ")"@
        } else {
            problem_text(spec_camera_problem(spec_to_lowercase(message@)))
        }),
{
    let problem = classify_camera_error(message);
    match problem {
        CameraProblem::InUse => String::from_str(
            "camera is already in use by another app (or another window of this app — only one process can hold a webcam open at a time)",
        ),
        CameraProblem::Denied => String::from_str(
            "camera access was denied — check this OS's camera permission settings for this app",
        ),
        CameraProblem::NotFound => String::from_str("no camera found on this device"),
        CameraProblem::Other => String::from_str("camera unavailable (").concat(message).concat(")"),
    }
}

/// Calls `data_encoding::BASE64.encode`. Trusted: the result is the
/// padded standard base64 of the input (RFC 4648), as the crate documents
/// for this encoding. The crate documents a possible panic for inputs over
/// `usize::MAX / 512` bytes, which `requires` leaves out.
#[verifier::external_body]
fn base64_encode(data: &[u8]) -> (r: String)
    requires
        data@.len() <= usize::MAX / 512,
    ensures
        r@ == base64_padded(data@),
{
    data_encoding::BASE64.encode(data)
}

/// A JPEG preview frame as a `data:` URI the UI can show directly.
pub fn jpeg_data_uri(jpeg: &[u8]) -> (r: String)
    requires
        jpeg@.len() <= usize::MAX / 512,
    ensures
        r@ == "data:image/jpeg;base64,"@ + base64_padded(jpeg@),
{
    let encoded = base64_encode(jpeg);
    String::from_str("data:image/jpeg;base64,").concat(encoded.as_str())
}

/// Extra ffmpeg arguments a hardware encoder needs before and after the
/// input: the VA-API one needs its device and an upload filter; others
/// need none.
pub fn hw_encoder_extra_args(name: &str) -> (r: (Vec<String>, Vec<String>))
    ensures
        name@ == "av1_vaapi"@ ==> r.0@.len() == 2 && r.0@[0]@ == "-vaapi_device"@ && r.0@[1]@ == "/dev/dri/renderD128"@
            && r.1@.len() == 2 && r.1@[0]@ == "-vf"@ && r.1@[1]@ == "format=nv12,hwupload"@,
        name@ != "av1_vaapi"@ ==> r.0@.len() == 0 && r.1@.len() == 0,
{
    if crate::util::str_eq(name, "av1_vaapi") {
        let mut before: Vec<String> = Vec::new();
        before.push("-vaapi_device".to_owned());
        before.push("/dev/dri/renderD128".to_owned());
        let mut after: Vec<String> = Vec::new();
        after.push("-vf".to_owned());
        after.push("format=nv12,hwupload".to_owned());
        (before, after)
    } else {
        (Vec::new(), Vec::new())
    }
}

} // verus!
