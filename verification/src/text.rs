//! Text operations: Unicode case mapping and trimming, path extensions
//! and UTF-8 validation taken from std (with what std documents of them on
//! ASCII text), and the last separated segment of a path.
use vstd::prelude::*;
use vstd::string::{StrSliceExecFns, StringExecFns};
use vstd::utf8::{decode_utf8, valid_utf8};

verus! {

/// An ASCII letter or digit.
pub open spec fn is_ascii_alnum(c: char) -> bool {
    (48 <= (c as u32) <= 57) || (65 <= (c as u32) <= 90) || (97 <= (c as u32) <= 122)
}

/// Every character is ASCII.
pub open spec fn is_ascii_chars(s: Seq<char>) -> bool {
    forall|i: int| 0 <= i < s.len() ==> (#[trigger] s[i] as u32) < 128
}

/// ASCII uppercasing of one character (`a`–`z` to `A`–`Z`, others kept).
pub open spec fn ascii_upper(c: char) -> char {
    if 97 <= (c as u32) <= 122 {
        ((c as u32) - 32) as char
    } else {
        c
    }
}

/// ASCII lowercasing of one character (`A`–`Z` to `a`–`z`, others kept).
pub open spec fn ascii_lower(c: char) -> char {
    if 65 <= (c as u32) <= 90 {
        ((c as u32) + 32) as char
    } else {
        c
    }
}

/// ASCII lowercasing of every character.
pub open spec fn ascii_lowercase(s: Seq<char>) -> Seq<char> {
    s.map_values(|c: char| ascii_lower(c))
}

/// ASCII uppercasing of every character.
pub open spec fn ascii_uppercase(s: Seq<char>) -> Seq<char> {
    s.map_values(|c: char| ascii_upper(c))
}

/// ASCII text takes one UTF-8 byte per character.
pub proof fn lemma_ascii_utf8_len(s: Seq<char>)
    requires
        is_ascii_chars(s),
    ensures
        vstd::utf8::encode_utf8(s).len() == s.len(),
    decreases s.len(),
{
    if s.len() > 0 {
        let t = s.drop_first();
        assert forall|i: int| 0 <= i < t.len() implies (#[trigger] t[i] as u32) < 128 by {
            assert(t[i] == s[i + 1]);
        }
        lemma_ascii_utf8_len(t);
        assert((s[0] as u32) < 128);
    }
}

/// What `str::to_lowercase` makes of a string (Unicode lowercase).
pub uninterp spec fn spec_to_lowercase(s: Seq<char>) -> Seq<char>;

/// What `str::to_uppercase` makes of a string (Unicode uppercase).
pub uninterp spec fn spec_to_uppercase(s: Seq<char>) -> Seq<char>;

/// Calls `str::to_uppercase`. Trusted: the result is the named uppercasing
/// of the input; on ASCII text it is ASCII uppercasing, as std documents
/// (`to_ascii_uppercase` agrees with it on ASCII).
#[verifier::external_body]
pub(crate) fn to_uppercase(s: &str) -> (r: String)
    ensures
        r@ == spec_to_uppercase(s@),
        is_ascii_chars(s@) ==> r@ == ascii_uppercase(s@),
{
    s.to_uppercase()
}

/// What `str::trim` leaves of a string (Unicode white space removed at
/// both ends).
pub uninterp spec fn spec_trim(s: Seq<char>) -> Seq<char>;

/// What `Path::extension` gives for a path written as this string, where
/// it is valid UTF-8 (`None`: no extension).
pub uninterp spec fn spec_path_extension(path: Seq<char>) -> Option<Seq<char>>;

/// Calls `str::to_lowercase`. Trusted: the result is the named
/// lowercasing of the input; on ASCII text it is ASCII lowercasing, as std
/// documents (`to_ascii_lowercase` agrees with it on ASCII).
#[verifier::external_body]
pub(crate) fn to_lowercase(s: &str) -> (r: String)
    ensures
        r@ == spec_to_lowercase(s@),
        is_ascii_chars(s@) ==> r@ == ascii_lowercase(s@),
{
    s.to_lowercase()
}

/// Calls `str::trim`. Trusted: the result is the named trimming of the
/// input; text that starts and ends with an ASCII letter or digit (never
/// Unicode white space) comes back whole.
#[verifier::external_body]
pub(crate) fn trim(s: &str) -> (r: &str)
    ensures
        r@ == spec_trim(s@),
        s@.len() > 0 && is_ascii_alnum(s@[0]) && is_ascii_alnum(s@.last()) ==> r@ == s@,
{
    s.trim()
}

/// Calls `Path::new(path).extension()` and keeps it where it is UTF-8.
/// Trusted: the result is the named extension of the path.
#[verifier::external_body]
pub(crate) fn path_extension(path: &str) -> (r: Option<&str>)
    ensures
        r matches Some(e) ==> spec_path_extension(path@) == Some(e@),
        r is None ==> spec_path_extension(path@) is None,
{
    match std::path::Path::new(path).extension() {
        Some(e) => e.to_str(),
        None => None,
    }
}

/// What `Path::file_name` gives for a path written as this string
/// (`None`: the path ends in `..` or has no name).
pub uninterp spec fn spec_path_file_name(path: Seq<char>) -> Option<Seq<char>>;

/// Calls `Path::new(path).file_name()` and converts it with
/// `to_string_lossy` (exact here: the path is UTF-8). Trusted: the result
/// is the named file name.
#[verifier::external_body]
pub(crate) fn path_file_name(path: &str) -> (r: Option<String>)
    ensures
        r matches Some(n) ==> spec_path_file_name(path@) == Some(n@),
        r is None ==> spec_path_file_name(path@) is None,
{
    match std::path::Path::new(path).file_name() {
        Some(n) => Some(n.to_string_lossy().into_owned()),
        None => None,
    }
}

/// A path separator: `/` or `\`.
pub open spec fn is_separator(c: char) -> bool {
    c == '/' || c == '\\'
}

/// `seg` is what follows the last separator of `s` (all of `s` where it
/// has none).
pub open spec fn is_last_segment(s: Seq<char>, seg: Seq<char>) -> bool {
    exists|i: int|
        0 <= i <= s.len() && seg == s.skip(i) && (i == 0 || is_separator(s[i - 1])) && forall|j: int|
            i <= j < s.len() ==> !is_separator(#[trigger] s[j])
}

/// What follows the last `/` or `\` of `s` (all of `s` where it has
/// neither).
pub(crate) fn last_segment(s: &str) -> (r: &str)
    ensures
        is_last_segment(s@, r@),
{
    let n = s.unicode_len();
    let mut i = n;
    loop
        invariant
            i <= n,
            n == s@.len(),
            forall|j: int| i <= j < n ==> !is_separator(#[trigger] s@[j]),
        decreases i,
    {
        if i == 0 {
            let r = s.substring_char(0, n);
            proof {
                assert(r@ =~= s@.skip(0));
            }
            return r;
        }
        let c = s.get_char(i - 1);
        if c == '/' || c == '\\' {
            let r = s.substring_char(i, n);
            proof {
                assert(r@ =~= s@.skip(i as int));
            }
            return r;
        }
        i -= 1;
    }
}

/// Calls `std::str::from_utf8` and copies the result. Trusted: it succeeds
/// exactly on valid UTF-8, giving the characters the bytes encode.
#[verifier::external_body]
pub(crate) fn utf8_to_string(bytes: &[u8]) -> (r: Option<String>)
    ensures
        r is Some <==> valid_utf8(bytes@),
        r matches Some(s) ==> s@ == decode_utf8(bytes@),
{
    match std::str::from_utf8(bytes) {
        Ok(s) => Some(s.to_string()),
        Err(_) => None,
    }
}

/// Pieces joined with commas between them.
pub open spec fn join_commas(ps: Seq<Seq<char>>) -> Seq<char>
    decreases ps.len(),
{
    if ps.len() == 0 {
        Seq::empty()
    } else if ps.len() == 1 {
        ps[0]
    } else {
        join_commas(ps.drop_last()) + seq![','] + ps.last()
    }
}

/// The characters of each string.
pub open spec fn string_views(v: Seq<String>) -> Seq<Seq<char>> {
    v.map_values(|s: String| s@)
}

proof fn lemma_views_push(v: Seq<String>, x: String)
    ensures
        string_views(v.push(x)) == string_views(v).push(x@),
{
    assert(string_views(v.push(x)) =~= string_views(v).push(x@));
}

/// The pieces of `s` between commas, in order: joined with commas they
/// give `s` back, and none holds a comma (there is always at least one
/// piece, empty for an empty input).
pub(crate) fn split_commas(s: &str) -> (r: Vec<String>)
    ensures
        r@.len() >= 1,
        join_commas(string_views(r@)) == s@,
        forall|i: int, j: int| 0 <= i < r@.len() && 0 <= j < r@[i]@.len() ==> r@[i]@[j] != ',',
{
    let n = s.unicode_len();
    let mut out: Vec<String> = Vec::new();
    let mut start: usize = 0;
    let mut i: usize = 0;
    while i < n
        invariant
            start <= i <= n,
            n == s@.len(),
            forall|j: int| start <= j < i ==> s@[j] != ',',
            out@.len() == 0 ==> start == 0,
            out@.len() > 0 ==> join_commas(string_views(out@)) + seq![','] == s@.take(start as int),
            forall|a: int, b: int| 0 <= a < out@.len() && 0 <= b < out@[a]@.len() ==> out@[a]@[b] != ',',
        decreases n - i,
    {
        let c = s.get_char(i);
        if c == ',' {
            let piece = String::from_str(s.substring_char(start, i));
            let ghost before = out@;
            proof {
                lemma_views_push(before, piece);
                let vs = string_views(before.push(piece));
                if before.len() == 0 {
                    assert(vs.len() == 1);
                    assert(join_commas(vs) == piece@);
                } else {
                    assert(vs.drop_last() =~= string_views(before));
                    assert(join_commas(vs) == join_commas(string_views(before)) + seq![','] + piece@);
                }
                assert(join_commas(vs) + seq![','] =~= s@.take(i + 1));
            }
            out.push(piece);
            proof {
                assert forall|a: int, b: int| 0 <= a < out@.len() && 0 <= b < out@[a]@.len() implies out@[a]@[b] != ',' by {
                    if a < before.len() {
                        assert(out@[a] == before[a]);
                    } else {
                        assert(out@[a]@[b] == s@[start + b]);
                    }
                }
            }
            start = i + 1;
        }
        i += 1;
    }
    let last = String::from_str(s.substring_char(start, n));
    let ghost before = out@;
    proof {
        lemma_views_push(before, last);
        let vs = string_views(before.push(last));
        if before.len() == 0 {
            assert(vs.len() == 1);
            assert(join_commas(vs) == last@);
            assert(last@ =~= s@);
        } else {
            assert(vs.drop_last() =~= string_views(before));
            assert(join_commas(vs) == join_commas(string_views(before)) + seq![','] + last@);
            assert(join_commas(vs) =~= s@);
        }
    }
    out.push(last);
    proof {
        assert forall|a: int, b: int| 0 <= a < out@.len() && 0 <= b < out@[a]@.len() implies out@[a]@[b] != ',' by {
            if a < before.len() {
                assert(out@[a] == before[a]);
            } else {
                assert(out@[a]@[b] == s@[start + b]);
            }
        }
    }
    out
}

/// The pieces with a comma between each two.
pub(crate) fn join_with_commas(pieces: &[String]) -> (r: String)
    ensures
        r@ == join_commas(string_views(pieces@)),
{
    if pieces.len() == 0 {
        let r = String::from_str("");
        proof {
            reveal_strlit("");
            assert(string_views(pieces@) =~= Seq::<Seq<char>>::empty());
        }
        return r;
    }
    let mut acc = String::from_str(pieces[0].as_str());
    let mut i: usize = 1;
    proof {
        assert(string_views(pieces@.take(1)) =~= seq![pieces@[0]@]);
    }
    while i < pieces.len()
        invariant
            1 <= i <= pieces@.len(),
            acc@ == join_commas(string_views(pieces@.take(i as int))),
        decreases pieces@.len() - i,
    {
        let ghost prev = acc@;
        acc = acc.concat(",").concat(pieces[i].as_str());
        proof {
            reveal_strlit(",");
            let vs = string_views(pieces@.take(i + 1));
            assert(pieces@.take(i + 1) =~= pieces@.take(i as int).push(pieces@[i as int]));
            lemma_views_push(pieces@.take(i as int), pieces@[i as int]);
            assert(vs.drop_last() =~= string_views(pieces@.take(i as int)));
            assert(acc@ =~= join_commas(vs));
        }
        i += 1;
    }
    proof {
        assert(pieces@.take(pieces@.len() as int) =~= pieces@);
    }
    acc
}

} // verus!
