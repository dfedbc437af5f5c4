//! RFC 4648 encodings as mathematics: the input read as one big-endian bit
//! string, cut into groups of five (base32) or six (base64) bits, the last
//! group filled with zero bits, each group written as one symbol.
use vstd::prelude::*;
use vstd::arithmetic::power2::pow2;
use vstd::utf8::encode_utf8;

verus! {

/// Bit `k` of a byte, counting from the most significant.
pub open spec fn byte_bit(x: u8, k: int) -> nat {
    ((x as nat) / pow2((7 - k) as nat)) % 2
}

/// Bit `k` of the bytes, most significant bit of each byte first; zero past
/// the end.
pub open spec fn bit_at(data: Seq<u8>, k: int) -> nat {
    if 0 <= k < 8 * data.len() {
        byte_bit(data[k / 8], k % 8)
    } else {
        0
    }
}

/// The number the `width` bits from `start` on spell, most significant
/// first.
pub open spec fn bits_value(data: Seq<u8>, start: int, width: nat) -> nat
    decreases width,
{
    if width == 0 {
        0
    } else {
        bits_value(data, start, (width - 1) as nat) * 2 + bit_at(data, start + width - 1)
    }
}

/// The base32 alphabet: `A`–`Z`, then `2`–`7`.
pub open spec fn base32_symbol(v: nat) -> char {
    if v < 26 {
        (65 + v) as char
    } else {
        (50 + v - 26) as char
    }
}

/// The standard base64 alphabet: `A`–`Z`, `a`–`z`, `0`–`9`, `+`, `/`.
pub open spec fn base64_symbol(v: nat) -> char {
    if v < 26 {
        (65 + v) as char
    } else if v < 52 {
        (97 + v - 26) as char
    } else if v < 62 {
        (48 + v - 52) as char
    } else if v == 62 {
        '+'
    } else {
        '/'
    }
}

/// Unpadded base32 of the bytes: one symbol per five bits, as many as the
/// bits need.
pub open spec fn base32_nopad(data: Seq<u8>) -> Seq<char> {
    Seq::new(((8 * data.len() + 4) / 5) as nat, |j: int| base32_symbol(bits_value(data, 5 * j, 5)))
}

/// Padded standard base64 of the bytes: one symbol per six bits, then `=`
/// up to a whole number of four-symbol blocks.
pub open spec fn base64_padded(data: Seq<u8>) -> Seq<char> {
    Seq::new(
        (4 * ((data.len() + 2) / 3)) as nat,
        |j: int|
            if j < (8 * data.len() + 5) / 6 {
                base64_symbol(bits_value(data, 6 * j, 6))
            } else {
                '='
            },
    )
}

/// What unpadded base32 decodes `text` (given as bytes) to: the one byte
/// string whose encoding it is, or nothing where it is no encoding at all.
/// (Distinct byte strings never share an encoding.)
pub open spec fn base32_nopad_decoded(text: Seq<u8>) -> Option<Seq<u8>> {
    if exists|d: Seq<u8>| #[trigger] encode_utf8(base32_nopad(d)) == text {
        Some(choose|d: Seq<u8>| #[trigger] encode_utf8(base32_nopad(d)) == text)
    } else {
        None
    }
}

proof fn lemma_bits_value_bound(data: Seq<u8>, start: int, width: nat)
    ensures
        bits_value(data, start, width) < pow2(width),
    decreases width,
{
    if width > 0 {
        lemma_bits_value_bound(data, start, (width - 1) as nat);
        vstd::arithmetic::power2::lemma_pow2_unfold(width);
    } else {
        vstd::arithmetic::power2::lemma2_to64();
    }
}

proof fn lemma_bits_value_bits(a: Seq<u8>, b: Seq<u8>, start: int, width: nat)
    requires
        bits_value(a, start, width) == bits_value(b, start, width),
    ensures
        forall|k: int| start <= k < start + width ==> #[trigger] bit_at(a, k) == bit_at(b, k),
    decreases width,
{
    if width > 0 {
        let w1 = (width - 1) as nat;
        assert(bit_at(a, start + w1) < 2 && bit_at(b, start + w1) < 2);
        assert(bits_value(a, start, w1) == bits_value(b, start, w1));
        lemma_bits_value_bits(a, b, start, w1);
    }
}

proof fn lemma_byte_from_bits(x: u8, y: u8)
    requires
        forall|k: int| 0 <= k < 8 ==> #[trigger] byte_bit(x, k) == byte_bit(y, k),
    ensures
        x == y,
{
    vstd::arithmetic::power2::lemma2_to64();
    assert(byte_bit(x, 0) == byte_bit(y, 0));
    assert(byte_bit(x, 1) == byte_bit(y, 1));
    assert(byte_bit(x, 2) == byte_bit(y, 2));
    assert(byte_bit(x, 3) == byte_bit(y, 3));
    assert(byte_bit(x, 4) == byte_bit(y, 4));
    assert(byte_bit(x, 5) == byte_bit(y, 5));
    assert(byte_bit(x, 6) == byte_bit(y, 6));
    assert(byte_bit(x, 7) == byte_bit(y, 7));
    assert(x == y) by (bit_vector)
        requires
            (x / 128) % 2 == (y / 128) % 2,
            (x / 64) % 2 == (y / 64) % 2,
            (x / 32) % 2 == (y / 32) % 2,
            (x / 16) % 2 == (y / 16) % 2,
            (x / 8) % 2 == (y / 8) % 2,
            (x / 4) % 2 == (y / 4) % 2,
            (x / 2) % 2 == (y / 2) % 2,
            (x / 1) % 2 == (y / 1) % 2,
    ;
}

/// Unpadded base32 is one-to-one: the encoding gives back the bytes.
pub proof fn lemma_base32_nopad_injective(a: Seq<u8>, b: Seq<u8>)
    requires
        base32_nopad(a) == base32_nopad(b),
    ensures
        a == b,
{
    let ea = base32_nopad(a);
    let eb = base32_nopad(b);
    assert(ea.len() == eb.len());
    if a.len() < b.len() {
        assert((8 * a.len() + 4) / 5 < (8 * b.len() + 4) / 5);
    }
    if b.len() < a.len() {
        assert((8 * b.len() + 4) / 5 < (8 * a.len() + 4) / 5);
    }
    assert(a.len() == b.len());
    let n = a.len() as int;
    assert forall|k: int| 0 <= k < 8 * n implies bit_at(a, k) == bit_at(b, k) by {
        let j = k / 5;
        assert(0 <= j < ea.len());
        assert(ea[j] == eb[j]);
        lemma_bits_value_bound(a, 5 * j, 5);
        lemma_bits_value_bound(b, 5 * j, 5);
        vstd::arithmetic::power2::lemma2_to64();
        assert(bits_value(a, 5 * j, 5) == bits_value(b, 5 * j, 5));
        lemma_bits_value_bits(a, b, 5 * j, 5);
        assert(5 * j <= k < 5 * j + 5);
    }
    assert forall|i: int| 0 <= i < n implies a[i] == b[i] by {
        assert forall|t: int| 0 <= t < 8 implies #[trigger] byte_bit(a[i], t) == byte_bit(b[i], t) by {
            let k = 8 * i + t;
            assert(bit_at(a, k) == bit_at(b, k));
            assert(k / 8 == i && k % 8 == t);
        }
        lemma_byte_from_bits(a[i], b[i]);
    }
    assert(a =~= b);
}

/// Every symbol of unpadded base32 is `A`–`Z` or `2`–`7`.
pub proof fn lemma_base32_nopad_symbols(data: Seq<u8>)
    ensures
        forall|j: int| 0 <= j < base32_nopad(data).len() ==> {
            let c = #[trigger] base32_nopad(data)[j] as u32;
            (65 <= c <= 90) || (50 <= c <= 55)
        },
{
    vstd::arithmetic::power2::lemma2_to64();
    assert forall|j: int| 0 <= j < base32_nopad(data).len() implies {
        let c = #[trigger] base32_nopad(data)[j] as u32;
        (65 <= c <= 90) || (50 <= c <= 55)
    } by {
        lemma_bits_value_bound(data, 5 * j, 5);
    }
}

/// Decoding the encoding of some bytes gives those bytes back.
pub proof fn lemma_base32_nopad_round_trip(data: Seq<u8>)
    ensures
        base32_nopad_decoded(encode_utf8(base32_nopad(data))) == Some(data),
{
    let text = encode_utf8(base32_nopad(data));
    assert(encode_utf8(base32_nopad(data)) == text);
    let d = choose|d: Seq<u8>| #[trigger] encode_utf8(base32_nopad(d)) == text;
    vstd::utf8::encode_utf8_decode_utf8(base32_nopad(d));
    vstd::utf8::encode_utf8_decode_utf8(base32_nopad(data));
    lemma_base32_nopad_injective(d, data);
}

} // verus!
