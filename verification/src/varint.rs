//! Unsigned LEB128 varints as postcard writes and reads them: seven bits
//! per byte, least significant group first, the high bit set on every
//! byte but the last, and at most ten bytes for a `u64`.
use vstd::prelude::*;

verus! {

/// Why bytes did not decode.
#[derive(Debug, Clone, Copy, PartialEq, Eq, Structural)]
pub enum WireError {
    /// The input ended early.
    UnexpectedEnd,
    /// A varint ran past its maximal length or its type's width.
    BadVarint,
    /// An enum tag that names no variant.
    UnknownVariant,
    /// A string that is not UTF-8.
    BadUtf8,
    /// A boolean byte other than 0 or 1.
    BadBool,
    /// An option tag other than 0 or 1.
    BadOption,
}

/// The encoding of `v`.
pub open spec fn varint(v: nat) -> Seq<u8>
    decreases v,
{
    if v < 128 {
        seq![v as u8]
    } else {
        seq![((v % 128) + 128) as u8] + varint(v / 128)
    }
}

/// Appends the varint encoding of `v`.
pub fn push_varint(out: &mut Vec<u8>, v: u64)
    ensures
        final(out)@ == old(out)@ + varint(v as nat),
    decreases v,
{
    if v < 128 {
        out.push(v as u8);
        proof {
            assert(final(out)@ =~= old(out)@ + varint(v as nat)) by {
                assert(varint(v as nat) == seq![v as u8]);
            }
        }
    } else {
        out.push(((v % 128) + 128) as u8);
        push_varint(out, v / 128);
        proof {
            assert(varint(v as nat) == seq![((v as nat % 128) + 128) as u8] + varint(v as nat / 128));
            assert(final(out)@ =~= old(out)@ + varint(v as nat));
        }
    }
}

/// `128` to the power `i`.
pub open spec fn pow128(i: nat) -> nat
    decreases i,
{
    if i == 0 {
        1
    } else {
        128 * pow128((i - 1) as nat)
    }
}

/// The number the low seven bits of each byte spell, least significant
/// group first.
pub open spec fn leb_value(s: Seq<u8>) -> nat
    decreases s.len(),
{
    if s.len() == 0 {
        0
    } else {
        (s[0] % 128) as nat + 128 * leb_value(s.drop_first())
    }
}

/// Where a varint starting at `b[0]` ends (its length), scanning from
/// byte `i`: the first byte without the high bit ends it, and a tenth
/// byte must not carry more than the 64th bit.
pub open spec fn varint_end(b: Seq<u8>, i: nat) -> Result<nat, WireError>
    decreases 10 - i,
{
    if i >= 10 {
        Err(WireError::BadVarint)
    } else if i >= b.len() {
        Err(WireError::UnexpectedEnd)
    } else if b[i as int] < 128 {
        if i == 9 && b[i as int] > 1 {
            Err(WireError::BadVarint)
        } else {
            Ok(i + 1)
        }
    } else {
        varint_end(b, i + 1)
    }
}

/// A varint read from the front of `b`: its value and its length.
pub open spec fn spec_take_varint(b: Seq<u8>) -> Result<(u64, nat), WireError> {
    match varint_end(b, 0) {
        Ok(k) => Ok((leb_value(b.take(k as int)) as u64, k)),
        Err(e) => Err(e),
    }
}

proof fn lemma_leb_push(s: Seq<u8>, x: u8)
    ensures
        leb_value(s.push(x)) == leb_value(s) + (x % 128) as nat * pow128(s.len()),
    decreases s.len(),
{
    if s.len() == 0 {
        assert(s.push(x).drop_first() =~= Seq::<u8>::empty());
        assert(leb_value(Seq::<u8>::empty()) == 0);
        assert(pow128(0) == 1);
        assert(s.push(x)[0] == x);
    } else {
        lemma_leb_push(s.drop_first(), x);
        assert(s.push(x).drop_first() =~= s.drop_first().push(x));
        assert(s.push(x)[0] == s[0]);
        assert(pow128(s.len()) == 128 * pow128((s.len() - 1) as nat));
        let a = leb_value(s.drop_first());
        let c = (x % 128) as nat;
        let p = pow128((s.len() - 1) as nat);
        assert(128 * (a + c * p) == 128 * a + c * (128 * p)) by (nonlinear_arith);
    }
}

proof fn lemma_pow128_values()
    ensures
        pow128(3) == 0x20_0000,
        pow128(4) == 0x1000_0000,
        pow128(8) == 0x1_0000_0000_0000_00,
        pow128(9) == 0x8000_0000_0000_0000,
{
    assert(pow128(0) == 1);
    assert(pow128(1) == 128);
    assert(pow128(2) == 0x4000);
    assert(pow128(3) == 0x20_0000);
    assert(pow128(4) == 0x1000_0000);
    assert(pow128(5) == 0x8_0000_0000);
    assert(pow128(6) == 0x400_0000_0000);
    assert(pow128(7) == 0x2_0000_0000_0000);
    assert(pow128(8) == 0x100_0000_0000_0000);
    assert(pow128(9) == 0x8000_0000_0000_0000);
}

proof fn lemma_pow128_mono(i: nat, j: nat)
    requires
        i <= j,
    ensures
        1 <= pow128(i) <= pow128(j),
    decreases j,
{
    if j > 0 {
        if i < j {
            lemma_pow128_mono(i, (j - 1) as nat);
        } else {
            lemma_pow128_mono(0, (j - 1) as nat);
        }
    }
}

proof fn lemma_leb_bound(s: Seq<u8>)
    ensures
        leb_value(s) < pow128(s.len()),
    decreases s.len(),
{
    if s.len() > 0 {
        lemma_leb_bound(s.drop_first());
        let a = leb_value(s.drop_first());
        let p = pow128((s.len() - 1) as nat);
        assert(128 * a <= 128 * (p - 1)) by (nonlinear_arith)
            requires
                a < p,
        ;
    }
}

proof fn lemma_varint_shape(v: nat, m: nat)
    requires
        v < 2 * pow128(m),
    ensures
        1 <= varint(v).len() <= m + 1,
        varint(v).len() == m + 1 ==> varint(v).last() <= 1,
        varint(v).last() < 128,
        forall|i: int| 0 <= i < varint(v).len() - 1 ==> #[trigger] varint(v)[i] >= 128,
        leb_value(varint(v)) == v,
    decreases v,
{
    if v < 128 {
        assert(varint(v).drop_first() =~= Seq::<u8>::empty());
        assert(leb_value(Seq::<u8>::empty()) == 0);
    } else {
        if m == 0 {
            assert(false);
        }
        let m1 = (m - 1) as nat;
        assert(v / 128 < 2 * pow128(m1));
        lemma_varint_shape(v / 128, m1);
        let head = seq![((v % 128) + 128) as u8];
        let tail = varint(v / 128);
        assert(varint(v) == head + tail);
        assert((head + tail).drop_first() =~= tail);
        assert forall|i: int| 0 <= i < varint(v).len() - 1 implies #[trigger] varint(v)[i] >= 128 by {
            if i > 0 {
                assert(varint(v)[i] == tail[i - 1]);
            }
        }
        assert(((((v % 128) + 128) as u8) % 128) as nat == v % 128);
        assert(v == 128 * (v / 128) + v % 128);
        assert(leb_value(varint(v)) == (varint(v)[0] % 128) as nat + 128 * leb_value(tail));
    }
}

proof fn lemma_varint_end_at(b: Seq<u8>, e: Seq<u8>, i: nat)
    requires
        1 <= e.len() <= 10,
        e.len() == 10 ==> e.last() <= 1,
        e.last() < 128,
        forall|j: int| 0 <= j < e.len() - 1 ==> #[trigger] e[j] >= 128,
        b.len() >= e.len(),
        b.take(e.len() as int) == e,
        i < e.len(),
    ensures
        varint_end(b, i) == Ok::<nat, WireError>(e.len()),
    decreases e.len() - i,
{
    assert(b[i as int] == e[i as int]);
    if i + 1 < e.len() {
        lemma_varint_end_at(b, e, i + 1);
    }
}

/// A varint reads back as the value written, whatever follows it.
pub proof fn lemma_varint_roundtrip(v: u64, rest: Seq<u8>)
    ensures
        spec_take_varint(varint(v as nat) + rest) == Ok::<(u64, nat), WireError>((v, varint(v as nat).len())),
        varint(v as nat).len() <= 10,
{
    lemma_pow128_values();
    lemma_varint_shape(v as nat, 9);
    let e = varint(v as nat);
    let b = e + rest;
    assert(b.take(e.len() as int) =~= e);
    lemma_varint_end_at(b, e, 0);
}

/// Reads a varint from the front of `b`.
pub fn take_varint(b: &[u8]) -> (r: Result<(u64, usize), WireError>)
    ensures
        match r {
            Ok((v, k)) => spec_take_varint(b@) == Ok::<(u64, nat), WireError>((v, k as nat)),
            Err(e) => spec_take_varint(b@) == Err::<(u64, nat), WireError>(e),
        },
        r matches Ok((v, k)) ==> 1 <= k <= b@.len(),
{
    let mut acc: u64 = 0;
    let mut mult: u64 = 1;
    let mut i: usize = 0;
    while i < 10
        invariant
            i <= 10,
            varint_end(b@, 0) == varint_end(b@, i as nat),
            i <= b@.len(),
            acc == leb_value(b@.take(i as int)),
            mult == pow128(i as nat),
        decreases 10 - i,
    {
        if i >= b.len() {
            return Err(WireError::UnexpectedEnd);
        }
        let byte = b[i];
        proof {
            lemma_leb_push(b@.take(i as int), byte);
            assert(b@.take(i as int).push(byte) =~= b@.take(i + 1));
            lemma_leb_bound(b@.take(i as int));
            lemma_pow128_values();
            lemma_pow128_mono(i as nat, 9);
            if i < 9 {
                lemma_pow128_mono(i as nat, 8);
            }
        }
        if byte < 128 {
            if i == 9 && byte > 1 {
                return Err(WireError::BadVarint);
            }
            proof {
                assert(acc + (byte % 128) as nat * mult < 0x1_0000_0000_0000_0000) by (nonlinear_arith)
                    requires
                        acc < mult,
                        mult <= 0x8000_0000_0000_0000,
                        i <= 9,
                        byte < 128,
                        i < 9 ==> mult <= 0x1_0000_0000_0000_00,
                        i == 9 ==> byte <= 1,
                ;
            }
            let value = acc + (byte as u64) * mult;
            proof {
                assert(b@.take(i + 1) == b@.take(i as int).push(byte));
            }
            return Ok((value, i + 1));
        }
        if i == 9 {
            proof {
                assert(varint_end(b@, 10) == Err::<nat, WireError>(WireError::BadVarint));
                assert(varint_end(b@, 9) == varint_end(b@, 10));
            }
            return Err(WireError::BadVarint);
        }
        proof {
            lemma_pow128_mono(i as nat, 8);
            lemma_pow128_values();
            assert(acc + (byte % 128) as nat * mult < 128 * mult) by (nonlinear_arith)
                requires
                    acc < mult,
                    byte % 128 < 128,
            ;
            assert(128 * mult <= 0x8000_0000_0000_0000) by (nonlinear_arith)
                requires
                    mult <= 0x1_0000_0000_0000_00,
            ;
        }
        acc = acc + ((byte % 128) as u64) * mult;
        mult = mult * 128;
        i += 1;
    }
    Err(WireError::BadVarint)
}

/// Where a 32-bit varint starting at `b[0]` ends, scanning from byte
/// `i`: at most five bytes, the fifth carrying at most four bits.
pub open spec fn varint32_end(b: Seq<u8>, i: nat) -> Result<nat, WireError>
    decreases 5 - i,
{
    if i >= 5 {
        Err(WireError::BadVarint)
    } else if i >= b.len() {
        Err(WireError::UnexpectedEnd)
    } else if b[i as int] < 128 {
        if i == 4 && b[i as int] > 15 {
            Err(WireError::BadVarint)
        } else {
            Ok(i + 1)
        }
    } else {
        varint32_end(b, i + 1)
    }
}

/// A 32-bit varint read from the front of `b`: its value and its length.
pub open spec fn spec_take_varint32(b: Seq<u8>) -> Result<(u32, nat), WireError> {
    match varint32_end(b, 0) {
        Ok(k) => Ok((leb_value(b.take(k as int)) as u32, k)),
        Err(e) => Err(e),
    }
}

/// A varint of a value below 2^32 reads back as a 32-bit varint too.
pub proof fn lemma_varint32_roundtrip(v: u32, rest: Seq<u8>)
    ensures
        spec_take_varint32(varint(v as nat) + rest) == Ok::<(u32, nat), WireError>((v, varint(v as nat).len())),
{
    lemma_pow128_values();
    assert(pow128(4) == 0x1000_0000);
    lemma_varint_shape32(v as nat, 4);
    let e = varint(v as nat);
    let b = e + rest;
    assert(b.take(e.len() as int) =~= e);
    lemma_varint32_end_at(b, e, 0);
}

proof fn lemma_varint_shape32(v: nat, m: nat)
    requires
        v < 16 * pow128(m),
    ensures
        1 <= varint(v).len() <= m + 1,
        varint(v).len() == m + 1 ==> varint(v).last() <= 15,
        varint(v).last() < 128,
        forall|i: int| 0 <= i < varint(v).len() - 1 ==> #[trigger] varint(v)[i] >= 128,
        leb_value(varint(v)) == v,
    decreases v,
{
    assert(pow128(m + 1) == 128 * pow128(m));
    lemma_varint_shape(v, m + 1);
    if v >= 128 {
        if m == 0 {
            assert(false);
        }
        let m1 = (m - 1) as nat;
        assert(v / 128 < 16 * pow128(m1));
        lemma_varint_shape32(v / 128, m1);
        let head = seq![((v % 128) + 128) as u8];
        let tail = varint(v / 128);
        assert(varint(v) == head + tail);
    }
}

proof fn lemma_varint32_end_at(b: Seq<u8>, e: Seq<u8>, i: nat)
    requires
        1 <= e.len() <= 5,
        e.len() == 5 ==> e.last() <= 15,
        e.last() < 128,
        forall|j: int| 0 <= j < e.len() - 1 ==> #[trigger] e[j] >= 128,
        b.len() >= e.len(),
        b.take(e.len() as int) == e,
        i < e.len(),
    ensures
        varint32_end(b, i) == Ok::<nat, WireError>(e.len()),
    decreases e.len() - i,
{
    assert(b[i as int] == e[i as int]);
    if i + 1 < e.len() {
        lemma_varint32_end_at(b, e, i + 1);
    }
}

/// Reads a 32-bit varint (such as an enum tag) from the front of `b`.
pub fn take_varint32(b: &[u8]) -> (r: Result<(u32, usize), WireError>)
    ensures
        match r {
            Ok((v, k)) => spec_take_varint32(b@) == Ok::<(u32, nat), WireError>((v, k as nat)),
            Err(e) => spec_take_varint32(b@) == Err::<(u32, nat), WireError>(e),
        },
        r matches Ok((v, k)) ==> 1 <= k <= b@.len(),
{
    let mut acc: u64 = 0;
    let mut mult: u64 = 1;
    let mut i: usize = 0;
    while i < 5
        invariant
            i <= 5,
            varint32_end(b@, 0) == varint32_end(b@, i as nat),
            i <= b@.len(),
            acc == leb_value(b@.take(i as int)),
            mult == pow128(i as nat),
        decreases 5 - i,
    {
        if i >= b.len() {
            return Err(WireError::UnexpectedEnd);
        }
        let byte = b[i];
        proof {
            lemma_leb_push(b@.take(i as int), byte);
            assert(b@.take(i as int).push(byte) =~= b@.take(i + 1));
            lemma_leb_bound(b@.take(i as int));
            lemma_pow128_values();
            assert(pow128(4) == 0x1000_0000);
            lemma_pow128_mono(i as nat, 4);
        }
        if byte < 128 {
            if i == 4 && byte > 15 {
                return Err(WireError::BadVarint);
            }
            proof {
                if i < 4 {
                    lemma_pow128_mono(i as nat, 3);
                }
                assert(acc + (byte % 128) as nat * mult < 0x1_0000_0000) by (nonlinear_arith)
                    requires
                        acc < mult,
                        mult <= 0x1000_0000,
                        byte < 128,
                        i < 4 ==> mult <= 0x20_0000,
                        i == 4 ==> byte <= 15,
                        i <= 4,
                ;
                if i < 4 {
                    lemma_pow128_mono(i as nat, 3);
                }
            }
            let value = acc + (byte as u64) * mult;
            proof {
                assert(b@.take(i + 1) == b@.take(i as int).push(byte));
            }
            return Ok((value as u32, i + 1));
        }
        if i == 4 {
            proof {
                assert(varint32_end(b@, 5) == Err::<nat, WireError>(WireError::BadVarint));
                assert(varint32_end(b@, 4) == varint32_end(b@, 5));
            }
            return Err(WireError::BadVarint);
        }
        proof {
            lemma_pow128_mono(i as nat, 3);
            assert(acc + (byte % 128) as nat * mult < 128 * mult) by (nonlinear_arith)
                requires
                    acc < mult,
                    byte % 128 < 128,
            ;
        }
        acc = acc + ((byte % 128) as u64) * mult;
        mult = mult * 128;
        i += 1;
    }
    Err(WireError::BadVarint)
}

} // verus!
