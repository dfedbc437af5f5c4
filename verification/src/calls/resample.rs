//! The fixed-point core of the mono linear-interpolation resampler:
//! positions are 16.16 fixed point, advanced by a fixed-point step.
use vstd::prelude::*;

verus! {

/// Position of output sample `k`.
pub open spec fn position(start: u64, step: u64, k: int) -> int {
    start + k * step
}

/// Whether the position still has a next input sample to interpolate
/// towards.
pub open spec fn in_range(len: nat, p: int) -> bool {
    p / 65536 + 1 < len
}

/// The interpolated sample at position `p`: the earlier sample plus the
/// fractional share of the difference, rounded down, clamped to `i16`.
pub open spec fn interpolate(input: Seq<i16>, p: int) -> i16 {
    let idx = p / 65536;
    let frac = p % 65536;
    let s0 = input[idx] as int;
    let s1 = input[idx + 1] as int;
    let v = s0 + ((s1 - s0) * frac) / 65536;
    if v < -32768 {
        -32768i16
    } else if v > 32767 {
        32767i16
    } else {
        v as i16
    }
}

/// No step overflows the 32-bit product of difference and fraction.
pub open spec fn no_product_overflow(input: Seq<i16>, start: u64, step: u64) -> bool {
    forall|k: nat|
        #![trigger position(start, step, k as int)]
        in_range(input.len(), position(start, step, k as int)) ==> {
            let p = position(start, step, k as int);
            let d = input[p / 65536 + 1] as int - input[p / 65536] as int;
            -0x8000_0000 <= d * (p % 65536) <= 0x7fff_ffff
        }
}

/// `n` is the number of output samples: the positions before it are in
/// range, position `n` is not.
pub open spec fn output_count(len: nat, start: u64, step: u64, n: nat) -> bool {
    &&& forall|k: nat| k < n ==> in_range(len, #[trigger] position(start, step, k as int))
    &&& !in_range(len, position(start, step, n as int))
}

fn floor_div_65536(x: i64) -> (r: i64)
    requires
        -0x1_0000_0000 <= x <= 0x1_0000_0000,
    ensures
        r == x as int / 65536,
{
    if x >= 0 {
        x / 65536
    } else {
        let q = (-x + 65535) / 65536;
        proof {
            let a: int = -x as int;
            assert(a > 0);
            vstd::arithmetic::div_mod::lemma_fundamental_div_mod(a + 65535, 65536);
            vstd::arithmetic::div_mod::lemma_fundamental_div_mod(x as int, 65536);
            vstd::arithmetic::div_mod::lemma_mod_pos_bound(a + 65535, 65536);
            let m = x as int / 65536;
            assert(x as int == 65536 * m + x as int % 65536);
            assert(a + 65535 == 65536 * q + (a + 65535) % 65536);
            assert(-q == m) by (nonlinear_arith)
                requires
                    x as int == 65536 * m + x as int % 65536,
                    0 <= x as int % 65536 < 65536,
                    a + 65535 == 65536 * (q as int) + (a + 65535) % 65536,
                    0 <= (a + 65535) % 65536 < 65536,
                    a == -(x as int),
            ;
        }
        -q
    }
}

/// Resamples from fixed-point position `start_fp`, stepping `step_fp`
/// input samples (16.16) per output sample, until the next sample would
/// have no successor to interpolate towards. Returns the samples and the
/// final position.
pub fn resample_fixed(input: &[i16], step_fp: u64, start_fp: u64) -> (r: (Vec<i16>, u64))
    requires
        0 < step_fp <= 0x1_0000_0000_0000,
        input@.len() < 0x8000_0000_0000,
        no_product_overflow(input@, start_fp, step_fp),
    ensures
        output_count(input@.len(), start_fp, step_fp, r.0@.len()),
        r.1 == position(start_fp, step_fp, r.0@.len() as int),
        forall|k: int| 0 <= k < r.0@.len() ==> #[trigger] r.0@[k] == interpolate(input@, position(start_fp, step_fp, k)),
{
    let mut out: Vec<i16> = Vec::new();
    let mut pos: u64 = start_fp;
    let len = input.len();
    while (pos >> 16) < len as u64 && (pos >> 16) + 1 < len as u64
        invariant
            len == input@.len(),
            len < 0x8000_0000_0000,
            0 < step_fp <= 0x1_0000_0000_0000,
            no_product_overflow(input@, start_fp, step_fp),
            pos == position(start_fp, step_fp, out@.len() as int),
            forall|k: nat| k < out@.len() ==> in_range(len as nat, #[trigger] position(start_fp, step_fp, k as int)),
            forall|k: int| 0 <= k < out@.len() ==> #[trigger] out@[k] == interpolate(input@, position(start_fp, step_fp, k)),
        decreases 0x1_0000_0000_0000_0000 - pos,
    {
        let ghost k = out@.len();
        let ghost p = pos as int;
        proof {
            assert((pos >> 16) == pos / 65536) by (bit_vector);
            assert((pos & 0xffff) == pos % 65536) by (bit_vector);
            assert(in_range(len as nat, position(start_fp, step_fp, k as int)));
        }
        let idx = (pos >> 16) as usize;
        assert(idx == pos / 65536);
        let frac = (pos & 0xffff) as i64;
        let s0 = input[idx] as i64;
        let s1 = input[idx + 1] as i64;
        let prod = (s1 - s0) * frac;
        let step = floor_div_65536(prod);
        let v = s0 + step;
        let sample: i16 = if v < -32768 {
            -32768
        } else if v > 32767 {
            32767
        } else {
            v as i16
        };
        out.push(sample);
        proof {
            assert(out@[k as int] == interpolate(input@, p));
            assert(pos < 0x8000_0000_0000_0000) by {
                assert(pos / 65536 < len);
            }
            assert(position(start_fp, step_fp, k as int + 1) == position(start_fp, step_fp, k as int) + step_fp) by (nonlinear_arith);
        }
        pos = pos + step_fp;
    }
    proof {
        assert((pos >> 16) == pos / 65536) by (bit_vector);
        assert(!in_range(len as nat, position(start_fp, step_fp, out@.len() as int)));
    }
    (out, pos)
}

} // verus!
