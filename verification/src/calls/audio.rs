//! Integer audio helpers: downmixing interleaved samples to mono, and
//! spreading mono samples over every channel of an output buffer.
use vstd::prelude::*;

verus! {

/// The sum of `data[start..end]`.
pub open spec fn sample_sum(data: Seq<i16>, start: int, end: int) -> int
    decreases end - start,
{
    if end <= start {
        0
    } else {
        sample_sum(data, start, end - 1) + data[end - 1] as int
    }
}

/// Integer division rounding toward zero, as Rust's `/` on signed
/// integers does.
pub open spec fn div_toward_zero(a: int, n: int) -> int {
    if a >= 0 {
        a / n
    } else {
        -((-a) / n)
    }
}

/// Frame `k` of interleaved samples: `channels` samples, the last frame
/// possibly shorter.
pub open spec fn frame_end(len: int, channels: int, k: int) -> int {
    if (k + 1) * channels < len {
        (k + 1) * channels
    } else {
        len
    }
}

/// The mono mix: each frame's sum divided by the channel count (also for
/// a short last frame), rounding toward zero.
pub open spec fn spec_downmix(data: Seq<i16>, channels: nat) -> Seq<i16> {
    if channels <= 1 {
        data
    } else {
        Seq::new(
            ((data.len() + channels - 1) / channels as int) as nat,
            |k: int|
                div_toward_zero(
                    sample_sum(data, k * channels, frame_end(data.len() as int, channels as int, k)),
                    channels as int,
                ) as i16,
        )
    }
}

proof fn lemma_sum_bound(data: Seq<i16>, start: int, end: int)
    requires
        start <= end,
    ensures
        -32768 * (end - start) <= sample_sum(data, start, end) <= 32767 * (end - start),
    decreases end - start,
{
    if end > start {
        lemma_sum_bound(data, start, end - 1);
    }
}

/// Averages each frame of `channels` interleaved samples into one mono
/// sample; one channel or fewer leaves the data as it is.
pub fn downmix_i16(data: &[i16], channels: usize) -> (r: Vec<i16>)
    requires
        channels <= 65536,
    ensures
        r@ == spec_downmix(data@, channels as nat),
{
    if channels <= 1 {
        let mut out: Vec<i16> = Vec::new();
        let mut i: usize = 0;
        while i < data.len()
            invariant
                i <= data@.len(),
                out@ == data@.subrange(0, i as int),
            decreases data@.len() - i,
        {
            out.push(data[i]);
            i += 1;
        }
        proof {
            assert(data@.subrange(0, data@.len() as int) =~= data@);
        }
        return out;
    }
    let ghost c = channels as int;
    let ghost len = data@.len() as int;
    let mut out: Vec<i16> = Vec::new();
    let mut start: usize = 0;
    proof {
        assert(out@.len() * c == 0) by (nonlinear_arith)
            requires
                out@.len() == 0,
        ;
    }
    while start < data.len()
        invariant
            c == channels,
            len == data@.len(),
            2 <= c <= 65536,
            start <= len,
            start < len ==> start == out@.len() * c,
            start == len ==> len <= out@.len() * c,
            out@.len() > 0 ==> (out@.len() - 1) * c < len,
            forall|k: int| 0 <= k < out@.len() ==> #[trigger] out@[k] == div_toward_zero(
                sample_sum(data@, k * c, frame_end(len, c, k)),
                c,
            ) as i16,
        decreases len - start,
    {
        let ghost k = out@.len() as int;
        let end = if data.len() - start > channels {
            start + channels
        } else {
            data.len()
        };
        proof {
            assert((k + 1) * c == k * c + c) by (nonlinear_arith);
            assert(frame_end(len, c, k) == end);
        }
        let mut sum: i32 = 0;
        let mut j: usize = start;
        while j < end
            invariant
                start <= j <= end,
                end <= data@.len(),
                end - start <= 65536,
                sum == sample_sum(data@, start as int, j as int),
            decreases end - j,
        {
            proof {
                lemma_sum_bound(data@, start as int, j as int);
            }
            sum = sum + data[j] as i32;
            j += 1;
        }
        let avg: i32 = sum / (channels as i32);
        proof {
            assert(avg == div_toward_zero(sum as int, c));
        }
        out.push(avg as i16);
        start = end;
        proof {
            assert(out@.len() == k + 1);
            assert((out@.len() - 1) * c < len) by {
                assert((out@.len() - 1) * c == k * c);
            }
            assert(out@[k] == div_toward_zero(sample_sum(data@, k * c, frame_end(len, c, k)), c) as i16);
        }
    }
    proof {
        let n = out@.len() as int;
        if n > 0 {
            let x: int = len + c - 1;
            assert((n - 1) * c == n * c - c) by (nonlinear_arith);
            vstd::arithmetic::div_mod::lemma_fundamental_div_mod_converse(x, c, n, x - n * c);
            assert(x / c == n);
        } else {
            assert(len == 0);
            assert((c - 1) / c == 0) by {
                vstd::arithmetic::div_mod::lemma_fundamental_div_mod_converse(c - 1, c, 0, c - 1);
            }
        }
        let sp = spec_downmix(data@, channels as nat);
        assert(sp.len() == n);
        assert forall|k: int| 0 <= k < n implies #[trigger] out@[k] == sp[k] by {}
        assert(out@ =~= sp);
    }
    out
}

/// Sample `j` of an interleaved output filled from mono samples: every
/// channel of frame `i` carries mono sample `i`, silence past the end.
pub open spec fn upmixed(mono: Seq<i16>, channels: nat, j: int) -> i16 {
    let c = if channels == 0 {
        1
    } else {
        channels as int
    };
    if j / c < mono.len() {
        mono[j / c]
    } else {
        0
    }
}

/// Fills an interleaved output buffer of `channels` channels (at least
/// one) from mono samples; frames past the mono samples are silent.
pub fn fill_frames(out: &mut [i16], mono: &[i16], channels: usize)
    ensures
        final(out)@.len() == old(out)@.len(),
        forall|j: int| 0 <= j < final(out)@.len() ==> #[trigger] final(out)@[j] == upmixed(mono@, channels as nat, j),
{
    let c: usize = if channels == 0 {
        1
    } else {
        channels
    };
    let n = out.len();
    let mut j: usize = 0;
    let mut frame: usize = 0;
    let mut within: usize = 0;
    while j < n
        invariant
            n == out@.len(),
            n == old(out)@.len(),
            c >= 1,
            c == (if channels == 0 {
                1
            } else {
                channels as int
            }),
            j <= n,
            j == frame * c + within,
            within < c,
            forall|k: int| 0 <= k < j ==> #[trigger] out@[k] == upmixed(mono@, channels as nat, k),
        decreases n - j,
    {
        proof {
            vstd::arithmetic::div_mod::lemma_fundamental_div_mod_converse(j as int, c as int, frame as int, within as int);
        }
        let s: i16 = if frame < mono.len() {
            mono[frame]
        } else {
            0
        };
        out[j] = s;
        j = j + 1;
        if within + 1 == c {
            within = 0;
            frame = frame + 1;
            proof {
                assert(j == frame * c + within) by (nonlinear_arith)
                    requires
                        j == (frame - 1) * c + c,
                        within == 0,
                ;
            }
        } else {
            within = within + 1;
        }
    }
}

} // verus!
