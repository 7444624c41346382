//! Pure audio-format utilities on fixed-point samples.
//!
//! A sample is an `i32`; [`FX_ONE`] (32768) stands for full scale 1.0, so a
//! 16-bit PCM value converts to this representation unchanged. Pipeline
//! samples are kept within [`FX_LIMIT`] so that the mixing and resampling
//! arithmetic stays inside `i64`.

use vstd::prelude::*;
use crate::errors::RecorderError;

verus! {

/// Full scale: the fixed-point value standing for 1.0.
pub const FX_ONE: i32 = 32768;

/// Magnitude bound on pipeline samples (32 times full scale).
pub const FX_LIMIT: i32 = 0x10_0000;

/// Truncating division (towards zero, as Rust's `/`), for a positive divisor.
pub open spec fn trunc_div(a: int, b: int) -> int {
    if a >= 0 {
        a / b
    } else {
        -((-a) / b)
    }
}

/// All samples of `s` lie within `bound` in magnitude.
pub open spec fn samples_within(s: Seq<i32>, bound: int) -> bool {
    forall|i: int| 0 <= i < s.len() ==> -bound <= #[trigger] s[i] <= bound
}

/// Truncating division of a bounded value, implemented on magnitudes.
fn div_trunc_i64(a: i64, b: u64) -> (r: i64)
    requires
        1 <= b <= i64::MAX,
        -i64::MAX <= a,
    ensures
        r == trunc_div(a as int, b as int),
{
    if a >= 0 {
        ((a as u64) / b) as i64
    } else {
        let m: u64 = (-a) as u64;
        let q: u64 = m / b;
        assert(q <= m) by (nonlinear_arith)
            requires q == m / b && b >= 1;
        -(q as i64)
    }
}

/// Floor division (towards minus infinity) of a bounded value.
fn div_floor_i64(a: i64, b: u64) -> (r: i64)
    requires
        1 <= b <= 0x8000_0000,
        -0x4000_0000_0000_0000 <= a <= 0x4000_0000_0000_0000,
    ensures
        r as int == a as int / (b as int),
{
    if a >= 0 {
        let q: u64 = (a as u64) / b;
        proof {
            let ai = a as int;
            let bi = b as int;
            assert(q as int == ai / bi);
            assert(ai / bi <= ai) by (nonlinear_arith)
                requires ai >= 0 && bi >= 1;
        }
        q as i64
    } else {
        let m: u64 = (-a) as u64;
        let q: u64 = (m + b - 1) / b;
        proof {
            let ai = a as int;
            let bi = b as int;
            let mi = m as int;
            let k = mi / bi;
            let t = mi % bi;
            assert(mi == k * bi + t && 0 <= t < bi && k >= 0) by (nonlinear_arith)
                requires mi >= 0 && bi >= 1 && k == mi / bi && t == mi % bi;
            if t == 0 {
                assert((mi + bi - 1) / bi == k) by (nonlinear_arith)
                    requires mi == k * bi && bi >= 1 && k >= 0;
                assert(ai == (-k) * bi) by (nonlinear_arith)
                    requires ai == -mi && mi == k * bi;
                assert(ai / bi == -k) by (nonlinear_arith)
                    requires ai == (-k) * bi && bi >= 1;
                assert(k <= mi) by (nonlinear_arith)
                    requires mi == k * bi && bi >= 1 && k >= 0;
            } else {
                assert((mi + bi - 1) / bi == k + 1) by (nonlinear_arith)
                    requires mi == k * bi + t && 1 <= t < bi && bi >= 1 && k >= 0;
                assert(ai == (-k - 1) * bi + (bi - t)) by (nonlinear_arith)
                    requires ai == -mi && mi == k * bi + t;
                assert(ai / bi == -k - 1) by (nonlinear_arith)
                    requires ai == (-k - 1) * bi + (bi - t) && 1 <= t < bi && bi >= 1;
                assert(k + 1 <= mi) by (nonlinear_arith)
                    requires mi == k * bi + t && 1 <= t && bi >= 1 && k >= 0;
            }
            assert(q as int <= mi);
        }
        -(q as i64)
    }
}

/// Sum of the `k` samples of `s` starting at `base`.
pub open spec fn frame_sum(s: Seq<i32>, base: int, k: int) -> int
    decreases k,
{
    if k <= 0 {
        0
    } else {
        frame_sum(s, base, k - 1) + s[base + k - 1]
    }
}

/// The `i`-th mono sample: the truncated average of frame `i`.
pub open spec fn mono_sample(s: Seq<i32>, channels: int, i: int) -> int {
    trunc_div(frame_sum(s, i * channels, channels), channels)
}

proof fn lemma_frame_sum_bound(s: Seq<i32>, base: int, k: int, bound: int)
    requires
        0 <= k,
        0 <= base,
        base + k <= s.len(),
        bound >= 0,
        samples_within(s, bound),
    ensures
        -(k * bound) <= frame_sum(s, base, k) <= k * bound,
    decreases k,
{
    if k > 0 {
        lemma_frame_sum_bound(s, base, k - 1, bound);
        assert(-bound <= s[base + k - 1] <= bound);
        assert((k - 1) * bound + bound == k * bound) by (nonlinear_arith);
        assert(-((k - 1) * bound) - bound == -(k * bound)) by (nonlinear_arith);
    }
}

proof fn lemma_trunc_div_bound(a: int, b: int, bound: int)
    requires
        b >= 1,
        bound >= 0,
        -(b * bound) <= a <= b * bound,
    ensures
        -bound <= trunc_div(a, b) <= bound,
{
    if a >= 0 {
        assert(a / b <= bound) by (nonlinear_arith)
            requires b >= 1 && bound >= 0 && a <= b * bound && a >= 0;
        assert(a / b >= 0) by (nonlinear_arith)
            requires b >= 1 && a >= 0;
    } else {
        assert((-a) / b <= bound) by (nonlinear_arith)
            requires b >= 1 && bound >= 0 && -a <= b * bound && -a >= 0;
        assert((-a) / b >= 0) by (nonlinear_arith)
            requires b >= 1 && -a >= 0;
    }
}

/// Averages contiguous frames of `channels` interleaved samples down to one
/// channel. Only complete frames are kept, so the output holds
/// `len / channels` samples; a channel count of one returns the input
/// unchanged, and a channel count of zero is rejected.
pub fn to_mono(input: &Vec<i32>, channels: u16) -> (r: Result<Vec<i32>, RecorderError>)
    requires
        samples_within(input@, FX_LIMIT as int),
    ensures
        match r {
            Result::Err(e) => e == RecorderError::UnsupportedLayout && channels == 0,
            Result::Ok(v) => {
                &&& channels >= 1
                &&& v@.len() == input@.len() as int / channels as int
                &&& forall|i: int|
                    0 <= i < v@.len() ==> #[trigger] v@[i] == mono_sample(
                        input@,
                        channels as int,
                        i,
                    )
                &&& samples_within(v@, FX_LIMIT as int)
                &&& channels == 1 ==> v@ == input@
            },
        },
{
    if channels == 0 {
        return Err(RecorderError::UnsupportedLayout);
    }
    let ch: usize = channels as usize;
    let n: usize = input.len();
    let frames: usize = n / ch;
    let mut out: Vec<i32> = Vec::new();
    let mut f: usize = 0;
    while f < frames
        invariant
            channels >= 1,
            ch == channels as int,
            n == input@.len(),
            frames == input@.len() as int / ch as int,
            f <= frames,
            samples_within(input@, FX_LIMIT as int),
            out@.len() == f as int,
            forall|i: int|
                0 <= i < f as int ==> #[trigger] out@[i] == mono_sample(input@, ch as int, i),
            samples_within(out@, FX_LIMIT as int),
        decreases frames - f,
    {
        proof {
            let fi = f as int;
            let ci = ch as int;
            let fr = frames as int;
            let li = n as int;
            assert(fi * ci + ci <= li) by (nonlinear_arith)
                requires
                    0 <= fi < fr,
                    ci >= 1,
                    fr == li / ci,
                    li >= 0,
            ;
        }
        let base: usize = f * ch;
        let mut sum: i64 = 0;
        let mut k: usize = 0;
        while k < ch
            invariant
                1 <= ch <= 65535,
                n == input@.len(),
                base == f as int * ch as int,
                base + ch <= n,
                k <= ch,
                samples_within(input@, FX_LIMIT as int),
                sum == frame_sum(input@, base as int, k as int),
                -((k as int) * (FX_LIMIT as int)) <= sum <= (k as int) * (FX_LIMIT as int),
            decreases ch - k,
        {
            proof {
                assert((k as int) * (FX_LIMIT as int) + FX_LIMIT as int == (k as int + 1) * (
                FX_LIMIT as int)) by (nonlinear_arith);
                assert(-((k as int) * (FX_LIMIT as int)) - FX_LIMIT as int == -((k as int + 1) * (
                FX_LIMIT as int))) by (nonlinear_arith);
                assert((k as int + 1) * (FX_LIMIT as int) <= 65536 * (FX_LIMIT as int))
                    by (nonlinear_arith)
                    requires 0 <= k as int + 1 <= 65536;
            }
            sum = sum + input[base + k] as i64;
            k = k + 1;
        }
        proof {
            assert((ch as int) * (FX_LIMIT as int) <= 65536 * (FX_LIMIT as int))
                by (nonlinear_arith)
                requires 0 <= ch as int <= 65536;
            lemma_trunc_div_bound(sum as int, ch as int, FX_LIMIT as int);
        }
        let avg: i64 = div_trunc_i64(sum, ch as u64);
        out.push(avg as i32);
        f = f + 1;
    }
    proof {
        if channels == 1 {
            assert(out@.len() == input@.len() as int / 1);
            assert(input@.len() as int / 1 == input@.len());
            assert forall|i: int| 0 <= i < out@.len() implies out@[i] == input@[i] by {
                assert(frame_sum(input@, i, 0) == 0);
                assert(frame_sum(input@, i, 1) == input@[i]);
                assert(out@[i] == mono_sample(input@, 1, i));
                assert(i * 1 == i);
                assert(trunc_div(input@[i] as int, 1) == input@[i]);
            }
            assert(out@ =~= input@);
        }
    }
    Ok(out)
}

/// Highest sample rate the resampler accepts.
pub const RATE_LIMIT: u32 = 1000000;

/// Largest buffer the resampler produces or consumes in one call.
pub const LEN_LIMIT: usize = 0x1000_0000;

/// Length of a buffer resampled from `in_rate` to `out_rate`.
pub open spec fn resampled_len(len: int, in_rate: int, out_rate: int) -> int {
    len * out_rate / in_rate
}

/// The `i`-th output sample of linear resampling: the sample at source
/// position `i * in_rate / out_rate`, interpolated towards the next sample
/// by the fractional part of that position.
pub open spec fn resampled_at(s: Seq<i32>, in_rate: int, out_rate: int, i: int) -> int {
    let pos = i * in_rate;
    let idx = pos / out_rate;
    let frac = pos % out_rate;
    let next = if idx + 1 < s.len() {
        idx + 1
    } else {
        s.len() - 1
    };
    trunc_div(s[idx] * (out_rate - frac) + s[next] * frac, out_rate)
}

proof fn lemma_mul_div_identity(a: int, b: int)
    requires
        b >= 1,
    ensures
        a * b / b == a || a < 0,
        trunc_div(a * b, b) == a,
{
    assert(a >= 0 ==> a * b >= 0 && a * b / b == a) by (nonlinear_arith)
        requires b >= 1;
    assert(a < 0 ==> a * b < 0 && -(a * b) == (-a) * b && (-a) * b / b == -a) by (nonlinear_arith)
        requires b >= 1;
}

/// Resamples by linear interpolation to `len * out_rate / in_rate` output
/// samples; equal rates return the input unchanged. Cheap and tolerant at
/// small rate ratios; not meant for aggressive downsampling.
pub fn resample_linear(input: &Vec<i32>, in_rate: u32, out_rate: u32) -> (r: Vec<i32>)
    requires
        1 <= in_rate <= RATE_LIMIT,
        1 <= out_rate <= RATE_LIMIT,
        input@.len() <= LEN_LIMIT,
        resampled_len(input@.len() as int, in_rate as int, out_rate as int) <= LEN_LIMIT,
        samples_within(input@, FX_LIMIT as int),
    ensures
        r@.len() == resampled_len(input@.len() as int, in_rate as int, out_rate as int),
        forall|i: int|
            0 <= i < r@.len() ==> #[trigger] r@[i] == resampled_at(
                input@,
                in_rate as int,
                out_rate as int,
                i,
            ),
        samples_within(r@, FX_LIMIT as int),
        in_rate == out_rate ==> r@ == input@,
{
    let n: usize = input.len();
    proof {
        assert((n as int) * (out_rate as int) <= 0x1000_0000 * 0x100000) by (nonlinear_arith)
            requires 0 <= n as int <= 0x1000_0000 && 0 <= out_rate as int <= 0x100000;
    }
    let num64: u64 = (n as u64) * (out_rate as u64);
    let out_len64: u64 = num64 / (in_rate as u64);
    proof {
        assert(out_len64 == resampled_len(n as int, in_rate as int, out_rate as int));
    }
    let out_len: usize = out_len64 as usize;
    let mut out: Vec<i32> = Vec::new();
    let mut i: usize = 0;
    while i < out_len
        invariant
            1 <= in_rate <= RATE_LIMIT,
            1 <= out_rate <= RATE_LIMIT,
            n == input@.len(),
            n <= LEN_LIMIT,
            out_len <= LEN_LIMIT,
            out_len == resampled_len(n as int, in_rate as int, out_rate as int),
            i <= out_len,
            samples_within(input@, FX_LIMIT as int),
            out@.len() == i as int,
            forall|j: int|
                0 <= j < i as int ==> #[trigger] out@[j] == resampled_at(
                    input@,
                    in_rate as int,
                    out_rate as int,
                    j,
                ),
            samples_within(out@, FX_LIMIT as int),
        decreases out_len - i,
    {
        proof {
            let ii = i as int;
            let ir = in_rate as int;
            let or = out_rate as int;
            let ni = n as int;
            let ol = out_len as int;
            assert(ii * ir <= 0x1000_0000 * 0x100000) by (nonlinear_arith)
                requires 0 <= ii <= 0x1000_0000 && 0 <= ir <= 0x100000;
            assert(ni >= 1) by (nonlinear_arith)
                requires
                    ol >= 1,
                    ol == ni * or / ir,
                    ir >= 1,
                    or >= 1,
                    ni >= 0,
            ;
            assert(ii * ir < ni * or) by (nonlinear_arith)
                requires
                    0 <= ii < ol,
                    ir >= 1,
                    or >= 1,
                    ol == ni * or / ir,
                    ni >= 0,
            ;
            assert(ii * ir / or < ni) by (nonlinear_arith)
                requires
                    or >= 1,
                    ni >= 1,
                    0 <= ii * ir,
                    ii * ir < ni * or,
            ;
        }
        let pos: u64 = (i as u64) * (in_rate as u64);
        let idx64: u64 = pos / (out_rate as u64);
        let frac: u64 = pos % (out_rate as u64);
        let idx: usize = idx64 as usize;
        let next: usize = if idx + 1 < n {
            idx + 1
        } else {
            n - 1
        };
        let a: i64 = input[idx] as i64;
        let b: i64 = input[next] as i64;
        let w1: i64 = (out_rate as u64 - frac) as i64;
        let w2: i64 = frac as i64;
        proof {
            let li = FX_LIMIT as int;
            let or = out_rate as int;
            assert(-(li * (w1 as int)) <= (a as int) * (w1 as int) <= li * (w1 as int))
                by (nonlinear_arith)
                requires -li <= a as int <= li && 0 <= w1 as int;
            assert(-(li * (w2 as int)) <= (b as int) * (w2 as int) <= li * (w2 as int))
                by (nonlinear_arith)
                requires -li <= b as int <= li && 0 <= w2 as int;
            assert(li * (w1 as int) + li * (w2 as int) == li * or) by (nonlinear_arith)
                requires (w1 as int) + (w2 as int) == or;
            assert(li * or <= 0x1_0000_0000_0000_0000_0000) by (nonlinear_arith)
                requires 0 <= or <= RATE_LIMIT as int && li == FX_LIMIT as int;
        }
        let num: i64 = a * w1 + b * w2;
        proof {
            lemma_trunc_div_bound(num as int, out_rate as int, FX_LIMIT as int);
        }
        let v: i64 = div_trunc_i64(num, out_rate as u64);
        out.push(v as i32);
        i = i + 1;
    }
    proof {
        if in_rate == out_rate {
            let or = out_rate as int;
            lemma_mul_div_identity(n as int, or);
            assert(out@.len() == input@.len());
            assert forall|j: int| 0 <= j < out@.len() implies out@[j] == input@[j] by {
                lemma_mul_div_identity(j, or);
                assert(j * or % or == 0) by (nonlinear_arith)
                    requires or >= 1 && j >= 0;
                assert(j * or / or == j) by (nonlinear_arith)
                    requires or >= 1 && j >= 0;
                let s = input@;
                let nxt = if j + 1 < s.len() {
                    j + 1
                } else {
                    s.len() - 1
                };
                assert(s[j] * (or - 0) + s[nxt] * 0 == s[j] * or) by (nonlinear_arith);
                lemma_mul_div_identity(s[j] as int, or);
                assert(out@[j] == resampled_at(s, or, or, j));
            }
            assert(out@ =~= input@);
        }
    }
    out
}

/// Gain values are carried in hundredths; 100 is unity and 1000 (10.0) the cap.
pub const GAIN_MAX_CENTI: u32 = 1000;

/// The sample of `s` at `i`, or silence past the end.
pub open spec fn sample_at(s: Seq<i32>, i: int) -> int {
    if 0 <= i < s.len() {
        s[i] as int
    } else {
        0
    }
}

/// The gain-weighted sum of both sources at index `i` (gains in hundredths).
pub open spec fn mix_sum(mic: Seq<i32>, sys: Seq<i32>, gm: int, gs: int, i: int) -> int {
    trunc_div(sample_at(mic, i) * gm + sample_at(sys, i) * gs, 100)
}

/// Smooth saturation: values beyond full scale approach but never pass it.
pub open spec fn soft_clip(s: int) -> int {
    let one = FX_ONE as int;
    if s > one {
        one - (one * one) / (one + (s - one))
    } else if s < -one {
        -one + (one * one) / (one + (-s - one))
    } else {
        s
    }
}

proof fn lemma_soft_clip_bounded(s: int)
    ensures
        -(FX_ONE as int) <= soft_clip(s) <= FX_ONE as int,
{
    let one = FX_ONE as int;
    if s > one {
        let q = (one * one) / (one + (s - one));
        assert(0 <= q < one) by (nonlinear_arith)
            requires q == (one * one) / (one + (s - one)) && s > one && one == 32768;
    } else if s < -one {
        let q = (one * one) / (one + (-s - one));
        assert(0 <= q < one) by (nonlinear_arith)
            requires q == (one * one) / (one + (-s - one)) && s < -one && one == 32768;
    }
}

/// Mixes two buffers sample by sample with per-source gains, soft-clipping
/// the sum; the output is as long as the longer input, and every output
/// sample lies within full scale whatever the inputs and gains.
pub fn mix_soft(mic: &Vec<i32>, system: &Vec<i32>, mic_gain_centi: u32, system_gain_centi: u32) -> (r:
    Vec<i32>)
    requires
        mic_gain_centi <= GAIN_MAX_CENTI,
        system_gain_centi <= GAIN_MAX_CENTI,
        samples_within(mic@, FX_LIMIT as int),
        samples_within(system@, FX_LIMIT as int),
    ensures
        r@.len() == if mic@.len() >= system@.len() {
            mic@.len()
        } else {
            system@.len()
        },
        forall|i: int|
            0 <= i < r@.len() ==> #[trigger] r@[i] == soft_clip(
                mix_sum(mic@, system@, mic_gain_centi as int, system_gain_centi as int, i),
            ),
        samples_within(r@, FX_ONE as int),
{
    let n_mic: usize = mic.len();
    let n_sys: usize = system.len();
    let max_len: usize = if n_mic >= n_sys {
        n_mic
    } else {
        n_sys
    };
    let mut out: Vec<i32> = Vec::new();
    let mut i: usize = 0;
    while i < max_len
        invariant
            mic_gain_centi <= GAIN_MAX_CENTI,
            system_gain_centi <= GAIN_MAX_CENTI,
            n_mic == mic@.len(),
            n_sys == system@.len(),
            max_len == if mic@.len() >= system@.len() {
                mic@.len()
            } else {
                system@.len()
            },
            i <= max_len,
            samples_within(mic@, FX_LIMIT as int),
            samples_within(system@, FX_LIMIT as int),
            out@.len() == i as int,
            forall|j: int|
                0 <= j < i as int ==> #[trigger] out@[j] == soft_clip(
                    mix_sum(mic@, system@, mic_gain_centi as int, system_gain_centi as int, j),
                ),
            samples_within(out@, FX_ONE as int),
        decreases max_len - i,
    {
        let mv: i64 = if i < n_mic {
            mic[i] as i64
        } else {
            0
        };
        let sv: i64 = if i < n_sys {
            system[i] as i64
        } else {
            0
        };
        proof {
            let li = FX_LIMIT as int;
            assert(-(li * 1000) <= (mv as int) * (mic_gain_centi as int) <= li * 1000)
                by (nonlinear_arith)
                requires -li <= mv as int <= li && 0 <= mic_gain_centi as int <= 1000;
            assert(-(li * 1000) <= (sv as int) * (system_gain_centi as int) <= li * 1000)
                by (nonlinear_arith)
                requires -li <= sv as int <= li && 0 <= system_gain_centi as int <= 1000;
        }
        let weighted: i64 = mv * (mic_gain_centi as i64) + sv * (system_gain_centi as i64);
        let s: i64 = div_trunc_i64(weighted, 100);
        proof {
            lemma_trunc_div_bound(weighted as int, 100, FX_LIMIT as int * 20 + FX_LIMIT as int * 20);
            lemma_soft_clip_bounded(s as int);
        }
        let one: i64 = FX_ONE as i64;
        let clipped: i64 = if s > one {
            let q: u64 = ((one * one) as u64) / ((one + (s - one)) as u64);
            one - q as i64
        } else if s < -one {
            let q: u64 = ((one * one) as u64) / ((one + (-s - one)) as u64);
            -one + q as i64
        } else {
            s
        };
        out.push(clipped as i32);
        i = i + 1;
    }
    out
}

/// Clamp to full scale.
pub open spec fn clamp_fx(s: int) -> int {
    if s > FX_ONE as int {
        FX_ONE as int
    } else if s < -(FX_ONE as int) {
        -(FX_ONE as int)
    } else {
        s
    }
}

/// The 16-bit PCM value written for a fixed-point sample: saturate to full
/// scale, then scale by 32767, rounding down — the floor the stop path
/// applies to `s * 32767`.
pub open spec fn pcm_of_fx(s: int) -> int {
    clamp_fx(s) * 32767 / 32768
}

/// The fixed-point sample recovered from a 16-bit PCM value read back from a
/// file: scale by full scale over 32767 (truncating towards zero).
pub open spec fn fx_of_pcm(p: int) -> int {
    trunc_div(p * 32768, 32767)
}

/// Quantizes one sample for the 16-bit PCM WAV output.
pub fn fx_to_pcm16(s: i32) -> (p: i16)
    ensures
        p == pcm_of_fx(s as int),
        -32767 <= p <= 32767,
{
    let c: i64 = if s > FX_ONE {
        FX_ONE as i64
    } else if s < -FX_ONE {
        -(FX_ONE as i64)
    } else {
        s as i64
    };
    proof {
        let ci = c as int;
        assert(-(32768 * 32767) <= ci * 32767 <= 32768 * 32767) by (nonlinear_arith)
            requires -32768 <= ci <= 32768;
        assert(-32767 <= ci * 32767 / 32768 <= 32767) by (nonlinear_arith)
            requires -(32768 * 32767) <= ci * 32767 <= 32768 * 32767;
    }
    let q: i64 = div_floor_i64(c * 32767, 32768);
    q as i16
}

/// Recovers a fixed-point sample from a 16-bit PCM value.
pub fn pcm16_to_fx(p: i16) -> (s: i32)
    ensures
        s == fx_of_pcm(p as int),
        -(FX_LIMIT as int) <= s as int <= FX_LIMIT as int,
{
    proof {
        assert(-(32767 * 32800) <= (p as int) * 32768 <= 32767 * 32800) by (nonlinear_arith)
            requires -32768 <= p as int <= 32767;
        lemma_trunc_div_bound((p as int) * 32768, 32767, 32800);
    }
    let v: i64 = div_trunc_i64((p as i64) * 32768, 32767);
    v as i32
}

/// A native capture sample in signed 16-bit form is already the fixed-point
/// value: full scale 32768 maps to 1.0 exactly.
pub fn i16_to_fx(p: i16) -> (s: i32)
    ensures
        s == p as int,
{
    p as i32
}

/// Quantization round trip: writing a full-scale-bounded sample as 16-bit
/// PCM keeps it within one PCM step below the exact value. Scaled by the
/// step size (1/32767 of full scale), the inequalities say exactly that
/// `pcm_of_fx(s) / 32767` lies within `1/32767` of `s / 32768`, on the
/// side the floor moved it to.
pub proof fn lemma_quantize_round_trip(s: int)
    requires
        -(FX_ONE as int) <= s <= FX_ONE as int,
    ensures
        0 <= s * 32767 - pcm_of_fx(s) * 32768 < 32768,
{
    assert(clamp_fx(s) == s);
    let q = s * 32767 / 32768;
    assert(q * 32768 <= s * 32767 < (q + 1) * 32768) by (nonlinear_arith)
        requires q == s * 32767 / 32768;
}

/// The fixed-point sample recovered from a 32-bit PCM value: scale by full
/// scale over the 32-bit maximum (truncating towards zero), as the loader
/// divides by it.
pub open spec fn fx_of_pcm32(p: int) -> int {
    trunc_div(p * 32768, 0x7FFF_FFFF)
}

/// Recovers a fixed-point sample from a 32-bit PCM value.
pub fn pcm32_to_fx(p: i32) -> (s: i32)
    ensures
        s == fx_of_pcm32(p as int),
        -(FX_LIMIT as int) <= s as int <= FX_LIMIT as int,
{
    proof {
        let pi = p as int;
        assert(-(0x7FFF_FFFF * 32769) <= pi * 32768 && pi * 32768 <= 0x7FFF_FFFF * 32769)
            by (nonlinear_arith)
            requires -0x8000_0000 <= pi && pi <= 0x7FFF_FFFF;
        lemma_trunc_div_bound(pi * 32768, 0x7FFF_FFFF, 32769);
    }
    let v: i64 = div_trunc_i64((p as i64) * 32768, 0x7FFF_FFFF);
    v as i32
}

} // verus!
