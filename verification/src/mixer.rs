//! Sample-level transforms: downmix, peak normalisation, quantisation and
//! interleaving, all in fixed point.
//!
//! A sample is a signed fixed-point amplitude in which `FULL_SCALE` stands
//! for 1.0. Quotients are rounded toward zero.

use vstd::prelude::*;

verus! {

/// One amplitude value in fixed point.
pub type Sample = i32;

/// The fixed-point value of amplitude 1.0: one thousand units for each step
/// of 16-bit PCM.
pub const FULL_SCALE: i32 = 32_767_000;

/// The largest magnitude of a 16-bit PCM sample that is written.
pub const PCM_MAX: i16 = 32767;

/// The peak that chunks are normalised to: amplitude 0.9.
pub const TARGET_PEAK: i32 = 29_490_300;

/// How a dual-source chunk is laid out on disk.
#[derive(Clone, Copy, Debug, PartialEq, Eq, Structural)]
pub enum MixMode {
    /// One two-channel file: left is system, right is microphone.
    Stereo,
    /// Two mono files, one per source.
    Split,
}

/// The quotient of `n` by a positive `d`, rounded toward zero.
pub open spec fn truncated(n: int, d: int) -> int {
    if n >= 0 {
        n / d
    } else {
        -((-n) / d)
    }
}

/// The absolute value.
pub open spec fn magnitude(s: int) -> int {
    if s >= 0 {
        s
    } else {
        -s
    }
}

/// The sum of the `count` samples that start at index `from`.
pub open spec fn frame_sum(samples: Seq<Sample>, from: int, count: int) -> int
    decreases count,
{
    if count <= 0 {
        0
    } else {
        frame_sum(samples, from, count - 1) + samples[from + count - 1]
    }
}

/// The mean of frame `i` of an interleaved buffer with `channels` channels.
pub open spec fn frame_mean(samples: Seq<Sample>, i: int, channels: int) -> int {
    truncated(frame_sum(samples, i * channels, channels), channels)
}

/// The mono downmix of an interleaved buffer: each whole frame reduced to
/// the mean of its channels. A single channel is left as it is; samples
/// after the last whole frame are dropped.
pub open spec fn mono(samples: Seq<Sample>, channels: int) -> Seq<Sample> {
    if channels == 1 {
        samples
    } else {
        Seq::new(
            ((samples.len() as int) / channels) as nat,
            |i: int| frame_mean(samples, i, channels) as Sample,
        )
    }
}

/// The sum of `count` samples lies between `count` times the least and
/// `count` times the greatest sample value.
proof fn lemma_frame_sum_bounds(samples: Seq<Sample>, from: int, count: int)
    requires
        0 <= from,
        0 <= count,
        from + count <= samples.len(),
    ensures
        count * i32::MIN <= frame_sum(samples, from, count) <= count * i32::MAX,
    decreases count,
{
    if count > 0 {
        lemma_frame_sum_bounds(samples, from, count - 1);
        assert(count * i32::MIN == (count - 1) * i32::MIN + i32::MIN) by (nonlinear_arith);
        assert(count * i32::MAX == (count - 1) * i32::MAX + i32::MAX) by (nonlinear_arith);
    }
}

/// A truncated quotient of a number between `d * lo` and `d * hi` lies
/// between `lo` and `hi`.
proof fn lemma_truncated_bounds(n: int, d: int, lo: int, hi: int)
    requires
        d > 0,
        lo <= 0 <= hi,
        d * lo <= n <= d * hi,
    ensures
        lo <= truncated(n, d) <= hi,
{
    if n >= 0 {
        assert(n / d <= hi) by (nonlinear_arith)
            requires
                d > 0,
                0 <= n <= d * hi,
        ;
        assert(n / d >= 0) by (nonlinear_arith)
            requires
                d > 0,
                0 <= n,
        ;
    } else {
        assert(d * (-lo) == -(d * lo)) by (nonlinear_arith);
        assert((-n) / d <= -lo) by (nonlinear_arith)
            requires
                d > 0,
                0 <= -n <= d * (-lo),
        ;
        assert((-n) / d >= 0) by (nonlinear_arith)
            requires
                d > 0,
                0 <= -n,
        ;
    }
}

/// Downmixes an interleaved buffer to mono: each frame becomes the mean of
/// its channels. A single-channel buffer is returned unchanged.
pub fn to_mono(samples: &[Sample], channels: u16) -> (out: Vec<Sample>)
    requires
        channels > 0,
    ensures
        out@ == mono(samples@, channels as int),
        channels == 1 ==> out@ == samples@,
{
    let mut out: Vec<Sample> = Vec::new();
    if channels == 1 {
        out.extend_from_slice(samples);
        assert(out@ =~= samples@);
        return out;
    }
    let width = channels as usize;
    let len = samples.len();
    let frames = len / width;
    let mut i: usize = 0;
    while i < frames
        invariant
            i <= frames,
            len == samples@.len(),
            width == channels,
            width > 1,
            frames == (samples@.len() as int) / (width as int),
            out@.len() == i,
            forall|f: int|
                0 <= f < i ==> #[trigger] out@[f] == frame_mean(samples@, f, width as int) as Sample,
        decreases frames - i,
    {
        assert(i * width + width <= len) by (nonlinear_arith)
            requires
                i < frames,
                width > 0,
                frames == (len as int) / (width as int),
        ;
        let base = i * width;
        let mut sum: i64 = 0;
        let mut k: usize = 0;
        while k < width
            invariant
                k <= width,
                width <= 0xffff,
                len == samples@.len(),
                base + width <= len,
                sum == frame_sum(samples@, base as int, k as int),
                k * i32::MIN <= sum <= k * i32::MAX,
            decreases width - k,
        {
            proof {
                lemma_frame_sum_bounds(samples@, base as int, k + 1);
                assert((k + 1) * i32::MAX <= 0xffff * i32::MAX) by (nonlinear_arith)
                    requires
                        k + 1 <= 0xffff,
                ;
                assert((k + 1) * i32::MIN >= 0xffff * i32::MIN) by (nonlinear_arith)
                    requires
                        k + 1 <= 0xffff,
                ;
            }
            sum = sum + samples[base + k] as i64;
            k += 1;
        }
        proof {
            lemma_truncated_bounds(sum as int, width as int, i32::MIN as int, i32::MAX as int);
        }
        let mean: i64 = sum / (width as i64);
        out.push(mean as i32);
        i += 1;
    }
    assert(out@ =~= mono(samples@, channels as int));
    out
}

/// The greatest magnitude in the buffer; zero for an empty one.
pub open spec fn peak(samples: Seq<Sample>) -> int
    decreases samples.len(),
{
    if samples.len() == 0 {
        0
    } else if magnitude(samples.last() as int) > peak(samples.drop_last()) {
        magnitude(samples.last() as int)
    } else {
        peak(samples.drop_last())
    }
}

/// A sample scaled by `target / peak`.
pub open spec fn scaled(s: int, target: int, peak: int) -> int {
    truncated(s * target, peak)
}

/// The buffer scaled so that its peak becomes `target`. A buffer of zeros
/// has no peak to scale by and stays as it is.
pub open spec fn peak_normalized(samples: Seq<Sample>, target: int) -> Seq<Sample> {
    if peak(samples) > 0 {
        Seq::new(samples.len(), |i: int| scaled(samples[i] as int, target, peak(samples)) as Sample)
    } else {
        samples
    }
}

/// No sample exceeds the peak, and a buffer that is not empty attains it.
pub proof fn lemma_peak(samples: Seq<Sample>)
    ensures
        0 <= peak(samples) <= 0x8000_0000,
        forall|i: int| 0 <= i < samples.len() ==> magnitude(#[trigger] samples[i] as int) <= peak(samples),
        samples.len() > 0 ==> exists|i: int|
            0 <= i < samples.len() && magnitude(#[trigger] samples[i] as int) == peak(samples),
    decreases samples.len(),
{
    if samples.len() > 0 {
        let rest = samples.drop_last();
        lemma_peak(rest);
        assert forall|i: int| 0 <= i < samples.len() implies magnitude(
            #[trigger] samples[i] as int,
        ) <= peak(samples) by {
            if i < rest.len() {
                assert(samples[i] == rest[i]);
            }
        }
        if magnitude(samples.last() as int) > peak(rest) || rest.len() == 0 {
            assert(magnitude(samples[samples.len() - 1] as int) == peak(samples));
        } else {
            let i = choose|i: int|
                0 <= i < rest.len() && magnitude(#[trigger] rest[i] as int) == peak(rest);
            assert(samples[i] == rest[i]);
        }
    }
}

/// A buffer whose magnitudes are bounded by `bound`, and which attains the
/// bound somewhere, has `bound` as its peak.
proof fn lemma_peak_is(samples: Seq<Sample>, bound: int, at: int)
    requires
        0 <= at < samples.len(),
        forall|i: int| 0 <= i < samples.len() ==> magnitude(#[trigger] samples[i] as int) <= bound,
        magnitude(samples[at] as int) == bound,
    ensures
        peak(samples) == bound,
{
    lemma_peak(samples);
}

/// Scaling keeps a sample within the target, and takes a sample of peak
/// magnitude to the target itself.
proof fn lemma_scaled(s: int, target: int, top: int)
    requires
        0 <= target,
        0 < top,
        magnitude(s) <= top,
    ensures
        magnitude(scaled(s, target, top)) <= target,
        magnitude(s) == top ==> magnitude(scaled(s, target, top)) == target,
        s == 0 ==> scaled(s, target, top) == 0,
{
    let m = magnitude(s);
    assert((m * target) / top <= target && (m * target) / top >= 0 && (m == top ==> (m * target)
        / top == target)) by (nonlinear_arith)
        requires
            0 <= m <= top,
            0 < top,
            0 <= target,
    ;
    if s >= 0 {
        assert(s * target >= 0) by (nonlinear_arith)
            requires
                s >= 0,
                target >= 0,
        ;
    } else {
        assert(s * target <= 0 && -(s * target) == (-s) * target) by (nonlinear_arith)
            requires
                s < 0,
                target >= 0,
        ;
        if s * target == 0 {
            assert((0int) / top == 0) by (nonlinear_arith)
                requires
                    top > 0,
            ;
            assert(((-s) * target) / top == 0);
        }
    }
}

/// Scales the buffer so that its greatest magnitude becomes `target`. A
/// buffer of silence is left untouched: there is nothing to divide by.
pub fn peak_normalize(samples: &mut Vec<Sample>, target: Sample)
    requires
        0 <= target,
    ensures
        final(samples)@ == peak_normalized(old(samples)@, target as int),
        final(samples)@.len() == old(samples)@.len(),
        peak(old(samples)@) > 0 ==> peak(final(samples)@) == target,
        peak(old(samples)@) == 0 ==> final(samples)@ == old(samples)@,
        forall|i: int|
            0 <= i < final(samples)@.len() && peak(old(samples)@) > 0 ==> magnitude(
                #[trigger] final(samples)@[i] as int,
            ) <= target,
{
    let len = samples.len();
    let mut top: i64 = 0;
    let mut i: usize = 0;
    while i < len
        invariant
            i <= len == samples@.len(),
            *samples == *old(samples),
            top == peak(samples@.take(i as int)),
            0 <= top <= 0x8000_0000,
        decreases len - i,
    {
        proof {
            assert(samples@.take(i + 1).drop_last() =~= samples@.take(i as int));
            assert(samples@.take(i + 1).last() == samples@[i as int]);
        }
        let s = samples[i] as i64;
        let m = if s >= 0 {
            s
        } else {
            -s
        };
        if m > top {
            top = m;
        }
        i += 1;
    }
    assert(samples@.take(len as int) =~= samples@);
    if top > 0 {
        let ghost before = samples@;
        proof {
            lemma_peak(before);
        }
        let mut k: usize = 0;
        while k < len
            invariant
                k <= len == samples@.len(),
                before == old(samples)@,
                before.len() == len,
                top == peak(before),
                0 < top <= 0x8000_0000,
                0 <= target,
                forall|j: int| 0 <= j < len ==> magnitude(#[trigger] before[j] as int) <= top,
                forall|j: int|
                    0 <= j < k ==> #[trigger] samples@[j] == scaled(
                        before[j] as int,
                        target as int,
                        top as int,
                    ) as Sample,
                forall|j: int|
                    0 <= j < k ==> magnitude(#[trigger] samples@[j] as int) == magnitude(
                        scaled(before[j] as int, target as int, top as int),
                    ),
                forall|j: int| k <= j < len ==> #[trigger] samples@[j] == before[j],
            decreases len - k,
        {
            let s = samples[k] as i64;
            proof {
                assert(magnitude(before[k as int] as int) <= top);
                lemma_scaled(s as int, target as int, top as int);
                assert(-0x8000_0000 * 0x7fff_ffff <= s * target <= 0x8000_0000 * 0x7fff_ffff)
                    by (nonlinear_arith)
                    requires
                        -0x8000_0000 <= s <= 0x8000_0000,
                        0 <= target <= 0x7fff_ffff,
                ;
            }
            let product: i64 = s * (target as i64);
            let value: i64 = product / top;
            samples.set(k, value as i32);
            k += 1;
        }
        proof {
            let after = samples@;
            assert(after =~= peak_normalized(before, target as int));
            let at = choose|at: int|
                0 <= at < before.len() && magnitude(#[trigger] before[at] as int) == peak(before);
            assert forall|j: int| 0 <= j < after.len() implies magnitude(
                #[trigger] after[j] as int,
            ) <= target by {
                assert(magnitude(before[j] as int) <= top);
                lemma_scaled(before[j] as int, target as int, top as int);
            }
            lemma_scaled(before[at] as int, target as int, top as int);
            lemma_peak_is(after, target as int, at);
        }
    }
}

/// A sample limited to the range from `-FULL_SCALE` to `FULL_SCALE`.
pub open spec fn clamped(s: int) -> int {
    if s > FULL_SCALE {
        FULL_SCALE as int
    } else if s < -FULL_SCALE {
        -FULL_SCALE
    } else {
        s
    }
}

/// The 16-bit PCM value of a sample: limited to full scale, then scaled so
/// that full scale becomes `PCM_MAX`.
pub open spec fn quantized(s: int) -> int {
    truncated(clamped(s) * PCM_MAX, FULL_SCALE as int)
}

/// A quantised sample never leaves the range from `-PCM_MAX` to `PCM_MAX`.
pub proof fn lemma_quantized_bound(s: int)
    ensures
        -PCM_MAX <= quantized(s) <= PCM_MAX,
{
    let c = clamped(s);
    lemma_truncated_bounds(c * PCM_MAX, FULL_SCALE as int, -(PCM_MAX as int), PCM_MAX as int);
}

/// The 16-bit PCM values of a buffer.
pub open spec fn pcm(samples: Seq<Sample>) -> Seq<i16> {
    Seq::new(samples.len(), |i: int| quantized(samples[i] as int) as i16)
}

/// Quantises samples to 16-bit signed PCM: each is limited to full scale
/// and scaled to the range from `-PCM_MAX` to `PCM_MAX`.
pub fn f32_to_i16(samples: &[Sample]) -> (out: Vec<i16>)
    ensures
        out@ == pcm(samples@),
        out@.len() == samples@.len(),
        forall|i: int| 0 <= i < out@.len() ==> #[trigger] out@[i] == quantized(samples@[i] as int),
        forall|i: int| 0 <= i < out@.len() ==> -PCM_MAX <= #[trigger] out@[i] <= PCM_MAX,
{
    let len = samples.len();
    let mut out: Vec<i16> = Vec::new();
    let mut i: usize = 0;
    while i < len
        invariant
            i <= len == samples@.len(),
            out@.len() == i,
            forall|j: int| 0 <= j < i ==> #[trigger] out@[j] == quantized(samples@[j] as int),
            forall|j: int| 0 <= j < i ==> -PCM_MAX <= #[trigger] out@[j] <= PCM_MAX,
        decreases len - i,
    {
        let s = samples[i];
        let limited: i64 = if s > FULL_SCALE {
            FULL_SCALE as i64
        } else if s < -FULL_SCALE {
            -(FULL_SCALE as i64)
        } else {
            s as i64
        };
        proof {
            lemma_quantized_bound(s as int);
        }
        let value: i64 = (limited * (PCM_MAX as i64)) / (FULL_SCALE as i64);
        out.push(value as i16);
        i += 1;
    }
    assert(out@ =~= pcm(samples@));
    out
}

/// Sample `i` of a channel, or silence past its end.
pub open spec fn padded(channel: Seq<Sample>, i: int) -> Sample {
    if 0 <= i < channel.len() {
        channel[i]
    } else {
        0
    }
}

/// The number of frames of the longer of two channels.
pub open spec fn longer(a: Seq<Sample>, b: Seq<Sample>) -> nat {
    if a.len() >= b.len() {
        a.len()
    } else {
        b.len()
    }
}

/// Two channels as one stereo buffer: even positions hold the left channel,
/// odd positions the right, the shorter one continued with silence.
pub open spec fn interleaved(left: Seq<Sample>, right: Seq<Sample>) -> Seq<Sample> {
    Seq::new(
        2 * longer(left, right),
        |k: int|
            if k % 2 == 0 {
                padded(left, k / 2)
            } else {
                padded(right, k / 2)
            },
    )
}

/// Interleaves the system channel (left) and the microphone channel (right)
/// into one stereo buffer. The shorter channel is padded with silence to the
/// length of the longer.
pub fn interleave_stereo(system: &[Sample], mic: &[Sample]) -> (out: Vec<Sample>)
    ensures
        out@ == interleaved(system@, mic@),
        out@.len() == 2 * longer(system@, mic@),
{
    let frames = if system.len() >= mic.len() {
        system.len()
    } else {
        mic.len()
    };
    let mut out: Vec<Sample> = Vec::new();
    let mut i: usize = 0;
    while i < frames
        invariant
            i <= frames == longer(system@, mic@),
            out@.len() == 2 * i,
            forall|k: int| 0 <= k < 2 * i ==> #[trigger] out@[k] == interleaved(system@, mic@)[k],
        decreases frames - i,
    {
        let left = if i < system.len() {
            system[i]
        } else {
            0
        };
        let right = if i < mic.len() {
            mic[i]
        } else {
            0
        };
        out.push(left);
        out.push(right);
        i += 1;
    }
    assert(out@ =~= interleaved(system@, mic@));
    out
}

/// Item `i` of a channel, or `silence` past its end.
pub open spec fn item_or<T>(channel: Seq<T>, i: int, silence: T) -> T {
    if 0 <= i < channel.len() {
        channel[i]
    } else {
        silence
    }
}

/// Turns one buffer per channel into one interleaved buffer, whatever the
/// items are. The first channel sets the number of frames; a shorter channel
/// is continued with `silence`. Frame `f` of channel `c` lands at position
/// `f * channels + c`.
pub fn reinterleave<T: Copy>(planes: &Vec<Vec<T>>, silence: T) -> (out: Vec<T>)
    ensures
        planes@.len() == 0 ==> out@.len() == 0,
        planes@.len() > 0 ==> out@.len() == planes@[0]@.len() * planes@.len(),
        forall|f: int, c: int|
            0 <= c < planes@.len() && 0 <= f < planes@[0]@.len() ==> #[trigger] out@[f
                * planes@.len() + c] == item_or(planes@[c]@, f, silence),
{
    let mut out: Vec<T> = Vec::new();
    let width = planes.len();
    if width == 0 {
        return out;
    }
    let frames = planes[0].len();
    let mut f: usize = 0;
    while f < frames
        invariant
            f <= frames == planes@[0]@.len(),
            0 < width == planes@.len(),
            out@.len() == f * width,
            forall|g: int, c: int|
                0 <= c < width && 0 <= g < f ==> #[trigger] out@[g * width + c] == item_or(
                    planes@[c]@,
                    g,
                    silence,
                ),
        decreases frames - f,
    {
        let mut c: usize = 0;
        while c < width
            invariant
                c <= width == planes@.len(),
                f < frames,
                out@.len() == f * width + c,
                forall|g: int, d: int|
                    0 <= d < width && 0 <= g < f ==> #[trigger] out@[g * width + d] == item_or(
                        planes@[d]@,
                        g,
                        silence,
                    ),
                forall|d: int|
                    0 <= d < c ==> #[trigger] out@[f * width + d] == item_or(
                        planes@[d]@,
                        f as int,
                        silence,
                    ),
            decreases width - c,
        {
            let plane = &planes[c];
            let value = if f < plane.len() {
                plane[f]
            } else {
                silence
            };
            let ghost before = out@;
            out.push(value);
            proof {
                assert forall|g: int, d: int| 0 <= d < width && 0 <= g < f implies #[trigger] out@[g
                    * width + d] == item_or(planes@[d]@, g, silence) by {
                    assert(g * width + d < f * width) by (nonlinear_arith)
                        requires
                            0 <= d < width,
                            0 <= g < f,
                    ;
                    assert(out@[g * width + d] == before[g * width + d]);
                }
            }
            c += 1;
        }
        proof {
            assert((f + 1) * width == f * width + width) by (nonlinear_arith);
            assert forall|g: int, d: int| 0 <= d < width && 0 <= g < f + 1 implies #[trigger] out@[g
                * width + d] == item_or(planes@[d]@, g, silence) by {
                if g == f {
                } else {
                }
            }
        }
        f += 1;
    }
    out
}

} // verus!
