//! Rate conversion by linear interpolation between neighbouring frames.
//!
//! The resampler works out which two input frames every output frame lies
//! between and how far along; the interpolation itself is done by a kernel
//! that the caller supplies for its sample type. Positions are kept as exact
//! fractions, so the output length and every index are exact.

use crate::types::AudioError;
use vstd::prelude::*;
use vstd::slice::slice_to_vec;

verus! {

/// Number of output frames for `frames` input frames: `frames * target /
/// source`, rounded up. Zero where the source rate is zero.
pub open spec fn frames_out(source_rate: nat, target_rate: nat, frames: nat) -> nat {
    if source_rate == 0 {
        0
    } else {
        ((frames * target_rate + source_rate - 1) / (source_rate as int)) as nat
    }
}

/// Input frame at or before the place of output frame `out_frame`.
pub open spec fn tap_lower(source_rate: nat, target_rate: nat, out_frame: nat) -> nat {
    (out_frame * source_rate) / target_rate
}

/// How far output frame `out_frame` lies past `tap_lower`, in parts of
/// `target_rate`.
pub open spec fn tap_fraction(source_rate: nat, target_rate: nat, out_frame: nat) -> nat {
    (out_frame * source_rate) % target_rate
}

/// Input frame after `lower`, or `lower` itself where it is the last one.
pub open spec fn tap_upper(lower: nat, frames: nat) -> nat {
    if lower + 1 < frames {
        lower + 1
    } else {
        lower
    }
}

/// The output length is the rounded-up quotient: it covers the input, and one
/// frame fewer would not.
pub proof fn lemma_frames_out_is_ceiling(source_rate: nat, target_rate: nat, frames: nat)
    requires
        source_rate > 0,
    ensures
        frames_out(source_rate, target_rate, frames) * source_rate >= frames * target_rate,
        frames_out(source_rate, target_rate, frames) * source_rate < frames * target_rate
            + source_rate,
{
    let n = (frames * target_rate + source_rate - 1) as int;
    let d = source_rate as int;
    assert(n >= 0) by (nonlinear_arith)
        requires
            n == frames * target_rate + source_rate - 1,
            source_rate > 0,
    ;
    assert(n == d * (n / d) + n % d && 0 <= n % d < d && n / d >= 0) by (nonlinear_arith)
        requires
            d > 0,
            n >= 0,
    ;
    assert((n / d) * d == d * (n / d)) by (nonlinear_arith);
}

/// Every output frame lies at or after an input frame that exists, and its
/// fraction is a proper one.
pub proof fn lemma_tap_in_bounds(source_rate: nat, target_rate: nat, frames: nat, out_frame: nat)
    requires
        source_rate > 0,
        out_frame < frames_out(source_rate, target_rate, frames),
    ensures
        target_rate > 0,
        tap_lower(source_rate, target_rate, out_frame) < frames,
        tap_upper(tap_lower(source_rate, target_rate, out_frame), frames) < frames,
        tap_fraction(source_rate, target_rate, out_frame) < target_rate,
{
    lemma_frames_out_is_ceiling(source_rate, target_rate, frames);
    let out = frames_out(source_rate, target_rate, frames) as int;
    let s = source_rate as int;
    let t = target_rate as int;
    let f = frames as int;
    let j = out_frame as int;
    if t == 0 {
        assert(f * t == 0) by (nonlinear_arith)
            requires
                t == 0,
        ;
        assert(out * s < s ==> out <= 0) by (nonlinear_arith)
            requires
                s > 0,
        ;
    }
    assert(j * s < f * t) by (nonlinear_arith)
        requires
            0 <= j < out,
            s > 0,
            out * s < f * t + s,
    ;
    let n = j * s;
    assert(n >= 0) by (nonlinear_arith)
        requires
            n == j * s,
            j >= 0,
            s > 0,
    ;
    assert(n == t * (n / t) + n % t && 0 <= n % t < t) by (nonlinear_arith)
        requires
            t > 0,
            n >= 0,
    ;
    assert(n / t < f) by (nonlinear_arith)
        requires
            n == t * (n / t) + n % t,
            0 <= n % t,
            n < f * t,
            t > 0,
    ;
    assert(n / t >= 0) by (nonlinear_arith)
        requires
            n >= 0,
            t > 0,
    ;
}

/// Where the two rates are the same, the output is as long as the input and
/// every output frame lies exactly on the input frame of the same number.
pub proof fn lemma_same_rate_is_identity(rate: nat, frames: nat, out_frame: nat)
    requires
        rate > 0,
    ensures
        frames_out(rate, rate, frames) == frames,
        tap_lower(rate, rate, out_frame) == out_frame,
        tap_fraction(rate, rate, out_frame) == 0,
{
    let r = rate as int;
    let f = frames as int;
    let j = out_frame as int;
    assert((f * r + r - 1) / r == f) by (nonlinear_arith)
        requires
            r > 0,
            f >= 0,
    ;
    assert((j * r) / r == j && (j * r) % r == 0) by (nonlinear_arith)
        requires
            r > 0,
            j >= 0,
    ;
}

/// A resampler from one rate to another for interleaved audio.
#[derive(Debug, Clone, Copy, PartialEq, Eq, Structural)]
pub struct LinearResampler {
    pub source_rate: u32,
    pub target_rate: u32,
    pub channels: u16,
}

impl LinearResampler {
    pub fn new(source_rate: u32, target_rate: u32, channels: u16) -> (resampler: Self)
        ensures
            resampler.source_rate == source_rate,
            resampler.target_rate == target_rate,
            resampler.channels == channels,
    {
        LinearResampler { source_rate, target_rate, channels }
    }

    /// The two rates are the same, so there is nothing to convert.
    pub open spec fn is_identity(self) -> bool {
        self.source_rate == self.target_rate
    }

    /// Whole frames in an input of `len` samples.
    pub open spec fn input_frames(self, len: nat) -> nat {
        if self.channels == 0 {
            0
        } else {
            len / (self.channels as nat)
        }
    }

    /// Output frames for an input of `len` samples.
    pub open spec fn output_frames(self, len: nat) -> nat {
        frames_out(self.source_rate as nat, self.target_rate as nat, self.input_frames(len))
    }

    /// The resampler can convert an input of `len` samples: it has a source
    /// rate and at least one channel, and the output fits in memory.
    pub open spec fn can_convert(self, len: nat) -> bool {
        &&& self.source_rate > 0
        &&& self.channels > 0
        &&& self.output_frames(len) * self.channels <= usize::MAX
    }

    /// Number of frames that come out for `input_frames` frames going in, or
    /// `None` where the source rate is zero or the number does not fit.
    pub fn frames_for(&self, input_frames: usize) -> (frames: Option<usize>)
        ensures
            match frames {
                Some(n) => self.source_rate > 0 && n == frames_out(
                    self.source_rate as nat,
                    self.target_rate as nat,
                    input_frames as nat,
                ),
                None => self.source_rate == 0 || frames_out(
                    self.source_rate as nat,
                    self.target_rate as nat,
                    input_frames as nat,
                ) > usize::MAX,
            },
    {
        if self.source_rate == 0 {
            return None;
        }
        assert(input_frames * self.target_rate + self.source_rate - 1 <= u128::MAX
            && input_frames * self.target_rate >= 0) by (nonlinear_arith)
            requires
                input_frames <= u64::MAX,
                self.target_rate <= u32::MAX,
                self.source_rate <= u32::MAX,
        ;
        let scaled: u128 = (input_frames as u128) * (self.target_rate as u128) + (
        self.source_rate as u128 - 1);
        let frames: u128 = scaled / (self.source_rate as u128);
        if frames > usize::MAX as u128 {
            None
        } else {
            Some(frames as usize)
        }
    }

    /// Converts interleaved samples from the source rate to the target rate.
    ///
    /// Where the rates are the same the input comes back unchanged. Else
    /// output frame `j` lies at `j * source_rate / target_rate` in the input;
    /// each of its samples is what `blend` makes of the sample of the same
    /// channel in the frame at or before that place, the one in the frame
    /// after it (the same frame at the very end), and the fraction between
    /// them as numerator and denominator. Samples after the last whole input
    /// frame are ignored.
    pub fn process<T: Copy, F: Fn(T, T, u32, u32) -> T>(&self, input: &[T], blend: F) -> (outcome:
        Result<Vec<T>, AudioError>)
        requires
            forall|a: T, b: T, n: u32|
                n < self.target_rate ==> call_requires(blend, (a, b, n, self.target_rate)),
        ensures
            match outcome {
                Ok(output) => self.converts(input@, blend, output@),
                Err(error) => {
                    &&& !self.is_identity()
                    &&& !self.can_convert(input@.len())
                    &&& error is InvalidFormat
                },
            },
    {
        if self.source_rate == self.target_rate {
            return Ok(slice_to_vec(input));
        }
        if self.source_rate == 0 {
            return Err(AudioError::InvalidFormat("Source sample rate is zero".to_owned()));
        }
        if self.channels == 0 {
            return Err(AudioError::InvalidFormat("Channel count is zero".to_owned()));
        }
        let channels = self.channels as usize;
        let frames = input.len() / channels;
        let out_frames = match self.frames_for(frames) {
            Some(n) => n,
            None => {
                assert(self.output_frames(input@.len()) * self.channels > usize::MAX)
                    by (nonlinear_arith)
                    requires
                        self.output_frames(input@.len()) > usize::MAX,
                        self.channels >= 1,
                ;
                return Err(AudioError::InvalidFormat("Converted audio is too long".to_owned()));
            },
        };
        let out_len = match out_frames.checked_mul(channels) {
            Some(n) => n,
            None => {
                return Err(AudioError::InvalidFormat("Converted audio is too long".to_owned()));
            },
        };
        let mut output: Vec<T> = Vec::new();
        let mut j: usize = 0;
        assert(frames * channels <= input@.len()) by (nonlinear_arith)
            requires
                frames == input@.len() / (channels as nat),
                channels > 0,
        ;
        while j < out_frames
            invariant
                j <= out_frames,
                channels == self.channels,
                channels > 0,
                self.source_rate > 0,
                frames == self.input_frames(input@.len()),
                frames * channels <= input@.len(),
                input@.len() <= usize::MAX,
                out_frames == self.output_frames(input@.len()),
                out_frames * channels == out_len,
                output@.len() == j * channels,
                forall|a: T, b: T, n: u32|
                    n < self.target_rate ==> call_requires(blend, (a, b, n, self.target_rate)),
                forall|k: int, c: int|
                    0 <= k < j && 0 <= c < channels ==> self.blended(
                        input@,
                        blend,
                        k,
                        c,
                        #[trigger] output@[k * channels + c],
                    ),
            decreases out_frames - j,
        {
            proof {
                lemma_tap_in_bounds(
                    self.source_rate as nat,
                    self.target_rate as nat,
                    frames as nat,
                    j as nat,
                );
                assert(j * self.source_rate <= u128::MAX && j * self.source_rate >= 0)
                    by (nonlinear_arith)
                    requires
                        j <= u64::MAX,
                        self.source_rate <= u32::MAX,
                ;
            }
            let place: u128 = (j as u128) * (self.source_rate as u128);
            let lower = (place / (self.target_rate as u128)) as usize;
            let fraction = (place % (self.target_rate as u128)) as u32;
            let upper = if lower + 1 < frames {
                lower + 1
            } else {
                lower
            };
            proof {
                assert(lower * channels + channels <= frames * channels && upper * channels
                    + channels <= frames * channels && j * channels + channels <= out_frames
                    * channels) by (nonlinear_arith)
                    requires
                        lower < frames,
                        upper < frames,
                        j < out_frames,
                        channels > 0,
                ;
                assert(0 <= lower * channels && 0 <= upper * channels) by (nonlinear_arith);
            }
            let ghost done = output@;
            let mut c: usize = 0;
            while c < channels
                invariant
                    c <= channels,
                    channels == self.channels,
                    j < out_frames,
                    lower < frames,
                    upper < frames,
                    lower == tap_lower(self.source_rate as nat, self.target_rate as nat, j as nat),
                    upper == tap_upper(lower as nat, self.input_frames(input@.len())),
                    fraction == tap_fraction(
                        self.source_rate as nat,
                        self.target_rate as nat,
                        j as nat,
                    ),
                    fraction < self.target_rate,
                    frames == self.input_frames(input@.len()),
                    lower * channels + channels <= frames * channels,
                    upper * channels + channels <= frames * channels,
                    frames * channels <= input@.len(),
                    input@.len() <= usize::MAX,
                    0 <= lower * channels,
                    0 <= upper * channels,
                    j * channels + channels <= out_frames * channels,
                    out_frames * channels == out_len,
                    output@.len() == j * channels + c,
                    done.len() == j * channels,
                    forall|i: int| 0 <= i < done.len() ==> output@[i] == done[i],
                    forall|a: T, b: T, n: u32|
                        n < self.target_rate ==> call_requires(blend, (a, b, n, self.target_rate)),
                    forall|d: int|
                        0 <= d < c ==> self.blended(
                            input@,
                            blend,
                            j as int,
                            d,
                            #[trigger] output@[j * channels + d],
                        ),
                decreases channels - c,
            {
                let before = input[lower * channels + c];
                let after = input[upper * channels + c];
                let sample = blend(before, after, fraction, self.target_rate);
                output.push(sample);
                c += 1;
            }
            proof {
                assert forall|k: int, d: int| 0 <= k < j + 1 && 0 <= d < channels implies self.blended(
                    input@,
                    blend,
                    k,
                    d,
                    #[trigger] output@[k * channels + d],
                ) by {
                    if k < j {
                        assert(k * channels + d < j * channels) by (nonlinear_arith)
                            requires
                                0 <= k < j,
                                0 <= d < channels,
                        ;
                        assert(output@[k * channels + d] == done[k * channels + d]);
                    }
                }
                assert((j + 1) * channels == j * channels + channels) by (nonlinear_arith);
            }
            j += 1;
        }
        Ok(output)
    }

    /// `output` is `input` brought from the source rate to the target rate
    /// with `blend` as the interpolation: the same samples where the rates are
    /// the same; else a conversion that is possible, of the exact length, each
    /// sample blended from the two input samples around its place.
    pub open spec fn converts<T, F: Fn(T, T, u32, u32) -> T>(
        self,
        input: Seq<T>,
        blend: F,
        output: Seq<T>,
    ) -> bool {
        if self.is_identity() {
            output == input
        } else {
            &&& self.can_convert(input.len())
            &&& output.len() == self.output_frames(input.len()) * self.channels
            &&& forall|j: int, c: int|
                0 <= j < self.output_frames(input.len()) && 0 <= c < self.channels
                    ==> self.blended(input, blend, j, c, #[trigger] output[j * self.channels + c])
        }
    }

    /// The sample `value` is what `blend` makes of the two input samples that
    /// output frame `out_frame` lies between on channel `channel`.
    pub open spec fn blended<T, F: Fn(T, T, u32, u32) -> T>(
        self,
        input: Seq<T>,
        blend: F,
        out_frame: int,
        channel: int,
        value: T,
    ) -> bool {
        let lower = tap_lower(self.source_rate as nat, self.target_rate as nat, out_frame as nat);
        let upper = tap_upper(lower, self.input_frames(input.len()));
        let fraction = tap_fraction(
            self.source_rate as nat,
            self.target_rate as nat,
            out_frame as nat,
        );
        call_ensures(
            blend,
            (
                input[lower * self.channels + channel],
                input[upper * self.channels + channel],
                fraction as u32,
                self.target_rate,
            ),
            value,
        )
    }

    /// Forgets what went before. Every call of `process` stands alone, so
    /// there is nothing to forget and the resampler stays as it is.
    pub fn reset(&mut self)
        ensures
            *final(self) == *old(self),
    {
    }
}

} // verus!
