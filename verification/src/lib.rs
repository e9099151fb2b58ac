//! A real-time synthetic-noise signal generator.
//!
//! The engine produces a stream of audio samples: band-limited random noise
//! shaped by a fade-in / hold / fade-out volume envelope, plus an alternative
//! additive-synthesis "pink" hum built from weighted harmonics.  All sample
//! values and envelope amplitudes are exact rational numbers, so every step
//! of the per-sample arithmetic carries a precise contract; the host converts
//! the rationals to device samples at the output boundary.

use vstd::prelude::*;

use crate::audio_processor::{
    colored_run, envelope_len_wf, lemma_colored_run_len, same_voice_ranges, AudioProcessor,
};
use crate::ratio::{frac_zero, Frac, Ratio};

pub mod audio_processor;
pub mod noise_config;
pub mod noise_element;
pub mod ratio;
pub mod utils;

verus! {

/// Errors that construction-time validation can report.
#[derive(Clone, Copy, Debug, PartialEq, Eq, Structural)]
pub enum NoiseError {
    /// A noise voice was given an empty or inverted value range.
    InvalidRange,
    /// The entropy source failed; no noise voice can be built without it.
    Entropy,
    /// A noise-type selector string named no known noise type.
    UnknownNoiseType,
}

/// Fills one output buffer from the engine: one banded-noise sample per
/// frame, replicated across all channels of that frame.  The host calls this
/// only while it holds the engine; when it cannot acquire the engine it
/// emits [`silent_frames`] instead, so the real-time callback never waits.
pub fn render_frames(
    processor: &mut AudioProcessor,
    frames: usize,
    channels: usize,
    fade_in: Ratio,
    sustain: Ratio,
    fade_out: Ratio,
) -> (out: Vec<Ratio>)
    requires
        old(processor).wf(),
        envelope_len_wf(fade_in),
        envelope_len_wf(sustain),
        envelope_len_wf(fade_out),
        channels >= 1,
        frames * channels <= usize::MAX,
        old(processor).seconds_gone_by + frames <= usize::MAX,
    ensures
        final(processor).wf(),
        final(processor)@ == colored_run(
            old(processor)@,
            fade_in@,
            sustain@,
            fade_out@,
            frames as nat,
        ).0,
        final(processor).sample_rate == old(processor).sample_rate,
        same_voice_ranges(old(processor), final(processor)),
        colored_run(old(processor)@, fade_in@, sustain@, fade_out@, frames as nat).1.len()
            == frames,
        out@.len() == frames * channels,
        forall|k: int|
            0 <= k < out@.len() ==> (#[trigger] out@[k])@ == colored_run(
                old(processor)@,
                fade_in@,
                sustain@,
                fade_out@,
                frames as nat,
            ).1[k / (channels as int)],
{
    let ghost run = colored_run(old(processor)@, fade_in@, sustain@, fade_out@, frames as nat);
    proof {
        lemma_colored_run_len(old(processor)@, fade_in@, sustain@, fade_out@, frames as nat);
    }
    let ghost mut done: Seq<Frac> = Seq::empty();
    let mut out: Vec<Ratio> = Vec::new();
    let mut f: usize = 0;
    while f < frames
        invariant
            processor.wf(),
            processor.sample_rate == old(processor).sample_rate,
            same_voice_ranges(old(processor), processor),
            envelope_len_wf(fade_in),
            envelope_len_wf(sustain),
            envelope_len_wf(fade_out),
            channels >= 1,
            f <= frames,
            processor.seconds_gone_by as int <= old(processor).seconds_gone_by + f,
            old(processor).seconds_gone_by + frames <= usize::MAX,
            run == colored_run(old(processor)@, fade_in@, sustain@, fade_out@, frames as nat),
            done.len() == f,
            run.0 == colored_run(
                processor@,
                fade_in@,
                sustain@,
                fade_out@,
                (frames - f) as nat,
            ).0,
            run.1 == done + colored_run(
                processor@,
                fade_in@,
                sustain@,
                fade_out@,
                (frames - f) as nat,
            ).1,
            out@.len() == f * channels,
            forall|k: int|
                0 <= k < out@.len() ==> (#[trigger] out@[k])@ == done[k / (channels as int)],
        decreases frames - f,
    {
        let ghost prev = processor@;
        let ghost remaining = (frames - f) as nat;
        let sample = processor.colored_noise(fade_in, sustain, fade_out);
        let mut c: usize = 0;
        while c < channels
            invariant
                c <= channels,
                out@.len() == f * channels + c,
                forall|k: int|
                    0 <= k < f * channels ==> (#[trigger] out@[k])@ == done[k / (
                    channels as int)],
                forall|k: int|
                    f * channels <= k < out@.len() ==> (#[trigger] out@[k])@ == sample@,
            decreases channels - c,
        {
            out.push(sample);
            c = c + 1;
        }
        proof {
            assert((f + 1) * channels == f * channels + channels) by (nonlinear_arith);
            done = done.push(sample@);
            let rest = colored_run(processor@, fade_in@, sustain@, fade_out@, (remaining
                - 1) as nat);
            assert(colored_run(prev, fade_in@, sustain@, fade_out@, remaining).1 == seq![sample@]
                + rest.1);
            assert(done.drop_last() + (seq![sample@] + rest.1) =~= done + rest.1);
            assert forall|k: int|
                0 <= k < out@.len() implies (#[trigger] out@[k])@ == done[k / (
            channels as int)] by {
                if f * channels <= k {
                    vstd::arithmetic::div_mod::lemma_fundamental_div_mod_converse(
                        k,
                        channels as int,
                        f as int,
                        k - f * channels,
                    );
                } else {
                    vstd::arithmetic::div_mod::lemma_mod_bound(k, channels as int);
                    vstd::arithmetic::div_mod::lemma_fundamental_div_mod(k, channels as int);
                    assert(0 <= k / (channels as int) < f as int) by (nonlinear_arith)
                        requires
                            0 <= k < f * channels,
                            channels >= 1,
                            k == (channels as int) * (k / (channels as int)) + k % (
                            channels as int),
                            0 <= k % (channels as int) < channels,
                    ;
                }
            }
        }
        f = f + 1;
    }
    proof {
        assert(run.1 =~= done);
    }
    out
}

/// One output buffer of pure silence: what the delivery layer hands the
/// device for a buffer during which the engine could not be acquired.  Every
/// sample of every channel is exactly zero.
pub fn silent_frames(frames: usize, channels: usize) -> (out: Vec<Ratio>)
    requires
        frames * channels <= usize::MAX,
    ensures
        out@.len() == frames * channels,
        forall|k: int| 0 <= k < out@.len() ==> (#[trigger] out@[k])@ == frac_zero(),
{
    let total = frames * channels;
    let mut out: Vec<Ratio> = Vec::new();
    let mut k: usize = 0;
    while k < total
        invariant
            k <= total,
            out@.len() == k,
            forall|j: int| 0 <= j < out@.len() ==> (#[trigger] out@[j])@ == frac_zero(),
        decreases total - k,
    {
        out.push(Ratio { num: 0, den: 1 });
        k = k + 1;
    }
    out
}

} // verus!
