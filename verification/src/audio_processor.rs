//! The signal engine.
//!
//! The engine owns a sample clock, an elapsed-seconds counter and three noise
//! voices.  Once per output sample it advances the clock, evaluates the
//! envelope, asks each voice for its value, and mixes.  It also exposes an
//! additive-synthesis hum built from ten weighted harmonics.

use vstd::prelude::*;

use crate::noise_element::{
    lemma_voice_out_within, lemma_voice_values_within_eq, lemma_voice_values_within_half_width,
    voice_out, voice_step, voice_values_within, NoiseElement, VoiceModel,
};
use crate::ratio::{
    frac_add, frac_div, frac_eq, frac_int, frac_le, frac_lt, frac_mul, frac_neg, frac_one,
    frac_sub, frac_wf, frac_zero, lemma_frac_add_abs_bound, lemma_frac_add_increases,
    lemma_frac_cmp_parts, lemma_frac_eq_le_left, lemma_frac_le_eq_right, lemma_frac_le_trans,
    lemma_frac_mul_scale_bound, lemma_frac_mul_unit_bound, lemma_frac_sub_parts,
    lemma_mul_bounds, lemma_pos_mul_pos, Frac, Ratio,
};
use crate::utils::{
    amp_fade_in_frac, amp_fade_out_frac, fade_in_frac, fade_out_frac, get_amp_for_fade_in,
    get_amp_for_fade_out, half_width_frac, is_noise_sample, lemma_fade_den_bound,
    lemma_fade_frac_unit, lemma_interpolate_bounds, noise_sample_frac, seq_frac,
};
use crate::NoiseError;

verus! {

/// The largest sample rate the engine accepts; it keeps the per-sample
/// arithmetic comfortably inside `i128`.
pub const MAX_SAMPLE_RATE: usize = 0x40000;

/// Bound on an envelope stage length's numerator (so stages are at most
/// `4096` seconds long).
pub const ENVELOPE_NUM_BOUND: i128 = 4096;

/// Bound on an envelope stage length's denominator (so stages are resolved
/// to at worst `1/256` of a second).
pub const ENVELOPE_DEN_BOUND: i128 = 256;

/// Bound on the numerator of any value in an engine voice's buffer.
pub const VOICE_NUM_BOUND: i128 = 20400;

/// Bound on the denominator of any value in an engine voice's buffer.
pub const VOICE_DEN_BOUND: i128 = 51000;

/// Bound on the denominator of the envelope amplitude the engine computes.
pub const AMP_DEN_BOUND: i128 = 0x800_0000_0000_0000_0000;

/// An envelope stage length the engine can mix with: a non-negative duration
/// within the arithmetic headroom bounds.
pub open spec fn envelope_len_wf(r: Ratio) -> bool {
    &&& r.wf()
    &&& 0 <= r.num <= ENVELOPE_NUM_BOUND
    &&& r.den <= ENVELOPE_DEN_BOUND
}

/// Every value in the voice's buffer lies within the engine's mixing bounds.
pub open spec fn voice_bounded(v: &NoiseElement) -> bool {
    forall|k: int|
        0 <= k < v.random_vec@.len() ==> -VOICE_NUM_BOUND <= (#[trigger] v.random_vec@[k]).num
            <= VOICE_NUM_BOUND && 1 <= v.random_vec@[k].den <= VOICE_DEN_BOUND
}

/// The default engine's voices were drawn over the documented value ranges:
/// `(-1, 1)`, `(-0.3, 0.5)` and `(-0.5, 0.3)`.
pub open spec fn default_voice_ranges(p: &AudioProcessor) -> bool {
    &&& p.noise_element_1.range_min@ == (Frac { n: -1, d: 1 })
    &&& p.noise_element_1.range_max@ == (Frac { n: 1, d: 1 })
    &&& p.noise_element_2.range_min@ == (Frac { n: -3, d: 10 })
    &&& p.noise_element_2.range_max@ == (Frac { n: 5, d: 10 })
    &&& p.noise_element_3.range_min@ == (Frac { n: -5, d: 10 })
    &&& p.noise_element_3.range_max@ == (Frac { n: 3, d: 10 })
}

/// The two engines' voices were drawn over the same value ranges; the
/// generator calls never change a voice's range, so range-derived bounds
/// carry from sample to sample.
pub open spec fn same_voice_ranges(a: &AudioProcessor, b: &AudioProcessor) -> bool {
    &&& a.noise_element_1.range_min == b.noise_element_1.range_min
    &&& a.noise_element_1.range_max == b.noise_element_1.range_max
    &&& a.noise_element_2.range_min == b.noise_element_2.range_min
    &&& a.noise_element_2.range_max == b.noise_element_2.range_max
    &&& a.noise_element_3.range_min == b.noise_element_3.range_min
    &&& a.noise_element_3.range_max == b.noise_element_3.range_max
}

/// The mathematical state of the engine.
pub ghost struct ProcModel {
    pub rate: nat,
    pub clock: nat,
    pub seconds: nat,
    pub v1: VoiceModel,
    pub v2: VoiceModel,
    pub v3: VoiceModel,
}

/// One tick of the sample clock: the elapsed-seconds counter increments on
/// the sample that completes the second, then the clock wraps to zero.
pub open spec fn clock_step(m: ProcModel) -> ProcModel {
    ProcModel {
        clock: (m.clock + 1) % m.rate,
        seconds: if m.clock + 1 == m.rate {
            m.seconds + 1
        } else {
            m.seconds
        },
        ..m
    }
}

/// The clock after `n` ticks.
pub open spec fn clock_steps(m: ProcModel, n: nat) -> ProcModel
    decreases n,
{
    if n == 0 {
        m
    } else {
        clock_steps(clock_step(m), (n - 1) as nat)
    }
}

/// Ticking the clock `a + b` times is ticking it `a` times, then `b` times.
pub proof fn lemma_clock_steps_add(m: ProcModel, a: nat, b: nat)
    ensures
        clock_steps(m, a + b) == clock_steps(clock_steps(m, a), b),
    decreases a,
{
    if a == 0 {
    } else {
        lemma_clock_steps_add(clock_step(m), (a - 1) as nat, b);
    }
}

/// As long as the clock does not reach the end of the second, ticking it `n`
/// times just adds `n`, and nothing else moves.
pub proof fn lemma_clock_steps_no_wrap(m: ProcModel, n: nat)
    requires
        m.rate >= 1,
        m.clock + n < m.rate,
    ensures
        clock_steps(m, n) == (ProcModel { clock: m.clock + n, ..m }),
    decreases n,
{
    if n == 0 {
        assert(clock_steps(m, 0) == m);
        assert(m == (ProcModel { clock: m.clock, ..m }));
    } else {
        assert(m.clock + 1 < m.rate);
        assert((m.clock + 1) % m.rate == m.clock + 1) by {
            vstd::arithmetic::div_mod::lemma_small_mod(m.clock + 1, m.rate);
        }
        assert(clock_step(m) == (ProcModel { clock: m.clock + 1, ..m }));
        lemma_clock_steps_no_wrap(clock_step(m), (n - 1) as nat);
    }
}

/// After exactly one second's worth of clock ticks, the elapsed-seconds
/// counter has increased by exactly one and the sample clock is back where
/// it started; the voices are untouched.
pub proof fn lemma_clock_wraparound(m: ProcModel)
    requires
        m.rate >= 1,
        m.clock < m.rate,
    ensures
        clock_steps(m, m.rate) == (ProcModel { seconds: m.seconds + 1, ..m }),
{
    let to_wrap = (m.rate - 1 - m.clock) as nat;
    lemma_clock_steps_no_wrap(m, to_wrap);
    let at_edge = clock_steps(m, to_wrap);
    assert(at_edge == (ProcModel { clock: (m.rate - 1) as nat, ..m }));
    assert((at_edge.clock + 1) % at_edge.rate == 0) by {
        vstd::arithmetic::div_mod::lemma_mod_self_0(m.rate as int);
    }
    let wrapped = clock_step(at_edge);
    assert(wrapped == (ProcModel { clock: 0, seconds: m.seconds + 1, ..m }));
    lemma_clock_steps_add(m, to_wrap, 1);
    assert(clock_steps(at_edge, 1) == clock_steps(wrapped, 0));
    assert(clock_steps(wrapped, 0) == wrapped);
    lemma_clock_steps_no_wrap(wrapped, m.clock);
    lemma_clock_steps_add(m, to_wrap + 1, m.clock);
    assert(to_wrap + 1 + m.clock == m.rate);
}

/// The signal engine: a sample clock, an elapsed-seconds counter, and three
/// stepped random-noise voices with cadences 5, 4 and 3.
pub struct AudioProcessor {
    /// Position within the current second, in samples; always below the rate.
    pub sample_clock: usize,
    /// Samples per second; fixed for the engine's lifetime.
    pub sample_rate: usize,
    pub noise_element_1: NoiseElement,
    pub noise_element_2: NoiseElement,
    pub noise_element_3: NoiseElement,
    /// Whole seconds of playback since generation began.
    pub seconds_gone_by: usize,
}

impl View for AudioProcessor {
    type V = ProcModel;

    open spec fn view(&self) -> ProcModel {
        ProcModel {
            rate: self.sample_rate as nat,
            clock: self.sample_clock as nat,
            seconds: self.seconds_gone_by as nat,
            v1: self.noise_element_1@,
            v2: self.noise_element_2@,
            v3: self.noise_element_3@,
        }
    }
}

impl AudioProcessor {
    /// The engine's internal invariant.
    pub open spec fn wf(&self) -> bool {
        &&& 1 <= self.sample_rate <= MAX_SAMPLE_RATE
        &&& self.sample_clock < self.sample_rate
        &&& self.noise_element_1.wf()
        &&& self.noise_element_2.wf()
        &&& self.noise_element_3.wf()
        &&& voice_bounded(&self.noise_element_1)
        &&& voice_bounded(&self.noise_element_2)
        &&& voice_bounded(&self.noise_element_3)
        &&& self.noise_element_1.sample_rate == self.sample_rate
        &&& self.noise_element_2.sample_rate == self.sample_rate
        &&& self.noise_element_3.sample_rate == self.sample_rate
    }

    /// Builds an engine with a zeroed clock and three fresh voices with
    /// cadences 5, 4 and 3 over the ranges `(-1, 1)`, `(-0.3, 0.5)` and
    /// `(-0.5, 0.3)`.  Fails only when the entropy source fails.
    pub fn new(sample_rate: usize) -> (r: Result<AudioProcessor, NoiseError>)
        requires
            1 <= sample_rate <= MAX_SAMPLE_RATE,
        ensures
            r is Ok ==> {
                let p = r->Ok_0;
                &&& p.wf()
                &&& p.sample_rate == sample_rate
                &&& p.sample_clock == 0
                &&& p.seconds_gone_by == 0
                &&& p@.v1.occ == 5 && p@.v1.idx == 0
                &&& p@.v2.occ == 4 && p@.v2.idx == 0
                &&& p@.v3.occ == 3 && p@.v3.idx == 0
                &&& default_voice_ranges(&p)
            },
            r is Err ==> r->Err_0 == NoiseError::Entropy,
    {
        let range_1_min = Ratio { num: -1, den: 1 };
        let range_1_max = Ratio { num: 1, den: 1 };
        let range_2_min = Ratio { num: -3, den: 10 };
        let range_2_max = Ratio { num: 5, den: 10 };
        let range_3_min = Ratio { num: -5, den: 10 };
        let range_3_max = Ratio { num: 3, den: 10 };
        proof {
            lemma_frac_cmp_parts(range_1_min@, range_1_max@, -1, 1, 1, 1);
            lemma_frac_cmp_parts(range_2_min@, range_2_max@, -3, 10, 5, 10);
            lemma_frac_cmp_parts(range_3_min@, range_3_max@, -5, 10, 3, 10);
        }
        let noise_element_1 = match NoiseElement::new(5, &range_1_min, &range_1_max, sample_rate) {
            Ok(v) => v,
            Err(e) => {
                return Err(e);
            },
        };
        let noise_element_2 = match NoiseElement::new(4, &range_2_min, &range_2_max, sample_rate) {
            Ok(v) => v,
            Err(e) => {
                return Err(e);
            },
        };
        let noise_element_3 = match NoiseElement::new(3, &range_3_min, &range_3_max, sample_rate) {
            Ok(v) => v,
            Err(e) => {
                return Err(e);
            },
        };
        proof {
            lemma_frac_sub_parts(range_1_max@, range_1_min@, 1, 1, -1, 1);
            lemma_frac_sub_parts(range_2_max@, range_2_min@, 5, 10, -3, 10);
            lemma_frac_sub_parts(range_3_max@, range_3_min@, 3, 10, -5, 10);
            lemma_engine_voice_bounded(&noise_element_1);
            lemma_engine_voice_bounded(&noise_element_2);
            lemma_engine_voice_bounded(&noise_element_3);
        }
        let processor = AudioProcessor {
            sample_clock: 0,
            sample_rate,
            noise_element_1,
            noise_element_2,
            noise_element_3,
            seconds_gone_by: 0,
        };
        proof {
            assert(default_voice_ranges(&processor));
        }
        Ok(processor)
    }

    /// One tick of the sample clock.  The elapsed-seconds counter increments
    /// exactly on the sample that completes the current second; then the
    /// clock wraps to zero.
    pub fn increment_sample_clock(&mut self)
        requires
            old(self).wf(),
            old(self).seconds_gone_by < usize::MAX,
        ensures
            final(self).wf(),
            final(self)@ == clock_step(old(self)@),
            final(self).sample_rate == old(self).sample_rate,
            final(self).noise_element_1 == old(self).noise_element_1,
            final(self).noise_element_2 == old(self).noise_element_2,
            final(self).noise_element_3 == old(self).noise_element_3,
            final(self).seconds_gone_by <= old(self).seconds_gone_by + 1,
    {
        let incremented_sample_clock = self.sample_clock + 1;
        if incremented_sample_clock == self.sample_rate {
            self.seconds_gone_by = self.seconds_gone_by + 1;
        }
        self.sample_clock = incremented_sample_clock % self.sample_rate;
        proof {
            if incremented_sample_clock == self.sample_rate {
                vstd::arithmetic::div_mod::lemma_mod_self_0(self.sample_rate as int);
            } else {
                vstd::arithmetic::div_mod::lemma_small_mod(
                    incremented_sample_clock as nat,
                    self.sample_rate as nat,
                );
            }
        }
    }

    /// One sample of the banded-noise generator: tick the clock, evaluate
    /// the envelope stage for the new position, pull one value from each of
    /// the three voices, average them and scale by the envelope amplitude.
    pub fn colored_noise(&mut self, fade_in: Ratio, sustain: Ratio, fade_out: Ratio) -> (r: Ratio)
        requires
            old(self).wf(),
            old(self).seconds_gone_by < usize::MAX,
            envelope_len_wf(fade_in),
            envelope_len_wf(sustain),
            envelope_len_wf(fade_out),
        ensures
            final(self).wf(),
            final(self)@ == colored_step_model(old(self)@),
            final(self).sample_rate == old(self).sample_rate,
            final(self).seconds_gone_by <= old(self).seconds_gone_by + 1,
            same_voice_ranges(old(self), final(self)),
            r@ == colored_out_frac(old(self)@, fade_in@, sustain@, fade_out@),
            r.wf(),
    {
        self.increment_sample_clock();
        let sample_clock = self.sample_clock;
        let seconds = self.seconds_gone_by;
        let s_ratio = Ratio { num: seconds as i128, den: 1 };
        proof {
            lemma_mul_bounds(seconds as int, fade_in.den as int, 0xFFFF_FFFF_FFFF_FFFF, 256);
            lemma_mul_bounds(fade_in.num as int, 1, 4096, 1);
            lemma_mul_bounds(fade_in.num as int, sustain.den as int, 4096, 256);
            lemma_mul_bounds(sustain.num as int, fade_in.den as int, 4096, 256);
            lemma_mul_bounds(fade_in.den as int, sustain.den as int, 256, 256);
            vstd::arithmetic::mul::lemma_mul_nonnegative(
                fade_in.num as int,
                sustain.den as int,
            );
            vstd::arithmetic::mul::lemma_mul_nonnegative(
                sustain.num as int,
                fade_in.den as int,
            );
        }
        let fi_su = fade_in.add(&sustain);
        proof {
            lemma_mul_bounds(fi_su.num as int, fade_out.den as int, 2_097_152, 256);
            lemma_mul_bounds(fade_out.num as int, fi_su.den as int, 4096, 65536);
            lemma_mul_bounds(fi_su.den as int, fade_out.den as int, 65536, 256);
            lemma_mul_bounds(seconds as int, fi_su.den as int, 0xFFFF_FFFF_FFFF_FFFF, 65536);
            lemma_mul_bounds(fi_su.num as int, 1, 2_097_152, 1);
        }
        let fi_su_fo = fi_su.add(&fade_out);
        proof {
            lemma_mul_bounds(seconds as int, fi_su_fo.den as int, 0xFFFF_FFFF_FFFF_FFFF, 0x100_0000);
            lemma_mul_bounds(fi_su_fo.num as int, 1, 0x4000_0000, 1);
        }
        let in_rising = s_ratio.lt(&fade_in);
        let in_hold = s_ratio.lt(&fi_su);
        let in_falling = s_ratio.lt(&fi_su_fo);
        let amp: Ratio;
        if in_rising {
            proof {
                assert(seconds < 4096) by (nonlinear_arith)
                    requires
                        (seconds as int) * fade_in@.d < fade_in@.n * 1,
                        fade_in@.n <= 4096,
                        fade_in@.d >= 1,
                        seconds >= 0,
                ;
            }
            amp = get_amp_for_fade_in(&fade_in, self.sample_rate, &s_ratio, sample_clock);
            proof {
                lemma_fade_den_bound(fade_in@, s_ratio@, 4096, 1);
                lemma_fade_den_bound(fade_in@, frac_add(s_ratio@, frac_one()), 4096, 1);
                assert(1 <= amp@.d <= AMP_DEN_BOUND) by (nonlinear_arith)
                    requires
                        amp@.d == fade_in_frac(fade_in@, s_ratio@).d * fade_in_frac(
                            fade_in@,
                            frac_add(s_ratio@, frac_one()),
                        ).d * (self.sample_rate as int),
                        1 <= fade_in_frac(fade_in@, s_ratio@).d <= 4097,
                        1 <= fade_in_frac(fade_in@, frac_add(s_ratio@, frac_one())).d <= 4097,
                        1 <= self.sample_rate <= 0x40000,
                        AMP_DEN_BOUND == 0x800_0000_0000_0000_0000,
                ;
            }
        } else if in_hold {
            amp = Ratio { num: 1, den: 1 };
        } else if in_falling {
            proof {
                assert(seconds <= 12288) by (nonlinear_arith)
                    requires
                        (seconds as int) * fi_su_fo@.d < fi_su_fo@.n * 1,
                        fi_su_fo@.n == fi_su@.n * fade_out@.d + fade_out@.n * fi_su@.d,
                        fi_su@.n == fade_in@.n * sustain@.d + sustain@.n * fade_in@.d,
                        fi_su_fo@.d == fi_su@.d * fade_out@.d,
                        fi_su@.d == fade_in@.d * sustain@.d,
                        0 <= fade_in@.n <= 4096,
                        1 <= fade_in@.d,
                        0 <= sustain@.n <= 4096,
                        1 <= sustain@.d,
                        0 <= fade_out@.n <= 4096,
                        1 <= fade_out@.d,
                        seconds >= 0,
                ;
                lemma_mul_bounds(seconds as int, fade_in.den as int, 12288, 256);
                lemma_mul_bounds(1, fade_in.den as int, 1, 256);
            }
            let rel1 = s_ratio.sub(&fade_in);
            proof {
                lemma_mul_bounds(rel1.num as int, sustain.den as int, 3_149_824, 256);
                lemma_mul_bounds(sustain.num as int, rel1.den as int, 4096, 256);
                lemma_mul_bounds(rel1.den as int, sustain.den as int, 256, 256);
            }
            let relative = rel1.sub(&sustain);
            amp = get_amp_for_fade_out(&fade_out, self.sample_rate, &relative, sample_clock);
            proof {
                lemma_fade_den_bound(fade_out@, relative@, 4096, 65536);
                lemma_fade_den_bound(fade_out@, frac_add(relative@, frac_one()), 4096, 65536);
                assert(1 <= amp@.d <= AMP_DEN_BOUND) by (nonlinear_arith)
                    requires
                        amp@.d == fade_out_frac(fade_out@, relative@).d * fade_out_frac(
                            fade_out@,
                            frac_add(relative@, frac_one()),
                        ).d * (self.sample_rate as int),
                        1 <= fade_out_frac(fade_out@, relative@).d <= 268435457,
                        1 <= fade_out_frac(fade_out@, frac_add(relative@, frac_one())).d
                            <= 268435457,
                        1 <= self.sample_rate <= 0x40000,
                        AMP_DEN_BOUND == 0x800_0000_0000_0000_0000,
                ;
            }
        } else {
            amp = Ratio { num: 0, den: 1 };
        }
        proof {
            assert(amp@ == colored_amp_frac(
                fade_in@,
                sustain@,
                fade_out@,
                self.sample_rate as int,
                sample_clock as int,
                seconds as int,
            ));
            assert(0 <= amp.num <= amp.den && 1 <= amp.den <= AMP_DEN_BOUND);
            lemma_voice_out_bounded(&self.noise_element_1, sample_clock as nat);
        }
        let n1 = self.noise_element_1.next(sample_clock);
        proof {
            lemma_voice_out_bounded(&self.noise_element_2, sample_clock as nat);
        }
        let n2 = self.noise_element_2.next(sample_clock);
        proof {
            lemma_voice_out_bounded(&self.noise_element_3, sample_clock as nat);
        }
        let n3 = self.noise_element_3.next(sample_clock);
        proof {
            lemma_mul_bounds(n1.num as int, n2.den as int, 20400, 51000);
            lemma_mul_bounds(n2.num as int, n1.den as int, 20400, 51000);
            lemma_mul_bounds(n1.den as int, n2.den as int, 51000, 51000);
        }
        let sum12 = n1.add(&n2);
        proof {
            lemma_mul_bounds(sum12.num as int, n3.den as int, 2_080_800_000, 51000);
            lemma_mul_bounds(n3.num as int, sum12.den as int, 20400, 2_601_000_000);
            lemma_mul_bounds(sum12.den as int, n3.den as int, 2_601_000_000, 51000);
        }
        let sum = sum12.add(&n3);
        let third = Ratio { num: 1, den: 3 };
        proof {
            lemma_mul_bounds(sum.num as int, 1, 159_181_200_000_000, 1);
            lemma_mul_bounds(sum.den as int, 3, 132_651_000_000_000, 3);
        }
        let scaled = sum.mul(&third);
        proof {
            lemma_mul_bounds(
                scaled.num as int,
                amp.num as int,
                159_181_200_000_000,
                AMP_DEN_BOUND as int,
            );
            lemma_mul_bounds(
                scaled.den as int,
                amp.den as int,
                397_953_000_000_000,
                AMP_DEN_BOUND as int,
            );
        }
        scaled.mul(&amp)
    }

    /// One sample's worth of the additive harmonic hum: tick the clock, then
    /// hand back the ten weighted harmonic terms for the new clock position.
    /// The terms depend on the sample rate and the sample clock alone.
    pub fn pink_noise(&mut self) -> (r: Vec<HarmonicTerm>)
        requires
            old(self).wf(),
            old(self).seconds_gone_by < usize::MAX,
        ensures
            final(self).wf(),
            final(self)@ == clock_step(old(self)@),
            final(self).sample_rate == old(self).sample_rate,
            final(self).noise_element_1 == old(self).noise_element_1,
            final(self).noise_element_2 == old(self).noise_element_2,
            final(self).noise_element_3 == old(self).noise_element_3,
            r@.len() == HARMONIC_COUNT,
            terms_view(r@) == harmonic_terms_frac(
                old(self).sample_rate as int,
                clock_step(old(self)@).clock as int,
            ),
            forall|j: int| 0 <= j < r@.len() ==> (#[trigger] r@[j]).phase.wf() && r@[j].amp.wf(),
    {
        self.increment_sample_clock();
        let sample_clock = self.sample_clock;
        let rate = self.sample_rate;
        let mut terms: Vec<HarmonicTerm> = Vec::new();
        let mut i: usize = 1;
        while i <= HARMONIC_COUNT
            invariant
                1 <= i <= HARMONIC_COUNT + 1,
                terms@.len() == i - 1,
                1 <= rate <= MAX_SAMPLE_RATE,
                sample_clock < rate,
                forall|j: int|
                    0 <= j < i - 1 ==> (#[trigger] terms@[j])@ == (HarmonicTermModel {
                        phase: harmonic_phase_frac(j + 1, rate as int, sample_clock as int),
                        amp: harmonic_amp_frac(j + 1),
                    }) && terms@[j].phase.wf() && terms@[j].amp.wf(),
            decreases HARMONIC_COUNT + 1 - i,
        {
            let idx = i as i128;
            proof {
                lemma_mul_bounds(idx as int, rate as int, 10, 0x40000);
                lemma_mul_bounds(sample_clock as int, idx as int * rate as int, 0x40000, 0x280000);
            }
            let freq_num = idx * (rate as i128);
            let phase = Ratio { num: (sample_clock as i128) * freq_num, den: 100 * (rate as i128) };
            let amp = Ratio { num: 1, den: idx };
            proof {
                assert(phase@ == harmonic_phase_frac(i as int, rate as int, sample_clock as int));
                assert(amp@ == harmonic_amp_frac(i as int));
            }
            terms.push(HarmonicTerm { phase, amp });
            i = i + 1;
        }
        proof {
            assert(terms_view(terms@) =~= harmonic_terms_frac(
                rate as int,
                sample_clock as int,
            ));
        }
        terms
    }
}

/// One term of the additive harmonic hum: a phase in cycles and a weight.
/// The host turns each term into `sin(2 * pi * phase) * amp` and sums.
#[derive(Clone, Copy, Debug, PartialEq, Eq, Structural)]
pub struct HarmonicTerm {
    pub phase: Ratio,
    pub amp: Ratio,
}

/// The mathematical value of a harmonic term.
pub ghost struct HarmonicTermModel {
    pub phase: Frac,
    pub amp: Frac,
}

impl View for HarmonicTerm {
    type V = HarmonicTermModel;

    open spec fn view(&self) -> HarmonicTermModel {
        HarmonicTermModel { phase: self.phase@, amp: self.amp@ }
    }
}

/// How many harmonics the hum mixes.
pub const HARMONIC_COUNT: usize = 10;

/// Weight of harmonic `i`: `1 - (i - 1) / i`, so the fundamental has weight
/// one and higher harmonics are progressively attenuated.
pub open spec fn harmonic_amp_frac(i: int) -> Frac {
    frac_sub(frac_one(), Frac { n: i - 1, d: i })
}

/// Frequency of harmonic `i`: `(i / 10) * (rate / 10)`.
pub open spec fn harmonic_freq_frac(i: int, rate: int) -> Frac {
    frac_mul(Frac { n: i, d: 10 }, Frac { n: rate, d: 10 })
}

/// Phase of harmonic `i` at a clock position, in cycles:
/// `clock * freq / rate`.
pub open spec fn harmonic_phase_frac(i: int, rate: int, clock: int) -> Frac {
    frac_div(frac_mul(frac_int(clock), harmonic_freq_frac(i, rate)), frac_int(rate))
}

/// All ten terms of the hum at a clock position.  The whole hum sample is a
/// function of the sample rate and the sample clock alone: no other state
/// enters it.
pub open spec fn harmonic_terms_frac(rate: int, clock: int) -> Seq<HarmonicTermModel> {
    Seq::new(
        HARMONIC_COUNT as nat,
        |j: int|
            HarmonicTermModel {
                phase: harmonic_phase_frac(j + 1, rate, clock),
                amp: harmonic_amp_frac(j + 1),
            },
    )
}

/// The mathematical values of a vector of harmonic terms.
pub open spec fn terms_view(s: Seq<HarmonicTerm>) -> Seq<HarmonicTermModel> {
    s.map_values(|t: HarmonicTerm| t@)
}

/// The envelope amplitude the engine applies at a given elapsed second and
/// clock position: the stage table of the fade-in / hold / fade-out / silent
/// envelope, with the two fade stages interpolated across the second.
pub open spec fn colored_amp_frac(
    fade_in: Frac,
    sustain: Frac,
    fade_out: Frac,
    rate: int,
    clock: int,
    seconds: int,
) -> Frac {
    let s = frac_int(seconds);
    if frac_lt(s, fade_in) {
        amp_fade_in_frac(fade_in, rate, s, clock)
    } else if frac_lt(s, frac_add(fade_in, sustain)) {
        frac_one()
    } else if frac_lt(s, frac_add(frac_add(fade_in, sustain), fade_out)) {
        amp_fade_out_frac(fade_out, rate, frac_sub(frac_sub(s, fade_in), sustain), clock)
    } else {
        frac_zero()
    }
}

/// The mixed, enveloped sample: the three voice values averaged and scaled
/// by the envelope amplitude.
pub open spec fn colored_mix_frac(o1: Frac, o2: Frac, o3: Frac, amp: Frac) -> Frac {
    frac_mul(frac_mul(frac_add(frac_add(o1, o2), o3), Frac { n: 1, d: 3 }), amp)
}

/// The sample one call of the banded-noise generator produces from a given
/// engine state: the clock ticks first, then the new clock position selects
/// the envelope stage and drives the voices.
pub open spec fn colored_out_frac(m: ProcModel, fade_in: Frac, sustain: Frac, fade_out: Frac) -> Frac {
    let m1 = clock_step(m);
    colored_mix_frac(
        voice_out(m1.v1, m1.clock),
        voice_out(m1.v2, m1.clock),
        voice_out(m1.v3, m1.clock),
        colored_amp_frac(
            fade_in,
            sustain,
            fade_out,
            m.rate as int,
            m1.clock as int,
            m1.seconds as int,
        ),
    )
}

/// The engine state after one call of the banded-noise generator: the clock
/// ticks, then each voice steps at the new clock position.
pub open spec fn colored_step_model(m: ProcModel) -> ProcModel {
    let m1 = clock_step(m);
    ProcModel {
        v1: voice_step(m1.v1, m1.clock),
        v2: voice_step(m1.v2, m1.clock),
        v3: voice_step(m1.v3, m1.clock),
        ..m1
    }
}

/// Running the banded-noise generator `n` times from a given state: the
/// final state, and the `n` samples produced along the way.
pub open spec fn colored_run(
    m: ProcModel,
    fade_in: Frac,
    sustain: Frac,
    fade_out: Frac,
    n: nat,
) -> (ProcModel, Seq<Frac>)
    decreases n,
{
    if n == 0 {
        (m, Seq::<Frac>::empty())
    } else {
        let s = colored_out_frac(m, fade_in, sustain, fade_out);
        let rest = colored_run(
            colored_step_model(m),
            fade_in,
            sustain,
            fade_out,
            (n - 1) as nat,
        );
        (rest.0, seq![s] + rest.1)
    }
}

/// A run of `n` generator calls produces exactly `n` samples.
pub proof fn lemma_colored_run_len(m: ProcModel, fade_in: Frac, sustain: Frac, fade_out: Frac, n: nat)
    ensures
        colored_run(m, fade_in, sustain, fade_out, n).1.len() == n,
    decreases n,
{
    if n > 0 {
        lemma_colored_run_len(colored_step_model(m), fade_in, sustain, fade_out, (n - 1) as nat);
    }
}

/// With a fade-in configured, the amplitude at the very start of playback —
/// elapsed seconds zero, sample clock zero — is exactly zero.
pub proof fn lemma_amp_zero_at_start(fade_in: Frac, sustain: Frac, fade_out: Frac, rate: int)
    requires
        frac_wf(fade_in),
        frac_wf(sustain),
        frac_wf(fade_out),
        fade_in.n >= 1,
        rate >= 1,
    ensures
        frac_eq(colored_amp_frac(fade_in, sustain, fade_out, rate, 0, 0), frac_zero()),
{
    let s = frac_int(0);
    assert(frac_lt(s, fade_in));
    let cur = fade_in_frac(fade_in, s);
    let nxt = fade_in_frac(fade_in, frac_add(s, frac_one()));
    let amp = colored_amp_frac(fade_in, sustain, fade_out, rate, 0, 0);
    assert(cur == frac_zero());
    assert(amp.n == cur.n * (rate - 0) * nxt.d + nxt.n * 0 * cur.d);
    assert(cur.n * (rate - 0) * nxt.d == 0) by (nonlinear_arith)
        requires
            cur.n == 0,
    ;
    assert(nxt.n * 0 * cur.d == 0) by (nonlinear_arith);
}

/// Once the elapsed seconds reach the end of the whole envelope, the
/// amplitude is zero, and it stays zero for every later second: the silence
/// is idempotent.
pub proof fn lemma_amp_silent_after_end(
    fade_in: Frac,
    sustain: Frac,
    fade_out: Frac,
    rate: int,
    clock: int,
    seconds: int,
)
    requires
        frac_wf(fade_in),
        frac_wf(sustain),
        frac_wf(fade_out),
        sustain.n >= 0,
        fade_out.n >= 0,
        frac_le(frac_add(frac_add(fade_in, sustain), fade_out), frac_int(seconds)),
    ensures
        colored_amp_frac(fade_in, sustain, fade_out, rate, clock, seconds) == frac_zero(),
{
    let s = frac_int(seconds);
    let fi_su = frac_add(fade_in, sustain);
    let fi_su_fo = frac_add(fi_su, fade_out);
    lemma_frac_add_increases(fade_in, sustain);
    lemma_frac_add_increases(fi_su, fade_out);
    lemma_frac_le_trans(fi_su, fi_su_fo, s);
    lemma_frac_le_trans(fade_in, fi_su, s);
    assert(!frac_lt(s, fade_in));
    assert(!frac_lt(s, fi_su));
    assert(!frac_lt(s, fi_su_fo));
}

/// The envelope amplitude always lies in the unit interval: whatever the
/// stage, `0 <= amp <= 1`.
pub proof fn lemma_colored_amp_unit(
    fade_in: Frac,
    sustain: Frac,
    fade_out: Frac,
    rate: int,
    clock: int,
    seconds: int,
)
    requires
        frac_wf(fade_in),
        frac_wf(sustain),
        frac_wf(fade_out),
        1 <= rate,
        0 <= clock <= rate,
    ensures
        0 <= colored_amp_frac(fade_in, sustain, fade_out, rate, clock, seconds).n
            <= colored_amp_frac(fade_in, sustain, fade_out, rate, clock, seconds).d,
        1 <= colored_amp_frac(fade_in, sustain, fade_out, rate, clock, seconds).d,
{
    let s = frac_int(seconds);
    if frac_lt(s, fade_in) {
        let cur = fade_in_frac(fade_in, s);
        let nxt = fade_in_frac(fade_in, frac_add(s, frac_one()));
        lemma_fade_frac_unit(fade_in, s);
        lemma_fade_frac_unit(fade_in, frac_add(s, frac_one()));
        lemma_interpolate_bounds(
            cur.n,
            cur.d,
            nxt.n,
            nxt.d,
            rate,
            clock,
            cur.d,
            nxt.d,
            rate,
        );
    } else if frac_lt(s, frac_add(fade_in, sustain)) {
    } else if frac_lt(s, frac_add(frac_add(fade_in, sustain), fade_out)) {
        let t = frac_sub(frac_sub(s, fade_in), sustain);
        lemma_pos_mul_pos(1 * fade_in.d, sustain.d);
        let cur = fade_out_frac(fade_out, t);
        let nxt = fade_out_frac(fade_out, frac_add(t, frac_one()));
        lemma_fade_frac_unit(fade_out, t);
        lemma_fade_frac_unit(fade_out, frac_add(t, frac_one()));
        lemma_interpolate_bounds(
            cur.n,
            cur.d,
            nxt.n,
            nxt.d,
            rate,
            clock,
            cur.d,
            nxt.d,
            rate,
        );
    } else {
    }
}

/// The voice buffers of the default engine, with their lengths and bounds:
/// values within `1`, `2/5` and `2/5` respectively.
pub open spec fn default_voices_within(m: ProcModel) -> bool {
    &&& m.rate >= 1
    &&& m.v1.buf.len() >= 1
    &&& m.v2.buf.len() >= 1
    &&& m.v3.buf.len() >= 1
    &&& voice_values_within(m.v1, Frac { n: 1, d: 1 })
    &&& voice_values_within(m.v2, Frac { n: 2, d: 5 })
    &&& voice_values_within(m.v3, Frac { n: 2, d: 5 })
}

/// A well-formed engine built over the documented default ranges has voice
/// buffers within `1`, `2/5` and `2/5`: each buffer value stays within half
/// its voice's range width.
pub proof fn lemma_default_voices_within(p: &AudioProcessor)
    requires
        p.wf(),
        default_voice_ranges(p),
    ensures
        default_voices_within(p@),
{
    lemma_voice_values_within_half_width(&p.noise_element_1);
    lemma_voice_values_within_half_width(&p.noise_element_2);
    lemma_voice_values_within_half_width(&p.noise_element_3);
    lemma_frac_sub_parts(p.noise_element_1.range_max@, p.noise_element_1.range_min@, 1, 1, -1, 1);
    lemma_frac_sub_parts(p.noise_element_2.range_max@, p.noise_element_2.range_min@, 5, 10, -3, 10);
    lemma_frac_sub_parts(p.noise_element_3.range_max@, p.noise_element_3.range_min@, 3, 10, -5, 10);
    assert(half_width_frac(p.noise_element_1.width()) == (Frac { n: 510, d: 510 }));
    assert(half_width_frac(p.noise_element_2.width()) == (Frac { n: 20400, d: 51000 }));
    assert(half_width_frac(p.noise_element_3.width()) == (Frac { n: 20400, d: 51000 }));
    lemma_voice_values_within_eq(p@.v1, Frac { n: 510, d: 510 }, Frac { n: 1, d: 1 });
    lemma_voice_values_within_eq(p@.v2, Frac { n: 20400, d: 51000 }, Frac { n: 2, d: 5 });
    lemma_voice_values_within_eq(p@.v3, Frac { n: 20400, d: 51000 }, Frac { n: 2, d: 5 });
}

/// With voice buffers within `1`, `2/5` and `2/5`, the enveloped sample lies
/// within `[-3/5, 3/5]`: the average of the three voice values is at most
/// `3/5` in magnitude, and the envelope amplitude scales it by a factor in
/// `[0, 1]`.  This sharpens the promised nominal sample range of roughly
/// `[-1, 1]`.
pub proof fn lemma_colored_out_frac_in_range(
    m: ProcModel,
    fade_in: Frac,
    sustain: Frac,
    fade_out: Frac,
)
    requires
        default_voices_within(m),
        frac_wf(fade_in),
        frac_wf(sustain),
        frac_wf(fade_out),
    ensures
        frac_le(frac_neg(Frac { n: 3, d: 5 }), colored_out_frac(m, fade_in, sustain, fade_out)),
        frac_le(colored_out_frac(m, fade_in, sustain, fade_out), Frac { n: 3, d: 5 }),
{
    let m1 = clock_step(m);
    vstd::arithmetic::div_mod::lemma_mod_bound((m.clock + 1) as int, m.rate as int);
    lemma_colored_amp_unit(
        fade_in,
        sustain,
        fade_out,
        m.rate as int,
        m1.clock as int,
        m1.seconds as int,
    );
    let amp = colored_amp_frac(
        fade_in,
        sustain,
        fade_out,
        m.rate as int,
        m1.clock as int,
        m1.seconds as int,
    );
    let ub_1 = Frac { n: 1, d: 1 };
    let ub_2 = Frac { n: 2, d: 5 };
    let o1 = voice_out(m1.v1, m1.clock);
    let o2 = voice_out(m1.v2, m1.clock);
    let o3 = voice_out(m1.v3, m1.clock);
    lemma_voice_out_within(m1.v1, m1.clock, ub_1);
    lemma_voice_out_within(m1.v2, m1.clock, ub_2);
    lemma_voice_out_within(m1.v3, m1.clock, ub_2);
    lemma_frac_add_abs_bound(o1, o2, ub_1, ub_2);
    lemma_frac_add_abs_bound(frac_add(o1, o2), o3, frac_add(ub_1, ub_2), ub_2);
    let sum_ub = frac_add(frac_add(ub_1, ub_2), ub_2);
    assert(sum_ub == (Frac { n: 45, d: 25 }));
    lemma_frac_mul_scale_bound(frac_add(frac_add(o1, o2), o3), Frac { n: 1, d: 3 }, sum_ub);
    let mix_ub = frac_mul(sum_ub, Frac { n: 1, d: 3 });
    assert(mix_ub == (Frac { n: 45, d: 75 }));
    lemma_frac_mul_unit_bound(
        frac_mul(frac_add(frac_add(o1, o2), o3), Frac { n: 1, d: 3 }),
        amp,
        mix_ub,
    );
    let out = colored_out_frac(m, fade_in, sustain, fade_out);
    lemma_frac_le_eq_right(out, mix_ub, Frac { n: 3, d: 5 });
    lemma_frac_eq_le_left(frac_neg(Frac { n: 3, d: 5 }), frac_neg(mix_ub), out);
}

/// For the default engine, every enveloped sample lies within `[-3/5, 3/5]`.
pub proof fn lemma_colored_out_in_range(
    p: &AudioProcessor,
    fade_in: Frac,
    sustain: Frac,
    fade_out: Frac,
)
    requires
        p.wf(),
        default_voice_ranges(p),
        frac_wf(fade_in),
        frac_wf(sustain),
        frac_wf(fade_out),
    ensures
        frac_le(
            frac_neg(Frac { n: 3, d: 5 }),
            colored_out_frac(p@, fade_in, sustain, fade_out),
        ),
        frac_le(colored_out_frac(p@, fade_in, sustain, fade_out), Frac { n: 3, d: 5 }),
{
    lemma_default_voices_within(p);
    lemma_colored_out_frac_in_range(p@, fade_in, sustain, fade_out);
}

/// Every sample of a whole run stays within `[-3/5, 3/5]`: the generator
/// never changes a voice's buffer, so the bound carries from sample to
/// sample.
pub proof fn lemma_colored_run_in_range(
    m: ProcModel,
    fade_in: Frac,
    sustain: Frac,
    fade_out: Frac,
    n: nat,
)
    requires
        default_voices_within(m),
        frac_wf(fade_in),
        frac_wf(sustain),
        frac_wf(fade_out),
    ensures
        forall|k: int|
            0 <= k < n ==> frac_le(
                frac_neg(Frac { n: 3, d: 5 }),
                #[trigger] colored_run(m, fade_in, sustain, fade_out, n).1[k],
            ) && frac_le(colored_run(m, fade_in, sustain, fade_out, n).1[k], Frac { n: 3, d: 5 }),
    decreases n,
{
    if n > 0 {
        lemma_colored_out_frac_in_range(m, fade_in, sustain, fade_out);
        let m2 = colored_step_model(m);
        assert(m2.v1.buf == m.v1.buf && m2.v2.buf == m.v2.buf && m2.v3.buf == m.v3.buf);
        lemma_colored_run_in_range(m2, fade_in, sustain, fade_out, (n - 1) as nat);
        lemma_colored_run_len(m2, fade_in, sustain, fade_out, (n - 1) as nat);
        let s = colored_out_frac(m, fade_in, sustain, fade_out);
        let rest = colored_run(m2, fade_in, sustain, fade_out, (n - 1) as nat);
        assert forall|k: int|
            0 <= k < n implies frac_le(
            frac_neg(Frac { n: 3, d: 5 }),
            #[trigger] colored_run(m, fade_in, sustain, fade_out, n).1[k],
        ) && frac_le(
            colored_run(m, fade_in, sustain, fade_out, n).1[k],
            Frac { n: 3, d: 5 },
        ) by {
            if k == 0 {
                assert(colored_run(m, fade_in, sustain, fade_out, n).1[k] == s);
            } else {
                assert(colored_run(m, fade_in, sustain, fade_out, n).1[k] == rest.1[k - 1]);
            }
        }
    }
}

/// A whole sample produced past the end of the envelope is silence: the
/// zero amplitude wipes out whatever the voices contribute.
pub proof fn lemma_colored_out_silent(m: ProcModel, fade_in: Frac, sustain: Frac, fade_out: Frac)
    requires
        frac_wf(fade_in),
        frac_wf(sustain),
        frac_wf(fade_out),
        sustain.n >= 0,
        fade_out.n >= 0,
        frac_le(
            frac_add(frac_add(fade_in, sustain), fade_out),
            frac_int(clock_step(m).seconds as int),
        ),
    ensures
        frac_eq(colored_out_frac(m, fade_in, sustain, fade_out), frac_zero()),
{
    let m1 = clock_step(m);
    lemma_amp_silent_after_end(
        fade_in,
        sustain,
        fade_out,
        m.rate as int,
        m1.clock as int,
        m1.seconds as int,
    );
    let mixed = frac_mul(
        frac_add(frac_add(voice_out(m1.v1, m1.clock), voice_out(m1.v2, m1.clock)), voice_out(m1.v3, m1.clock)),
        Frac { n: 1, d: 3 },
    );
    let out = colored_out_frac(m, fade_in, sustain, fade_out);
    assert(out.n == mixed.n * 0) by {
        assert(colored_amp_frac(fade_in, sustain, fade_out, m.rate as int, m1.clock as int, m1.seconds as int).n == 0);
    }
    assert(mixed.n * 0 == 0) by (nonlinear_arith);
}

/// What a bounded voice can hand to the mixer.
proof fn lemma_voice_out_bounded(v: &NoiseElement, clock: nat)
    requires
        v.wf(),
        voice_bounded(v),
    ensures
        -VOICE_NUM_BOUND <= voice_out(v@, clock).n <= VOICE_NUM_BOUND,
        1 <= voice_out(v@, clock).d <= VOICE_DEN_BOUND,
{
    if clock % v@.occ == 0 {
        let i = ((v@.idx + 1) % v@.buf.len()) as int;
        vstd::arithmetic::div_mod::lemma_mod_bound((v@.idx + 1) as int, v@.buf.len() as int);
        assert(voice_out(v@, clock) == v@.buf[i]);
        assert(v@.buf[i] == v.random_vec@[i]@);
    }
}

/// A freshly built engine voice stays within the engine's mixing bounds: its
/// range width is at most `80 / 100`, so every buffer value has a numerator
/// within `255 * 80` and the denominator `510 * width.d <= 51000`.
proof fn lemma_engine_voice_bounded(v: &NoiseElement)
    requires
        v.wf(),
        0 <= v.width().n <= 80,
        1 <= v.width().d <= 100,
    ensures
        voice_bounded(v),
{
    assert forall|k: int| 0 <= k < v.random_vec@.len() implies -VOICE_NUM_BOUND <= (
    #[trigger] v.random_vec@[k]).num <= VOICE_NUM_BOUND && 1 <= v.random_vec@[k].den
        <= VOICE_DEN_BOUND by {
        assert(is_noise_sample(seq_frac(v.random_vec@)[k], v.width()));
        let b = choose|b: int|
            0 <= b <= 255 && seq_frac(v.random_vec@)[k] == #[trigger] noise_sample_frac(
                b,
                v.width(),
            );
        lemma_mul_bounds(2 * b - 255, v.width().n, 255, 80);
        assert(seq_frac(v.random_vec@)[k] == v.random_vec@[k]@);
    }
}

} // verus!
