//! A single stepped random-noise voice.
//!
//! A voice owns a cyclic buffer of random values drawn once at construction,
//! an update cadence, and a cursor.  Every `occurance`-th sample it advances
//! the cursor and emits the value under it; on every other sample it emits
//! silence.  The cursor discipline makes the voice order-dependent: callers
//! must invoke [`NoiseElement::next`] exactly once per increasing sample
//! index.

use vstd::prelude::*;

use crate::ratio::{
    frac_eq, frac_le, frac_lt, frac_neg, frac_sub, frac_wf, frac_zero, lemma_frac_eq_le_left,
    lemma_frac_le_eq_right, lemma_pos_mul_pos, Frac, Ratio,
};
use crate::utils::{
    create_random_vec_f32, half_width_frac, is_noise_buffer, is_noise_sample,
    lemma_noise_sample_in_range, lemma_noise_sample_within_half_width, noise_sample_frac,
    seq_frac, AT_SECOND_BOUND,
};
use crate::NoiseError;

verus! {

/// The mathematical state of a voice: its cadence, the values of its cyclic
/// buffer, and the cursor.
pub ghost struct VoiceModel {
    pub occ: nat,
    pub buf: Seq<Frac>,
    pub idx: nat,
}

/// Does the voice fire on this sample index?
pub open spec fn voice_fires(v: VoiceModel, clock: nat) -> bool {
    clock % v.occ == 0
}

/// The voice state after one sample: the cursor advances cyclically when the
/// voice fires and stays put otherwise.
pub open spec fn voice_step(v: VoiceModel, clock: nat) -> VoiceModel {
    if voice_fires(v, clock) {
        VoiceModel { idx: (v.idx + 1) % v.buf.len(), ..v }
    } else {
        v
    }
}

/// The value the voice contributes on this sample: the buffer value under
/// the advanced cursor when it fires, silence otherwise.
pub open spec fn voice_out(v: VoiceModel, clock: nat) -> Frac {
    if voice_fires(v, clock) {
        v.buf[((v.idx + 1) % v.buf.len()) as int]
    } else {
        frac_zero()
    }
}

/// Every value in the voice's buffer is a fraction within `ub` on either
/// side of zero.
pub open spec fn voice_values_within(v: VoiceModel, ub: Frac) -> bool {
    forall|k: int|
        0 <= k < v.buf.len() ==> frac_wf(#[trigger] v.buf[k]) && frac_le(frac_neg(ub), v.buf[k])
            && frac_le(v.buf[k], ub)
}

/// Whatever the clock, a voice whose buffer values lie within `ub` emits a
/// value within `ub` — its output is a buffer value or silence.
pub proof fn lemma_voice_out_within(v: VoiceModel, clock: nat, ub: Frac)
    requires
        v.buf.len() >= 1,
        frac_wf(ub),
        ub.n >= 0,
        voice_values_within(v, ub),
    ensures
        frac_wf(voice_out(v, clock)),
        frac_le(frac_neg(ub), voice_out(v, clock)),
        frac_le(voice_out(v, clock), ub),
{
    if clock % v.occ == 0 {
        vstd::arithmetic::div_mod::lemma_mod_bound((v.idx + 1) as int, v.buf.len() as int);
    } else {
        assert(frac_le(frac_neg(ub), frac_zero()) && frac_le(frac_zero(), ub))
            by (nonlinear_arith)
            requires
                ub.n >= 0,
                ub.d >= 1,
        ;
    }
}

/// A well-formed voice's buffer values all lie within half its range width.
pub proof fn lemma_voice_values_within_half_width(v: &NoiseElement)
    requires
        v.wf(),
    ensures
        voice_values_within(v@, half_width_frac(v.width())),
        frac_wf(half_width_frac(v.width())),
        half_width_frac(v.width()).n >= 0,
{
    let w = v.width();
    lemma_pos_mul_pos(v.range_max@.d, v.range_min@.d);
    assert(w.n >= 1);
    assert forall|k: int| 0 <= k < v@.buf.len() implies frac_wf(#[trigger] v@.buf[k]) && frac_le(
        frac_neg(half_width_frac(w)),
        v@.buf[k],
    ) && frac_le(v@.buf[k], half_width_frac(w)) by {
        assert(is_noise_sample(seq_frac(v.random_vec@)[k], w));
        let b = choose|b: int|
            0 <= b <= 255 && seq_frac(v.random_vec@)[k] == #[trigger] noise_sample_frac(b, w);
        lemma_noise_sample_within_half_width(b, w);
        assert(v@.buf[k] == seq_frac(v.random_vec@)[k]);
    }
}

/// Every value a voice can emit — silence, or any buffer value — lies within
/// half the voice's range width on either side of zero.
pub proof fn lemma_voice_out_within_half_width(v: &NoiseElement, clock: nat)
    requires
        v.wf(),
    ensures
        frac_le(frac_neg(half_width_frac(v.width())), voice_out(v@, clock)),
        frac_le(voice_out(v@, clock), half_width_frac(v.width())),
{
    lemma_voice_values_within_half_width(v);
    lemma_voice_out_within(v@, clock, half_width_frac(v.width()));
}

/// A two-sided bound on a voice's buffer carries across an equality of the
/// bound.
pub proof fn lemma_voice_values_within_eq(v: VoiceModel, ub_a: Frac, ub_b: Frac)
    requires
        frac_wf(ub_a),
        frac_wf(ub_b),
        frac_eq(ub_a, ub_b),
        voice_values_within(v, ub_a),
    ensures
        voice_values_within(v, ub_b),
{
    assert forall|k: int| 0 <= k < v.buf.len() implies frac_wf(#[trigger] v.buf[k]) && frac_le(
        frac_neg(ub_b),
        v.buf[k],
    ) && frac_le(v.buf[k], ub_b) by {
        lemma_frac_le_eq_right(v.buf[k], ub_a, ub_b);
        assert((-ub_b.n) * ub_a.d == (-ub_a.n) * ub_b.d) by (nonlinear_arith)
            requires
                ub_a.n * ub_b.d == ub_b.n * ub_a.d,
        ;
        lemma_frac_eq_le_left(frac_neg(ub_b), frac_neg(ub_a), v.buf[k]);
    }
}

/// One stepped random-noise voice.
pub struct NoiseElement {
    /// Update cadence: `1` fires on every sample; larger values fire on every
    /// `occurance`-th sample.
    pub occurance: usize,
    /// The cyclic buffer of random values, immutable after construction.
    pub random_vec: Vec<Ratio>,
    /// The cursor into `random_vec`.
    pub random_vec_index: usize,
    /// Buffer capacity: one value per sample of a second.
    pub sample_rate: usize,
    /// The lower end of the value range the buffer was drawn over.
    pub range_min: Ghost<Frac>,
    /// The upper end of the value range the buffer was drawn over.
    pub range_max: Ghost<Frac>,
}

impl View for NoiseElement {
    type V = VoiceModel;

    open spec fn view(&self) -> VoiceModel {
        VoiceModel {
            occ: self.occurance as nat,
            buf: seq_frac(self.random_vec@),
            idx: self.random_vec_index as nat,
        }
    }
}

impl NoiseElement {
    /// The width of the voice's value range.
    pub open spec fn width(&self) -> Frac {
        frac_sub(self.range_max@, self.range_min@)
    }

    /// The voice's internal invariant.
    pub open spec fn wf(&self) -> bool {
        &&& self.occurance >= 1
        &&& self.sample_rate >= 1
        &&& self.random_vec@.len() == self.sample_rate
        &&& self.random_vec_index < self.sample_rate
        &&& frac_wf(self.range_min@)
        &&& frac_wf(self.range_max@)
        &&& frac_lt(self.range_min@, self.range_max@)
        &&& is_noise_buffer(seq_frac(self.random_vec@), self.width())
        &&& forall|k: int|
            0 <= k < self.random_vec@.len() ==> (#[trigger] self.random_vec@[k]).wf()
                && self.random_vec@[k].den as int == 510 * self.width().d
    }

    /// Builds a voice with a fresh random buffer of `sample_rate` values over
    /// `[min, max]`.  Fails with `InvalidRange` exactly when the range is
    /// empty or inverted, and with `Entropy` when the entropy source fails.
    pub fn new(occurance: usize, min: &Ratio, max: &Ratio, sample_rate: usize) -> (r: Result<
        NoiseElement,
        NoiseError,
    >)
        requires
            occurance >= 1,
            sample_rate >= 1,
            min.wf(),
            max.wf(),
            -AT_SECOND_BOUND <= min.num <= AT_SECOND_BOUND,
            min.den <= AT_SECOND_BOUND,
            -AT_SECOND_BOUND <= max.num <= AT_SECOND_BOUND,
            max.den <= AT_SECOND_BOUND,
        ensures
            !frac_lt(min@, max@) <==> (r is Err && r->Err_0 == NoiseError::InvalidRange),
            r is Err ==> r->Err_0 == NoiseError::InvalidRange || r->Err_0 == NoiseError::Entropy,
            r is Ok ==> {
                let v = r->Ok_0;
                &&& v.wf()
                &&& v@.occ == occurance
                &&& v@.idx == 0
                &&& v@.buf.len() == sample_rate
                &&& v.occurance == occurance
                &&& v.sample_rate == sample_rate
                &&& v.range_min@ == min@
                &&& v.range_max@ == max@
            },
    {
        let random_vec = match create_random_vec_f32(min, max, sample_rate) {
            Ok(v) => v,
            Err(e) => {
                return Err(e);
            },
        };
        Ok(
            NoiseElement {
                occurance,
                random_vec,
                random_vec_index: 0,
                sample_rate,
                range_min: Ghost(min@),
                range_max: Ghost(max@),
            },
        )
    }

    /// The voice's value for the given sample index.  When the index is a
    /// multiple of the cadence the cursor advances cyclically and the buffer
    /// value under it comes out; otherwise the voice is silent.  Every value
    /// returned lies within the range width on either side of zero.
    pub fn next(&mut self, sample_clock: usize) -> (r: Ratio)
        requires
            old(self).wf(),
        ensures
            final(self).wf(),
            final(self)@ == voice_step(old(self)@, sample_clock as nat),
            final(self).occurance == old(self).occurance,
            final(self).sample_rate == old(self).sample_rate,
            final(self).random_vec == old(self).random_vec,
            final(self).range_min == old(self).range_min,
            final(self).range_max == old(self).range_max,
            r@ == voice_out(old(self)@, sample_clock as nat),
            r.wf(),
            frac_le(frac_neg(old(self).width()), r@),
            frac_le(r@, old(self).width()),
            sample_clock as nat % old(self).occurance as nat != 0 ==> r@ == frac_zero(),
    {
        proof {
            lemma_pos_mul_pos(self.range_max@.d, self.range_min@.d);
            assert(self.width().n >= 1 && frac_wf(self.width()));
        }
        if sample_clock % self.occurance == 0 {
            self.random_vec_index = (self.random_vec_index + 1) % self.sample_rate;
            let r = self.random_vec[self.random_vec_index];
            proof {
                let w = old(self).width();
                let i = self.random_vec_index as int;
                assert(is_noise_sample(seq_frac(self.random_vec@)[i], w));
                let b = choose|b: int|
                    0 <= b <= 255 && seq_frac(self.random_vec@)[i] == #[trigger] noise_sample_frac(
                        b,
                        w,
                    );
                lemma_noise_sample_in_range(b, w);
                assert(r@ == seq_frac(self.random_vec@)[i]);
            }
            r
        } else {
            proof {
                let w = old(self).width();
                assert(frac_le(frac_neg(w), frac_zero()) && frac_le(frac_zero(), w));
            }
            Ratio { num: 0, den: 1 }
        }
    }
}

} // verus!
