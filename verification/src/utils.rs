//! Envelope amplitude functions, uniform random buffers, and clamping.
//!
//! The fade-in and fade-out amplitude curves are evaluated at whole seconds
//! and linearly interpolated inside the current second, using the position of
//! the sample clock; all of it in exact rational arithmetic.

use vstd::prelude::*;

use crate::ratio::{
    frac_add, frac_div, frac_eq, frac_int, frac_le, frac_lt, frac_mul, frac_neg, frac_one,
    frac_sub, frac_wf, frac_zero, lemma_mul_bounds, lemma_pos_mul_pos, Frac, Ratio,
};
use crate::NoiseError;

verus! {

/// Magnitude bound on the numerator and denominator of a fade length or a
/// time offset handed to the per-second amplitude functions; it keeps all
/// products comfortably inside `i128`.
pub const AT_SECOND_BOUND: i128 = 0x4_0000_0000_0000;

/// Bound on a fade length's numerator and denominator for the interpolating
/// amplitude functions.
pub const FADE_LEN_BOUND: i128 = 0x10_0000;

/// Bound on a time offset's numerator for the interpolating amplitude
/// functions.
pub const FADE_TIME_NUM_BOUND: i128 = 0x100_0000_0000;

/// Bound on a time offset's denominator for the interpolating amplitude
/// functions.
pub const FADE_TIME_DEN_BOUND: i128 = 0x10_0000;

/// Bound on the sample rate for the interpolating amplitude functions.
pub const FADE_RATE_BOUND: usize = 0x4000_0000;

/// Fade-in amplitude at a whole second `t`: `0` before the fade starts,
/// `1` once `t` reaches the fade length, and `t / len` in between.
pub open spec fn fade_in_frac(len: Frac, t: Frac) -> Frac {
    if t.n <= 0 {
        frac_zero()
    } else if frac_le(len, t) {
        frac_one()
    } else {
        frac_div(t, len)
    }
}

/// Fade-out amplitude at a whole second `t`: `1` before the fade starts,
/// `0` once `t` reaches the fade length, and `1 - t / len` in between.
pub open spec fn fade_out_frac(len: Frac, t: Frac) -> Frac {
    if t.n <= 0 {
        frac_one()
    } else if frac_le(len, t) {
        frac_zero()
    } else {
        frac_sub(frac_one(), frac_div(t, len))
    }
}

/// Linear interpolation between the amplitude of the current second and the
/// amplitude of the next one, weighted by the clock position within the
/// second, put over the single denominator `cur.d * nxt.d * rate`.
pub open spec fn interpolate_frac(cur: Frac, nxt: Frac, rate: int, clock: int) -> Frac {
    Frac {
        n: cur.n * (rate - clock) * nxt.d + nxt.n * clock * cur.d,
        d: cur.d * nxt.d * rate,
    }
}

/// The fade-in amplitude seen `t` seconds into the fade, `clock` samples into
/// the current second.
pub open spec fn amp_fade_in_frac(len: Frac, rate: int, t: Frac, clock: int) -> Frac {
    interpolate_frac(fade_in_frac(len, t), fade_in_frac(len, frac_add(t, frac_one())), rate, clock)
}

/// The fade-out amplitude seen `t` seconds into the fade, `clock` samples
/// into the current second.
pub open spec fn amp_fade_out_frac(len: Frac, rate: int, t: Frac, clock: int) -> Frac {
    interpolate_frac(
        fade_out_frac(len, t),
        fade_out_frac(len, frac_add(t, frac_one())),
        rate,
        clock,
    )
}

/// `interpolate_frac` is exactly the textbook blend
/// `cur * (1 - percent) + nxt * percent` with `percent = clock / rate`.
pub proof fn lemma_interpolate_textbook(cur: Frac, nxt: Frac, rate: int, clock: int)
    requires
        frac_wf(cur),
        frac_wf(nxt),
        rate >= 1,
    ensures
        frac_eq(
            interpolate_frac(cur, nxt, rate, clock),
            frac_add(
                frac_mul(cur, frac_sub(frac_one(), Frac { n: clock, d: rate })),
                frac_mul(nxt, Frac { n: clock, d: rate }),
            ),
        ),
{
    let lhs = interpolate_frac(cur, nxt, rate, clock);
    let rhs = frac_add(
        frac_mul(cur, frac_sub(frac_one(), Frac { n: clock, d: rate })),
        frac_mul(nxt, Frac { n: clock, d: rate }),
    );
    assert(rhs.n == lhs.n * rate) by (nonlinear_arith)
        requires
            rhs.n == (cur.n * (1 * rate - clock * 1)) * (nxt.d * rate) + (nxt.n * clock) * (cur.d
                * (1 * rate)),
            lhs.n == cur.n * (rate - clock) * nxt.d + nxt.n * clock * cur.d,
    ;
    assert(rhs.d == lhs.d * rate) by (nonlinear_arith)
        requires
            rhs.d == (cur.d * (1 * rate)) * (nxt.d * rate),
            lhs.d == cur.d * nxt.d * rate,
    ;
    assert(lhs.n * (lhs.d * rate) == (lhs.n * rate) * lhs.d) by (nonlinear_arith);
}

/// In the interior of a fade the denominator `t.d * len.n` is positive.
pub proof fn lemma_fade_interior_den(len: Frac, t: Frac)
    requires
        frac_wf(len),
        frac_wf(t),
        t.n > 0,
        !frac_le(len, t),
    ensures
        len.n >= 1,
        t.d * len.n >= 1,
{
    assert(len.n >= 1 && t.d * len.n >= 1) by (nonlinear_arith)
        requires
            len.d >= 1,
            t.d >= 1,
            t.n > 0,
            len.n * t.d > t.n * len.d,
    ;
}

/// The per-second fade amplitudes keep small denominators: `1` at the
/// boundaries, `t.d * len.n` in the interior.
pub proof fn lemma_fade_den_bound(len: Frac, t: Frac, nb: int, db: int)
    requires
        frac_wf(len),
        frac_wf(t),
        0 <= len.n <= nb,
        1 <= t.d <= db,
    ensures
        1 <= fade_in_frac(len, t).d <= db * nb + 1,
        1 <= fade_out_frac(len, t).d <= db * nb + 1,
{
    assert(db * nb >= 0) by (nonlinear_arith)
        requires
            db >= 1,
            nb >= 0,
    ;
    if t.n <= 0 {
    } else if frac_le(len, t) {
    } else {
        lemma_fade_interior_den(len, t);
        assert(1 <= t.d * len.n <= db * nb) by (nonlinear_arith)
            requires
                1 <= t.d <= db,
                1 <= len.n <= nb,
        ;
    }
}

/// Fade-in amplitude at whole second `t`, exactly `0`, `1`, or `t / len`.
pub fn get_amp_for_fade_in_at_second(fade_length: &Ratio, relative_seconds_gone_by: &Ratio) -> (r:
    Ratio)
    requires
        fade_length.wf(),
        relative_seconds_gone_by.wf(),
        -AT_SECOND_BOUND <= fade_length.num <= AT_SECOND_BOUND,
        fade_length.den <= AT_SECOND_BOUND,
        -AT_SECOND_BOUND <= relative_seconds_gone_by.num <= AT_SECOND_BOUND,
        relative_seconds_gone_by.den <= AT_SECOND_BOUND,
    ensures
        r@ == fade_in_frac(fade_length@, relative_seconds_gone_by@),
        r.wf(),
        0 <= r.num <= r.den,
        r.den == 1 || r.den as int == relative_seconds_gone_by@.d * fade_length@.n,
{
    let len = fade_length;
    let t = relative_seconds_gone_by;
    proof {
        lemma_mul_bounds(len.num as int, t.den as int, AT_SECOND_BOUND as int, AT_SECOND_BOUND as int);
        lemma_mul_bounds(t.num as int, len.den as int, AT_SECOND_BOUND as int, AT_SECOND_BOUND as int);
    }
    if t.num <= 0 {
        return Ratio { num: 0, den: 1 };
    }
    if len.num * t.den <= t.num * len.den {
        return Ratio { num: 1, den: 1 };
    }
    proof {
        lemma_fade_interior_den(len@, t@);
        lemma_mul_bounds(t.num as int, len.den as int, AT_SECOND_BOUND as int, AT_SECOND_BOUND as int);
        lemma_mul_bounds(t.den as int, len.num as int, AT_SECOND_BOUND as int, AT_SECOND_BOUND as int);
    }
    Ratio { num: t.num * len.den, den: t.den * len.num }
}

/// Fade-out amplitude at whole second `t`, exactly `1`, `0`, or `1 - t / len`.
pub fn get_amp_for_fade_out_at_second(fade_out_length: &Ratio, relative_seconds_gone_by: &Ratio) -> (r:
    Ratio)
    requires
        fade_out_length.wf(),
        relative_seconds_gone_by.wf(),
        -AT_SECOND_BOUND <= fade_out_length.num <= AT_SECOND_BOUND,
        fade_out_length.den <= AT_SECOND_BOUND,
        -AT_SECOND_BOUND <= relative_seconds_gone_by.num <= AT_SECOND_BOUND,
        relative_seconds_gone_by.den <= AT_SECOND_BOUND,
    ensures
        r@ == fade_out_frac(fade_out_length@, relative_seconds_gone_by@),
        r.wf(),
        0 <= r.num <= r.den,
        r.den == 1 || r.den as int == relative_seconds_gone_by@.d * fade_out_length@.n,
{
    let len = fade_out_length;
    let t = relative_seconds_gone_by;
    proof {
        lemma_mul_bounds(len.num as int, t.den as int, AT_SECOND_BOUND as int, AT_SECOND_BOUND as int);
        lemma_mul_bounds(t.num as int, len.den as int, AT_SECOND_BOUND as int, AT_SECOND_BOUND as int);
    }
    if t.num <= 0 {
        return Ratio { num: 1, den: 1 };
    }
    if len.num * t.den <= t.num * len.den {
        return Ratio { num: 0, den: 1 };
    }
    proof {
        lemma_fade_interior_den(len@, t@);
        lemma_mul_bounds(t.num as int, len.den as int, AT_SECOND_BOUND as int, AT_SECOND_BOUND as int);
        lemma_mul_bounds(t.den as int, len.num as int, AT_SECOND_BOUND as int, AT_SECOND_BOUND as int);
    }
    Ratio { num: t.den * len.num - t.num * len.den, den: t.den * len.num }
}

/// Both fade curves stay in the unit interval at every whole second.
pub proof fn lemma_fade_frac_unit(len: Frac, t: Frac)
    requires
        frac_wf(len),
        frac_wf(t),
    ensures
        0 <= fade_in_frac(len, t).n <= fade_in_frac(len, t).d,
        1 <= fade_in_frac(len, t).d,
        0 <= fade_out_frac(len, t).n <= fade_out_frac(len, t).d,
        1 <= fade_out_frac(len, t).d,
{
    if t.n <= 0 {
    } else if frac_le(len, t) {
    } else {
        lemma_fade_interior_den(len, t);
        assert(0 <= t.n * len.d <= t.d * len.n) by (nonlinear_arith)
            requires
                t.n >= 1,
                len.d >= 1,
                t.n * len.d < len.n * t.d,
        ;
    }
}

/// The interpolated amplitude stays between `0` and `1`, and its parts stay
/// inside the bounds that its factors give.
pub proof fn lemma_interpolate_bounds(
    cn: int,
    cd: int,
    nn: int,
    nd: int,
    rate: int,
    clock: int,
    cdb: int,
    ndb: int,
    rb: int,
)
    requires
        0 <= cn <= cd,
        0 <= nn <= nd,
        1 <= cd <= cdb,
        1 <= nd <= ndb,
        0 <= clock <= rate,
        1 <= rate <= rb,
    ensures
        0 <= cn * (rate - clock) <= cdb * rb,
        0 <= cn * (rate - clock) * nd <= cdb * rb * ndb,
        0 <= nn * clock <= ndb * rb,
        0 <= nn * clock * cd <= ndb * rb * cdb,
        0 <= cn * (rate - clock) * nd + nn * clock * cd <= cd * nd * rate,
        1 <= cd * nd <= cdb * ndb,
        1 <= cd * nd * rate <= cdb * ndb * rb,
{
    assert(0 <= cn * (rate - clock) <= cdb * rb && 0 <= cn * (rate - clock) * nd <= cdb * rb * ndb
        && 0 <= nn * clock <= ndb * rb && 0 <= nn * clock * cd <= ndb * rb * cdb && 0 <= cn * (rate
        - clock) * nd + nn * clock * cd <= cd * nd * rate && 1 <= cd * nd <= cdb * ndb && 1 <= cd
        * nd * rate <= cdb * ndb * rb) by (nonlinear_arith)
        requires
            0 <= cn <= cd,
            0 <= nn <= nd,
            1 <= cd <= cdb,
            1 <= nd <= ndb,
            0 <= clock <= rate,
            1 <= rate <= rb,
    ;
}

/// The amplitude during a fade-in: the value at the current whole second and
/// the value one second later, blended by how far the sample clock has moved
/// through the current second.
pub fn get_amp_for_fade_in(
    fade_in_length: &Ratio,
    sample_rate: usize,
    relative_seconds_gone_by: &Ratio,
    sample_clock: usize,
) -> (r: Ratio)
    requires
        fade_in_length.wf(),
        relative_seconds_gone_by.wf(),
        -FADE_LEN_BOUND <= fade_in_length.num <= FADE_LEN_BOUND,
        fade_in_length.den <= FADE_LEN_BOUND,
        -FADE_TIME_NUM_BOUND <= relative_seconds_gone_by.num <= FADE_TIME_NUM_BOUND,
        relative_seconds_gone_by.den <= FADE_TIME_DEN_BOUND,
        1 <= sample_rate <= FADE_RATE_BOUND,
        sample_clock <= sample_rate,
    ensures
        r@ == amp_fade_in_frac(
            fade_in_length@,
            sample_rate as int,
            relative_seconds_gone_by@,
            sample_clock as int,
        ),
        r.wf(),
        0 <= r.num <= r.den,
        r@.d == fade_in_frac(fade_in_length@, relative_seconds_gone_by@).d * fade_in_frac(
            fade_in_length@,
            frac_add(relative_seconds_gone_by@, frac_one()),
        ).d * sample_rate,
{
    let t = relative_seconds_gone_by;
    let t_next = t.add(&Ratio { num: 1, den: 1 });
    let current_sec_amp = get_amp_for_fade_in_at_second(fade_in_length, t);
    let next_sec_amp = get_amp_for_fade_in_at_second(fade_in_length, &t_next);
    proof {
        lemma_mul_bounds(t.den as int, fade_in_length.num as int, FADE_TIME_DEN_BOUND as int, FADE_LEN_BOUND as int);
        lemma_interpolate_bounds(
            current_sec_amp.num as int,
            current_sec_amp.den as int,
            next_sec_amp.num as int,
            next_sec_amp.den as int,
            sample_rate as int,
            sample_clock as int,
            FADE_TIME_DEN_BOUND as int * FADE_LEN_BOUND as int,
            FADE_TIME_DEN_BOUND as int * FADE_LEN_BOUND as int,
            FADE_RATE_BOUND as int,
        );
    }
    let inverse_weight: i128 = (sample_rate - sample_clock) as i128;
    let num = current_sec_amp.num * inverse_weight * next_sec_amp.den + next_sec_amp.num * (
    sample_clock as i128) * current_sec_amp.den;
    let den = current_sec_amp.den * next_sec_amp.den * (sample_rate as i128);
    Ratio { num, den }
}

/// The amplitude during a fade-out, blended across the current second in the
/// same way as the fade-in amplitude.
pub fn get_amp_for_fade_out(
    fade_out_length: &Ratio,
    sample_rate: usize,
    relative_seconds_gone_by: &Ratio,
    sample_clock: usize,
) -> (r: Ratio)
    requires
        fade_out_length.wf(),
        relative_seconds_gone_by.wf(),
        -FADE_LEN_BOUND <= fade_out_length.num <= FADE_LEN_BOUND,
        fade_out_length.den <= FADE_LEN_BOUND,
        -FADE_TIME_NUM_BOUND <= relative_seconds_gone_by.num <= FADE_TIME_NUM_BOUND,
        relative_seconds_gone_by.den <= FADE_TIME_DEN_BOUND,
        1 <= sample_rate <= FADE_RATE_BOUND,
        sample_clock <= sample_rate,
    ensures
        r@ == amp_fade_out_frac(
            fade_out_length@,
            sample_rate as int,
            relative_seconds_gone_by@,
            sample_clock as int,
        ),
        r.wf(),
        0 <= r.num <= r.den,
        r@.d == fade_out_frac(fade_out_length@, relative_seconds_gone_by@).d * fade_out_frac(
            fade_out_length@,
            frac_add(relative_seconds_gone_by@, frac_one()),
        ).d * sample_rate,
{
    let t = relative_seconds_gone_by;
    let t_next = t.add(&Ratio { num: 1, den: 1 });
    let current_sec_amp = get_amp_for_fade_out_at_second(fade_out_length, t);
    let next_sec_amp = get_amp_for_fade_out_at_second(fade_out_length, &t_next);
    proof {
        lemma_mul_bounds(t.den as int, fade_out_length.num as int, FADE_TIME_DEN_BOUND as int, FADE_LEN_BOUND as int);
        lemma_interpolate_bounds(
            current_sec_amp.num as int,
            current_sec_amp.den as int,
            next_sec_amp.num as int,
            next_sec_amp.den as int,
            sample_rate as int,
            sample_clock as int,
            FADE_TIME_DEN_BOUND as int * FADE_LEN_BOUND as int,
            FADE_TIME_DEN_BOUND as int * FADE_LEN_BOUND as int,
            FADE_RATE_BOUND as int,
        );
    }
    let inverse_weight: i128 = (sample_rate - sample_clock) as i128;
    let num = current_sec_amp.num * inverse_weight * next_sec_amp.den + next_sec_amp.num * (
    sample_clock as i128) * current_sec_amp.den;
    let den = current_sec_amp.den * next_sec_amp.den * (sample_rate as i128);
    Ratio { num, den }
}

/// The fade curves at their boundaries: before a positive fade starts the
/// fade-in amplitude is zero and the fade-out amplitude is one; from the
/// moment the fade completes, the fade-in amplitude is one and the fade-out
/// amplitude is zero.
pub proof fn lemma_fade_boundaries(len: Frac, t: Frac)
    requires
        frac_wf(len),
        frac_wf(t),
        frac_lt(frac_zero(), len),
    ensures
        frac_le(t, frac_zero()) ==> fade_in_frac(len, t) == frac_zero() && fade_out_frac(len, t)
            == frac_one(),
        frac_le(len, t) ==> fade_in_frac(len, t) == frac_one() && fade_out_frac(len, t)
            == frac_zero(),
{
    if frac_le(len, t) {
        assert(t.n > 0) by (nonlinear_arith)
            requires
                len.d >= 1,
                t.d >= 1,
                0 * len.d < len.n * 1,
                len.n * t.d <= t.n * len.d,
        ;
    }
}

/// Between the moment a fade-in starts and the moment it completes, its
/// per-second amplitude is strictly increasing.
pub proof fn lemma_fade_in_strictly_increasing(len: Frac, t1: Frac, t2: Frac)
    requires
        frac_wf(len),
        frac_wf(t1),
        frac_wf(t2),
        frac_lt(frac_zero(), t1),
        frac_lt(t1, t2),
        frac_lt(t2, len),
    ensures
        frac_lt(fade_in_frac(len, t1), fade_in_frac(len, t2)),
{
    assert(t1.n > 0 && t2.n > 0 && len.n * t1.d > t1.n * len.d && len.n * t2.d > t2.n * len.d)
        by (nonlinear_arith)
        requires
            len.d >= 1,
            t1.d >= 1,
            t2.d >= 1,
            0 < t1.n * 1,
            t1.n * t2.d < t2.n * t1.d,
            t2.n * len.d < len.n * t2.d,
    ;
    lemma_fade_interior_den(len, t1);
    lemma_fade_interior_den(len, t2);
    assert((t1.n * len.d) * (t2.d * len.n) < (t2.n * len.d) * (t1.d * len.n)) by (nonlinear_arith)
        requires
            len.d >= 1,
            len.n >= 1,
            t1.n * t2.d < t2.n * t1.d,
    ;
}

/// Between the moment a fade-out starts and the moment it completes, its
/// per-second amplitude is strictly decreasing.
pub proof fn lemma_fade_out_strictly_decreasing(len: Frac, t1: Frac, t2: Frac)
    requires
        frac_wf(len),
        frac_wf(t1),
        frac_wf(t2),
        frac_lt(frac_zero(), t1),
        frac_lt(t1, t2),
        frac_lt(t2, len),
    ensures
        frac_lt(fade_out_frac(len, t2), fade_out_frac(len, t1)),
{
    assert(t1.n > 0 && t2.n > 0 && len.n * t1.d > t1.n * len.d && len.n * t2.d > t2.n * len.d)
        by (nonlinear_arith)
        requires
            len.d >= 1,
            t1.d >= 1,
            t2.d >= 1,
            0 < t1.n * 1,
            t1.n * t2.d < t2.n * t1.d,
            t2.n * len.d < len.n * t2.d,
    ;
    lemma_fade_interior_den(len, t1);
    lemma_fade_interior_den(len, t2);
    assert((t2.d * len.n - t2.n * len.d) * (t1.d * len.n) < (t1.d * len.n - t1.n * len.d) * (t2.d
        * len.n)) by (nonlinear_arith)
        requires
            len.d >= 1,
            len.n >= 1,
            t1.n * t2.d < t2.n * t1.d,
    ;
}

/// The fade-out curve is the mirror image of the fade-in curve: at every
/// moment the two amplitudes sum to one.
pub proof fn lemma_fade_out_mirror(len: Frac, t: Frac)
    requires
        frac_wf(len),
        frac_wf(t),
    ensures
        frac_eq(fade_out_frac(len, t), frac_sub(frac_one(), fade_in_frac(len, t))),
{
    if t.n <= 0 {
    } else if frac_le(len, t) {
    } else {
        lemma_fade_interior_den(len, t);
        let d = t.d * len.n;
        let n = t.n * len.d;
        assert((d - n) * (1 * d) == (1 * d - n * 1) * d) by (nonlinear_arith);
    }
}

/// Clamp a sample into `[-1, 1]`.
pub open spec fn clamp_frac(x: Frac) -> Frac {
    if x.n > x.d {
        frac_one()
    } else if x.n < -x.d {
        frac_neg(frac_one())
    } else {
        x
    }
}

/// What one uniform byte `b` becomes in a noise buffer built over the value
/// range width `w`: `(b / 255) * w - w / 2`, put over the single denominator
/// `510 * w.d`.  The mapping is centered at zero and scaled by the range
/// width; it is deliberately not confined to `[min, max]` for ranges that are
/// asymmetric about zero, because downstream amplitude scaling assumes this
/// distribution.
pub open spec fn noise_sample_frac(b: int, width: Frac) -> Frac {
    Frac { n: (2 * b - 255) * width.n, d: 510 * width.d }
}

/// `noise_sample_frac` is exactly the textbook mapping
/// `(b / 255) * w - w / 2`.
pub proof fn lemma_noise_sample_formula(b: int, width: Frac)
    requires
        frac_wf(width),
    ensures
        frac_eq(
            noise_sample_frac(b, width),
            frac_sub(frac_mul(Frac { n: b, d: 255 }, width), frac_div(width, frac_int(2))),
        ),
{
    let lhs = noise_sample_frac(b, width);
    let rhs = frac_sub(frac_mul(Frac { n: b, d: 255 }, width), frac_div(width, frac_int(2)));
    assert(lhs.n * rhs.d == rhs.n * lhs.d) by (nonlinear_arith)
        requires
            lhs == (Frac { n: (2 * b - 255) * width.n, d: 510 * width.d }),
            rhs.n == (b * width.n) * (width.d * 2) - (width.n * 1) * (255 * width.d),
            rhs.d == (255 * width.d) * (width.d * 2),
    ;
}

/// Every buffer value built from a byte lies within the range width on
/// either side of zero.
pub proof fn lemma_noise_sample_in_range(b: int, width: Frac)
    requires
        0 <= b <= 255,
        frac_wf(width),
        width.n >= 0,
    ensures
        frac_le(frac_neg(width), noise_sample_frac(b, width)),
        frac_le(noise_sample_frac(b, width), width),
{
    assert((-width.n) * (510 * width.d) <= ((2 * b - 255) * width.n) * width.d && ((2 * b - 255)
        * width.n) * width.d <= width.n * (510 * width.d)) by (nonlinear_arith)
        requires
            0 <= b <= 255,
            width.d >= 1,
            width.n >= 0,
    ;
}

/// Half the range width: the largest magnitude `noise_sample_frac` can
/// reach, at the extreme bytes `0` and `255`.
pub open spec fn half_width_frac(width: Frac) -> Frac {
    Frac { n: 255 * width.n, d: 510 * width.d }
}

/// Every buffer value built from a byte lies within half the range width on
/// either side of zero.
pub proof fn lemma_noise_sample_within_half_width(b: int, width: Frac)
    requires
        0 <= b <= 255,
        frac_wf(width),
        width.n >= 0,
    ensures
        frac_le(frac_neg(half_width_frac(width)), noise_sample_frac(b, width)),
        frac_le(noise_sample_frac(b, width), half_width_frac(width)),
        frac_wf(half_width_frac(width)),
        half_width_frac(width).n >= 0,
{
    assert(((2 * b - 255) * width.n) * (510 * width.d) <= (255 * width.n) * (510 * width.d) && (-(
    255 * width.n)) * (510 * width.d) <= ((2 * b - 255) * width.n) * (510 * width.d))
        by (nonlinear_arith)
        requires
            0 <= b <= 255,
            width.d >= 1,
            width.n >= 0,
    ;
}

/// The fractional views of a sequence of `Ratio` values.
pub open spec fn seq_frac(s: Seq<Ratio>) -> Seq<Frac> {
    s.map_values(|x: Ratio| x@)
}

/// A noise value: what some byte maps to under `noise_sample_frac` for the
/// given range width.
pub open spec fn is_noise_sample(v: Frac, width: Frac) -> bool {
    exists|b: int| 0 <= b <= 255 && v == #[trigger] noise_sample_frac(b, width)
}

/// A buffer of noise values over the given range width.
pub open spec fn is_noise_buffer(buf: Seq<Frac>, width: Frac) -> bool {
    forall|k: int| 0 <= k < buf.len() ==> is_noise_sample(#[trigger] buf[k], width)
}

#[verifier::external_type_specification]
#[verifier::external_body]
pub struct ExGetrandomError(getrandom::Error);

/// Relies on `getrandom::getrandom`: on success it fills the whole slice
/// with bytes from the system entropy source.  The buffer keeps its length
/// either way; nothing can be promised about the bytes themselves.
#[verifier::external_body]
fn fill_random_bytes(buf: &mut Vec<u8>) -> (r: Result<(), getrandom::Error>)
    ensures
        final(buf)@.len() == old(buf)@.len(),
{
    getrandom::getrandom(buf.as_mut_slice())
}

/// Maps drawn bytes to noise values over the range `[min, max]`: entry `k`
/// is exactly what byte `bytes[k]` becomes under `noise_sample_frac` for the
/// range width `max - min`.
pub fn noise_values(bytes: &Vec<u8>, min: &Ratio, max: &Ratio) -> (out: Vec<Ratio>)
    requires
        min.wf(),
        max.wf(),
        -AT_SECOND_BOUND <= min.num <= AT_SECOND_BOUND,
        min.den <= AT_SECOND_BOUND,
        -AT_SECOND_BOUND <= max.num <= AT_SECOND_BOUND,
        max.den <= AT_SECOND_BOUND,
    ensures
        out@.len() == bytes@.len(),
        forall|k: int|
            0 <= k < bytes@.len() ==> (#[trigger] out@[k])@ == noise_sample_frac(
                bytes@[k] as int,
                frac_sub(max@, min@),
            ) && out@[k].wf() && out@[k].den as int == 510 * frac_sub(max@, min@).d,
{
    proof {
        lemma_mul_bounds(min.num as int, max.den as int, AT_SECOND_BOUND as int, AT_SECOND_BOUND as int);
        lemma_mul_bounds(max.num as int, min.den as int, AT_SECOND_BOUND as int, AT_SECOND_BOUND as int);
        lemma_mul_bounds(max.den as int, min.den as int, AT_SECOND_BOUND as int, AT_SECOND_BOUND as int);
    }
    let width = max.sub(min);
    proof {
        assert(width@ == frac_sub(max@, min@));
        lemma_pos_mul_pos(width@.d, 1);
    }
    let size = bytes.len();
    let mut out: Vec<Ratio> = Vec::new();
    let mut j: usize = 0;
    while j < size
        invariant
            out@.len() == j,
            j <= size,
            bytes@.len() == size,
            width@ == frac_sub(max@, min@),
            width.wf(),
            -2 * AT_SECOND_BOUND * AT_SECOND_BOUND <= width.num <= 2 * AT_SECOND_BOUND
                * AT_SECOND_BOUND,
            width.den <= AT_SECOND_BOUND * AT_SECOND_BOUND,
            forall|k: int|
                0 <= k < j ==> (#[trigger] out@[k])@ == noise_sample_frac(
                    bytes@[k] as int,
                    width@,
                ) && out@[k].den as int == 510 * width@.d && out@[k].wf(),
        decreases size - j,
    {
        let b = bytes[j];
        proof {
            lemma_mul_bounds(
                2 * b as int - 255,
                width.num as int,
                255,
                2 * AT_SECOND_BOUND as int * AT_SECOND_BOUND as int,
            );
            lemma_pos_mul_pos(510, width.den as int);
        }
        let num = (2 * (b as i128) - 255) * width.num;
        let den = 510 * width.den;
        out.push(Ratio { num, den });
        j = j + 1;
    }
    out
}

/// Builds a buffer of `size` noise values over the range `[min, max]`: one
/// uniform random byte per entry, mapped by `noise_sample_frac` over the
/// range width `max - min`.  Fails with `InvalidRange` exactly when the range
/// is empty or inverted, and with `Entropy` when the entropy source fails.
pub fn create_random_vec_f32(min: &Ratio, max: &Ratio, size: usize) -> (r: Result<
    Vec<Ratio>,
    NoiseError,
>)
    requires
        min.wf(),
        max.wf(),
        -AT_SECOND_BOUND <= min.num <= AT_SECOND_BOUND,
        min.den <= AT_SECOND_BOUND,
        -AT_SECOND_BOUND <= max.num <= AT_SECOND_BOUND,
        max.den <= AT_SECOND_BOUND,
    ensures
        !frac_lt(min@, max@) <==> r is Err && r->Err_0 == NoiseError::InvalidRange,
        r is Err ==> r->Err_0 == NoiseError::InvalidRange || r->Err_0 == NoiseError::Entropy,
        r is Ok ==> {
            let buf = seq_frac(r->Ok_0@);
            &&& buf.len() == size
            &&& is_noise_buffer(buf, frac_sub(max@, min@))
            &&& forall|k: int|
                0 <= k < size ==> (#[trigger] r->Ok_0@[k]).den as int == 510 * frac_sub(
                    max@,
                    min@,
                ).d && r->Ok_0@[k].wf()
        },
{
    proof {
        lemma_mul_bounds(min.num as int, max.den as int, AT_SECOND_BOUND as int, AT_SECOND_BOUND as int);
        lemma_mul_bounds(max.num as int, min.den as int, AT_SECOND_BOUND as int, AT_SECOND_BOUND as int);
        lemma_mul_bounds(max.den as int, min.den as int, AT_SECOND_BOUND as int, AT_SECOND_BOUND as int);
    }
    if !min.lt(max) {
        return Err(NoiseError::InvalidRange);
    }
    let mut buff: Vec<u8> = Vec::new();
    let mut i: usize = 0;
    while i < size
        invariant
            buff@.len() == i,
            i <= size,
        decreases size - i,
    {
        buff.push(0);
        i = i + 1;
    }
    match fill_random_bytes(&mut buff) {
        Err(_) => {
            return Err(NoiseError::Entropy);
        },
        Ok(()) => {},
    }
    let out = noise_values(&buff, min, max);
    proof {
        let bufv = seq_frac(out@);
        assert(bufv.len() == size);
        assert forall|k: int| 0 <= k < bufv.len() implies is_noise_sample(
            #[trigger] bufv[k],
            frac_sub(max@, min@),
        ) by {
            assert(bufv[k] == out@[k]@);
            assert(0 <= buff@[k] as int <= 255 && bufv[k] == noise_sample_frac(
                buff@[k] as int,
                frac_sub(max@, min@),
            ));
        }
    }
    Ok(out)
}

/// The scalar value three drawn bytes become: their sum over the largest
/// possible sum of three bytes, `765` — always within `[0, 1]`.
pub fn scalar_from_bytes(b0: u8, b1: u8, b2: u8) -> (r: Ratio)
    ensures
        r.wf(),
        r.den == 765,
        r.num == b0 as i128 + b1 as i128 + b2 as i128,
        0 <= r.num <= 765,
{
    Ratio { num: b0 as i128 + b1 as i128 + b2 as i128, den: 765 }
}

/// One scalar random value in `[0, 1]`: the sum of three uniform bytes over
/// their largest possible sum, `765`.  Fails with `Entropy` when the entropy
/// source fails.
pub fn random_f32() -> (r: Result<Ratio, NoiseError>)
    ensures
        r is Ok ==> {
            let v = r->Ok_0;
            &&& v.wf()
            &&& v.den == 765
            &&& 0 <= v.num <= 765
        },
        r is Err ==> r->Err_0 == NoiseError::Entropy,
{
    let mut buff: Vec<u8> = Vec::new();
    buff.push(0);
    buff.push(0);
    buff.push(0);
    match fill_random_bytes(&mut buff) {
        Err(_) => {
            return Err(NoiseError::Entropy);
        },
        Ok(()) => {},
    }
    Ok(scalar_from_bytes(buff[0], buff[1], buff[2]))
}

/// Clamp a sample into `[-1, 1]`, exactly.
pub fn clamp(num: Ratio) -> (r: Ratio)
    requires
        num.wf(),
        num.den < i128::MAX,
    ensures
        r@ == clamp_frac(num@),
        r.wf(),
{
    if num.num > num.den {
        return Ratio { num: 1, den: 1 };
    }
    if num.num < -num.den {
        return Ratio { num: -1, den: 1 };
    }
    num
}

} // verus!
