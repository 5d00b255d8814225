//! Composable waveform evaluators.
//!
//! A waveform maps a phase (a unitless, frequency-scaled time value in
//! [`UNIT`] fixed-point) to an amplitude.  The canonical amplitude
//! convention, applied to every primitive, is a range of `[0, UNIT]`
//! (biased, not centred): the renderer rescales to a centred range.
//! Phase wrap uses the non-negative remainder regardless of sign.
//!
//! Each evaluator describes itself by a [`WaveExpr`], the ghost
//! expression tree that the specification functions below interpret.
//! Every primitive is deterministic except the noise wave, so the
//! semantics of a tree at a phase is an envelope: the pair
//! [`wave_lo`], [`wave_hi`] brackets every result the evaluator may
//! return, and on a fully deterministic tree both sides collapse to
//! the one result [`wave_value`] (see [`lemma_det_value`]).
//!
//! The sine shape is defined by Bhaskara I's rational approximation of
//! the half-wave, which is exact at the ends and the crest and keeps
//! every intermediate product inside `i64`.

use vstd::prelude::*;

use crate::fixed::{clamp64, clamp_spec, max2, min2, mul_unit, scaled, slot_index, slot_spec};
use crate::fixed::{tdiv, wrap_phase};
use crate::fixed::{AMP_MAX, HALF_UNIT, UNIT};
use vstd::arithmetic::power2::pow2;

verus! {

/// Ghost description of a waveform evaluator: the primitives and every
/// combinator the algebra is closed under.
pub enum WaveExpr {
    /// One sine cycle per unit of phase, biased into `[0, UNIT]`.
    Sine,
    /// One triangle cycle per unit of phase, from `UNIT` down to 0 and back.
    Triangle,
    /// 0 on the first half of each cycle, `UNIT` on the second.
    Square,
    /// The fractional phase itself.
    Saw,
    /// The positive half-sine arch, repeated every unit of phase.
    Hill,
    /// An independent uniform sample in `[0, UNIT]` on every evaluation.
    Noise,
    /// The same level at every phase.
    Constant { level: i64 },
    /// A lookup sequence indexed by the fractional phase.
    Table { entries: Seq<i64> },
    /// The inner waveform with its phase scaled by `factor` units.
    Frequency { wave: Box<WaveExpr>, factor: i64 },
    /// A pitch-bend multiplier: two raised to the inner waveform's
    /// output remapped to `[-1, 1]` and scaled by `range` octaves.
    Bend { wave: Box<WaveExpr>, range: i64 },
    /// `a` weighted by the ratio waveform, `b` by its complement.
    Mix { a: Box<WaveExpr>, b: Box<WaveExpr>, ratio: Box<WaveExpr> },
    /// The sum of both waveforms; the caller manages clipping.
    Sum { a: Box<WaveExpr>, b: Box<WaveExpr> },
    /// The fixed-point product of both waveforms.
    Product { a: Box<WaveExpr>, b: Box<WaveExpr> },
    /// The inner waveform evaluated at one unit minus the phase.
    Reverse { wave: Box<WaveExpr> },
    /// One unit minus the inner waveform.
    Flip { wave: Box<WaveExpr> },
}

/// The non-negative fractional part of a phase.
pub open spec fn wrap_spec(t: int) -> int {
    t % (UNIT as int)
}

/// Bhaskara I's rational approximation of `UNIT * sin(pi * u / UNIT)`
/// for a fractional phase `u`, the crate's definition of the sine arch.
pub open spec fn hill_arch(u: int) -> int {
    let q = u * (UNIT - u);
    (16 * q * UNIT) / (5 * (UNIT as int) * (UNIT as int) - 4 * q)
}

/// The sine primitive: one full cycle per unit, biased into `[0, UNIT]`.
pub open spec fn sine_value(t: int) -> int {
    let u = wrap_spec(t);
    if u < HALF_UNIT {
        (UNIT + hill_arch(2 * u)) / 2
    } else {
        (UNIT - hill_arch(2 * u - UNIT)) / 2
    }
}

/// The triangle primitive.
pub open spec fn triangle_value(t: int) -> int {
    let u = wrap_spec(t);
    if 2 * u < UNIT {
        UNIT - 2 * u
    } else {
        2 * u - UNIT
    }
}

/// The square primitive.
pub open spec fn square_value(t: int) -> int {
    if wrap_spec(t) < HALF_UNIT {
        0
    } else {
        UNIT as int
    }
}

/// The saw primitive.
pub open spec fn saw_value(t: int) -> int {
    wrap_spec(t)
}

/// The hill primitive: the positive half-sine arch each cycle.
pub open spec fn hill_value(t: int) -> int {
    hill_arch(wrap_spec(t))
}

/// The entry a lookup sequence yields at phase `t`.
pub open spec fn table_value(entries: Seq<i64>, t: int) -> int {
    entries[slot_spec(wrap_spec(t), entries.len() as int)] as int
}

/// The quadratic interpolation of `2^(f / UNIT)` on one unit, exact at
/// both ends: `1 + (2/3) * f + (1/3) * f^2` in units.
pub open spec fn exp2_frac(f: int) -> int {
    UNIT + (2 * f) / 3 + ((f * f) / (UNIT as int)) / 3
}

/// Two raised to the fixed-point exponent `e / UNIT`, in units.
pub open spec fn exp2_units(e: int) -> int {
    let i = e / (UNIT as int);
    let f = e % (UNIT as int);
    let m = exp2_frac(f);
    if i >= 0 {
        m * pow2(i as nat)
    } else {
        m / (pow2((-i) as nat) as int)
    }
}

/// The pitch-bend multiplier for a bend range and an inner output `w`:
/// `w` is remapped to `[-UNIT, UNIT]` and scaled by `range` octaves.
pub open spec fn bend_value(range: i64, w: int) -> int {
    exp2_units(scaled(range as int, clamp_spec(2 * w - UNIT, -(UNIT as int), UNIT as int)))
}

/// The weighted blend of `x` and `y` under a ratio `z` restricted to
/// `[0, UNIT]`: `x` at the `UNIT` end, `y` at the zero end.
pub open spec fn mix_value(x: int, y: int, z: int) -> int {
    let rc = clamp_spec(z, 0, UNIT as int);
    tdiv(x * rc + y * (UNIT - rc), UNIT as int)
}

/// Magnitude bound of the results a tree may produce.
pub open spec fn wave_bound(e: WaveExpr) -> int
    decreases e,
{
    match e {
        WaveExpr::Sine => UNIT as int,
        WaveExpr::Triangle => UNIT as int,
        WaveExpr::Square => UNIT as int,
        WaveExpr::Saw => UNIT as int,
        WaveExpr::Hill => UNIT as int,
        WaveExpr::Noise => UNIT as int,
        WaveExpr::Constant { level } => if level >= 0 {
            level as int
        } else {
            -(level as int)
        },
        WaveExpr::Table { .. } => UNIT as int,
        WaveExpr::Frequency { wave, .. } => wave_bound(*wave),
        WaveExpr::Bend { .. } => 256 * (UNIT as int),
        WaveExpr::Mix { a, b, .. } => max2(wave_bound(*a), wave_bound(*b)),
        WaveExpr::Sum { a, b } => wave_bound(*a) + wave_bound(*b),
        WaveExpr::Product { a, b } => wave_bound(*a) * wave_bound(*b) / (UNIT as int),
        WaveExpr::Reverse { wave } => wave_bound(*wave),
        WaveExpr::Flip { wave } => UNIT + wave_bound(*wave),
    }
}

/// Well-formedness of a tree: structural constraints on the leaves and
/// a magnitude bound of [`AMP_MAX`] at every node, so that every
/// product in an evaluation fits in an `i64`.
pub open spec fn wave_wf(e: WaveExpr) -> bool
    decreases e,
{
    wave_bound(e) <= AMP_MAX && match e {
        WaveExpr::Sine => true,
        WaveExpr::Triangle => true,
        WaveExpr::Square => true,
        WaveExpr::Saw => true,
        WaveExpr::Hill => true,
        WaveExpr::Noise => true,
        WaveExpr::Constant { .. } => true,
        WaveExpr::Table { entries } => entries.len() >= 1 && (forall|i: int|
            0 <= i < entries.len() ==> 0 <= #[trigger] entries[i] <= UNIT),
        WaveExpr::Frequency { wave, factor } => factor >= 0 && wave_wf(*wave),
        WaveExpr::Bend { wave, range } => 0 <= range <= 8 * UNIT && wave_wf(*wave),
        WaveExpr::Mix { a, b, ratio } => wave_wf(*a) && wave_wf(*b) && wave_wf(*ratio),
        WaveExpr::Sum { a, b } => wave_wf(*a) && wave_wf(*b),
        WaveExpr::Product { a, b } => wave_wf(*a) && wave_wf(*b),
        WaveExpr::Reverse { wave } => wave_wf(*wave),
        WaveExpr::Flip { wave } => wave_wf(*wave),
    }
}

/// The phases at which a tree may be evaluated without the scaled
/// phase of a `Frequency` node or the mirrored phase of a `Reverse`
/// node leaving the `i64` range.
pub open spec fn phase_ok(e: WaveExpr, t: int) -> bool
    decreases e,
{
    match e {
        WaveExpr::Frequency { wave, factor } => -(i64::MAX as int) <= t * factor <= i64::MAX
            && phase_ok(*wave, scaled(t, factor as int)),
        WaveExpr::Bend { wave, .. } => phase_ok(*wave, t),
        WaveExpr::Mix { a, b, ratio } => phase_ok(*a, t) && phase_ok(*b, t) && phase_ok(*ratio, t),
        WaveExpr::Sum { a, b } => phase_ok(*a, t) && phase_ok(*b, t),
        WaveExpr::Product { a, b } => phase_ok(*a, t) && phase_ok(*b, t),
        WaveExpr::Reverse { wave } => UNIT - (i64::MAX as int) <= t && phase_ok(*wave, UNIT - t),
        WaveExpr::Flip { wave } => phase_ok(*wave, t),
        _ => true,
    }
}

/// Whether every node of the tree is deterministic: no noise primitive.
pub open spec fn wave_det(e: WaveExpr) -> bool
    decreases e,
{
    match e {
        WaveExpr::Noise => false,
        WaveExpr::Frequency { wave, .. } => wave_det(*wave),
        WaveExpr::Bend { wave, .. } => wave_det(*wave),
        WaveExpr::Mix { a, b, ratio } => wave_det(*a) && wave_det(*b) && wave_det(*ratio),
        WaveExpr::Sum { a, b } => wave_det(*a) && wave_det(*b),
        WaveExpr::Product { a, b } => wave_det(*a) && wave_det(*b),
        WaveExpr::Reverse { wave } => wave_det(*wave),
        WaveExpr::Flip { wave } => wave_det(*wave),
        _ => true,
    }
}

/// The one result of a deterministic tree at phase `t` (a noise leaf,
/// which the envelope describes instead, counts as 0 here).
pub open spec fn wave_value(e: WaveExpr, t: int) -> int
    decreases e,
{
    match e {
        WaveExpr::Sine => sine_value(t),
        WaveExpr::Triangle => triangle_value(t),
        WaveExpr::Square => square_value(t),
        WaveExpr::Saw => saw_value(t),
        WaveExpr::Hill => hill_value(t),
        WaveExpr::Noise => 0,
        WaveExpr::Constant { level } => level as int,
        WaveExpr::Table { entries } => table_value(entries, t),
        WaveExpr::Frequency { wave, factor } => wave_value(*wave, scaled(t, factor as int)),
        WaveExpr::Bend { wave, range } => bend_value(range, wave_value(*wave, t)),
        WaveExpr::Mix { a, b, ratio } => mix_value(
            wave_value(*a, t),
            wave_value(*b, t),
            wave_value(*ratio, t),
        ),
        WaveExpr::Sum { a, b } => wave_value(*a, t) + wave_value(*b, t),
        WaveExpr::Product { a, b } => scaled(wave_value(*a, t), wave_value(*b, t)),
        WaveExpr::Reverse { wave } => wave_value(*wave, UNIT - t),
        WaveExpr::Flip { wave } => UNIT - wave_value(*wave, t),
    }
}

/// The lower end of the envelope of results the tree may return at
/// phase `t`.  Only the noise primitive opens the envelope; every
/// combinator propagates it exactly, except a bend over an open
/// envelope, which falls back to the bend's full output range.
pub open spec fn wave_lo(e: WaveExpr, t: int) -> int
    decreases e,
{
    match e {
        WaveExpr::Noise => 0,
        WaveExpr::Frequency { wave, factor } => wave_lo(*wave, scaled(t, factor as int)),
        WaveExpr::Bend { wave, range } => if wave_lo(*wave, t) == wave_hi(*wave, t) {
            bend_value(range, wave_lo(*wave, t))
        } else {
            1
        },
        WaveExpr::Mix { a, b, ratio } => {
            let xl = wave_lo(*a, t);
            let yl = wave_lo(*b, t);
            let rcl = clamp_spec(wave_lo(*ratio, t), 0, UNIT as int);
            let rch = clamp_spec(wave_hi(*ratio, t), 0, UNIT as int);
            tdiv(min2(xl * rcl + yl * (UNIT - rcl), xl * rch + yl * (UNIT - rch)), UNIT as int)
        },
        WaveExpr::Sum { a, b } => wave_lo(*a, t) + wave_lo(*b, t),
        WaveExpr::Product { a, b } => {
            let xl = wave_lo(*a, t);
            let xh = wave_hi(*a, t);
            let yl = wave_lo(*b, t);
            let yh = wave_hi(*b, t);
            tdiv(min2(min2(xl * yl, xl * yh), min2(xh * yl, xh * yh)), UNIT as int)
        },
        WaveExpr::Reverse { wave } => wave_lo(*wave, UNIT - t),
        WaveExpr::Flip { wave } => UNIT - wave_hi(*wave, t),
        _ => wave_value(e, t),
    }
}

/// The upper end of the envelope of results the tree may return at
/// phase `t`.
pub open spec fn wave_hi(e: WaveExpr, t: int) -> int
    decreases e,
{
    match e {
        WaveExpr::Noise => UNIT as int,
        WaveExpr::Frequency { wave, factor } => wave_hi(*wave, scaled(t, factor as int)),
        WaveExpr::Bend { wave, range } => if wave_lo(*wave, t) == wave_hi(*wave, t) {
            bend_value(range, wave_lo(*wave, t))
        } else {
            256 * (UNIT as int)
        },
        WaveExpr::Mix { a, b, ratio } => {
            let xh = wave_hi(*a, t);
            let yh = wave_hi(*b, t);
            let rcl = clamp_spec(wave_lo(*ratio, t), 0, UNIT as int);
            let rch = clamp_spec(wave_hi(*ratio, t), 0, UNIT as int);
            tdiv(max2(xh * rcl + yh * (UNIT - rcl), xh * rch + yh * (UNIT - rch)), UNIT as int)
        },
        WaveExpr::Sum { a, b } => wave_hi(*a, t) + wave_hi(*b, t),
        WaveExpr::Product { a, b } => {
            let xl = wave_lo(*a, t);
            let xh = wave_hi(*a, t);
            let yl = wave_lo(*b, t);
            let yh = wave_hi(*b, t);
            tdiv(max2(max2(xl * yl, xl * yh), max2(xh * yl, xh * yh)), UNIT as int)
        },
        WaveExpr::Reverse { wave } => wave_hi(*wave, UNIT - t),
        WaveExpr::Flip { wave } => UNIT - wave_lo(*wave, t),
        _ => wave_value(e, t),
    }
}

/// The magnitude bound of a tree is never negative.
pub proof fn lemma_wave_bound_nonneg(e: WaveExpr)
    ensures
        wave_bound(e) >= 0,
    decreases e,
{
    match e {
        WaveExpr::Frequency { wave, .. } => lemma_wave_bound_nonneg(*wave),
        WaveExpr::Mix { a, b, .. } => {
            lemma_wave_bound_nonneg(*a);
            lemma_wave_bound_nonneg(*b);
        },
        WaveExpr::Sum { a, b } => {
            lemma_wave_bound_nonneg(*a);
            lemma_wave_bound_nonneg(*b);
        },
        WaveExpr::Product { a, b } => {
            lemma_wave_bound_nonneg(*a);
            lemma_wave_bound_nonneg(*b);
            vstd::arithmetic::mul::lemma_mul_nonnegative(wave_bound(*a), wave_bound(*b));
            vstd::arithmetic::div_mod::lemma_div_pos_is_pos(
                wave_bound(*a) * wave_bound(*b),
                UNIT as int,
            );
        },
        WaveExpr::Reverse { wave } => lemma_wave_bound_nonneg(*wave),
        WaveExpr::Flip { wave } => lemma_wave_bound_nonneg(*wave),
        _ => {},
    }
}

/// Law: on a deterministic tree the envelope collapses, so every
/// evaluation returns exactly [`wave_value`].
pub proof fn lemma_det_value(e: WaveExpr, t: int)
    requires
        wave_det(e),
    ensures
        wave_lo(e, t) == wave_value(e, t),
        wave_hi(e, t) == wave_value(e, t),
    decreases e,
{
    match e {
        WaveExpr::Frequency { wave, factor } => lemma_det_value(*wave, scaled(t, factor as int)),
        WaveExpr::Bend { wave, .. } => lemma_det_value(*wave, t),
        WaveExpr::Mix { a, b, ratio } => {
            lemma_det_value(*a, t);
            lemma_det_value(*b, t);
            lemma_det_value(*ratio, t);
        },
        WaveExpr::Sum { a, b } => {
            lemma_det_value(*a, t);
            lemma_det_value(*b, t);
        },
        WaveExpr::Product { a, b } => {
            lemma_det_value(*a, t);
            lemma_det_value(*b, t);
        },
        WaveExpr::Reverse { wave } => lemma_det_value(*wave, UNIT - t),
        WaveExpr::Flip { wave } => lemma_det_value(*wave, t),
        _ => {},
    }
}

/// Law: a frequency-scaled wave evaluated at phase `t` is the inner
/// wave evaluated at `t` times the factor (in units): its value and
/// its whole envelope coincide with the inner wave's at the scaled
/// phase.
pub proof fn lemma_frequency_scale(wave: WaveExpr, factor: i64, t: int)
    ensures
        wave_value(WaveExpr::Frequency { wave: Box::new(wave), factor }, t) == wave_value(
            wave,
            scaled(t, factor as int),
        ),
        wave_lo(WaveExpr::Frequency { wave: Box::new(wave), factor }, t) == wave_lo(
            wave,
            scaled(t, factor as int),
        ),
        wave_hi(WaveExpr::Frequency { wave: Box::new(wave), factor }, t) == wave_hi(
            wave,
            scaled(t, factor as int),
        ),
{
}

/// Law: an octave shift is a frequency scale by two to the `n`-th
/// power: for a non-negative `n` the factor is exactly `2^n` units,
/// and for a negative `n` it is exactly `UNIT / 2^(-n)`, with the
/// division exact.
pub proof fn lemma_octave_factor(n: int)
    requires
        -20 <= n <= 20,
    ensures
        n >= 0 ==> octave_factor(n) == (UNIT as int) * (pow2(n as nat) as int),
        n < 0 ==> octave_factor(n) * (pow2((-n) as nat) as int) == UNIT as int,
{
    vstd::arithmetic::power2::lemma2_to64();
    if n < 0 {
        vstd::arithmetic::power2::lemma_pow2_subtracts((-n) as nat, 20);
        vstd::arithmetic::power2::lemma_pow2_adds((20 + n) as nat, (-n) as nat);
    }
}

/// Law: where the ratio's envelope is exactly the zero end of its
/// range, a mix returns exactly what `b` returns: the mix's envelope
/// is `b`'s envelope.
pub proof fn lemma_mix_zero_end(a: WaveExpr, b: WaveExpr, ratio: WaveExpr, t: int)
    requires
        wave_lo(ratio, t) == 0,
        wave_hi(ratio, t) == 0,
    ensures
        wave_lo(WaveExpr::Mix { a: Box::new(a), b: Box::new(b), ratio: Box::new(ratio) }, t)
            == wave_lo(b, t),
        wave_hi(WaveExpr::Mix { a: Box::new(a), b: Box::new(b), ratio: Box::new(ratio) }, t)
            == wave_hi(b, t),
{
    let m = WaveExpr::Mix { a: Box::new(a), b: Box::new(b), ratio: Box::new(ratio) };
    assert(clamp_spec(0, 0, UNIT as int) == 0);
    assert(wave_lo(m, t) == tdiv(
        min2(
            wave_lo(a, t) * 0 + wave_lo(b, t) * (UNIT - 0),
            wave_lo(a, t) * 0 + wave_lo(b, t) * (UNIT - 0),
        ),
        UNIT as int,
    ));
    assert(wave_lo(m, t) == tdiv(wave_lo(b, t) * (UNIT as int), UNIT as int));
    assert(wave_hi(m, t) == tdiv(
        max2(
            wave_hi(a, t) * 0 + wave_hi(b, t) * (UNIT - 0),
            wave_hi(a, t) * 0 + wave_hi(b, t) * (UNIT - 0),
        ),
        UNIT as int,
    ));
    assert(wave_hi(m, t) == tdiv(wave_hi(b, t) * (UNIT as int), UNIT as int));
    lemma_times_unit_div(wave_lo(b, t));
    lemma_times_unit_div(wave_hi(b, t));
}

/// Law: where the ratio's envelope is exactly the unit end of its
/// range, a mix returns exactly what `a` returns: the mix's envelope
/// is `a`'s envelope.
pub proof fn lemma_mix_unit_end(a: WaveExpr, b: WaveExpr, ratio: WaveExpr, t: int)
    requires
        wave_lo(ratio, t) == UNIT,
        wave_hi(ratio, t) == UNIT,
    ensures
        wave_lo(WaveExpr::Mix { a: Box::new(a), b: Box::new(b), ratio: Box::new(ratio) }, t)
            == wave_lo(a, t),
        wave_hi(WaveExpr::Mix { a: Box::new(a), b: Box::new(b), ratio: Box::new(ratio) }, t)
            == wave_hi(a, t),
{
    let m = WaveExpr::Mix { a: Box::new(a), b: Box::new(b), ratio: Box::new(ratio) };
    assert(clamp_spec(UNIT as int, 0, UNIT as int) == UNIT);
    assert(wave_lo(m, t) == tdiv(
        min2(
            wave_lo(a, t) * (UNIT as int) + wave_lo(b, t) * (UNIT - UNIT as int),
            wave_lo(a, t) * (UNIT as int) + wave_lo(b, t) * (UNIT - UNIT as int),
        ),
        UNIT as int,
    ));
    assert(wave_lo(m, t) == tdiv(wave_lo(a, t) * (UNIT as int), UNIT as int));
    assert(wave_hi(m, t) == tdiv(
        max2(
            wave_hi(a, t) * (UNIT as int) + wave_hi(b, t) * (UNIT - UNIT as int),
            wave_hi(a, t) * (UNIT as int) + wave_hi(b, t) * (UNIT - UNIT as int),
        ),
        UNIT as int,
    ));
    assert(wave_hi(m, t) == tdiv(wave_hi(a, t) * (UNIT as int), UNIT as int));
    lemma_times_unit_div(wave_lo(a, t));
    lemma_times_unit_div(wave_hi(a, t));
}

/// Multiplying by [`UNIT`] and dividing by it again is the identity.
proof fn lemma_times_unit_div(v: int)
    ensures
        tdiv(v * (UNIT as int), UNIT as int) == v,
{
    if v >= 0 {
        vstd::arithmetic::mul::lemma_mul_nonnegative(v, UNIT as int);
        vstd::arithmetic::div_mod::lemma_div_multiples_vanish(v, UNIT as int);
    } else {
        vstd::arithmetic::mul::lemma_mul_strictly_positive(-v, UNIT as int);
        vstd::arithmetic::div_mod::lemma_div_multiples_vanish(-v, UNIT as int);
    }
}

/// The factor by which [`Wave::octave`] scales the phase: two to the
/// `n`-th power in units, exact for every `n` of at least -20.
pub open spec fn octave_factor(n: int) -> int {
    if n >= 0 {
        (UNIT as int) * (pow2(n as nat) as int)
    } else {
        (UNIT as int) / (pow2((-n) as nat) as int)
    }
}

/// Trait of waveform evaluators.
///
/// An implementation names its ghost expression tree and evaluates it;
/// the default methods build the combinators of the algebra, so that
/// any evaluator, a primitive, a constant level, a lookup sequence or a
/// combination, can stand wherever a waveform is expected.
pub trait Wave: Sized {
    /// The ghost expression tree this evaluator computes.
    spec fn expr(&self) -> WaveExpr;

    /// Evaluate the waveform at phase `t`.
    fn calculate(&self, t: i64) -> (r: i64)
        requires
            wave_wf(self.expr()),
            phase_ok(self.expr(), t as int),
        ensures
            wave_lo(self.expr(), t as int) <= r as int <= wave_hi(self.expr(), t as int),
            -wave_bound(self.expr()) <= r as int <= wave_bound(self.expr()),
    ;

    /// Use a specific frequency for a wave.
    fn frequency(self, frequency: i64) -> (w: FrequencyWave<Self>)
        ensures
            w == (FrequencyWave { wave: self, frequency }),
    {
        FrequencyWave { wave: self, frequency }
    }

    /// Add a specific octave for a wave: a frequency factor of two to
    /// the `octaves`-th power.
    fn octave(self, octaves: i32) -> (w: FrequencyWave<Self>)
        requires
            -20 <= octaves <= 20,
        ensures
            w.wave == self,
            w.frequency as int == octave_factor(octaves as int),
    {
        let p = pow2_i64((octaves + 20) as u32);
        proof {
            vstd::arithmetic::power2::lemma2_to64();
            if octaves >= 0 {
                vstd::arithmetic::power2::lemma_pow2_adds(20, octaves as nat);
            } else {
                vstd::arithmetic::power2::lemma_pow2_subtracts((-(octaves as int)) as nat, 20);
            }
        }
        FrequencyWave { wave: self, frequency: p }
    }

    /// Reverse the wave.
    fn reverse(self) -> (w: ReverseWave<Self>)
        ensures
            w == (ReverseWave(self)),
    {
        ReverseWave(self)
    }

    /// Flip the wave.
    fn flip(self) -> (w: FlipWave<Self>)
        ensures
            w == (FlipWave(self)),
    {
        FlipWave(self)
    }
}

/// Mix two waves using a ratio wave: `a` where the ratio reaches one
/// unit, `b` where it reaches zero.
pub fn mix<A: Wave, B: Wave, R: Wave>(ratio: R, a: A, b: B) -> (w: MixWave<A, B, R>)
    ensures
        w == (MixWave { a, b, ratio }),
{
    MixWave { a, b, ratio }
}

/// Add two waves.
pub fn add_waves<A: Wave, B: Wave>(a: A, b: B) -> (w: AddWave<A, B>)
    ensures
        w == (AddWave { a, b }),
{
    AddWave { a, b }
}

/// Multiply two waves in fixed point.
pub fn multiply_waves<A: Wave, B: Wave>(a: A, b: B) -> (w: MultiplyWave<A, B>)
    ensures
        w == (MultiplyWave { a, b }),
{
    MultiplyWave { a, b }
}

/// Two to the `k`-th power as an `i64`.
fn pow2_i64(k: u32) -> (p: i64)
    requires
        k <= 40,
    ensures
        p as int == pow2(k as nat),
        p >= 1,
{
    let mut p: i64 = 1;
    let mut j: u32 = 0;
    proof {
        vstd::arithmetic::power2::lemma2_to64();
        vstd::arithmetic::power2::lemma2_to64_rest();
    }
    while j < k
        invariant
            j <= k <= 40,
            p as int == pow2(j as nat),
            pow2(40) == 0x10000000000,
        decreases k - j,
    {
        proof {
            vstd::arithmetic::power2::lemma_pow2_unfold((j + 1) as nat);
            if j < 40 {
                vstd::arithmetic::power2::lemma_pow2_strictly_increases(j as nat, 40);
            }
        }
        p = 2 * p;
        j = j + 1;
    }
    p
}

/// Two to the power of the fixed-point exponent `e / UNIT`, in units:
/// the exact value at whole exponents, the quadratic [`exp2_frac`]
/// interpolation between them.
pub fn exp2_fixed(e: i64) -> (r: i64)
    requires
        -8 * UNIT <= e <= 8 * UNIT,
    ensures
        r as int == exp2_units(e as int),
        0 < r <= 256 * UNIT,
{
    let q0 = e / UNIT;
    let m0 = e % UNIT;
    let i_fl: i64 = if m0 < 0 {
        q0 - 1
    } else {
        q0
    };
    let f: i64 = if m0 < 0 {
        m0 + UNIT
    } else {
        m0
    };
    proof {
        vstd::arithmetic::div_mod::lemma_fundamental_div_mod(e as int, UNIT as int);
        vstd::arithmetic::div_mod::lemma_fundamental_div_mod(-(e as int), UNIT as int);
        vstd::arithmetic::div_mod::lemma_mod_division_less_than_divisor(e as int, UNIT as int);
        vstd::arithmetic::div_mod::lemma_mod_division_less_than_divisor(-(e as int), UNIT as int);
        assert(i_fl as int == (e as int) / (UNIT as int));
        assert(f as int == (e as int) % (UNIT as int));
        assert(0 <= f < UNIT);
    }
    proof {
        assert(0 <= (f as int) * (f as int) < (UNIT as int) * (UNIT as int)) by (nonlinear_arith)
            requires
                0 <= f < UNIT,
        ;
        vstd::arithmetic::div_mod::lemma_multiply_divide_lt(
            (f as int) * (f as int),
            UNIT as int,
            UNIT as int,
        );
        vstd::arithmetic::div_mod::lemma_div_pos_is_pos((f as int) * (f as int), UNIT as int);
        vstd::arithmetic::div_mod::lemma_div_is_ordered(
            ((f as int) * (f as int)) / (UNIT as int),
            1048575,
            3,
        );
        vstd::arithmetic::div_mod::lemma_div_pos_is_pos(
            ((f as int) * (f as int)) / (UNIT as int),
            3,
        );
        vstd::arithmetic::div_mod::lemma_div_is_ordered(2 * f as int, 2097150, 3);
        vstd::arithmetic::div_mod::lemma_div_pos_is_pos(2 * f as int, 3);
        vstd::arithmetic::power2::lemma2_to64();
    }
    let m: i64 = UNIT + (2 * f) / 3 + ((f * f) / UNIT) / 3;
    proof {
        assert(UNIT <= m <= 2097151);
    }
    proof {
        vstd::arithmetic::div_mod::lemma_div_multiples_vanish(8, UNIT as int);
        vstd::arithmetic::div_mod::lemma_div_multiples_vanish(-8, UNIT as int);
        vstd::arithmetic::div_mod::lemma_div_is_ordered(e as int, 8 * UNIT as int, UNIT as int);
        vstd::arithmetic::div_mod::lemma_div_is_ordered(-8 * UNIT as int, e as int, UNIT as int);
        assert(-8 <= i_fl <= 8);
    }
    if i_fl >= 0 {
        let p = pow2_i64(i_fl as u32);
        proof {
            if i_fl == 8 {
                assert(f == 0);
                assert(m == UNIT);
            } else if i_fl == 7 {
                assert(p == 128);
            } else {
                vstd::arithmetic::power2::lemma_pow2_strictly_increases(i_fl as nat, 7);
            }
            assert((m as int) * (p as int) <= 256 * (UNIT as int) && 0 < (m as int) * (p as int))
                by (nonlinear_arith)
                requires
                    UNIT == 1048576i64,
                    UNIT <= m <= 2097151,
                    1 <= p,
                    i_fl == 8 ==> m == UNIT && p == 256,
                    i_fl != 8 ==> p <= 128,
            ;
        }
        m * p
    } else {
        let n = (-i_fl) as u32;
        let p = pow2_i64(n);
        proof {
            if n < 8 {
                vstd::arithmetic::power2::lemma_pow2_strictly_increases(n as nat, 8);
            }
            vstd::arithmetic::div_mod::lemma_div_is_ordered(UNIT as int, m as int, p as int);
            vstd::arithmetic::div_mod::lemma_div_is_ordered_by_denominator(
                UNIT as int,
                p as int,
                256,
            );
            vstd::arithmetic::div_mod::lemma_div_nonincreasing(m as int, p as int);
            vstd::arithmetic::div_mod::lemma_div_pos_is_pos(m as int, p as int);
        }
        m / p
    }
}

/// The sine arch `hill_arch(x)`, the shared shape of the sine and hill
/// primitives.
fn arch(x: i64) -> (h: i64)
    requires
        0 <= x < UNIT,
    ensures
        h as int == hill_arch(x as int),
        0 <= h <= UNIT,
{
    proof {
        assert(0 <= (x as int) * (UNIT - x as int) && 4 * ((x as int) * (UNIT - x as int)) <= (
        UNIT as int) * (UNIT as int)) by (nonlinear_arith)
            requires
                0 <= x < UNIT,
        ;
    }
    let q: i64 = x * (UNIT - x);
    let num: i64 = 16 * q * UNIT;
    let den: i64 = 5 * UNIT * UNIT - 4 * q;
    let h = num / den;
    proof {
        assert(num as int <= (UNIT as int) * (den as int)) by (nonlinear_arith)
            requires
                num == 16 * (q as int) * (UNIT as int),
                den == 5 * (UNIT as int) * (UNIT as int) - 4 * (q as int),
                0 <= q,
                4 * (q as int) <= (UNIT as int) * (UNIT as int),
        ;
        vstd::arithmetic::div_mod::lemma_multiply_divide_le(num as int, den as int, UNIT as int);
        vstd::arithmetic::div_mod::lemma_div_pos_is_pos(num as int, den as int);
    }
    h
}

/// A simple sine wave.
#[derive(Clone, Copy)]
pub struct SineWave;

impl Wave for SineWave {
    open spec fn expr(&self) -> WaveExpr {
        WaveExpr::Sine
    }

    fn calculate(&self, t: i64) -> (r: i64) {
        let u = wrap_phase(t);
        if u < HALF_UNIT {
            let h = arch(2 * u);
            (UNIT + h) / 2
        } else {
            let h = arch(2 * u - UNIT);
            (UNIT - h) / 2
        }
    }
}

/// A simple triangle wave.
#[derive(Clone, Copy)]
pub struct TriangleWave;

impl Wave for TriangleWave {
    open spec fn expr(&self) -> WaveExpr {
        WaveExpr::Triangle
    }

    fn calculate(&self, t: i64) -> (r: i64) {
        let u = wrap_phase(t);
        if 2 * u < UNIT {
            UNIT - 2 * u
        } else {
            2 * u - UNIT
        }
    }
}

/// A simple square wave.
#[derive(Clone, Copy)]
pub struct SquareWave;

impl Wave for SquareWave {
    open spec fn expr(&self) -> WaveExpr {
        WaveExpr::Square
    }

    fn calculate(&self, t: i64) -> (r: i64) {
        let u = wrap_phase(t);
        if u < HALF_UNIT {
            0
        } else {
            UNIT
        }
    }
}

/// A simple saw wave.
#[derive(Clone, Copy)]
pub struct SawWave;

impl Wave for SawWave {
    open spec fn expr(&self) -> WaveExpr {
        WaveExpr::Saw
    }

    fn calculate(&self, t: i64) -> (r: i64) {
        wrap_phase(t)
    }
}

/// A simple hill wave.
#[derive(Clone, Copy)]
pub struct HillWave;

impl Wave for HillWave {
    open spec fn expr(&self) -> WaveExpr {
        WaveExpr::Hill
    }

    fn calculate(&self, t: i64) -> (r: i64) {
        let u = wrap_phase(t);
        arch(u)
    }
}

/// Relies on rand::random: an independent sample on every call;
/// nothing is assumed of its value.
pub assume_specification<T>[ rand::random::<T> ]() -> (r: T)
    where
        rand::distributions::Standard: rand::distributions::Distribution<T>,
;

/// A simple noise wave.
#[derive(Clone, Copy)]
pub struct NoiseWave;

impl Wave for NoiseWave {
    open spec fn expr(&self) -> WaveExpr {
        WaveExpr::Noise
    }

    fn calculate(&self, t: i64) -> (r: i64) {
        let x: u32 = rand::random::<u32>();
        let m: u32 = (UNIT as u32) + 1;
        (x % m) as i64
    }
}

/// A constant level is a waveform: the same value at every phase.
impl Wave for i64 {
    open spec fn expr(&self) -> WaveExpr {
        WaveExpr::Constant { level: *self }
    }

    fn calculate(&self, t: i64) -> (r: i64) {
        *self
    }
}

/// A precomputed lookup sequence is a waveform: the fractional phase
/// selects one of its equal bins.
impl Wave for Vec<i64> {
    open spec fn expr(&self) -> WaveExpr {
        WaveExpr::Table { entries: self@ }
    }

    fn calculate(&self, t: i64) -> (r: i64) {
        let u = wrap_phase(t);
        let i = slot_index(u, self.len());
        self[i]
    }
}

/// Wave having a specific frequency: the phase is scaled by `frequency`
/// units before the inner wave sees it.
#[derive(Clone, Copy)]
pub struct FrequencyWave<W: Wave> {
    /// The wave whose phase is scaled.
    pub wave: W,
    /// The phase scale in units.
    pub frequency: i64,
}

impl<W: Wave> Wave for FrequencyWave<W> {
    open spec fn expr(&self) -> WaveExpr {
        WaveExpr::Frequency { wave: Box::new(self.wave.expr()), factor: self.frequency }
    }

    fn calculate(&self, t: i64) -> (r: i64) {
        proof {
            crate::fixed::lemma_tdiv_le((t as int) * (self.frequency as int), i64::MAX as int);
        }
        let t2 = mul_unit(t, self.frequency);
        self.wave.calculate(t2)
    }
}

/// Mixes waves using a specified ratio.
#[derive(Clone, Copy)]
pub struct MixWave<A: Wave, B: Wave, R: Wave> {
    /// The wave weighted by the ratio.
    pub a: A,
    /// The wave weighted by the ratio's complement.
    pub b: B,
    /// The weighting ratio, restricted to `[0, UNIT]` when applied.
    pub ratio: R,
}

impl<A: Wave, B: Wave, R: Wave> Wave for MixWave<A, B, R> {
    open spec fn expr(&self) -> WaveExpr {
        WaveExpr::Mix {
            a: Box::new(self.a.expr()),
            b: Box::new(self.b.expr()),
            ratio: Box::new(self.ratio.expr()),
        }
    }

    fn calculate(&self, t: i64) -> (r: i64) {
        let x = self.a.calculate(t);
        let y = self.b.calculate(t);
        let z = self.ratio.calculate(t);
        let rc = clamp64(z, 0, UNIT);
        let ghost xl = wave_lo(self.a.expr(), t as int);
        let ghost xh = wave_hi(self.a.expr(), t as int);
        let ghost yl = wave_lo(self.b.expr(), t as int);
        let ghost yh = wave_hi(self.b.expr(), t as int);
        let ghost rcl = clamp_spec(wave_lo(self.ratio.expr(), t as int), 0, UNIT as int);
        let ghost rch = clamp_spec(wave_hi(self.ratio.expr(), t as int), 0, UNIT as int);
        let ghost ba = wave_bound(self.a.expr());
        let ghost bb = wave_bound(self.b.expr());
        let ghost bm = wave_bound(self.expr());
        proof {
            assert(-(bm * UNIT) <= (x as int) * (rc as int) + (y as int) * (UNIT - rc as int) <= bm
                * UNIT && -(bm * UNIT) <= (x as int) * (rc as int) <= bm * UNIT && -(bm * UNIT) <= (
            y as int) * (UNIT - rc as int) <= bm * UNIT) by (nonlinear_arith)
                requires
                    0 <= rc <= UNIT,
                    -ba <= x as int <= ba,
                    -bb <= y as int <= bb,
                    ba <= bm,
                    bb <= bm,
                    bm <= AMP_MAX,
                    UNIT == 1048576i64,
                    AMP_MAX == 1073741824i64,
            ;
        }
        let s = x * rc + y * (UNIT - rc);
        let r = s / UNIT;
        proof {
            assert(rcl <= rc as int <= rch);
            assert((xl * rcl + yl * (UNIT - rcl) <= s as int) || (xl * rch + yl * (UNIT - rch) <= s
                as int)) by (nonlinear_arith)
                requires
                    rcl <= rc as int <= rch,
                    0 <= rcl,
                    rch <= UNIT,
                    0 <= rc as int <= UNIT,
                    xl <= x as int,
                    yl <= y as int,
                    s == (x as int) * (rc as int) + (y as int) * (UNIT - rc as int),
                    UNIT == 1048576i64,
            ;
            assert((s as int <= xh * rcl + yh * (UNIT - rcl)) || (s as int <= xh * rch + yh * (UNIT
                - rch))) by (nonlinear_arith)
                requires
                    rcl <= rc as int <= rch,
                    0 <= rcl,
                    rch <= UNIT,
                    0 <= rc as int <= UNIT,
                    x as int <= xh,
                    y as int <= yh,
                    s == (x as int) * (rc as int) + (y as int) * (UNIT - rc as int),
                    UNIT == 1048576i64,
            ;
            assert(min2(xl * rcl + yl * (UNIT - rcl), xl * rch + yl * (UNIT - rch)) <= s as int);
            assert(s as int <= max2(xh * rcl + yh * (UNIT - rcl), xh * rch + yh * (UNIT - rch)));
            crate::fixed::lemma_tdiv_monotone(
                min2(xl * rcl + yl * (UNIT - rcl), xl * rch + yl * (UNIT - rch)),
                s as int,
            );
            crate::fixed::lemma_tdiv_monotone(
                s as int,
                max2(xh * rcl + yh * (UNIT - rcl), xh * rch + yh * (UNIT - rch)),
            );
            crate::fixed::lemma_tdiv_le(s as int, bm * (UNIT as int));
            vstd::arithmetic::div_mod::lemma_div_multiples_vanish(bm, UNIT as int);
        }
        r
    }
}

/// Adds waves; the sum is unbounded, the caller manages clipping.
#[derive(Clone, Copy)]
pub struct AddWave<A: Wave, B: Wave> {
    /// The first summand.
    pub a: A,
    /// The second summand.
    pub b: B,
}

impl<A: Wave, B: Wave> Wave for AddWave<A, B> {
    open spec fn expr(&self) -> WaveExpr {
        WaveExpr::Sum { a: Box::new(self.a.expr()), b: Box::new(self.b.expr()) }
    }

    fn calculate(&self, t: i64) -> (r: i64) {
        let x = self.a.calculate(t);
        let y = self.b.calculate(t);
        x + y
    }
}

/// Multiplies waves in fixed point.
#[derive(Clone, Copy)]
pub struct MultiplyWave<A: Wave, B: Wave> {
    /// The first factor.
    pub a: A,
    /// The second factor.
    pub b: B,
}

impl<A: Wave, B: Wave> Wave for MultiplyWave<A, B> {
    open spec fn expr(&self) -> WaveExpr {
        WaveExpr::Product { a: Box::new(self.a.expr()), b: Box::new(self.b.expr()) }
    }

    fn calculate(&self, t: i64) -> (r: i64) {
        let x = self.a.calculate(t);
        let y = self.b.calculate(t);
        let ghost xl = wave_lo(self.a.expr(), t as int);
        let ghost xh = wave_hi(self.a.expr(), t as int);
        let ghost yl = wave_lo(self.b.expr(), t as int);
        let ghost yh = wave_hi(self.b.expr(), t as int);
        let ghost ba = wave_bound(self.a.expr());
        let ghost bb = wave_bound(self.b.expr());
        proof {
            assert(wave_wf(self.a.expr()));
            assert(wave_wf(self.b.expr()));
            lemma_wave_bound_nonneg(self.a.expr());
            lemma_wave_bound_nonneg(self.b.expr());
            assert(-(ba * bb) <= (x as int) * (y as int) <= ba * bb && 0 <= ba * bb <= AMP_MAX
                * AMP_MAX) by (nonlinear_arith)
                requires
                    -ba <= x as int <= ba,
                    -bb <= y as int <= bb,
                    0 <= ba <= AMP_MAX,
                    0 <= bb <= AMP_MAX,
            ;
            crate::fixed::lemma_tdiv_le((x as int) * (y as int), ba * bb);
            crate::fixed::lemma_mul_box(x as int, y as int, xl, xh, yl, yh);
            crate::fixed::lemma_tdiv_monotone(
                min2(min2(xl * yl, xl * yh), min2(xh * yl, xh * yh)),
                (x as int) * (y as int),
            );
            crate::fixed::lemma_tdiv_monotone(
                (x as int) * (y as int),
                max2(max2(xl * yl, xl * yh), max2(xh * yl, xh * yh)),
            );
        }
        mul_unit(x, y)
    }
}

/// Reverses a wave: evaluates it at one unit minus the phase.
#[derive(Clone, Copy)]
pub struct ReverseWave<W: Wave>(pub W);

impl<W: Wave> Wave for ReverseWave<W> {
    open spec fn expr(&self) -> WaveExpr {
        WaveExpr::Reverse { wave: Box::new(self.0.expr()) }
    }

    fn calculate(&self, t: i64) -> (r: i64) {
        self.0.calculate(UNIT - t)
    }
}

/// Flips a wave: one unit minus its value.
#[derive(Clone, Copy)]
pub struct FlipWave<W: Wave>(pub W);

impl<W: Wave> Wave for FlipWave<W> {
    open spec fn expr(&self) -> WaveExpr {
        WaveExpr::Flip { wave: Box::new(self.0.expr()) }
    }

    fn calculate(&self, t: i64) -> (r: i64) {
        let x = self.0.calculate(t);
        UNIT - x
    }
}

} // verus!
