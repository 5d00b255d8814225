//! Pitch resolvers: mappings from a normalized render position in
//! `[0, UNIT)` to a frequency in millihertz, where frequency 0 is
//! reserved to mean silence at that position.
//!
//! Variants: a constant frequency, a discrete step lookup over equal
//! bins, and a waveform-driven vibrato bend ([`WavePitcher`]), which
//! is itself a waveform producing a pitch multiplier.

use vstd::prelude::*;

use crate::fixed::{clamp64, lemma_tdiv_le, mul_unit, slot_index, slot_spec, UNIT};
use crate::waves::{bend_value, exp2_fixed, wave_hi, wave_lo, wave_wf, Wave, WaveExpr};

verus! {

/// Highest frequency a pitch resolver may return: the top of the
/// audible band, 20 kHz, in millihertz.
pub const FREQ_MAX: i64 = 20000000;

/// Trait of pitch resolvers.
///
/// A resolver maps a normalized render position `n` in `[0, UNIT)` to
/// a frequency in millihertz; 0 means rest.  [`Pitcher::freq_at`] is
/// the resolved frequency in the specification, and a resolver can
/// check its own well-formedness at run time, so that a renderer can
/// reject an invalid one (an empty step sequence) before any work.
pub trait Pitcher: Sized {
    /// Well-formedness: what the resolver's data must satisfy.
    spec fn wf(&self) -> bool;

    /// The frequency resolved at position `n`, in millihertz.
    spec fn freq_at(&self, n: int) -> int;

    /// Decide well-formedness.
    fn is_valid(&self) -> (b: bool)
        ensures
            b == self.wf(),
    ;

    /// Resolve the frequency at position `n`.
    fn calculate(&self, n: i64) -> (f: i64)
        requires
            self.wf(),
            0 <= n < UNIT,
        ensures
            f as int == self.freq_at(n as int),
            0 <= f <= FREQ_MAX,
    ;
}

/// A constant frequency is a pitch resolver: the same frequency at
/// every position.
impl Pitcher for i64 {
    open spec fn wf(&self) -> bool {
        0 <= *self <= FREQ_MAX
    }

    open spec fn freq_at(&self, n: int) -> int {
        *self as int
    }

    fn is_valid(&self) -> (b: bool) {
        0 <= *self && *self <= FREQ_MAX
    }

    fn calculate(&self, n: i64) -> (f: i64) {
        *self
    }
}

/// A step sequence is a pitch resolver: the position range divides
/// into as many equal bins as the sequence has entries, and the
/// position's bin selects the frequency, the bin index restricted to
/// `[0, len - 1]`.
impl Pitcher for Vec<i64> {
    open spec fn wf(&self) -> bool {
        self@.len() >= 1 && forall|i: int|
            0 <= i < self@.len() ==> 0 <= #[trigger] self@[i] <= FREQ_MAX
    }

    open spec fn freq_at(&self, n: int) -> int {
        self@[slot_spec(n, self@.len() as int)] as int
    }

    fn is_valid(&self) -> (b: bool) {
        if self.len() == 0 {
            return false;
        }
        let mut i: usize = 0;
        while i < self.len()
            invariant
                i <= self@.len(),
                forall|j: int| 0 <= j < i ==> 0 <= #[trigger] self@[j] <= FREQ_MAX,
            decreases self@.len() - i,
        {
            if self[i] < 0 || self[i] > FREQ_MAX {
                return false;
            }
            i = i + 1;
        }
        true
    }

    fn calculate(&self, n: i64) -> (f: i64) {
        let i = slot_index(n, self.len());
        self[i]
    }
}

/// A wave pitcher: a vibrato bend.  It wraps an inner waveform and a
/// bend range in octaves (units, at most 8 whole octaves) and is
/// itself a waveform, producing the pitch-bend multiplier
/// `2 ^ (range * ratio)` in units, where `ratio` is the inner
/// waveform's output remapped into `[-UNIT, UNIT]`.
#[derive(Clone, Copy)]
pub struct WavePitcher<W: Wave> {
    /// The waveform that drives the bend.
    pub wave: W,
    /// The bend range in octaves, in units.
    pub range: i64,
}

impl<W: Wave> Wave for WavePitcher<W> {
    open spec fn expr(&self) -> WaveExpr {
        WaveExpr::Bend { wave: Box::new(self.wave.expr()), range: self.range }
    }

    fn calculate(&self, t: i64) -> (r: i64) {
        let x = self.wave.calculate(t);
        proof {
            assert(wave_wf(self.wave.expr()));
        }
        let rc = clamp64(2 * x - UNIT, -UNIT, UNIT);
        proof {
            assert(-(8 * (UNIT as int) * (UNIT as int)) <= (self.range as int) * (rc as int) <= 8
                * (UNIT as int) * (UNIT as int)) by (nonlinear_arith)
                requires
                    0 <= self.range <= 8 * UNIT,
                    -UNIT <= rc <= UNIT,
            ;
            lemma_tdiv_le((self.range as int) * (rc as int), 8 * (UNIT as int) * (UNIT as int));
            vstd::arithmetic::div_mod::lemma_div_multiples_vanish(8 * UNIT as int, UNIT as int);
        }
        let e = mul_unit(self.range, rc);
        let r = exp2_fixed(e);
        proof {
            assert(r as int == bend_value(self.range, x as int));
            if wave_lo(self.wave.expr(), t as int) == wave_hi(self.wave.expr(), t as int) {
                assert(x as int == wave_lo(self.wave.expr(), t as int));
            }
        }
        r
    }
}

} // verus!
