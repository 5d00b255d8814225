//! The main system: channel rendering, click-smoothing and playback
//! bookkeeping.
//!
//! A channel owns a finalized sample buffer, rendered eagerly from a
//! waveform, a volume envelope and a pitch resolver, then smoothed to
//! remove hard transitions into silence.  The session type [`Audact`]
//! keeps the ordered collection of channels and the bounded queue of
//! transient playback handles; feeding the buffers to an output
//! device is left to a thin unverified shell, which this module hands
//! plain values.

use std::collections::VecDeque;

use vstd::prelude::*;

use crate::fixed::{lemma_mul_box, lemma_tdiv_le, lemma_tdiv_monotone, max2, min2, tdiv};
use crate::fixed::{AMP_MAX, UNIT};
use crate::pitchers::Pitcher;
use crate::waves::{lemma_det_value, phase_ok, wave_det, wave_hi, wave_lo, wave_value};
use crate::waves::{wave_wf, Wave, WaveExpr};

verus! {

/// The ways the system can fail.
#[derive(Clone, Copy, Debug, PartialEq, Eq, Structural)]
pub enum AudactError {
    /// No output device could be acquired; fatal for the session.
    DeviceUnavailable,
    /// A playback resource could not be allocated for one channel;
    /// the session remains valid.
    ResourceUnavailable,
    /// An input was rejected before rendering, such as an empty step
    /// sequence.
    InvalidConfiguration,
}

/// Represents processing values on a channel: pure data, interpreted
/// only by the external playback collaborator.
#[derive(Clone, Copy, Debug)]
pub struct Processing {
    /// Volume, in units.
    pub gain: i64,
    /// Filter band (low, high), in millihertz.
    pub filter: (i64, i64),
    /// Attack, in milliseconds.
    pub attack: u64,
    /// Reverb: delay in milliseconds and decay ratio in units.
    pub reverb: (u64, i64),
}

impl Default for Processing {
    /// The defaults: unit gain, passthrough filter up to 5000 Hz, no
    /// attack, no reverb.
    fn default() -> (p: Processing)
        ensures
            p.gain == UNIT,
            p.filter == (0i64, 5000000i64),
            p.attack == 0u64,
            p.reverb == (0u64, 0i64),
    {
        Processing { gain: UNIT, filter: (0i64, 5000000i64), attack: 0u64, reverb: (0u64, 0i64) }
    }
}

impl Processing {
    /// This processing with another gain, in units.
    pub fn with_gain(self, gain: i64) -> (p: Processing)
        ensures
            p == (Processing { gain, ..self }),
    {
        Processing { gain, ..self }
    }

    /// This processing with another filter band, in millihertz.
    pub fn with_filter(self, filter: (i64, i64)) -> (p: Processing)
        ensures
            p == (Processing { filter, ..self }),
    {
        Processing { filter, ..self }
    }

    /// This processing with another attack, in milliseconds.
    pub fn with_attack(self, attack: u64) -> (p: Processing)
        ensures
            p == (Processing { attack, ..self }),
    {
        Processing { attack, ..self }
    }

    /// This processing with another reverb delay and decay.
    pub fn with_reverb(self, reverb: (u64, i64)) -> (p: Processing)
        ensures
            p == (Processing { reverb, ..self }),
    {
        Processing { reverb, ..self }
    }
}

/// Highest sample rate a render accepts, in Hz.
pub const MAX_SAMPLE_RATE: u32 = 192000;

/// Longest duration a render accepts, in milliseconds.
pub const MAX_DURATION_MS: u64 = 600000;

/// Magnitude bound of every rendered sample.
pub const SAMPLE_MAX: i64 = 4398046511104;

/// How many samples a render produces: the sample rate times the
/// duration, rounded to the nearest whole sample.
pub open spec fn total_samples(sample_rate: u32, duration_ms: u64) -> int {
    ((sample_rate as int) * (duration_ms as int) + 500) / 1000
}

/// The normalized position of sample `i` out of `total`, in units.
pub open spec fn position_at(i: int, total: int) -> int {
    i * (UNIT as int) / total
}

/// The phase of sample `i` at frequency `f` millihertz: `i` times the
/// frequency in Hz over the sample rate, in units.
pub open spec fn phase_at(i: int, f: int, sample_rate: int) -> int {
    i * f * (UNIT as int) / (1000 * sample_rate)
}

/// An upper bound on every phase a render of `total` samples can
/// reach, whatever the sample rate and frequencies.
pub open spec fn phase_cap(total: int) -> int {
    total * 20971520000
}

/// The rescale a renderer applies to a waveform output `w` and a
/// volume `v`: the biased `[0, UNIT]` convention recentred into
/// `[-UNIT, UNIT]`, times the volume, in units.
pub open spec fn rescaled(w: int, v: int) -> int {
    tdiv((2 * w - UNIT) * v, UNIT as int)
}

/// The one value of sample `i` when waveform and volume are
/// deterministic: 0 where the frequency is 0, the rescaled waveform
/// output times the volume elsewhere.
pub open spec fn sample_at(
    we: WaveExpr,
    ve: WaveExpr,
    f: int,
    i: int,
    total: int,
    sample_rate: int,
) -> int {
    if f == 0 {
        0
    } else {
        rescaled(
            wave_value(we, phase_at(i, f, sample_rate)),
            wave_value(ve, position_at(i, total)),
        )
    }
}

/// The lower end of the envelope of sample `i`: exactly 0 where the
/// frequency is 0, the least corner of the rescale over the waveform
/// and volume envelopes elsewhere.
pub open spec fn sample_lo(
    we: WaveExpr,
    ve: WaveExpr,
    f: int,
    i: int,
    total: int,
    sample_rate: int,
) -> int {
    if f == 0 {
        0
    } else {
        let al = 2 * wave_lo(we, phase_at(i, f, sample_rate)) - UNIT;
        let ah = 2 * wave_hi(we, phase_at(i, f, sample_rate)) - UNIT;
        let bl = wave_lo(ve, position_at(i, total));
        let bh = wave_hi(ve, position_at(i, total));
        tdiv(min2(min2(al * bl, al * bh), min2(ah * bl, ah * bh)), UNIT as int)
    }
}

/// The upper end of the envelope of sample `i`.
pub open spec fn sample_hi(
    we: WaveExpr,
    ve: WaveExpr,
    f: int,
    i: int,
    total: int,
    sample_rate: int,
) -> int {
    if f == 0 {
        0
    } else {
        let al = 2 * wave_lo(we, phase_at(i, f, sample_rate)) - UNIT;
        let ah = 2 * wave_hi(we, phase_at(i, f, sample_rate)) - UNIT;
        let bl = wave_lo(ve, position_at(i, total));
        let bh = wave_hi(ve, position_at(i, total));
        tdiv(max2(max2(al * bl, al * bh), max2(ah * bl, ah * bh)), UNIT as int)
    }
}

/// Law: when waveform and volume are deterministic, the envelope of
/// every sample collapses to [`sample_at`]: the render is
/// deterministic except where noise is used.
pub proof fn lemma_sample_det(
    we: WaveExpr,
    ve: WaveExpr,
    f: int,
    i: int,
    total: int,
    sample_rate: int,
)
    requires
        wave_det(we),
        wave_det(ve),
    ensures
        sample_lo(we, ve, f, i, total, sample_rate) == sample_at(we, ve, f, i, total, sample_rate),
        sample_hi(we, ve, f, i, total, sample_rate) == sample_at(we, ve, f, i, total, sample_rate),
{
    lemma_det_value(we, phase_at(i, f, sample_rate));
    lemma_det_value(ve, position_at(i, total));
}

/// How many zero samples each smoothing pass appends before its scan.
pub const SMOOTH_PAD: usize = 1024;

/// The exponential-decay fill: 99 percent of the preceding sample.
pub open spec fn decay_spec(p: int) -> int {
    tdiv(99 * p, 100)
}

/// A sequence of `n` zero samples.
pub open spec fn zero_pad(n: int) -> Seq<i64> {
    Seq::new(n as nat, |i: int| 0i64)
}

/// One smoothing pass: a forward scan that replaces every exact-zero
/// sample with the decay of the sample just before it (as already
/// processed), and leaves every other sample untouched.
pub open spec fn pass_spec(s: Seq<i64>) -> Seq<i64>
    decreases s.len(),
{
    if s.len() == 0 {
        Seq::empty()
    } else {
        let pre = pass_spec(s.drop_last());
        let prev: i64 = if pre.len() == 0 {
            0i64
        } else {
            pre.last()
        };
        pre.push(
            if s.last() == 0 {
                decay_spec(prev as int) as i64
            } else {
                s.last()
            },
        )
    }
}

/// The whole smoothing transform: two rounds of pad, scan and
/// reversal, after which the added padding is cut away again, so the
/// buffer keeps its length.  The first scan smooths transitions into
/// silence; because the buffer is reversed in between, the second scan
/// smooths what were originally leading edges, and the second reversal
/// restores the original order.
pub open spec fn smooth_spec(s: Seq<i64>) -> Seq<i64> {
    let p1 = pass_spec(s + zero_pad(SMOOTH_PAD as int)).reverse();
    let p2 = pass_spec(p1 + zero_pad(SMOOTH_PAD as int)).reverse();
    p2.subrange(SMOOTH_PAD as int, SMOOTH_PAD as int + s.len() as int)
}

/// A pass keeps the length of its input.
pub proof fn lemma_pass_len(s: Seq<i64>)
    ensures
        pass_spec(s).len() == s.len(),
    decreases s.len(),
{
    if s.len() > 0 {
        lemma_pass_len(s.drop_last());
    }
}

/// Law: a pass modifies only exact-zero samples: every non-zero
/// sample comes through unchanged.
pub proof fn lemma_pass_preserves_nonzero(s: Seq<i64>, i: int)
    requires
        0 <= i < s.len(),
        s[i] != 0,
    ensures
        pass_spec(s).len() == s.len(),
        pass_spec(s)[i] == s[i],
    decreases s.len(),
{
    lemma_pass_len(s);
    if i < s.len() - 1 {
        lemma_pass_len(s.drop_last());
        lemma_pass_preserves_nonzero(s.drop_last(), i);
    }
}

/// Law: smoothing restores the buffer's length: the padding each pass
/// appends is cut away again.
pub proof fn lemma_smooth_len(s: Seq<i64>)
    ensures
        smooth_spec(s).len() == s.len(),
{
    lemma_pass_len(s + zero_pad(SMOOTH_PAD as int));
    lemma_pass_len(pass_spec(s + zero_pad(SMOOTH_PAD as int)).reverse() + zero_pad(
        SMOOTH_PAD as int,
    ));
}

/// Law: the second pass leaves every sample that was non-zero after
/// the first pass unchanged, so re-running smoothing is a no-op on all
/// non-zero samples.
pub proof fn lemma_second_pass_keeps(s: Seq<i64>, i: int)
    requires
        0 <= i < s.len(),
        pass_spec(s + zero_pad(SMOOTH_PAD as int))[i] != 0,
    ensures
        smooth_spec(s).len() == s.len(),
        smooth_spec(s)[i] == pass_spec(s + zero_pad(SMOOTH_PAD as int))[i],
{
    let pad = SMOOTH_PAD as int;
    let q = pass_spec(s + zero_pad(pad));
    lemma_pass_len(s + zero_pad(pad));
    let n = q.len() as int;
    let p1 = q.reverse();
    let u = p1 + zero_pad(pad);
    assert(u[n - 1 - i] == q[i]);
    lemma_pass_preserves_nonzero(u, n - 1 - i);
    lemma_smooth_len(s);
    assert(pass_spec(u).reverse()[pad + i] == pass_spec(u)[u.len() - 1 - (pad + i)]);
    assert(u.len() - 1 - (pad + i) == n - 1 - i);
    assert(smooth_spec(s)[i] == pass_spec(u).reverse()[pad + i]);
}

/// Law: a sample that is non-zero before smoothing is exactly the
/// same after smoothing: only exact-zero samples are ever modified.
pub proof fn lemma_smooth_preserves_nonzero(s: Seq<i64>, i: int)
    requires
        0 <= i < s.len(),
        s[i] != 0,
    ensures
        smooth_spec(s).len() == s.len(),
        smooth_spec(s)[i] == s[i],
{
    let pad = SMOOTH_PAD as int;
    assert((s + zero_pad(pad))[i] == s[i]);
    lemma_pass_preserves_nonzero(s + zero_pad(pad), i);
    lemma_second_pass_keeps(s, i);
}

/// One in-place smoothing scan.
#[verifier::loop_isolation(false)]
fn pass_once(v: &mut Vec<i64>)
    requires
        forall|i: int|
            0 <= i < old(v)@.len() ==> -SAMPLE_MAX <= #[trigger] old(v)@[i] <= SAMPLE_MAX,
    ensures
        final(v)@ == pass_spec(old(v)@),
        final(v)@.len() == old(v)@.len(),
        forall|i: int|
            0 <= i < final(v)@.len() ==> -SAMPLE_MAX <= #[trigger] final(v)@[i] <= SAMPLE_MAX,
{
    let ghost orig = old(v)@;
    let mut prev: i64 = 0;
    let mut i: usize = 0;
    while i < v.len()
        invariant
            v@.len() == orig.len(),
            i <= orig.len(),
            v@.subrange(0, i as int) == pass_spec(orig.subrange(0, i as int)),
            forall|j: int| i <= j < orig.len() ==> #[trigger] v@[j] == orig[j],
            prev == if i == 0 {
                0i64
            } else {
                v@[i - 1]
            },
            forall|j: int| 0 <= j < v@.len() ==> -SAMPLE_MAX <= #[trigger] v@[j] <= SAMPLE_MAX,
        decreases orig.len() - i,
    {
        let cur = v[i];
        let nv: i64 = if cur == 0 {
            prev * 99 / 100
        } else {
            cur
        };
        v[i] = nv;
        proof {
            let k = i as int + 1;
            lemma_pass_len(orig.subrange(0, i as int));
            lemma_pass_len(orig.subrange(0, k));
            assert(orig.subrange(0, k).drop_last() =~= orig.subrange(0, i as int));
            assert(orig.subrange(0, k).last() == orig[i as int]);
            assert(v@.subrange(0, i as int) =~= pass_spec(orig.subrange(0, i as int)));
            assert(v@[i as int] == nv);
            assert(nv as int == decay_spec(prev as int) || nv == cur);
            assert(pass_spec(orig.subrange(0, k)) == pass_spec(orig.subrange(0, i as int)).push(
                if orig[i as int] == 0 {
                    decay_spec(
                        (if i == 0 {
                            0i64
                        } else {
                            pass_spec(orig.subrange(0, i as int)).last()
                        }) as int,
                    ) as i64
                } else {
                    orig[i as int]
                },
            ));
            assert(i > 0 ==> pass_spec(orig.subrange(0, i as int)).last() == v@[i as int - 1]);
            assert(v@.subrange(0, k) =~= pass_spec(orig.subrange(0, k)));
        }
        prev = nv;
        i = i + 1;
    }
    proof {
        assert(orig.subrange(0, orig.len() as int) =~= orig);
        assert(v@ =~= v@.subrange(0, orig.len() as int));
    }
}

/// Reverse the buffer in place.
#[verifier::loop_isolation(false)]
fn reverse_vec(v: &mut Vec<i64>)
    ensures
        final(v)@ == old(v)@.reverse(),
        final(v)@.len() == old(v)@.len(),
        forall|j: int|
            0 <= j < final(v)@.len() ==> #[trigger] final(v)@[j] == old(v)@[final(v)@.len() - 1
                - j],
{
    let len = v.len();
    let mut i: usize = 0;
    while i < len / 2
        invariant
            v@.len() == len,
            i <= len / 2,
            forall|j: int| 0 <= j < i ==> #[trigger] v@[j] == old(v)@[len - 1 - j],
            forall|j: int| len - i <= j < len ==> #[trigger] v@[j] == old(v)@[len - 1 - j],
            forall|j: int| i <= j < len - i ==> #[trigger] v@[j] == old(v)@[j],
        decreases len - 2 * i,
    {
        let x = v[i];
        let y = v[len - 1 - i];
        v[i] = y;
        v[len - 1 - i] = x;
        i = i + 1;
    }
    proof {
        assert forall|j: int| 0 <= j < len implies v@[j] == old(v)@[len - 1 - j] by {
            if i <= j < len - i {
                assert(j == len - 1 - j);
            }
        }
        assert(v@ =~= old(v)@.reverse());
    }
}

/// Append one block of zero padding.
fn append_pad(v: &mut Vec<i64>)
    requires
        old(v)@.len() + SMOOTH_PAD <= usize::MAX,
    ensures
        final(v)@ == old(v)@ + zero_pad(SMOOTH_PAD as int),
{
    let mut pad: Vec<i64> = vec![0i64; SMOOTH_PAD];
    v.append(&mut pad);
    proof {
        assert(v@ =~= old(v)@ + zero_pad(SMOOTH_PAD as int));
    }
}

/// Smooth out a rendered source buffer in place: remove the clicks of
/// hard transitions between played samples and exact-zero silence,
/// including at the buffer's edges, by the two-pass decay fill that
/// [`smooth_spec`] describes.  The buffer keeps its length.
pub fn smooth_source(source: &mut Vec<i64>)
    requires
        old(source)@.len() + 2 * SMOOTH_PAD <= usize::MAX,
        forall|i: int|
            0 <= i < old(source)@.len() ==> -SAMPLE_MAX <= #[trigger] old(source)@[i]
                <= SAMPLE_MAX,
    ensures
        final(source)@ == smooth_spec(old(source)@),
        final(source)@.len() == old(source)@.len(),
        forall|i: int|
            0 <= i < final(source)@.len() ==> -SAMPLE_MAX <= #[trigger] final(source)@[i]
                <= SAMPLE_MAX,
{
    let ghost orig = old(source)@;
    let orig_len = source.len();
    proof {
        lemma_pass_len(orig + zero_pad(SMOOTH_PAD as int));
        assert(forall|i: int|
            0 <= i < orig.len() + SMOOTH_PAD ==> -SAMPLE_MAX <= #[trigger] (orig + zero_pad(
                SMOOTH_PAD as int,
            ))[i] <= SAMPLE_MAX);
    }
    append_pad(source);
    pass_once(source);
    reverse_vec(source);
    let ghost p1 = pass_spec(orig + zero_pad(SMOOTH_PAD as int)).reverse();
    proof {
        assert(source@ == p1);
        lemma_pass_len(p1 + zero_pad(SMOOTH_PAD as int));
        assert(forall|i: int|
            0 <= i < p1.len() + SMOOTH_PAD ==> -SAMPLE_MAX <= #[trigger] (p1 + zero_pad(
                SMOOTH_PAD as int,
            ))[i] <= SAMPLE_MAX);
    }
    append_pad(source);
    pass_once(source);
    reverse_vec(source);
    let ghost p2 = pass_spec(p1 + zero_pad(SMOOTH_PAD as int)).reverse();
    proof {
        assert(source@ == p2);
        assert(p2.len() == orig.len() + 2 * SMOOTH_PAD);
    }
    let tail = source.split_off(SMOOTH_PAD);
    *source = tail;
    source.truncate(orig_len);
    proof {
        assert(source@ =~= smooth_spec(orig));
    }
}

/// Render the raw (pre-smoothing) sample buffer of one channel.
///
/// For each sample index `i`, the normalized position selects a
/// frequency from the pitch resolver; a frequency of 0 renders exact
/// silence, and any other renders the waveform at the frequency-scaled
/// phase, recentred and multiplied by the volume envelope at the
/// position.  The buffer holds `round(sample_rate * duration)`
/// samples, each inside its sample envelope.
#[verifier::loop_isolation(false)]
pub fn render_raw<W: Wave, V: Wave, P: Pitcher>(
    wave: &W,
    volume: &V,
    pitcher: &P,
    sample_rate: u32,
    duration_ms: u64,
) -> (out: Vec<i64>)
    requires
        1 <= sample_rate <= MAX_SAMPLE_RATE,
        1 <= duration_ms <= MAX_DURATION_MS,
        wave_wf(wave.expr()),
        wave_wf(volume.expr()),
        pitcher.wf(),
        forall|p: int|
            0 <= p <= phase_cap(total_samples(sample_rate, duration_ms)) ==> #[trigger] phase_ok(
                wave.expr(),
                p,
            ),
        forall|p: int| 0 <= p < UNIT ==> #[trigger] phase_ok(volume.expr(), p),
    ensures
        out@.len() == total_samples(sample_rate, duration_ms),
        out@.len() <= 115200000,
        forall|i: int|
            0 <= i < out@.len() ==> pitcher.freq_at(position_at(i, out@.len() as int)) == 0
                ==> #[trigger] out@[i] == 0,
        forall|i: int|
            0 <= i < out@.len() ==> sample_lo(
                wave.expr(),
                volume.expr(),
                pitcher.freq_at(position_at(i, out@.len() as int)),
                i,
                out@.len() as int,
                sample_rate as int,
            ) <= #[trigger] out@[i] <= sample_hi(
                wave.expr(),
                volume.expr(),
                pitcher.freq_at(position_at(i, out@.len() as int)),
                i,
                out@.len() as int,
                sample_rate as int,
            ),
        forall|i: int| 0 <= i < out@.len() ==> -SAMPLE_MAX <= #[trigger] out@[i] <= SAMPLE_MAX,
{
    proof {
        assert((sample_rate as int) * (duration_ms as int) <= 115200000000) by (nonlinear_arith)
            requires
                1 <= sample_rate <= 192000,
                1 <= duration_ms <= 600000,
        ;
        vstd::arithmetic::div_mod::lemma_div_is_ordered(
            (sample_rate as int) * (duration_ms as int) + 500,
            115200000500,
            1000,
        );
        vstd::arithmetic::div_mod::lemma_div_pos_is_pos(
            (sample_rate as int) * (duration_ms as int) + 500,
            1000,
        );
    }
    let total64: u64 = ((sample_rate as u64) * duration_ms + 500) / 1000;
    let total: usize = total64 as usize;
    let ghost total_i = total as int;
    let mut out: Vec<i64> = Vec::new();
    let mut t: usize = 0;
    while t < total
        invariant
            t <= total,
            out@.len() == t,
            forall|i: int|
                0 <= i < t ==> pitcher.freq_at(position_at(i, total_i)) == 0 ==> #[trigger] out@[i]
                    == 0,
            forall|i: int|
                0 <= i < t ==> sample_lo(
                    wave.expr(),
                    volume.expr(),
                    pitcher.freq_at(position_at(i, total_i)),
                    i,
                    total_i,
                    sample_rate as int,
                ) <= #[trigger] out@[i] <= sample_hi(
                    wave.expr(),
                    volume.expr(),
                    pitcher.freq_at(position_at(i, total_i)),
                    i,
                    total_i,
                    sample_rate as int,
                ),
            forall|i: int| 0 <= i < t ==> -SAMPLE_MAX <= #[trigger] out@[i] <= SAMPLE_MAX,
        decreases total - t,
    {
        proof {
            assert(0 <= (t as int) * (UNIT as int) <= 120795955200000) by (nonlinear_arith)
                requires
                    0 <= t <= 115200000,
                    UNIT == 1048576i64,
            ;
            assert((t as int) * (UNIT as int) < (total as int) * (UNIT as int))
                by (nonlinear_arith)
                requires
                    0 <= t < total,
                    UNIT == 1048576i64,
            ;
            vstd::arithmetic::div_mod::lemma_multiply_divide_lt(
                (t as int) * (UNIT as int),
                total as int,
                UNIT as int,
            );
            vstd::arithmetic::div_mod::lemma_div_pos_is_pos(
                (t as int) * (UNIT as int),
                total as int,
            );
        }
        let pos: i64 = ((t as i64) * UNIT) / (total as i64);
        let f = pitcher.calculate(pos);
        if f == 0 {
            out.push(0);
        } else {
            proof {
                assert(0 <= (t as int) * (f as int) * (UNIT as int) <= 115200000 * 20000000
                    * 1048576) by (nonlinear_arith)
                    requires
                        0 <= t <= 115200000,
                        0 <= f <= 20000000,
                        UNIT == 1048576i64,
                ;
                assert((t as int) * (f as int) * (UNIT as int) <= total_i * 20000000 * 1048576)
                    by (nonlinear_arith)
                    requires
                        0 <= t < total_i,
                        0 <= f <= 20000000,
                        UNIT == 1048576i64,
                ;
            }
            let num: i128 = (t as i128) * (f as i128) * (UNIT as i128);
            let den: i128 = 1000 * (sample_rate as i128);
            let ph128: i128 = num / den;
            proof {
                vstd::arithmetic::div_mod::lemma_div_is_ordered_by_denominator(
                    num as int,
                    1000,
                    den as int,
                );
                vstd::arithmetic::div_mod::lemma_div_is_ordered(
                    num as int,
                    total_i * 20000000 * 1048576,
                    1000,
                );
                assert(total_i * 20000000 * 1048576 == 1000 * (total_i * 20971520000))
                    by (nonlinear_arith)
                ;
                vstd::arithmetic::div_mod::lemma_div_multiples_vanish(
                    total_i * 20971520000,
                    1000,
                );
                vstd::arithmetic::div_mod::lemma_div_pos_is_pos(num as int, den as int);
                assert(total_i * 20971520000 <= 115200000 * 20971520000) by (nonlinear_arith)
                    requires
                        0 <= total_i <= 115200000,
                ;
                assert(ph128 as int == phase_at(t as int, f as int, sample_rate as int));
                assert(0 <= ph128 as int <= phase_cap(total_i));
            }
            let ph: i64 = ph128 as i64;
            let w = wave.calculate(ph);
            let v = volume.calculate(pos);
            let a: i64 = 2 * w - UNIT;
            let ghost al = 2 * wave_lo(wave.expr(), ph as int) - UNIT;
            let ghost ah = 2 * wave_hi(wave.expr(), ph as int) - UNIT;
            let ghost bl = wave_lo(volume.expr(), pos as int);
            let ghost bh = wave_hi(volume.expr(), pos as int);
            proof {
                assert(-((2 * AMP_MAX + UNIT) * AMP_MAX) <= (a as int) * (v as int) <= (2 * AMP_MAX
                    + UNIT) * AMP_MAX) by (nonlinear_arith)
                    requires
                        -(2 * AMP_MAX + UNIT) <= a as int <= 2 * AMP_MAX + UNIT,
                        -AMP_MAX <= v as int <= AMP_MAX,
                ;
                lemma_tdiv_le((a as int) * (v as int), (2 * AMP_MAX + UNIT) * (AMP_MAX as int));
                lemma_mul_box(a as int, v as int, al, ah, bl, bh);
                lemma_tdiv_monotone(
                    min2(min2(al * bl, al * bh), min2(ah * bl, ah * bh)),
                    (a as int) * (v as int),
                );
                lemma_tdiv_monotone(
                    (a as int) * (v as int),
                    max2(max2(al * bl, al * bh), max2(ah * bl, ah * bh)),
                );
            }
            let s: i64 = (a * v) / UNIT;
            out.push(s);
        }
        t = t + 1;
    }
    out
}

/// Whether `raw` is a faithful raw render for the given waveform,
/// volume envelope, pitch resolver, sample rate and duration: the
/// right length, and every sample inside its envelope, exactly 0
/// where the resolver rests.
pub open spec fn render_ok<P: Pitcher>(
    we: WaveExpr,
    ve: WaveExpr,
    pitcher: P,
    sample_rate: u32,
    duration_ms: u64,
    raw: Seq<i64>,
) -> bool {
    &&& raw.len() == total_samples(sample_rate, duration_ms)
    &&& forall|i: int|
        0 <= i < raw.len() ==> sample_lo(
            we,
            ve,
            pitcher.freq_at(position_at(i, raw.len() as int)),
            i,
            raw.len() as int,
            sample_rate as int,
        ) <= #[trigger] raw[i] <= sample_hi(
            we,
            ve,
            pitcher.freq_at(position_at(i, raw.len() as int)),
            i,
            raw.len() as int,
            sample_rate as int,
        )
}

/// Law: a faithful raw render of a deterministic waveform and volume
/// envelope is fully determined: every sample equals [`sample_at`].
pub proof fn lemma_render_det<P: Pitcher>(
    we: WaveExpr,
    ve: WaveExpr,
    pitcher: P,
    sample_rate: u32,
    duration_ms: u64,
    raw: Seq<i64>,
)
    requires
        wave_det(we),
        wave_det(ve),
        render_ok(we, ve, pitcher, sample_rate, duration_ms, raw),
    ensures
        forall|i: int|
            0 <= i < raw.len() ==> #[trigger] raw[i] == sample_at(
                we,
                ve,
                pitcher.freq_at(position_at(i, raw.len() as int)),
                i,
                raw.len() as int,
                sample_rate as int,
            ),
{
    assert forall|i: int|
        0 <= i < raw.len() implies #[trigger] raw[i] == sample_at(
        we,
        ve,
        pitcher.freq_at(position_at(i, raw.len() as int)),
        i,
        raw.len() as int,
        sample_rate as int,
    ) by {
        lemma_sample_det(
            we,
            ve,
            pitcher.freq_at(position_at(i, raw.len() as int)),
            i,
            raw.len() as int,
            sample_rate as int,
        );
    }
}

/// Whether channel `c` holds the smoothing of a faithful raw render.
pub open spec fn channel_ok<P: Pitcher>(
    c: Channel,
    we: WaveExpr,
    ve: WaveExpr,
    pitcher: P,
    sample_rate: u32,
    duration_ms: u64,
) -> bool {
    &&& c.source@.len() == total_samples(sample_rate, duration_ms)
    &&& exists|raw: Seq<i64>|
        #[trigger] render_ok(we, ve, pitcher, sample_rate, duration_ms, raw) && c.source@
            == smooth_spec(raw)
}

/// One independently rendered voice: a finalized sample buffer and
/// the processing snapshot forwarded with it at playback.
#[derive(Debug)]
pub struct Channel {
    /// The finalized, smoothed sample buffer.
    pub source: Vec<i64>,
    /// The processing parameters for the playback collaborator.
    pub processing: Processing,
}

impl Channel {
    /// Render one channel eagerly: check the pitch resolver, render
    /// the raw buffer, then smooth it.  An invalid resolver (an empty
    /// step sequence) is rejected before rendering; nothing else can
    /// fail.
    pub fn new<W: Wave, V: Wave, P: Pitcher>(
        sample_rate: u32,
        wave: &W,
        volume: &V,
        processing: Processing,
        pitcher: &P,
        duration_ms: u64,
    ) -> (r: Result<Channel, AudactError>)
        requires
            1 <= sample_rate <= MAX_SAMPLE_RATE,
            1 <= duration_ms <= MAX_DURATION_MS,
            wave_wf(wave.expr()),
            wave_wf(volume.expr()),
            forall|p: int|
                0 <= p <= phase_cap(total_samples(sample_rate, duration_ms))
                    ==> #[trigger] phase_ok(wave.expr(), p),
            forall|p: int| 0 <= p < UNIT ==> #[trigger] phase_ok(volume.expr(), p),
        ensures
            match r {
                Ok(c) => pitcher.wf() && c.processing == processing && channel_ok(
                    c,
                    wave.expr(),
                    volume.expr(),
                    *pitcher,
                    sample_rate,
                    duration_ms,
                ),
                Err(e) => e == AudactError::InvalidConfiguration && !pitcher.wf(),
            },
    {
        if !pitcher.is_valid() {
            return Err(AudactError::InvalidConfiguration);
        }
        let mut source = render_raw(wave, volume, pitcher, sample_rate, duration_ms);
        let ghost raw = source@;
        smooth_source(&mut source);
        proof {
            assert(render_ok(
                wave.expr(),
                volume.expr(),
                *pitcher,
                sample_rate,
                duration_ms,
                raw,
            ));
            lemma_smooth_len(raw);
        }
        Ok(Channel { source, processing })
    }
}

/// How many of the oldest transient sinks leave the bounded queue
/// when one more is admitted: enough that the queue's length stays
/// within the configured maximum.
pub open spec fn evict_count(max_sinks: Option<usize>, queued: int) -> int {
    match max_sinks {
        Some(m) => if queued >= m {
            queued - m + 1
        } else {
            0
        },
        None => 0,
    }
}

/// The playback work a transient render hands the output shell: the
/// freshly rendered channel, the identifier of its new playback
/// handle, and the identifiers of the evicted handles to stop, oldest
/// first.
#[derive(Debug)]
pub struct TransientPlay {
    /// The identifier under which the new channel plays.
    pub sink_id: u64,
    /// The identifiers evicted from the bounded queue, oldest first.
    pub evicted: Vec<u64>,
    /// The rendered channel.
    pub channel: Channel,
}

/// The main system: the ordered collection of rendered channels, the
/// fixed sample rate, and the bounded queue of transient playback
/// handles.  The exclusive output device itself lives in the
/// unverified shell around this crate; this type makes every decision
/// about what that shell should enqueue, play and stop.
pub struct Audact {
    /// The voice channels, in insertion order.
    pub channels: Vec<Channel>,
    /// The identifiers of the live transient playback handles, oldest
    /// first.
    pub sinks: VecDeque<u64>,
    /// The capacity of the transient queue, if bounded.
    pub max_sinks: Option<usize>,
    /// The fixed sample rate, in Hz.
    pub sample_rate: u32,
    /// The identifier the next transient playback handle receives.
    pub next_sink_id: u64,
}

impl Audact {
    /// A fresh system at the fixed 44100 Hz sample rate, with no
    /// channels, no transients and an unbounded transient queue.
    pub fn new() -> (a: Audact)
        ensures
            a.channels@ == Seq::<Channel>::empty(),
            a.sinks@ == Seq::<u64>::empty(),
            a.max_sinks == None::<usize>,
            a.sample_rate == 44100u32,
            a.next_sink_id == 0u64,
    {
        Audact {
            channels: Vec::new(),
            sinks: VecDeque::new(),
            max_sinks: None,
            sample_rate: 44100,
            next_sink_id: 0,
        }
    }

    /// This system with the transient queue bounded to `max_sinks`.
    pub fn with_max_sinks(self, max_sinks: usize) -> (a: Audact)
        requires
            max_sinks >= 1,
        ensures
            a == (Audact { max_sinks: Some(max_sinks), ..self }),
    {
        Audact { max_sinks: Some(max_sinks), ..self }
    }

    /// Add a voice channel for synth playback: render and smooth it,
    /// then append it to the ordered collection.  A failure leaves
    /// every previously added channel, and the whole system,
    /// untouched.
    pub fn channel<W: Wave, V: Wave, P: Pitcher>(
        &mut self,
        wave: &W,
        volume: &V,
        processing: Processing,
        pitcher: &P,
        duration_ms: u64,
    ) -> (r: Result<(), AudactError>)
        requires
            1 <= old(self).sample_rate <= MAX_SAMPLE_RATE,
            1 <= duration_ms <= MAX_DURATION_MS,
            wave_wf(wave.expr()),
            wave_wf(volume.expr()),
            forall|p: int|
                0 <= p <= phase_cap(total_samples(old(self).sample_rate, duration_ms))
                    ==> #[trigger] phase_ok(wave.expr(), p),
            forall|p: int| 0 <= p < UNIT ==> #[trigger] phase_ok(volume.expr(), p),
        ensures
            match r {
                Ok(()) => {
                    &&& pitcher.wf()
                    &&& final(self).channels@.len() == old(self).channels@.len() + 1
                    &&& final(self).channels@.subrange(0, old(self).channels@.len() as int) == old(
                        self,
                    ).channels@
                    &&& final(self).channels@.last().processing == processing
                    &&& channel_ok(
                        final(self).channels@.last(),
                        wave.expr(),
                        volume.expr(),
                        *pitcher,
                        old(self).sample_rate,
                        duration_ms,
                    )
                    &&& final(self).sinks == old(self).sinks
                    &&& final(self).max_sinks == old(self).max_sinks
                    &&& final(self).sample_rate == old(self).sample_rate
                    &&& final(self).next_sink_id == old(self).next_sink_id
                },
                Err(e) => *final(self) == *old(self) && e == AudactError::InvalidConfiguration
                    && !pitcher.wf(),
            },
    {
        let c = match Channel::new(self.sample_rate, wave, volume, processing, pitcher, duration_ms) {
            Ok(c) => c,
            Err(e) => {
                return Err(e);
            },
        };
        self.channels.push(c);
        proof {
            assert(final(self).channels@.subrange(0, old(self).channels@.len() as int) =~= old(
                self,
            ).channels@);
        }
        Ok(())
    }

    /// Render a single transient channel for immediate playback
    /// outside the batched path.  The new playback handle gets the
    /// next identifier and joins the bounded queue; if the queue
    /// would exceed its capacity, the oldest handles are evicted,
    /// oldest first, and returned so the shell can stop them.  The
    /// batched channels are untouched.
    #[verifier::loop_isolation(false)]
    pub fn play<W: Wave, V: Wave, P: Pitcher>(
        &mut self,
        wave: &W,
        volume: &V,
        processing: Processing,
        pitcher: &P,
        duration_ms: u64,
    ) -> (r: Result<TransientPlay, AudactError>)
        requires
            1 <= old(self).sample_rate <= MAX_SAMPLE_RATE,
            1 <= duration_ms <= MAX_DURATION_MS,
            old(self).next_sink_id < u64::MAX,
            match old(self).max_sinks {
                Some(m) => m >= 1,
                None => true,
            },
            wave_wf(wave.expr()),
            wave_wf(volume.expr()),
            forall|p: int|
                0 <= p <= phase_cap(total_samples(old(self).sample_rate, duration_ms))
                    ==> #[trigger] phase_ok(wave.expr(), p),
            forall|p: int| 0 <= p < UNIT ==> #[trigger] phase_ok(volume.expr(), p),
        ensures
            match r {
                Ok(tp) => {
                    &&& pitcher.wf()
                    &&& tp.sink_id == old(self).next_sink_id
                    &&& tp.evicted@ == old(self).sinks@.subrange(
                        0,
                        evict_count(old(self).max_sinks, old(self).sinks@.len() as int),
                    )
                    &&& final(self).sinks@ == old(self).sinks@.subrange(
                        evict_count(old(self).max_sinks, old(self).sinks@.len() as int),
                        old(self).sinks@.len() as int,
                    ).push(tp.sink_id)
                    &&& final(self).channels == old(self).channels
                    &&& final(self).max_sinks == old(self).max_sinks
                    &&& final(self).sample_rate == old(self).sample_rate
                    &&& final(self).next_sink_id == old(self).next_sink_id + 1
                    &&& tp.channel.processing == processing
                    &&& channel_ok(
                        tp.channel,
                        wave.expr(),
                        volume.expr(),
                        *pitcher,
                        old(self).sample_rate,
                        duration_ms,
                    )
                },
                Err(e) => *final(self) == *old(self) && e == AudactError::InvalidConfiguration
                    && !pitcher.wf(),
            },
    {
        let c = match Channel::new(self.sample_rate, wave, volume, processing, pitcher, duration_ms) {
            Ok(c) => c,
            Err(e) => {
                return Err(e);
            },
        };
        let mut evicted: Vec<u64> = Vec::new();
        let ghost queued = self.sinks@;
        if let Some(m) = self.max_sinks {
            while self.sinks.len() >= m
                invariant
                    m >= 1,
                    evicted@.len() <= queued.len(),
                    evicted@ == queued.subrange(0, evicted@.len() as int),
                    self.sinks@ == queued.subrange(evicted@.len() as int, queued.len() as int),
                    evicted@.len() > 0 ==> queued.len() - evicted@.len() + 1 >= m,
                    self.channels == old(self).channels,
                    self.max_sinks == old(self).max_sinks,
                    self.sample_rate == old(self).sample_rate,
                    self.next_sink_id == old(self).next_sink_id,
                decreases self.sinks@.len(),
            {
                match self.sinks.pop_front() {
                    Some(id) => {
                        evicted.push(id);
                        proof {
                            assert(evicted@ =~= queued.subrange(0, evicted@.len() as int));
                            assert(self.sinks@ =~= queued.subrange(
                                evicted@.len() as int,
                                queued.len() as int,
                            ));
                        }
                    },
                    None => {},
                }
            }
            proof {
                assert(evicted@.len() as int == evict_count(
                    old(self).max_sinks,
                    queued.len() as int,
                ));
            }
        }
        let id = self.next_sink_id;
        self.next_sink_id = id + 1;
        self.sinks.push_back(id);
        Ok(TransientPlay { sink_id: id, evicted, channel: c })
    }
}

} // verus!
