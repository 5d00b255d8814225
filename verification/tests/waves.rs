use audact::fixed::{mul_unit, slot_index, wrap_phase, HALF_UNIT, UNIT};
use audact::waves::{add_waves, exp2_fixed, mix, multiply_waves, Wave};
use audact::waves::{FlipWave, HillWave, NoiseWave, ReverseWave, SawWave, SineWave};
use audact::waves::{SquareWave, TriangleWave};

#[test]
fn wrap_phase_is_nonnegative_modulo() {
    assert_eq!(wrap_phase(0), 0);
    assert_eq!(wrap_phase(5), 5);
    assert_eq!(wrap_phase(UNIT), 0);
    assert_eq!(wrap_phase(UNIT + 7), 7);
    assert_eq!(wrap_phase(-1), UNIT - 1);
    assert_eq!(wrap_phase(-UNIT), 0);
    assert_eq!(wrap_phase(-UNIT - 3), UNIT - 3);
}

#[test]
fn mul_unit_scales_products() {
    assert_eq!(mul_unit(3 * UNIT, 1000), 3000);
    assert_eq!(mul_unit(-3 * UNIT, 1000), -3000);
    assert_eq!(mul_unit(UNIT / 2, UNIT / 2), UNIT / 4);
    assert_eq!(mul_unit(0, 12345), 0);
}

#[test]
fn slot_index_divides_evenly() {
    assert_eq!(slot_index(0, 4), 0);
    assert_eq!(slot_index(UNIT / 4 - 1, 4), 0);
    assert_eq!(slot_index(UNIT / 4, 4), 1);
    assert_eq!(slot_index(UNIT - 1, 4), 3);
    assert_eq!(slot_index(UNIT / 2, 1), 0);
}

#[test]
fn sine_hits_exact_landmarks() {
    // Biased convention: mid-level at phase 0, crest at a quarter,
    // mid-level at a half, trough at three quarters.
    assert_eq!(SineWave.calculate(0), HALF_UNIT);
    assert_eq!(SineWave.calculate(UNIT / 4), UNIT);
    assert_eq!(SineWave.calculate(HALF_UNIT), HALF_UNIT);
    assert_eq!(SineWave.calculate(3 * (UNIT / 4)), 0);
    // One full period later the same values return.
    assert_eq!(SineWave.calculate(UNIT + UNIT / 4), UNIT);
}

#[test]
fn sine_tracks_the_real_sine() {
    for k in 0..200i64 {
        let t = k * UNIT / 200;
        let real = ((f64::sin(2.0 * std::f64::consts::PI * (k as f64) / 200.0) + 1.0) / 2.0)
            * (UNIT as f64);
        let got = SineWave.calculate(t) as f64;
        assert!((got - real).abs() < 4000.0, "phase {}: {} vs {}", t, got, real);
    }
}

#[test]
fn triangle_square_saw_hill_values() {
    assert_eq!(TriangleWave.calculate(0), UNIT);
    assert_eq!(TriangleWave.calculate(HALF_UNIT), 0);
    assert_eq!(TriangleWave.calculate(UNIT / 4), HALF_UNIT);
    assert_eq!(SquareWave.calculate(0), 0);
    assert_eq!(SquareWave.calculate(HALF_UNIT - 1), 0);
    assert_eq!(SquareWave.calculate(HALF_UNIT), UNIT);
    assert_eq!(SawWave.calculate(300), 300);
    assert_eq!(SawWave.calculate(UNIT + 300), 300);
    assert_eq!(SawWave.calculate(-300), UNIT - 300);
    assert_eq!(HillWave.calculate(0), 0);
    assert_eq!(HillWave.calculate(HALF_UNIT), UNIT);
}

#[test]
fn noise_stays_in_range() {
    for t in 0..1000 {
        let r = NoiseWave.calculate(t);
        assert!(0 <= r && r <= UNIT);
    }
}

#[test]
fn constant_and_table_are_waves() {
    let c: i64 = 5;
    assert_eq!(c.calculate(123456), 5);
    let table: Vec<i64> = vec![0, HALF_UNIT, UNIT, 0];
    assert_eq!(table.calculate(0), 0);
    assert_eq!(table.calculate(300000), HALF_UNIT);
    assert_eq!(table.calculate(UNIT / 2), UNIT);
    assert_eq!(table.calculate(UNIT + 300000), HALF_UNIT);
}

#[test]
fn frequency_scales_the_phase() {
    // frequency_scale(w, k) evaluated at t equals w at t * k.
    let w = SawWave.frequency(2 * UNIT);
    assert_eq!(w.calculate(UNIT / 4), SawWave.calculate(UNIT / 2));
    let half = SawWave.frequency(HALF_UNIT);
    assert_eq!(half.calculate(UNIT / 2), SawWave.calculate(UNIT / 4));
}

#[test]
fn octave_is_a_power_of_two_frequency_scale() {
    let up = SawWave.octave(1);
    assert_eq!(up.frequency, 2 * UNIT);
    let down = SawWave.octave(-1);
    assert_eq!(down.frequency, HALF_UNIT);
    let same = SawWave.octave(0);
    assert_eq!(same.frequency, UNIT);
    assert_eq!(up.calculate(UNIT / 4), SawWave.calculate(UNIT / 2));
}

#[test]
fn mix_returns_b_at_zero_and_a_at_unit() {
    let a: i64 = 111;
    let b: i64 = 999;
    let at_zero = mix(0i64, a, b);
    assert_eq!(at_zero.calculate(77), 999);
    let at_unit = mix(UNIT, a, b);
    assert_eq!(at_unit.calculate(77), 111);
    let halfway = mix(HALF_UNIT, 1000i64, 2000i64);
    assert_eq!(halfway.calculate(0), 1500);
}

#[test]
fn add_and_multiply_waves() {
    let s = add_waves(3i64, 4i64);
    assert_eq!(s.calculate(0), 7);
    let p = multiply_waves(UNIT, 5000i64);
    assert_eq!(p.calculate(0), 5000);
    let q = multiply_waves(HALF_UNIT, 5000i64);
    assert_eq!(q.calculate(0), 2500);
}

#[test]
fn reverse_and_flip() {
    let r: ReverseWave<SawWave> = SawWave.reverse();
    assert_eq!(r.calculate(UNIT / 4), SawWave.calculate(UNIT - UNIT / 4));
    let f: FlipWave<SawWave> = SawWave.flip();
    assert_eq!(f.calculate(UNIT / 4), UNIT - UNIT / 4);
}

#[test]
fn exp2_fixed_whole_exponents() {
    assert_eq!(exp2_fixed(0), UNIT);
    assert_eq!(exp2_fixed(UNIT), 2 * UNIT);
    assert_eq!(exp2_fixed(2 * UNIT), 4 * UNIT);
    assert_eq!(exp2_fixed(8 * UNIT), 256 * UNIT);
    assert_eq!(exp2_fixed(-UNIT), HALF_UNIT);
    assert_eq!(exp2_fixed(-2 * UNIT), UNIT / 4);
}

#[test]
fn exp2_fixed_tracks_the_real_exponential() {
    for k in -32..=32i64 {
        let e = k * UNIT / 4;
        let real = f64::powf(2.0, (e as f64) / (UNIT as f64)) * (UNIT as f64);
        let got = exp2_fixed(e) as f64;
        assert!((got - real).abs() <= real * 0.01, "exp {}: {} vs {}", e, got, real);
    }
}
