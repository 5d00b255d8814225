use audact::fixed::{HALF_UNIT, UNIT};
use audact::pitchers::{Pitcher, WavePitcher, FREQ_MAX};
use audact::waves::{SquareWave, Wave};

#[test]
fn constant_pitcher_resolves_itself() {
    let p: i64 = 440000;
    assert!(Pitcher::is_valid(&p));
    for n in [0i64, 1, UNIT / 2, UNIT - 1] {
        assert_eq!(Pitcher::calculate(&p, n), 440000);
    }
}

#[test]
fn constant_pitcher_validity() {
    assert!(Pitcher::is_valid(&0i64));
    assert!(Pitcher::is_valid(&FREQ_MAX));
    assert!(!Pitcher::is_valid(&-1i64));
    assert!(!Pitcher::is_valid(&(FREQ_MAX + 1)));
}

#[test]
fn step_pitcher_selects_equal_bins() {
    // A step resolver of length 4: position p maps to bin
    // floor(p * 4 / UNIT), restricted to [0, 3].
    let steps: Vec<i64> = vec![100, 200, 300, 400];
    assert!(Pitcher::is_valid(&steps));
    assert_eq!(Pitcher::calculate(&steps, 0), 100);
    assert_eq!(Pitcher::calculate(&steps, UNIT / 4 - 1), 100);
    assert_eq!(Pitcher::calculate(&steps, UNIT / 4), 200);
    assert_eq!(Pitcher::calculate(&steps, UNIT / 2), 300);
    assert_eq!(Pitcher::calculate(&steps, UNIT - 1), 400);
}

#[test]
fn step_pitcher_single_bin() {
    let steps: Vec<i64> = vec![440000];
    assert!(Pitcher::is_valid(&steps));
    assert_eq!(Pitcher::calculate(&steps, 0), 440000);
    assert_eq!(Pitcher::calculate(&steps, UNIT - 1), 440000);
}

#[test]
fn step_pitcher_validity() {
    let empty: Vec<i64> = vec![];
    assert!(!Pitcher::is_valid(&empty));
    let negative: Vec<i64> = vec![100, -5];
    assert!(!Pitcher::is_valid(&negative));
    let too_high: Vec<i64> = vec![FREQ_MAX + 1];
    assert!(!Pitcher::is_valid(&too_high));
    let rests: Vec<i64> = vec![440000, 0, 440000, 0];
    assert!(Pitcher::is_valid(&rests));
}

#[test]
fn wave_pitcher_bends_by_whole_octaves() {
    // A square wave at full range UNIT (one octave) swings the
    // multiplier between half and double pitch.
    let bend = WavePitcher { wave: SquareWave, range: UNIT };
    assert_eq!(bend.calculate(0), HALF_UNIT);
    assert_eq!(bend.calculate(HALF_UNIT), 2 * UNIT);
}

#[test]
fn wave_pitcher_zero_range_is_flat() {
    let bend = WavePitcher { wave: SquareWave, range: 0 };
    assert_eq!(bend.calculate(0), UNIT);
    assert_eq!(bend.calculate(HALF_UNIT), UNIT);
}
