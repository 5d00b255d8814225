use audact::fixed::UNIT;
use audact::system::{render_raw, smooth_source, Channel, Processing};
use audact::waves::SineWave;

// A single sine channel at a constant 440 Hz, full volume, one
// second at 44100 Hz.
fn sine_440_raw() -> Vec<i64> {
    let volume: i64 = UNIT;
    let pitch: i64 = 440000;
    render_raw(&SineWave, &volume, &pitch, 44100, 1000)
}

#[test]
fn buffer_length_is_rate_times_duration_rounded() {
    let volume: i64 = UNIT;
    let pitch: i64 = 440000;
    assert_eq!(render_raw(&SineWave, &volume, &pitch, 44100, 1000).len(), 44100);
    assert_eq!(render_raw(&SineWave, &volume, &pitch, 44100, 500).len(), 22050);
    // 44100 * 25 / 1000 = 1102.5 rounds up.
    assert_eq!(render_raw(&SineWave, &volume, &pitch, 44100, 25).len(), 1103);
    // 8000 * 25 / 1000 = 200 exactly.
    assert_eq!(render_raw(&SineWave, &volume, &pitch, 8000, 25).len(), 200);
    // Smoothing keeps the length.
    let mut buf = render_raw(&SineWave, &volume, &pitch, 44100, 25);
    smooth_source(&mut buf);
    assert_eq!(buf.len(), 1103);
}

#[test]
fn sine_channel_crosses_zero_at_440_hz() {
    // Zero-crossing period of 440 Hz at 44100 Hz is about 100.2
    // samples, about 880 crossings in one second.
    let buf = sine_440_raw();
    assert_eq!(buf.len(), 44100);
    let mut crossings = 0u32;
    let mut last_sign = 0i64;
    for &s in &buf {
        let sign = if s > 0 {
            1
        } else if s < 0 {
            -1
        } else {
            0
        };
        if sign != 0 {
            if last_sign != 0 && sign != last_sign {
                crossings += 1;
            }
            last_sign = sign;
        }
    }
    assert!(crossings >= 850 && crossings <= 910, "crossings: {}", crossings);
}

#[test]
fn rests_render_exact_silence() {
    // Step sequence [f, 0, f, 0]: the 2nd and 4th quarter are exactly
    // 0 before smoothing.
    let volume: i64 = UNIT;
    let steps: Vec<i64> = vec![440000, 0, 440000, 0];
    let raw = render_raw(&SineWave, &volume, &steps, 44100, 1000);
    assert_eq!(raw.len(), 44100);
    for i in 11025..22050 {
        assert_eq!(raw[i], 0, "sample {} should be silent", i);
    }
    for i in 33075..44100 {
        assert_eq!(raw[i], 0, "sample {} should be silent", i);
    }
    // And the played quarters are not all silent.
    assert!(raw[..11025].iter().any(|&s| s != 0));
    assert!(raw[22050..33075].iter().any(|&s| s != 0));
}

#[test]
fn rests_decay_geometrically_after_smoothing() {
    // After smoothing, the silent quarters decay toward 0 instead of
    // cutting abruptly.
    let volume: i64 = UNIT;
    let steps: Vec<i64> = vec![440000, 0, 440000, 0];
    let mut buf = render_raw(&SineWave, &volume, &steps, 44100, 1000);
    let raw = buf.clone();
    smooth_source(&mut buf);
    assert_eq!(buf.len(), 44100);
    // Into the second quarter, each sample is 99 percent of the one
    // before it.
    for i in 11025..11125 {
        assert_eq!(buf[i], buf[i - 1] * 99 / 100, "at {}", i);
    }
    assert_ne!(buf[11025], 0);
    // Samples that were non-zero in the raw buffer are untouched.
    for i in 0..11025 {
        if raw[i] != 0 {
            assert_eq!(buf[i], raw[i]);
        }
    }
}

#[test]
fn channel_renders_and_smooths_eagerly() {
    let volume: i64 = UNIT;
    let pitch: i64 = 440000;
    let c = Channel::new(44100, &SineWave, &volume, Processing::default(), &pitch, 100).unwrap();
    assert_eq!(c.source.len(), 4410);
    assert_eq!(c.processing.gain, UNIT);
}
