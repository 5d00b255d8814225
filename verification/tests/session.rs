use audact::fixed::UNIT;
use audact::system::{Audact, AudactError, Processing};
use audact::waves::{SineWave, SquareWave};

#[test]
fn processing_defaults() {
    let p = Processing::default();
    assert_eq!(p.gain, UNIT);
    assert_eq!(p.filter, (0, 5000000));
    assert_eq!(p.attack, 0);
    assert_eq!(p.reverb, (0, 0));
}

#[test]
fn processing_builders_replace_one_field() {
    let p = Processing::default()
        .with_gain(UNIT / 2)
        .with_filter((100000, 2000000))
        .with_attack(250)
        .with_reverb((80, UNIT / 4));
    assert_eq!(p.gain, UNIT / 2);
    assert_eq!(p.filter, (100000, 2000000));
    assert_eq!(p.attack, 250);
    assert_eq!(p.reverb, (80, UNIT / 4));
}

#[test]
fn new_session_is_empty() {
    let a = Audact::new();
    assert_eq!(a.sample_rate, 44100);
    assert_eq!(a.channels.len(), 0);
    assert_eq!(a.sinks.len(), 0);
    assert!(a.max_sinks.is_none());
}

#[test]
fn channels_accumulate_in_insertion_order() {
    let mut a = Audact::new();
    let volume: i64 = UNIT;
    a.channel(&SineWave, &volume, Processing::default(), &440000i64, 50).unwrap();
    a.channel(&SquareWave, &volume, Processing::default().with_gain(7), &220000i64, 100).unwrap();
    assert_eq!(a.channels.len(), 2);
    assert_eq!(a.channels[0].source.len(), 2205);
    assert_eq!(a.channels[1].source.len(), 4410);
    assert_eq!(a.channels[1].processing.gain, 7);
}

#[test]
fn empty_step_sequence_is_rejected_without_disturbing_channels() {
    let mut a = Audact::new();
    let volume: i64 = UNIT;
    a.channel(&SineWave, &volume, Processing::default(), &440000i64, 50).unwrap();
    let empty: Vec<i64> = vec![];
    let r = a.channel(&SineWave, &volume, Processing::default(), &empty, 50);
    assert_eq!(r.unwrap_err(), AudactError::InvalidConfiguration);
    assert_eq!(a.channels.len(), 1);
    assert_eq!(a.channels[0].source.len(), 2205);
}

#[test]
fn transient_queue_evicts_the_oldest_beyond_capacity() {
    // Bounded transient queue of capacity 2: adding 3 transient
    // channels evicts the first playback handle, the other 2 remain.
    let mut a = Audact::new().with_max_sinks(2);
    let volume: i64 = UNIT;
    let p = Processing::default();
    let first = a.play(&SineWave, &volume, p, &440000i64, 10).unwrap();
    assert_eq!(first.sink_id, 0);
    assert!(first.evicted.is_empty());
    let second = a.play(&SineWave, &volume, p, &440000i64, 10).unwrap();
    assert_eq!(second.sink_id, 1);
    assert!(second.evicted.is_empty());
    assert_eq!(a.sinks.len(), 2);
    let third = a.play(&SineWave, &volume, p, &440000i64, 10).unwrap();
    assert_eq!(third.sink_id, 2);
    assert_eq!(third.evicted, vec![0]);
    assert_eq!(a.sinks.len(), 2);
    assert_eq!(a.sinks[0], 1);
    assert_eq!(a.sinks[1], 2);
}

#[test]
fn unbounded_transient_queue_never_evicts() {
    let mut a = Audact::new();
    let volume: i64 = UNIT;
    let p = Processing::default();
    for expect in 0..5u64 {
        let tp = a.play(&SineWave, &volume, p, &440000i64, 10).unwrap();
        assert_eq!(tp.sink_id, expect);
        assert!(tp.evicted.is_empty());
    }
    assert_eq!(a.sinks.len(), 5);
}

#[test]
fn transient_play_renders_its_channel() {
    let mut a = Audact::new().with_max_sinks(1);
    let volume: i64 = UNIT;
    let tp = a.play(&SineWave, &volume, Processing::default(), &440000i64, 100).unwrap();
    assert_eq!(tp.channel.source.len(), 4410);
    // The batched channel list is untouched by transient playback.
    assert_eq!(a.channels.len(), 0);
    let rejected = {
        let empty: Vec<i64> = vec![];
        a.play(&SineWave, &volume, Processing::default(), &empty, 100)
    };
    assert_eq!(rejected.unwrap_err(), AudactError::InvalidConfiguration);
    assert_eq!(a.sinks.len(), 1);
}
