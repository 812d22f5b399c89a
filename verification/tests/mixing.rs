use synthkit::error::Error;
use synthkit::mixer::{apply_agc, Mixer, OneShot, Voice};
use synthkit::sampler::{Loop, Samples, PHASE_UNIT};

// A loop holding a constant buffer: its voices are constant streams.
fn const_loop(value: i16) -> Loop {
    Loop::new(&vec![value; 200]).unwrap()
}

fn const_voice(value: i16) -> Samples {
    Samples::new(&const_loop(value), PHASE_UNIT, 20_000)
}

#[test]
fn empty_mixer_outputs_silence_forever() {
    let mut m = Mixer::new();
    for _ in 0..5 {
        assert_eq!(0, m.next());
    }
    assert_eq!(0, m.voice_count());
}

#[test]
fn mixer_additivity_on_constant_voices() {
    // Two constant voices of 1000 and 2000: every tick outputs the sum
    // scaled by the linear gain of one tenth.
    let mut m = Mixer::new();
    m.add_key(69, const_voice(1000)).unwrap();
    m.add_key(73, const_voice(2000)).unwrap();
    for _ in 0..10 {
        assert_eq!(300, m.next());
    }
}

#[test]
fn duplicate_key_is_reported_and_mutates_nothing() {
    let mut m = Mixer::new();
    m.add_key(60, const_voice(1000)).unwrap();
    assert_eq!(Err(Error::DuplicateVoiceKey), m.add_key(60, const_voice(2000)));
    assert_eq!(1, m.voice_count());
    // The held voice is the original one: the output is 1000 scaled, not
    // 2000 scaled.
    assert_eq!(100, m.next());
}

#[test]
fn remove_key_drops_only_that_voice() {
    let mut m = Mixer::new();
    m.add_key(60, const_voice(1000)).unwrap();
    m.add_key(64, const_voice(2000)).unwrap();
    m.remove_key(60);
    assert_eq!(1, m.voice_count());
    assert_eq!(200, m.next());
    m.remove_key(99);
    assert_eq!(1, m.voice_count());
}

#[test]
fn clear_empties_the_mixer() {
    let mut m = Mixer::new();
    m.add_key(60, const_voice(1000)).unwrap();
    m.add_key(64, const_voice(2000)).unwrap();
    m.clear();
    assert_eq!(0, m.voice_count());
    assert_eq!(0, m.next());
}

#[test]
fn with_streams_builds_a_keyed_mixer() {
    let m = Mixer::with_streams(vec![
        (69, const_voice(1000)),
        (73, const_voice(2000)),
        (45, const_voice(-3000)),
    ]);
    let mut m = m.unwrap();
    assert_eq!(3, m.voice_count());
    assert_eq!(0, m.next());
}

#[test]
fn with_streams_rejects_duplicate_keys() {
    let r = Mixer::with_streams(vec![(69, const_voice(1000)), (69, const_voice(2000))]);
    assert!(matches!(r, Err(Error::DuplicateVoiceKey)));
}

#[test]
fn exhausted_one_shot_voices_are_removed() {
    let mut m = Mixer::new();
    m.add_voice(1, Voice::OneShot(OneShot::new(vec![10_000, 20_000]))).unwrap();
    m.add_voice(2, Voice::Silence).unwrap();
    assert_eq!(1000, m.next());
    assert_eq!(2, m.voice_count());
    assert_eq!(2000, m.next());
    assert_eq!(2, m.voice_count());
    // The one-shot ends here: its sample is gone from the mix and the
    // voice is dropped after the tick.
    assert_eq!(0, m.next());
    assert_eq!(1, m.voice_count());
}

#[test]
fn gain_is_constant_up_to_the_agc_threshold() {
    for n in 1..=8 {
        assert_eq!(1000, apply_agc(10_000, n));
    }
}

#[test]
fn gain_never_grows_with_the_voice_count() {
    let mut prev = apply_agc(10_000, 1);
    for n in 2..40 {
        let g = apply_agc(10_000, n);
        assert!(g <= prev, "gain grew from {} to {} at {} voices", prev, g, n);
        prev = g;
    }
    // Above the threshold the gain shrinks in proportion to the count.
    assert_eq!(888, apply_agc(10_000, 9));
    assert_eq!(800, apply_agc(10_000, 10));
    assert_eq!(500, apply_agc(10_000, 16));
}

#[test]
fn gain_rounds_toward_zero_for_negative_sums() {
    assert_eq!(-1000, apply_agc(-10_005, 1));
    assert_eq!(1000, apply_agc(10_005, 1));
}

#[test]
fn many_voices_stay_inside_the_sample_range() {
    let mut m = Mixer::new();
    for k in 0..32 {
        m.add_key(k, const_voice(i16::MAX)).unwrap();
    }
    let out = m.next();
    assert!(-32768 < out && out < 32768);
    // 32 full-scale voices at gain 8/320.
    assert_eq!((32767i64 * 32 * 8 / 320) as i32, out);
}
