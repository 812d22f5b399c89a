use synthkit::sampler::{Loop, Samples, PHASE_UNIT};

fn square(i: usize) -> i16 {
    if i % 16 < 8 {
        1000
    } else {
        -1000
    }
}

// A 152-sample loop of a period-16 square wave with no detected
// fundamental (3 kHz lies above the plausible range).
fn square_loop() -> Loop {
    let buf: Vec<i16> = (0..160).map(square).collect();
    Loop::new(&buf).unwrap()
}

#[test]
fn voice_at_unit_increment_replays_the_loop() {
    let l = square_loop();
    let mut v = Samples::new(&l, PHASE_UNIT, 20_000);
    for round in 0..3 {
        for i in 0..152 {
            assert_eq!(square(i), v.next(), "round {} sample {}", round, i);
        }
    }
}

#[test]
fn voice_phase_wraps_modulo_loop_length() {
    let l = square_loop();
    // Three samples per tick: the phase visits 3k mod 152.
    let mut v = Samples::new(&l, 3 * PHASE_UNIT, 20_000);
    for k in 0..500usize {
        assert_eq!(square((3 * k) % 152), v.next(), "tick {}", k);
    }
}

#[test]
fn voice_fractional_increment_reads_floor_position() {
    let l = square_loop();
    // Two and a half sample positions per tick.
    let incr = 2 * PHASE_UNIT + PHASE_UNIT / 2;
    let mut v = Samples::new(&l, incr, 20_000);
    let mut phase: u64 = 0;
    let n: u64 = 152 * PHASE_UNIT;
    for k in 0..500usize {
        let expect = square((phase >> 32) as usize);
        assert_eq!(expect, v.next(), "tick {}", k);
        phase = (phase + incr) % n;
    }
}

#[test]
fn voice_reset_restarts_the_loop() {
    let l = square_loop();
    let mut v = Samples::new(&l, PHASE_UNIT, 20_000);
    let first: Vec<i16> = (0..10).map(|_| v.next()).collect();
    v.reset();
    let again: Vec<i16> = (0..10).map(|_| v.next()).collect();
    assert_eq!(first, again);
}

#[test]
fn unknown_fundamental_plays_at_original_rate() {
    let l = square_loop();
    assert_eq!(None, l.fundamental());
    let v = l.iter(440);
    assert_eq!(PHASE_UNIT, v.increment());
    assert_eq!(20_000, v.cutoff_hz());
}

// A square wave with period 128 samples over a whole transform window:
// 375 Hz, exactly on a transform bin, so the analysis detects it.
fn bin_exact_loop() -> Loop {
    let buf: Vec<i16> = (0..16384).map(|i| if i % 128 < 64 { 1000 } else { -1000 }).collect();
    Loop::new(&buf).unwrap()
}

#[test]
fn detected_fundamental_in_range_is_kept() {
    let l = bin_exact_loop();
    assert_eq!(Some(375), l.fundamental());
    // The splice search ties between trimming nothing and trimming one
    // whole period; the smallest trim wins, so the loop keeps everything.
    assert_eq!(16384, l.samples().len());
}

#[test]
fn voice_at_the_loops_own_pitch_has_unit_increment() {
    let l = bin_exact_loop();
    let v = l.iter(375);
    assert_eq!(PHASE_UNIT, v.increment());
    assert_eq!(20_000, v.cutoff_hz());
}

#[test]
fn voice_an_octave_up_doubles_the_increment() {
    let l = bin_exact_loop();
    let v = l.iter(750);
    assert_eq!(2 * PHASE_UNIT, v.increment());
    assert_eq!(20_000, v.cutoff_hz());
}

#[test]
fn voice_pitched_down_shrinks_the_cutoff() {
    let l = bin_exact_loop();
    let v = l.iter(187);
    // Increment 187/375 of a sample per tick, cutoff scaled the same way.
    assert_eq!((187u64 << 32) / 375, v.increment());
    assert_eq!(20_000 * 187 / 375, v.cutoff_hz());
}

#[test]
fn iter_starts_at_phase_zero() {
    let l = square_loop();
    let mut v = l.iter(440);
    assert_eq!(square(0), v.next());
    assert_eq!(square(1), v.next());
}
