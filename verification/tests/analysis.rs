use synthkit::error::Error;
use synthkit::sampler::{best_loop, dot, max_freq, Loop, NFFT};
use synthkit::SAMPLE_RATE;

#[test]
fn test_max_freq_0() {
    assert_eq!(0, max_freq(&vec![1i16; NFFT]));
}

#[test]
fn test_max_freq_nyquist() {
    let buf: Vec<i16> = (0..NFFT).map(|i| if i % 2 == 0 { -1 } else { 1 }).collect();
    assert_eq!((SAMPLE_RATE / 2) as u64, max_freq(&buf));
}

#[test]
fn test_dot() {
    assert_eq!(14, dot(&[1, 3], &[2, 4]));
}

#[test]
fn test_best_loop() {
    let samples: [i16; 7] = [1, 1, 1, 1, 1, 1, 0];
    assert_eq!(1, best_loop(&samples, 2, 2).1);
}

#[test]
fn best_loop_prefers_smallest_trim_on_ties() {
    // A constant buffer scores every trim equally; the smallest trim wins.
    let samples = [5i16; 16];
    assert_eq!(0, best_loop(&samples, 4, 4).1);
}

// A square wave with period 16 samples: 3 kHz at the fixed rate.
fn square(i: usize) -> i16 {
    if i % 16 < 8 {
        1000
    } else {
        -1000
    }
}

#[test]
fn analyze_constant_buffer_keeps_everything() {
    // A constant buffer has its spectral peak at DC, far below the
    // plausible range, so no fundamental is detected; every splice scores
    // the same, so nothing is trimmed.
    let buf = vec![1000i16; 200];
    let l = Loop::new(&buf).unwrap();
    assert_eq!(None, l.fundamental());
    assert_eq!(200, l.samples().len());
}

#[test]
fn analyze_square_above_range_trims_to_period() {
    // 3 kHz lies above the plausible fundamental range, so the loop keeps
    // no fundamental and the splice search falls back to the default
    // period: a window of 56 samples over a 160-sample buffer, where the
    // best-scoring trims are 8, 24 and 40 samples and the smallest wins.
    let buf: Vec<i16> = (0..160).map(square).collect();
    let l = Loop::new(&buf).unwrap();
    assert_eq!(None, l.fundamental());
    assert_eq!(152, l.samples().len());
    for (i, &s) in l.samples().iter().enumerate() {
        assert_eq!(square(i), s);
    }
}

#[test]
fn analyze_short_buffer_is_rejected() {
    // The fallback period of 28 samples needs a buffer of at least 111
    // samples for its splice search window.
    let buf = vec![1000i16; 50];
    assert_eq!(Err(Error::AnalysisFailure), Loop::new(&buf).map(|l| l.samples().len()));
}

#[test]
fn analyze_empty_buffer_is_rejected() {
    let buf: Vec<i16> = vec![];
    assert!(matches!(Loop::new(&buf), Err(Error::AnalysisFailure)));
}
