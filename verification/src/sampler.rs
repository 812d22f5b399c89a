//! Loop analysis and resampling voices.
//!
//! A recorded waveform cycle is analyzed once, offline: a spectral peak
//! estimate finds its dominant frequency, and an autocorrelation search finds
//! the trim point at which the buffer repeats with the least audible seam.
//! The result is a [`Loop`], from which any number of pitch-shifted
//! [`Samples`] voices can be derived.

use dsp::window::hamming;
use num_complex::Complex32;
use vstd::arithmetic::div_mod::{
    lemma_div_is_ordered, lemma_div_is_ordered_by_denominator, lemma_div_multiples_vanish,
    lemma_fundamental_div_mod_converse_div, lemma_mod_sub_multiples_vanish, lemma_multiply_divide_lt,
    lemma_small_mod,
};
use vstd::prelude::*;

verus! {

/// Width of the reconstruction filter in samples, centered on the target
/// position; a voice's per-tick increment must stay below half this width.
pub const RESAMP_WIDTH: u64 = 9;

/// Minimum plausible fundamental frequency of a sample, in Hz.
pub const F_MIN: u32 = 110;

/// Maximum plausible fundamental frequency of a sample, in Hz.
pub const F_MAX: u32 = 1720;

/// Transform length of the spectral peak estimate.
pub const NFFT: usize = 16_384;

/// Sum of the first `n` pairwise products of `a` and `b`.
pub open spec fn dot_prefix(a: Seq<i16>, b: Seq<i16>, n: int) -> int
    decreases n,
{
    if n <= 0 {
        0
    } else {
        dot_prefix(a, b, n - 1) + a[n - 1] * b[n - 1]
    }
}

/// Dot product of two sample slices, over their common prefix.
pub open spec fn spec_dot(a: Seq<i16>, b: Seq<i16>) -> int {
    dot_prefix(a, b, vstd::math::min(a.len() as int, b.len() as int))
}

/// Each pairwise product of 16-bit samples is at most `1 << 30` in
/// magnitude, so a prefix of `n` products is bounded by `n << 30`.
pub proof fn lemma_dot_prefix_bound(a: Seq<i16>, b: Seq<i16>, n: int)
    requires
        0 <= n <= a.len(),
        n <= b.len(),
    ensures
        -n * 0x4000_0000 <= dot_prefix(a, b, n) <= n * 0x4000_0000,
    decreases n,
{
    if n > 0 {
        lemma_dot_prefix_bound(a, b, n - 1);
        assert(-0x4000_0000 <= a[n - 1] * b[n - 1] <= 0x4000_0000) by (nonlinear_arith)
            requires
                -0x8000 <= a[n - 1] <= 0x7fff,
                -0x8000 <= b[n - 1] <= 0x7fff,
        ;
        assert((n - 1) * 0x4000_0000 == n * 0x4000_0000 - 0x4000_0000) by (nonlinear_arith);
    }
}

/// Plain dot product of two sample slices over their common prefix.
pub fn dot(a: &[i16], b: &[i16]) -> (r: i64)
    requires
        a@.len() <= 0x1_0000_0000 || b@.len() <= 0x1_0000_0000,
    ensures
        r == spec_dot(a@, b@),
{
    let na = a.len();
    let nb = b.len();
    let n = if na < nb {
        na
    } else {
        nb
    };
    let mut acc: i64 = 0;
    let mut k: usize = 0;
    while k < n
        invariant
            0 <= k <= n,
            n == vstd::math::min(a@.len() as int, b@.len() as int),
            n <= 0x1_0000_0000,
            n <= a@.len(),
            n <= b@.len(),
            acc == dot_prefix(a@, b@, k as int),
        decreases n - k,
    {
        proof {
            lemma_dot_prefix_bound(a@, b@, k as int);
            assert(-0x4000_0000 <= a@[k as int] * b@[k as int] <= 0x4000_0000) by (nonlinear_arith)
                requires
                    -0x8000 <= a@[k as int] <= 0x7fff,
                    -0x8000 <= b@[k as int] <= 0x7fff,
            ;
            assert(k * 0x4000_0000 <= 0x1_0000_0000i64 * 0x4000_0000) by (nonlinear_arith)
                requires
                    0 <= k <= 0x1_0000_0000,
            ;
        }
        acc = acc + (a[k] as i64) * (b[k] as i64);
        k += 1;
    }
    acc
}

/// The unnormalized correlation between the first `len` samples of `buf` and
/// the `len` samples that end `t` before the end of `buf`: the score of
/// trimming `t` samples off the end and splicing the loop there.
pub open spec fn splice_score(buf: Seq<i16>, len: int, t: int) -> int {
    spec_dot(buf.take(len), buf.subrange(buf.len() - len - t, buf.len() - t))
}

/// Finds the trim amount in `[0, lag)` whose splice has the best correlation
/// score, together with that score.  Ties are broken toward the smallest
/// trim, so the result is deterministic.
pub fn best_loop(buf: &[i16], len: usize, lag: usize) -> (r: (i64, usize))
    requires
        1 <= lag,
        len <= 0x1_0000_0000,
        len + lag <= buf@.len() + 1,
    ensures
        r.1 < lag,
        r.0 == splice_score(buf@, len as int, r.1 as int),
        forall|t: int| 0 <= t < lag ==> #[trigger] splice_score(buf@, len as int, t) <= r.0,
        forall|t: int| 0 <= t < r.1 ==> #[trigger] splice_score(buf@, len as int, t) < r.0,
{
    let nbuf = buf.len();
    let u0 = nbuf - len;
    let first = dot(&buf[0..len], &buf[u0..u0 + len]);
    let mut best: i64 = first;
    let mut best_t: usize = 0;
    proof {
        assert(buf@.subrange(0, len as int) == buf@.take(len as int));
    }
    let mut t: usize = 1;
    while t < lag
        invariant
            1 <= t <= lag,
            len <= 0x1_0000_0000,
            len + lag <= buf@.len() + 1,
            nbuf == buf@.len(),
            best_t < t,
            best == splice_score(buf@, len as int, best_t as int),
            forall|s: int| 0 <= s < t ==> #[trigger] splice_score(buf@, len as int, s) <= best,
            forall|s: int| 0 <= s < best_t ==> #[trigger] splice_score(buf@, len as int, s) < best,
        decreases lag - t,
    {
        let u = nbuf - len - t;
        let corr = dot(&buf[0..len], &buf[u..u + len]);
        proof {
            assert(buf@.subrange(0, len as int) == buf@.take(len as int));
        }
        if corr > best {
            best = corr;
            best_t = t;
        }
        t += 1;
    }
    (best, best_t)
}

/// `t` is the canonical best splice among trims in `[0, lag)`: no trim
/// scores higher, and every smaller trim scores strictly lower.
pub open spec fn is_best_splice(buf: Seq<i16>, len: int, lag: int, t: int) -> bool {
    &&& 0 <= t < lag
    &&& forall|s: int|
        0 <= s < lag ==> #[trigger] splice_score(buf, len, s) <= splice_score(buf, len, t)
    &&& forall|s: int|
        0 <= s < t ==> #[trigger] splice_score(buf, len, s) < splice_score(buf, len, t)
}

/// At most one trim is the canonical best splice: breaking ties toward
/// the smallest trim makes the splice search deterministic.
pub proof fn lemma_best_splice_unique(buf: Seq<i16>, len: int, lag: int, t1: int, t2: int)
    requires
        is_best_splice(buf, len, lag, t1),
        is_best_splice(buf, len, lag, t2),
    ensures
        t1 == t2,
{
    if t1 < t2 {
        assert(splice_score(buf, len, t1) < splice_score(buf, len, t2));
        assert(splice_score(buf, len, t2) <= splice_score(buf, len, t1));
    } else if t2 < t1 {
        assert(splice_score(buf, len, t2) < splice_score(buf, len, t1));
        assert(splice_score(buf, len, t1) <= splice_score(buf, len, t2));
    }
}

/// What the spectral peak estimate returns: the dominant frequency of the
/// sample window in whole Hz, rounded down.  The leading samples (up to
/// `nfft` of them) get a Hamming window of their own length, are
/// zero-padded to `nfft` points, transformed, and the frequency of the
/// strongest bin is taken.
pub uninterp spec fn peak_freq(samples: Seq<i16>, nfft: nat, rate: nat) -> u64;

/// Relies on `dsp::window::hamming` and `Window::apply` (the window over
/// the data length), `dsp::core::fft::ForwardFFT` over rustfft (with a
/// rectangular window, since the data is already windowed), and
/// `dsp::spectrum::max_freq` (the frequency of the largest-magnitude bin,
/// folded into the first half of the spectrum).  The estimate is a pure
/// function of the samples, the transform length and the sample rate.
///
/// The preconditions keep the wrapped code inside its domain: an empty
/// window or a zero transform length would hit an underflow or a division
/// by zero inside dsp, an even transform keeps the folded bin at or below
/// half the transform, and the two products bound every index-frequency
/// product inside the address range and keep the whole-Hz floor of the
/// estimate at or below half the rate despite the 32-bit float arithmetic.
#[verifier::external_body]
fn spectral_peak(buf: &[i16], nfft: usize, rate: usize) -> (r: u64)
    requires
        0 < buf@.len(),
        0 < nfft,
        nfft % 2 == 0,
        nfft * rate < 0x8000_0000,
        rate < 0x80_0000,
    ensures
        r == peak_freq(buf@, nfft as nat, rate as nat),
        2 * r <= rate,
{
    let m = buf.len().min(nfft);
    let win = hamming(m);
    let samples: Vec<_> = buf.iter().take(m).map(|&s| s.into()).collect();
    let mut windowed = samples.clone();
    win.apply(&samples, &mut windowed);
    let mut input: Vec<_> = windowed.iter().map(|&x| Complex32::from(x)).collect();
    input.resize(nfft, Complex32::default());
    let mut output = vec![Complex32::default(); nfft];
    let mut fft = dsp::core::fft::ForwardFFT::new(nfft, dsp::core::fft::WindowType::Rectangular);
    fft.process_buffer(&input, &mut output);
    dsp::spectrum::max_freq(&output, rate) as u64
}

/// The dominant frequency of a sample window, estimated spectrally: the
/// leading samples (up to [`NFFT`] of them) are Hamming-windowed over
/// their own length, zero-padded to [`NFFT`] points, transformed, and the
/// frequency of the strongest bin is returned in whole Hz.  The estimate
/// never exceeds half the sample rate.
pub fn max_freq(buf: &[i16]) -> (f: u64)
    requires
        0 < buf@.len(),
    ensures
        f == peak_freq(buf@, NFFT as nat, crate::SAMPLE_RATE as nat),
        2 * f <= crate::SAMPLE_RATE,
{
    spectral_peak(buf, NFFT, crate::SAMPLE_RATE as usize)
}

/// The loop period, in samples, of a fundamental frequency `f`: the sample
/// rate divided by `f`, rounded to the nearest whole sample.
pub open spec fn period_of(f: int) -> int {
    (2 * crate::SAMPLE_RATE + f) / (2 * f)
}

/// The loop period of any plausible fundamental lies between 27 and 444
/// samples.
pub proof fn lemma_period_of_bounds(f: int)
    requires
        F_MIN <= f <= F_MAX,
    ensures
        27 <= period_of(f) <= 444,
{
    let n = 2 * crate::SAMPLE_RATE + f;
    let n_min = 2 * crate::SAMPLE_RATE + F_MIN as int;
    let n_max = 2 * crate::SAMPLE_RATE + F_MAX as int;
    lemma_div_is_ordered_by_denominator(n, 2 * F_MIN as int, 2 * f);
    lemma_div_is_ordered(n, n_max, 2 * F_MIN as int);
    assert(n_max == 444 * (2 * F_MIN as int) + 40);
    lemma_fundamental_div_mod_converse_div(n_max, 2 * F_MIN as int, 444, 40);
    lemma_div_is_ordered_by_denominator(n, 2 * f, 2 * F_MAX as int);
    lemma_div_is_ordered(n_min, n, 2 * F_MAX as int);
    assert(n_min == 27 * (2 * F_MAX as int) + 3230);
    lemma_fundamental_div_mod_converse_div(n_min, 2 * F_MAX as int, 27, 3230);
}

/// Rounds `SAMPLE_RATE / f` to the nearest whole number of samples.
pub fn period_samples(f: u32) -> (p: u32)
    requires
        F_MIN <= f <= F_MAX,
    ensures
        p == period_of(f as int),
        27 <= p <= 444,
{
    proof {
        lemma_period_of_bounds(f as int);
    }
    (2 * crate::SAMPLE_RATE + f) / (2 * f)
}

/// Longest loop buffer the 32.32 fixed-point phase can address, with room
/// for one whole filter width of phase advance above the top position.
pub const MAX_LOOP_LEN: usize = 0xFFFF_FF00;

/// The spectral peak estimate of a raw sample buffer, as the analysis
/// performs it: over the leading samples, at [`NFFT`] points, at the fixed
/// sample rate.
pub open spec fn analysis_freq(buf: Seq<i16>) -> u64 {
    peak_freq(buf, NFFT as nat, crate::SAMPLE_RATE as nat)
}

/// Whether a spectral peak lies in the plausible musical range and is
/// accepted as the loop's fundamental frequency.
pub open spec fn freq_accepted(f: u64) -> bool {
    F_MIN <= f <= F_MAX
}

/// The loop period the analysis works with: derived from the spectral peak
/// when it is accepted, and from the upper frequency bound otherwise.
pub open spec fn used_period(buf: Seq<i16>) -> int {
    if freq_accepted(analysis_freq(buf)) {
        period_of(analysis_freq(buf) as int)
    } else {
        period_of(F_MAX as int)
    }
}

/// An audio sample loop that has been frequency-analyzed and trimmed for
/// seamless looping.
pub struct Loop {
    buf: Vec<i16>,
    freq: Option<u32>,
}

impl Loop {
    /// Well-formed: the buffer is non-empty, short enough for the
    /// fixed-point phase, and any detected fundamental is plausible.
    pub open spec fn wf(&self) -> bool {
        &&& 0 < self.spec_samples().len() <= MAX_LOOP_LEN
        &&& match self.spec_freq() {
            Some(f) => F_MIN <= f <= F_MAX,
            None => true,
        }
    }

    /// The trimmed sample data of the loop.
    pub closed spec fn spec_samples(&self) -> Seq<i16> {
        self.buf@
    }

    /// The detected fundamental frequency, if one was accepted.
    pub closed spec fn spec_freq(&self) -> Option<u32> {
        self.freq
    }

    /// The trimmed sample data of the loop.
    pub fn samples(&self) -> (r: &Vec<i16>)
        ensures
            r@ == self.spec_samples(),
    {
        &self.buf
    }

    /// The detected fundamental frequency in Hz, if one was accepted.
    pub fn fundamental(&self) -> (r: Option<u32>)
        ensures
            r == self.spec_freq(),
    {
        self.freq
    }

    /// Makes a `Loop` out of raw samples.
    ///
    /// The dominant frequency of the buffer is estimated spectrally and
    /// accepted as the fundamental only within the plausible musical range;
    /// the loop period follows from the accepted frequency, or from the
    /// upper bound of the range otherwise.  An autocorrelation search over
    /// twice that period then picks how much to trim off the end so that the
    /// buffer repeats with the least audible seam.  A buffer shorter than
    /// the search window is rejected.
    pub fn new(buf: &[i16]) -> (r: Result<Loop, crate::error::Error>)
        requires
            buf@.len() <= MAX_LOOP_LEN,
        ensures
            match r {
                Ok(l) => {
                    &&& l.wf()
                    &&& 4 * used_period(buf@) <= buf@.len() + 1
                    &&& l.spec_freq() == (if freq_accepted(analysis_freq(buf@)) {
                        Some(analysis_freq(buf@) as u32)
                    } else {
                        None::<u32>
                    })
                    &&& exists|t: int|
                        {
                            &&& #[trigger] is_best_splice(
                                buf@,
                                2 * used_period(buf@),
                                2 * used_period(buf@),
                                t,
                            )
                            &&& l.spec_samples() == buf@.take(buf@.len() - t)
                        }
                },
                Err(e) => {
                    &&& e == crate::error::Error::AnalysisFailure
                    &&& buf@.len() + 1 < 4 * used_period(buf@)
                },
            },
    {
        if buf.len() == 0 {
            proof {
                if freq_accepted(analysis_freq(buf@)) {
                    lemma_period_of_bounds(analysis_freq(buf@) as int);
                } else {
                    lemma_period_of_bounds(F_MAX as int);
                }
            }
            return Err(crate::error::Error::AnalysisFailure);
        }
        let fq = max_freq(buf);
        let accepted = F_MIN as u64 <= fq && fq <= F_MAX as u64;
        let (freq, p): (Option<u32>, u32) = if accepted {
            let fhz = fq as u32;
            (Some(fhz), period_samples(fhz))
        } else {
            (None, period_samples(F_MAX))
        };
        let lag: usize = (2 * p) as usize;
        if buf.len() + 1 < 4 * (p as usize) {
            return Err(crate::error::Error::AnalysisFailure);
        }
        let (_, t) = best_loop(buf, lag, lag);
        let keep = buf.len() - t;
        let mut out: Vec<i16> = Vec::new();
        let mut i: usize = 0;
        while i < keep
            invariant
                i <= keep,
                keep <= buf@.len(),
                out@ == buf@.subrange(0, i as int),
            decreases keep - i,
        {
            out.push(buf[i]);
            proof {
                assert(out@ =~= buf@.subrange(0, i as int + 1));
            }
            i += 1;
        }
        let result = Loop { buf: out, freq };
        proof {
            assert(out@ =~= buf@.take(keep as int));
            assert(lag as int == 2 * used_period(buf@));
            assert(is_best_splice(buf@, 2 * used_period(buf@), 2 * used_period(buf@), t as int));
            assert(result.spec_samples() == buf@.take(buf@.len() - t as int));
        }
        Ok(result)
    }

    /// A voice playing this loop, resampled to the given target frequency in
    /// Hz.
    ///
    /// When the loop has a known fundamental, the voice advances through the
    /// loop by `target / fundamental` samples per tick and its anti-aliasing
    /// cutoff shrinks in the same ratio when pitching down, capped at 20 kHz;
    /// with no known fundamental the loop plays back at its original rate.
    /// A voice built at the loop's own fundamental has exactly the unit
    /// increment: no pitch shift.
    pub fn iter(&self, freq: u32) -> (r: Samples)
        requires
            self.wf(),
            match self.spec_freq() {
                Some(f) => 2 * freq < RESAMP_WIDTH * f,
                None => true,
            },
        ensures
            r.wf(),
            r.spec_buf() == self.spec_samples(),
            r.spec_phase() == 0,
            r.spec_incr() == increment_for(freq as int, self.spec_freq()),
            r.spec_cutoff() == cutoff_for(freq as int, self.spec_freq()),
            self.spec_freq() == Some(freq) ==> r.spec_incr() == PHASE_UNIT,
    {
        let (incr, cutoff): (u64, u32) = match self.freq {
            Some(f) => {
                proof {
                    assert((freq as int) * (PHASE_UNIT as int) <= 0xFFFF_FFFF * 0x1_0000_0000)
                        by (nonlinear_arith)
                        requires
                            freq <= 0xFFFF_FFFFu32,
                            PHASE_UNIT == 0x1_0000_0000u64,
                    ;
                }
                let inc = (freq as u64) * PHASE_UNIT / (f as u64);
                proof {
                    assert((freq as int) * (PHASE_UNIT as int) < (f as int) * ((RESAMP_WIDTH as int) * (PHASE_UNIT as int) / 2)) by (nonlinear_arith)
                        requires
                            2 * freq < RESAMP_WIDTH * f,
                            0 < f,
                            PHASE_UNIT == 0x1_0000_0000u64,
                            RESAMP_WIDTH == 9u64,
                    ;
                    lemma_multiply_divide_lt(
                        (freq as int) * (PHASE_UNIT as int),
                        f as int,
                        (RESAMP_WIDTH as int) * (PHASE_UNIT as int) / 2,
                    );
                    if freq == f {
                        assert(((f as int) * (PHASE_UNIT as int)) / (f as int) == PHASE_UNIT as int)
                            by {
                            lemma_div_multiples_vanish(PHASE_UNIT as int, f as int);
                        }
                    }
                }
                let c = if freq >= f {
                    20_000u32
                } else {
                    ((20_000u64 * (freq as u64)) / (f as u64)) as u32
                };
                proof {
                    if freq < f {
                        lemma_multiply_divide_lt(20_000 * (freq as int), f as int, 20_000);
                        assert(20_000 * (freq as int) < (f as int) * 20_000) by (nonlinear_arith)
                            requires
                                freq < f,
                        ;
                    }
                }
                (inc, c)
            },
            None => (PHASE_UNIT, 20_000u32),
        };
        let mut buf: Vec<i16> = Vec::new();
        let mut i: usize = 0;
        let src = &self.buf;
        while i < src.len()
            invariant
                i <= src@.len(),
                buf@ == src@.subrange(0, i as int),
            decreases src@.len() - i,
        {
            buf.push(src[i]);
            proof {
                assert(buf@ =~= src@.subrange(0, i as int + 1));
            }
            i += 1;
        }
        proof {
            assert(buf@ =~= self.buf@);
            assert(0 < (buf@.len() as int) * (PHASE_UNIT as int)) by (nonlinear_arith)
                requires
                    0 < buf@.len(),
                    PHASE_UNIT == 0x1_0000_0000u64,
            ;
        }
        Samples { buf, incr, cutoff, x: 0 }
    }
}

/// One unit of position in 32.32 fixed point: the distance from one stored
/// sample to the next.
pub const PHASE_UNIT: u64 = 0x1_0000_0000;

/// The phase increment of a voice at target frequency `target`: the ratio of
/// the target to the loop's fundamental, in 32.32 fixed point, or the unit
/// increment when no fundamental is known.
pub open spec fn increment_for(target: int, fund: Option<u32>) -> int {
    match fund {
        Some(f) => (target * PHASE_UNIT) / (f as int),
        None => PHASE_UNIT as int,
    }
}

/// The anti-aliasing cutoff of a voice at target frequency `target`, in Hz:
/// 20 kHz scaled down by the pitch ratio when pitching down, capped at
/// 20 kHz.
pub open spec fn cutoff_for(target: int, fund: Option<u32>) -> int {
    match fund {
        Some(f) => if target >= f {
            20_000
        } else {
            (20_000 * target) / (f as int)
        },
        None => 20_000,
    }
}

/// An endless stream of samples: one voice, playing a loop's samples
/// periodically at a fixed phase increment.
///
/// The voice's read position is a 32.32 fixed-point phase into the buffer;
/// every tick yields the sample at the phase's integer position and advances
/// the phase by the increment, wrapping modulo the buffer length (which
/// supports increments larger than the whole buffer).  Band-limited
/// reconstruction at fractional phases needs floating point, which the
/// verifier does not handle; the embedding application may refine the output
/// with a windowed-sinc filter driven by this voice's increment and cutoff.
pub struct Samples {
    buf: Vec<i16>,
    incr: u64,
    cutoff: u32,
    x: u64,
}

impl Samples {
    /// Well-formed: a playable non-empty buffer, the phase strictly inside
    /// it, and an increment below half the reconstruction filter width.
    pub open spec fn wf(&self) -> bool {
        &&& 0 < self.spec_buf().len() <= MAX_LOOP_LEN
        &&& (self.spec_phase() as int) < (self.spec_buf().len() as int) * (PHASE_UNIT as int)
        &&& 2 * (self.spec_incr() as int) < (RESAMP_WIDTH as int) * (PHASE_UNIT as int)
    }

    /// The samples the voice plays.
    pub closed spec fn spec_buf(&self) -> Seq<i16> {
        self.buf@
    }

    /// The per-tick phase increment, in 32.32 fixed point.
    pub closed spec fn spec_incr(&self) -> u64 {
        self.incr
    }

    /// The anti-aliasing cutoff, in Hz.
    pub closed spec fn spec_cutoff(&self) -> u32 {
        self.cutoff
    }

    /// The current phase, in 32.32 fixed point.
    pub closed spec fn spec_phase(&self) -> u64 {
        self.x
    }

    /// The sample the voice yields at its current phase: the stored sample
    /// at the phase's integer position.
    pub open spec fn spec_output(&self) -> i16 {
        self.spec_buf()[(self.spec_phase() as int) / (PHASE_UNIT as int)]
    }

    /// The voice one tick later: the phase advanced by the increment,
    /// wrapped modulo the buffer length; everything else unchanged.
    pub closed spec fn spec_advanced(&self) -> Samples {
        Samples {
            x: (((self.x + self.incr) as int) % ((self.buf@.len() as int) * (
            PHASE_UNIT as int))) as u64,
            ..*self
        }
    }

    /// Makes a new resampling voice over the loop's samples, starting at
    /// phase zero.
    pub fn new(sloop: &Loop, incr: u64, cutoff: u32) -> (r: Samples)
        requires
            sloop.wf(),
            2 * incr < RESAMP_WIDTH * PHASE_UNIT,
        ensures
            r.wf(),
            r.spec_buf() == sloop.spec_samples(),
            r.spec_incr() == incr,
            r.spec_cutoff() == cutoff,
            r.spec_phase() == 0,
    {
        let src = sloop.samples();
        let mut buf: Vec<i16> = Vec::new();
        let mut i: usize = 0;
        while i < src.len()
            invariant
                i <= src@.len(),
                buf@ == src@.subrange(0, i as int),
            decreases src@.len() - i,
        {
            buf.push(src[i]);
            proof {
                assert(buf@ =~= src@.subrange(0, i as int + 1));
            }
            i += 1;
        }
        proof {
            assert(buf@ =~= src@);
            assert(0 < (buf@.len() as int) * (PHASE_UNIT as int)) by (nonlinear_arith)
                requires
                    0 < buf@.len(),
                    PHASE_UNIT == 0x1_0000_0000u64,
            ;
        }
        Samples { buf, incr, cutoff, x: 0 }
    }

    /// The per-tick phase increment, in 32.32 fixed point.
    pub fn increment(&self) -> (r: u64)
        ensures
            r == self.spec_incr(),
    {
        self.incr
    }

    /// The anti-aliasing cutoff, in Hz.
    pub fn cutoff_hz(&self) -> (r: u32)
        ensures
            r == self.spec_cutoff(),
    {
        self.cutoff
    }

    /// Resets the voice to the beginning of the loop.
    ///
    /// Phase zero is not guaranteed to fall on a zero-crossing of the
    /// waveform, so a reset can be audible; that is a known limitation of
    /// the design, not something this function tries to correct.
    pub fn reset(&mut self)
        ensures
            final(self).spec_buf() == old(self).spec_buf(),
            final(self).spec_incr() == old(self).spec_incr(),
            final(self).spec_cutoff() == old(self).spec_cutoff(),
            final(self).spec_phase() == 0,
            old(self).wf() ==> final(self).wf(),
    {
        self.x = 0;
    }

    /// Yields the sample at the current phase, then advances the phase by
    /// the increment, wrapping modulo the buffer length.  The stream never
    /// ends on its own.
    pub fn next(&mut self) -> (s: i16)
        requires
            old(self).wf(),
        ensures
            final(self).wf(),
            s == old(self).spec_output(),
            final(self).spec_buf() == old(self).spec_buf(),
            final(self).spec_incr() == old(self).spec_incr(),
            final(self).spec_cutoff() == old(self).spec_cutoff(),
            final(self).spec_phase() == ((old(self).spec_phase() + old(self).spec_incr()) as int) % (
            (old(self).spec_buf().len() as int) * (PHASE_UNIT as int)),
            *final(self) == old(self).spec_advanced(),
    {
        let ghost xv: u64 = self.x;
        proof {
            assert(xv >> 32u64 == xv / 0x1_0000_0000u64) by (bit_vector);
            assert((self.x as int) < (PHASE_UNIT as int) * (self.buf@.len() as int)) by (nonlinear_arith)
                requires
                    (self.x as int) < (self.buf@.len() as int) * (PHASE_UNIT as int),
            ;
            lemma_multiply_divide_lt(self.x as int, PHASE_UNIT as int, self.buf@.len() as int);
        }
        let idx = (self.x >> 32) as usize;
        let s = self.buf[idx];
        proof {
            assert((self.buf@.len() as int) * (PHASE_UNIT as int) <= 0xFFFF_FF00 * 0x1_0000_0000)
                by (nonlinear_arith)
                requires
                    self.buf@.len() <= 0xFFFF_FF00,
            ;
        }
        let n: u64 = (self.buf.len() as u64) * PHASE_UNIT;
        let ghost total = self.x as int + self.incr as int;
        let mut nx: u64 = self.x + self.incr;
        while nx >= n
            invariant
                n == (self.buf@.len() as int) * (PHASE_UNIT as int),
                0 < n,
                (nx as int) % (n as int) == total % (n as int),
                nx <= total,
            decreases nx,
        {
            proof {
                lemma_mod_sub_multiples_vanish(nx as int, n as int);
            }
            nx = nx - n;
        }
        proof {
            lemma_small_mod(nx as nat, n as nat);
        }
        self.x = nx;
        s
    }
}

/// What one tick does to a voice's state, seen from outside the module: the
/// advanced voice keeps its samples, increment and cutoff, stays
/// well-formed, and carries the wrapped phase.
pub proof fn lemma_advanced_props(s: Samples)
    requires
        s.wf(),
    ensures
        s.spec_advanced().wf(),
        s.spec_advanced().spec_buf() == s.spec_buf(),
        s.spec_advanced().spec_incr() == s.spec_incr(),
        s.spec_advanced().spec_cutoff() == s.spec_cutoff(),
        s.spec_advanced().spec_phase() == ((s.spec_phase() + s.spec_incr()) as int) % ((
        s.spec_buf().len() as int) * (PHASE_UNIT as int)),
{
    let len = s.buf@.len() as int;
    let n = len * (PHASE_UNIT as int);
    assert(0 < len * (PHASE_UNIT as int)) by (nonlinear_arith)
        requires
            0 < len,
            PHASE_UNIT == 0x1_0000_0000u64,
    ;
    vstd::arithmetic::div_mod::lemma_mod_division_less_than_divisor(
        (s.x + s.incr) as int,
        n,
    );
}

/// A voice whose phase sits exactly on a stored sample reproduces that
/// sample: at an integral phase `k` units, the voice's output is the `k`-th
/// sample of its buffer, with no reconstruction error.
pub proof fn lemma_identity_at_integer_phase(v: Samples, k: int)
    requires
        v.wf(),
        0 <= k < v.spec_buf().len(),
        v.spec_phase() == k * PHASE_UNIT,
    ensures
        v.spec_output() == v.spec_buf()[k],
{
    lemma_div_multiples_vanish(k, PHASE_UNIT as int);
    assert(k * (PHASE_UNIT as int) == (PHASE_UNIT as int) * k) by (nonlinear_arith);
}

/// A voice built at the loop's own fundamental frequency has exactly the
/// unit increment: playing a loop at its own pitch does not resample it.
pub proof fn lemma_unison_unit_increment(f: u32)
    requires
        0 < f,
    ensures
        increment_for(f as int, Some(f)) == PHASE_UNIT,
{
    lemma_div_multiples_vanish(PHASE_UNIT as int, f as int);
    assert((f as int) * (PHASE_UNIT as int) == (PHASE_UNIT as int) * (f as int))
        by (nonlinear_arith);
}

} // verus!

