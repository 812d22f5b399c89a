//! Mixing of concurrently sounding voices with automatic gain control.
//!
//! A [`Mixer`] owns a keyed set of voices.  Every tick it pulls one sample
//! from each voice, sums them, drops the voices whose stream has ended, and
//! scales the sum by a gain derived from the number of sounding voices, so
//! that the output stays roughly bounded as polyphony grows.

use crate::error::Error;
use crate::sampler::{lemma_advanced_props, Samples, PHASE_UNIT};
use vstd::arithmetic::div_mod::{
    lemma_div_is_ordered, lemma_div_is_ordered_by_denominator, lemma_div_multiples_vanish,
    lemma_fundamental_div_mod_converse_div, lemma_multiply_divide_lt,
};
use vstd::prelude::*;

verus! {

/// Greatest number of sounding voices mixed at full linear gain; above it
/// the automatic gain control scales the output down.
pub const AGC_VOICES: usize = 8;

/// The mixer's linear gain is the ratio of these two: one tenth.
pub const LINEAR_GAIN_NUM: i64 = 1;

/// See [`LINEAR_GAIN_NUM`].
pub const LINEAR_GAIN_DEN: i64 = 10;

/// A finite stream playing a buffer once, front to back, then ending.
pub struct OneShot {
    buf: Vec<i16>,
    pos: usize,
}

impl OneShot {
    /// Well-formed: the read position never passes the end of the buffer.
    pub open spec fn wf(&self) -> bool {
        self.spec_pos() <= self.spec_buf().len()
    }

    /// The samples the stream plays.
    pub closed spec fn spec_buf(&self) -> Seq<i16> {
        self.buf@
    }

    /// The current read position.
    pub closed spec fn spec_pos(&self) -> int {
        self.pos as int
    }

    /// The sample the stream yields this tick, or `None` once exhausted.
    pub open spec fn spec_output(&self) -> Option<i16> {
        if self.spec_pos() < self.spec_buf().len() {
            Some(self.spec_buf()[self.spec_pos()])
        } else {
            None
        }
    }

    /// The stream one tick later: the position advanced by one, until
    /// exhausted.
    pub closed spec fn spec_advanced(&self) -> OneShot {
        if self.pos < self.buf@.len() {
            OneShot { buf: self.buf, pos: (self.pos + 1) as usize }
        } else {
            *self
        }
    }

    /// A one-shot playback of the given samples, from the beginning.
    pub fn new(buf: Vec<i16>) -> (r: OneShot)
        ensures
            r.wf(),
            r.spec_buf() == buf@,
            r.spec_pos() == 0,
    {
        OneShot { buf, pos: 0 }
    }

    /// Yields the next sample, or `None` once the buffer has been played
    /// through.
    pub fn next(&mut self) -> (r: Option<i16>)
        requires
            old(self).wf(),
        ensures
            final(self).wf(),
            r == old(self).spec_output(),
            *final(self) == old(self).spec_advanced(),
    {
        if self.pos < self.buf.len() {
            let s = self.buf[self.pos];
            self.pos = self.pos + 1;
            Some(s)
        } else {
            None
        }
    }
}

/// One sounding voice: a periodic loop voice, a finite one-shot playback,
/// or a silent placeholder.  All behave as the same kind of pull stream:
/// one sample per tick, possibly signalling exhaustion.
pub enum Voice {
    /// A periodic, never-ending loop voice.
    Periodic(Samples),
    /// A finite buffer played once.
    OneShot(OneShot),
    /// A placeholder producing silence forever.
    Silence,
}

impl Voice {
    /// Well-formed: the underlying stream is.
    pub open spec fn wf(&self) -> bool {
        match self {
            Voice::Periodic(s) => s.wf(),
            Voice::OneShot(o) => o.wf(),
            Voice::Silence => true,
        }
    }

    /// The sample the voice yields this tick, or `None` if its stream has
    /// ended.
    pub open spec fn spec_output(&self) -> Option<i16> {
        match self {
            Voice::Periodic(s) => Some(s.spec_output()),
            Voice::OneShot(o) => o.spec_output(),
            Voice::Silence => Some(0i16),
        }
    }

    /// The voice one tick later.
    pub open spec fn spec_advanced(&self) -> Voice {
        match self {
            Voice::Periodic(s) => Voice::Periodic(s.spec_advanced()),
            Voice::OneShot(o) => Voice::OneShot(o.spec_advanced()),
            Voice::Silence => Voice::Silence,
        }
    }

    /// Yields this tick's sample and advances the voice, or reports
    /// exhaustion.
    pub fn next(&mut self) -> (r: Option<i16>)
        requires
            old(self).wf(),
        ensures
            final(self).wf(),
            r == old(self).spec_output(),
            *final(self) == old(self).spec_advanced(),
    {
        match self {
            Voice::Periodic(s) => {
                proof {
                    lemma_advanced_props(*s);
                }
                Some(s.next())
            },
            Voice::OneShot(o) => o.next(),
            Voice::Silence => Some(0),
        }
    }
}

/// The keys of `s` are pairwise distinct.
pub open spec fn keys_distinct(s: Seq<(usize, Voice)>) -> bool {
    forall|i: int, j: int| 0 <= i < j < s.len() ==> (#[trigger] s[i]).0 != (#[trigger] s[j]).0
}

/// Every voice in `s` is well-formed.
pub open spec fn voices_wf(s: Seq<(usize, Voice)>) -> bool {
    forall|i: int| 0 <= i < s.len() ==> (#[trigger] s[i]).1.wf()
}

/// The sum of this tick's samples over all voices of `s` whose stream has
/// not ended.
pub open spec fn spec_mix_sum(s: Seq<(usize, Voice)>) -> int
    decreases s.len(),
{
    if s.len() == 0 {
        0
    } else {
        spec_mix_sum(s.drop_last()) + (match s.last().1.spec_output() {
            Some(x) => x as int,
            None => 0,
        })
    }
}

/// How many voices of `s` still produce samples this tick.
pub open spec fn live_count(s: Seq<(usize, Voice)>) -> int
    decreases s.len(),
{
    if s.len() == 0 {
        0
    } else {
        live_count(s.drop_last()) + (if s.last().1.spec_output() is Some {
            1int
        } else {
            0int
        })
    }
}

/// The voices of `s` one tick later: every voice advanced, and the voices
/// whose stream ended this tick removed, keys and order kept.
pub open spec fn advance_live(s: Seq<(usize, Voice)>) -> Seq<(usize, Voice)>
    decreases s.len(),
{
    if s.len() == 0 {
        Seq::empty()
    } else {
        let rest = advance_live(s.drop_last());
        if s.last().1.spec_output() is Some {
            rest.push((s.last().0, s.last().1.spec_advanced()))
        } else {
            rest
        }
    }
}

/// Numerator of the mixer gain at `n` sounding voices.
pub open spec fn gain_num(n: int) -> int {
    if n <= AGC_VOICES {
        LINEAR_GAIN_NUM as int
    } else {
        AGC_VOICES as int
    }
}

/// Denominator of the mixer gain at `n` sounding voices: the gain is the
/// constant linear gain up to [`AGC_VOICES`] voices, and shrinks in
/// proportion to the voice count beyond that.
pub open spec fn gain_den(n: int) -> int {
    if n <= AGC_VOICES {
        LINEAR_GAIN_DEN as int
    } else {
        LINEAR_GAIN_DEN * n
    }
}

/// A sum of `n` voices scaled by the gain at `n` voices, rounded toward
/// zero.
pub open spec fn spec_gain_applied(sum: int, n: int) -> int {
    if sum >= 0 {
        (sum * gain_num(n)) / gain_den(n)
    } else {
        -(((-sum) * gain_num(n)) / gain_den(n))
    }
}

/// The sample a mixer holding the voices `s` outputs this tick.
pub open spec fn spec_mix_out(s: Seq<(usize, Voice)>) -> int {
    spec_gain_applied(spec_mix_sum(s), live_count(s))
}

/// Scales a mixed sum of `n` voice samples by the gain at `n` voices.
/// The automatic gain control keeps the result inside the 16-bit sample
/// range however large `n` grows.
pub fn apply_agc(sum: i128, n: usize) -> (out: i32)
    requires
        -32768 * (n as int) <= sum <= 32768 * (n as int),
    ensures
        out == spec_gain_applied(sum as int, n as int),
        -32768 < out < 32768,
{
    let neg = sum < 0;
    proof {
        assert((n as int) <= 0xFFFF_FFFF_FFFF_FFFF);
    }
    let mag: u128 = if neg {
        (-sum) as u128
    } else {
        sum as u128
    };
    proof {
        lemma_mag_scaled_bound(mag as int, n as int);
    }
    let q: u128 = if n <= AGC_VOICES {
        mag / (LINEAR_GAIN_DEN as u128)
    } else {
        (mag * (AGC_VOICES as u128)) / ((LINEAR_GAIN_DEN as u128) * (n as u128))
    };
    proof {
        assert(mag as int == if sum >= 0 { sum as int } else { -(sum as int) });
        if n <= AGC_VOICES {
            assert(gain_num(n as int) == 1 && gain_den(n as int) == 10);
            assert(q as int == (mag as int) / 10);
            assert((mag as int) * 1 == mag as int);
            assert(q as int == ((mag as int) * gain_num(n as int)) / gain_den(n as int));
        } else {
            assert(gain_num(n as int) == 8 && gain_den(n as int) == 10 * (n as int));
            assert(q as int == ((mag as int) * 8) / (10 * (n as int)));
            assert(q as int == ((mag as int) * gain_num(n as int)) / gain_den(n as int));
        }
    }
    if neg {
        -(q as i32)
    } else {
        q as i32
    }
}

/// A sample "mixer" that sums a keyed set of voices and scales the sum to
/// get output samples.  It behaves as an unbounded stream: with no voices
/// held it produces silence forever.
///
/// Keys are unique; adding a voice under a held key is reported as an
/// error, never silently overwritten.  Iteration order does not affect the
/// output, since addition is commutative; nothing else may rely on it.
pub struct Mixer {
    held: Vec<(usize, Voice)>,
}

impl Mixer {
    /// The held voices with their keys, in insertion order.
    pub closed spec fn spec_voices(&self) -> Seq<(usize, Voice)> {
        self.held@
    }

    /// Well-formed: keys are pairwise distinct and every voice is
    /// well-formed.
    pub open spec fn wf(&self) -> bool {
        &&& keys_distinct(self.spec_voices())
        &&& voices_wf(self.spec_voices())
    }

    /// Whether some held voice is filed under `key`.
    pub open spec fn holds_key(&self, key: usize) -> bool {
        exists|i: int|
            0 <= i < self.spec_voices().len() && (#[trigger] self.spec_voices()[i]).0 == key
    }

    /// A new mixer with no voices.
    pub fn new() -> (r: Mixer)
        ensures
            r.wf(),
            r.spec_voices().len() == 0,
    {
        Mixer { held: Vec::with_capacity(128) }
    }

    /// How many voices the mixer currently holds.
    pub fn voice_count(&self) -> (r: usize)
        ensures
            r == self.spec_voices().len(),
    {
        self.held.len()
    }

    /// Adds a voice under `key`.  Fails, leaving the mixer untouched, if
    /// the key is already held.
    pub fn add_voice(&mut self, key: usize, v: Voice) -> (r: Result<(), Error>)
        requires
            old(self).wf(),
            v.wf(),
        ensures
            final(self).wf(),
            match r {
                Ok(_) => {
                    &&& !old(self).holds_key(key)
                    &&& final(self).spec_voices() == old(self).spec_voices().push((key, v))
                },
                Err(e) => {
                    &&& e == Error::DuplicateVoiceKey
                    &&& old(self).holds_key(key)
                    &&& *final(self) == *old(self)
                },
            },
    {
        let n = self.held.len();
        let mut i: usize = 0;
        while i < n
            invariant
                i <= n,
                n == self.held@.len(),
                *self == *old(self),
                old(self).wf(),
                forall|j: int| 0 <= j < i ==> (#[trigger] self.held@[j]).0 != key,
            decreases n - i,
        {
            if self.held[i].0 == key {
                return Err(Error::DuplicateVoiceKey);
            }
            i += 1;
        }
        self.held.push((key, v));
        Ok(())
    }

    /// Adds a periodic loop voice under `key`.  Fails, leaving the mixer
    /// untouched, if the key is already held.
    pub fn add_key(&mut self, key: usize, st: Samples) -> (r: Result<(), Error>)
        requires
            old(self).wf(),
            st.wf(),
        ensures
            final(self).wf(),
            match r {
                Ok(_) => {
                    &&& !old(self).holds_key(key)
                    &&& final(self).spec_voices() == old(self).spec_voices().push(
                        (key, Voice::Periodic(st)),
                    )
                },
                Err(e) => {
                    &&& e == Error::DuplicateVoiceKey
                    &&& old(self).holds_key(key)
                    &&& *final(self) == *old(self)
                },
            },
    {
        self.add_voice(key, Voice::Periodic(st))
    }

    /// A new mixer holding the given loop voices, keyed.  Fails if two
    /// entries share a key.
    pub fn with_streams(mut streams: Vec<(usize, Samples)>) -> (r: Result<Mixer, Error>)
        requires
            forall|i: int| 0 <= i < streams@.len() ==> (#[trigger] streams@[i]).1.wf(),
        ensures
            match r {
                Ok(m) => {
                    &&& m.wf()
                    &&& !has_dup_key(streams@)
                    &&& m.spec_voices() == spec_periodic(streams@)
                },
                Err(e) => {
                    &&& e == Error::DuplicateVoiceKey
                    &&& has_dup_key(streams@)
                },
            },
    {
        let ghost streams0 = streams@;
        let mut m = Mixer::new();
        let mut dup = false;
        let ghost mut c: int = 0;
        while !dup && streams.len() > 0
            invariant
                0 <= c <= streams0.len(),
                !dup ==> streams@ == streams0.skip(c),
                dup ==> has_dup_key(streams0),
                m.wf(),
                m.spec_voices() == spec_periodic(streams0.take(c)),
                !has_dup_key(streams0.take(c)),
                forall|i: int| 0 <= i < streams0.len() ==> (#[trigger] streams0[i]).1.wf(),
            decreases streams@.len(),
        {
            proof {
                assert(streams@[0] == streams0[c]) by {
                    assert(streams0.skip(c)[0] == streams0[c]);
                }
            }
            let (k, s) = streams.remove(0);
            proof {
                assert(streams@ =~= streams0.skip(c + 1)) by {
                    assert forall|j: int| 0 <= j < streams@.len() implies #[trigger] streams@[j]
                        == streams0.skip(c + 1)[j] by {
                        assert(streams0.skip(c)[j + 1] == streams0[c + 1 + j]);
                    }
                }
            }
            let ghost mpre = m.spec_voices();
            match m.add_key(k, s) {
                Ok(_) => {
                    proof {
                        assert(streams0.take(c + 1).drop_last() =~= streams0.take(c));
                        assert forall|j: int| 0 <= j < streams0.take(c + 1).len() implies
                            #[trigger] spec_periodic(streams0.take(c + 1))[j] == (
                        streams0.take(c + 1)[j].0, Voice::Periodic(streams0.take(c + 1)[j].1)) by {}
                        assert(spec_periodic(streams0.take(c + 1)) =~= mpre.push(
                            (k, Voice::Periodic(s)),
                        ));
                        assert forall|i: int| 0 <= i < c implies (#[trigger] streams0[i]).0 != k by {
                            assert(spec_periodic(streams0.take(c))[i].0 == streams0.take(c)[i].0);
                            assert(mpre[i].0 == streams0[i].0);
                        }
                        assert(!has_dup_key(streams0.take(c + 1))) by {
                            lemma_no_dup_extend(streams0, c, k);
                        }
                        c = c + 1;
                    }
                },
                Err(_) => {
                    proof {
                        assert(m.holds_key(k));
                        let i = choose|i: int|
                            0 <= i < m.spec_voices().len() && (#[trigger] m.spec_voices()[i]).0
                                == k;
                        assert(m.spec_voices() == mpre);
                        assert(mpre[i].0 == k);
                        assert(spec_periodic(streams0.take(c))[i].0 == streams0.take(c)[i].0);
                        assert(streams0.take(c)[i].0 == streams0[i].0);
                        assert(0 <= i < c < streams0.len());
                        assert(has_dup_key(streams0)) by {
                            assert(streams0[i].0 == streams0[c].0);
                        }
                    }
                    dup = true;
                },
            }
        }
        if dup {
            return Err(Error::DuplicateVoiceKey);
        }
        proof {
            assert(streams0.take(c) =~= streams0);
        }
        Ok(m)
    }

    /// Removes the voice under `key`, if any; absent keys are a no-op.
    pub fn remove_key(&mut self, key: usize)
        requires
            old(self).wf(),
        ensures
            final(self).wf(),
            !old(self).holds_key(key) ==> *final(self) == *old(self),
            old(self).holds_key(key) ==> exists|i: int|
                {
                    &&& 0 <= i < old(self).spec_voices().len()
                    &&& (#[trigger] old(self).spec_voices()[i]).0 == key
                    &&& final(self).spec_voices() == old(self).spec_voices().remove(i)
                },
    {
        let n = self.held.len();
        let mut i: usize = 0;
        while i < n
            invariant
                i <= n,
                n == self.held@.len(),
                *self == *old(self),
                old(self).wf(),
                forall|j: int| 0 <= j < i ==> (#[trigger] self.held@[j]).0 != key,
            decreases n - i,
        {
            if self.held[i].0 == key {
                let ghost pre = self.held@;
                let _ = self.held.remove(i);
                proof {
                    assert(self.held@ == pre.remove(i as int));
                    assert forall|a: int, b: int|
                        0 <= a < b < self.held@.len() implies (#[trigger] self.held@[a]).0 != (
                    #[trigger] self.held@[b]).0 by {
                        if a < i as int {
                            if b < i as int {
                                assert(pre[a].0 != pre[b].0);
                            } else {
                                assert(pre[a].0 != pre[b + 1].0);
                            }
                        } else {
                            assert(pre[a + 1].0 != pre[b + 1].0);
                        }
                    }
                    assert forall|a: int| 0 <= a < self.held@.len() implies (
                    #[trigger] self.held@[a]).1.wf() by {
                        if a < i as int {
                            assert(pre[a].1.wf());
                        } else {
                            assert(pre[a + 1].1.wf());
                        }
                    }
                }
                return ;
            }
            i += 1;
        }
    }

    /// Removes every voice from the mixer.
    pub fn clear(&mut self)
        ensures
            final(self).wf(),
            final(self).spec_voices().len() == 0,
    {
        self.held.clear();
    }

    /// One tick of the mix: pulls one sample from every held voice, sums
    /// the samples of the voices that still sound, drops the voices whose
    /// stream ended this tick, and returns the sum scaled by the gain at
    /// the number of sounding voices.  With no voices held the output is
    /// silence, so the mixer itself never ends.
    pub fn next(&mut self) -> (out: i32)
        requires
            old(self).wf(),
        ensures
            final(self).wf(),
            out == spec_mix_out(old(self).spec_voices()),
            final(self).spec_voices() == advance_live(old(self).spec_voices()),
            -32768 < out < 32768,
    {
        let ghost held0 = self.held@;
        let total = self.held.len();
        let mut kept: Vec<(usize, Voice)> = Vec::new();
        let mut acc: i128 = 0;
        let mut live: usize = 0;
        let ghost mut c: int = 0;
        while self.held.len() > 0
            invariant
                held0.len() == total,
                0 <= c <= held0.len(),
                self.held@ == held0.skip(c),
                keys_distinct(held0),
                voices_wf(held0),
                kept@ == advance_live(held0.take(c)),
                acc == spec_mix_sum(held0.take(c)),
                live == live_count(held0.take(c)),
                live <= c,
                -32768 * (live as int) <= acc <= 32768 * (live as int),
                voices_wf(kept@),
                keys_distinct(kept@),
                forall|j: int|
                    0 <= j < kept@.len() ==> exists|mi: int|
                        0 <= mi < c && (#[trigger] kept@[j]).0 == held0[mi].0,
            decreases self.held@.len(),
        {
            proof {
                assert(self.held@[0] == held0[c]) by {
                    assert(held0.skip(c)[0] == held0[c]);
                }
            }
            let (k, mut v) = self.held.remove(0);
            proof {
                assert(self.held@ =~= held0.skip(c + 1)) by {
                    assert forall|j: int| 0 <= j < self.held@.len() implies #[trigger] self.held@[j]
                        == held0.skip(c + 1)[j] by {
                        assert(held0.skip(c)[j + 1] == held0[c + 1 + j]);
                    }
                }
                assert(held0[c].1.wf());
                assert(held0.take(c + 1).drop_last() =~= held0.take(c));
                assert(held0.take(c + 1).last() == held0[c]);
            }
            let s = v.next();
            match s {
                Some(x) => {
                    let ghost kpre = kept@;
                    acc = acc + (x as i128);
                    live = live + 1;
                    kept.push((k, v));
                    proof {
                        assert forall|a: int, b: int| 0 <= a < b < kept@.len() implies (
                        #[trigger] kept@[a]).0 != (#[trigger] kept@[b]).0 by {
                            if b < kpre.len() {
                                assert(kpre[a].0 != kpre[b].0);
                            } else {
                                let mi = choose|mi: int|
                                    0 <= mi < c && (#[trigger] kpre[a]).0 == held0[mi].0;
                                assert(held0[mi].0 != held0[c].0);
                            }
                        }
                        assert forall|j: int| 0 <= j < kept@.len() implies exists|mi: int|
                            0 <= mi < c + 1 && (#[trigger] kept@[j]).0 == held0[mi].0 by {
                            if j < kpre.len() {
                                let mi = choose|mi: int|
                                    0 <= mi < c && (#[trigger] kpre[j]).0 == held0[mi].0;
                                assert(0 <= mi < c + 1 && kept@[j].0 == held0[mi].0);
                            } else {
                                assert(kept@[j].0 == held0[c].0);
                            }
                        }
                        c = c + 1;
                    }
                },
                None => {
                    proof {
                        c = c + 1;
                    }
                },
            }
        }
        proof {
            assert(held0.take(c) =~= held0);
        }
        self.held = kept;
        apply_agc(acc, live)
    }
}

impl Default for Mixer {
    /// An empty mixer.
    fn default() -> (r: Mixer)
        ensures
            r.wf(),
            r.spec_voices().len() == 0,
    {
        Mixer::new()
    }
}

/// The mixer gain never grows with the voice count: at or below
/// [`AGC_VOICES`] voices it is the constant linear gain, and for any two
/// counts the gain at the larger count is at most the gain at the smaller,
/// compared as fractions.
pub proof fn lemma_gain_monotone(c1: int, c2: int)
    requires
        0 < c1 <= c2,
    ensures
        gain_num(c2) * gain_den(c1) <= gain_num(c1) * gain_den(c2),
        c2 <= AGC_VOICES ==> gain_num(c1) == LINEAR_GAIN_NUM && gain_den(c1) == LINEAR_GAIN_DEN
            && gain_num(c2) == LINEAR_GAIN_NUM && gain_den(c2) == LINEAR_GAIN_DEN,
{
    if c1 <= AGC_VOICES && AGC_VOICES < c2 {
        assert(8 * 10 <= 1 * (10 * c2)) by (nonlinear_arith)
            requires
                c2 > 8,
        ;
    } else if AGC_VOICES < c1 {
        assert(8 * (10 * c1) <= 8 * (10 * c2)) by (nonlinear_arith)
            requires
                c1 <= c2,
        ;
    }
}

/// Applied form of gain monotonicity: a fixed nonnegative mixed sum never
/// comes out louder when the voice count grows.
pub proof fn lemma_agc_applied_monotone(sum: int, c1: int, c2: int)
    requires
        0 <= sum,
        0 < c1 <= c2,
    ensures
        spec_gain_applied(sum, c2) <= spec_gain_applied(sum, c1),
{
    if c1 <= AGC_VOICES && AGC_VOICES < c2 {
        assert(0 < 10 * c2) by (nonlinear_arith)
            requires
                0 < c2,
        ;
        lemma_div_is_ordered_by_denominator(sum * 8, 90, 10 * c2);
        lemma_div_is_ordered(sum * 8, sum * 9, 90);
        assert(sum * 8 <= sum * 9 && sum * 9 == 9 * sum && 0 <= sum * 8) by (nonlinear_arith)
            requires
                0 <= sum,
        ;
        vstd::arithmetic::div_mod::lemma_div_denominator(9 * sum, 9, 10);
        lemma_div_multiples_vanish(sum, 9);
        assert(sum * 1 == sum) by (nonlinear_arith);
    } else if AGC_VOICES < c1 {
        assert(0 < 10 * c1 <= 10 * c2) by (nonlinear_arith)
            requires
                0 < c1 <= c2,
        ;
        assert(0 <= sum * 8) by (nonlinear_arith)
            requires
                0 <= sum,
        ;
        lemma_div_is_ordered_by_denominator(sum * 8, 10 * c1, 10 * c2);
    }
}

/// A voice that sounds the same value forever: a periodic voice over a
/// constant buffer, or the silent placeholder for the value zero.
pub open spec fn is_const_voice(v: Voice, a: i16) -> bool {
    match v {
        Voice::Periodic(s) => s.wf() && forall|i: int|
            0 <= i < s.spec_buf().len() ==> s.spec_buf()[i] == a,
        Voice::Silence => a == 0,
        Voice::OneShot(_) => false,
    }
}

/// A constant voice outputs its value this tick, and is again a constant
/// voice of the same value after the tick.
pub proof fn lemma_const_voice_output(v: Voice, a: i16)
    requires
        is_const_voice(v, a),
        v.wf(),
    ensures
        v.spec_output() == Some(a),
        v.spec_advanced().wf(),
        is_const_voice(v.spec_advanced(), a),
{
    match v {
        Voice::Periodic(s) => {
            assert((s.spec_phase() as int) < (PHASE_UNIT as int) * (s.spec_buf().len() as int))
                by (nonlinear_arith)
                requires
                    (s.spec_phase() as int) < (s.spec_buf().len() as int) * (PHASE_UNIT as int),
            ;
            lemma_multiply_divide_lt(s.spec_phase() as int, PHASE_UNIT as int, s.spec_buf().len() as int);
            vstd::arithmetic::div_mod::lemma_div_pos_is_pos(s.spec_phase() as int, PHASE_UNIT as int);
            lemma_advanced_props(s);
            let sa = s.spec_advanced();
            assert((sa.spec_phase() as int) < (PHASE_UNIT as int) * (sa.spec_buf().len() as int))
                by (nonlinear_arith)
                requires
                    (sa.spec_phase() as int) < (sa.spec_buf().len() as int) * (PHASE_UNIT as int),
            ;
        },
        _ => {},
    }
}

/// Mixer additivity: a mixer holding exactly two constant voices of values
/// `a` and `b` outputs the gain-scaled sum of the two on this tick, and
/// after the tick again holds two constant voices of the same values under
/// the same keys, so the same output recurs on every tick.
pub proof fn lemma_mixer_additivity(voices: Seq<(usize, Voice)>, a: i16, b: i16)
    requires
        voices.len() == 2,
        voices_wf(voices),
        is_const_voice(voices[0].1, a),
        is_const_voice(voices[1].1, b),
    ensures
        live_count(voices) == 2,
        spec_mix_sum(voices) == a + b,
        spec_mix_out(voices) == spec_gain_applied(a + b, 2),
        advance_live(voices).len() == 2,
        advance_live(voices)[0].0 == voices[0].0,
        advance_live(voices)[1].0 == voices[1].0,
        voices_wf(advance_live(voices)),
        is_const_voice(advance_live(voices)[0].1, a),
        is_const_voice(advance_live(voices)[1].1, b),
{
    assert(voices[0].1.wf() && voices[1].1.wf());
    lemma_const_voice_output(voices[0].1, a);
    lemma_const_voice_output(voices[1].1, b);
    let d = voices.drop_last();
    assert(d.len() == 1 && d[0] == voices[0]);
    assert(d.drop_last().len() == 0);
    assert(voices.last() == voices[1]);
    assert(d.last() == voices[0]);
    assert(spec_mix_sum(d.drop_last()) == 0);
    assert(spec_mix_sum(d) == a as int);
    assert(spec_mix_sum(voices) == a + b);
    assert(live_count(d.drop_last()) == 0);
    assert(live_count(d) == 1);
    assert(live_count(voices) == 2);
    let av = advance_live(voices);
    assert(advance_live(d.drop_last()) =~= Seq::empty());
    assert(advance_live(d) == advance_live(d.drop_last()).push((voices[0].0, voices[0].1.spec_advanced())));
    assert(av == advance_live(d).push((voices[1].0, voices[1].1.spec_advanced())));
    assert(av[0] == (voices[0].0, voices[0].1.spec_advanced()));
    assert(av[1] == (voices[1].0, voices[1].1.spec_advanced()));
    assert forall|i: int| 0 <= i < av.len() implies (#[trigger] av[i]).1.wf() by {
        if i == 0 {
            assert(av[i].1 == voices[0].1.spec_advanced());
        } else {
            assert(av[i].1 == voices[1].1.spec_advanced());
        }
    }
}

/// Two entries of `s` share a key.
pub open spec fn has_dup_key(s: Seq<(usize, Samples)>) -> bool {
    exists|i: int, j: int|
        0 <= i < j < s.len() && (#[trigger] s[i]).0 == (#[trigger] s[j]).0
}

/// The keyed streams of `s`, each wrapped as a periodic voice.
pub open spec fn spec_periodic(s: Seq<(usize, Samples)>) -> Seq<(usize, Voice)> {
    s.map_values(|p: (usize, Samples)| (p.0, Voice::Periodic(p.1)))
}

/// If the first `c` entries of `s` have distinct keys and entry `c` repeats
/// none of them, the first `c + 1` entries have distinct keys.
proof fn lemma_no_dup_extend(s: Seq<(usize, Samples)>, c: int, k: usize)
    requires
        0 <= c < s.len(),
        s[c].0 == k,
        !has_dup_key(s.take(c)),
        forall|i: int| 0 <= i < c ==> (#[trigger] s[i]).0 != k,
    ensures
        !has_dup_key(s.take(c + 1)),
{
    let t = s.take(c + 1);
    assert forall|i: int, j: int| 0 <= i < j < t.len() implies (#[trigger] t[i]).0 != (
    #[trigger] t[j]).0 by {
        if j < c {
            assert(s.take(c)[i].0 != s.take(c)[j].0);
        } else {
            assert(t[i].0 == s[i].0 && s[i].0 != k);
        }
    }
}

/// The scaled magnitude of a mixed sum is strictly inside the 16-bit
/// sample range: the gain at `n` voices caps `n` full-scale samples below
/// eight tenths of full scale.
proof fn lemma_mag_scaled_bound(mag: int, n: int)
    requires
        0 <= n,
        0 <= mag <= 32768 * n,
    ensures
        n <= AGC_VOICES ==> 0 <= mag / (LINEAR_GAIN_DEN as int) <= 26214,
        n > AGC_VOICES ==> 0 <= (mag * (AGC_VOICES as int)) / (LINEAR_GAIN_DEN * n) <= 26214,
{
    if n <= AGC_VOICES {
        lemma_div_is_ordered(mag, 32768 * AGC_VOICES as int, LINEAR_GAIN_DEN as int);
        lemma_fundamental_div_mod_converse_div(32768 * AGC_VOICES as int, LINEAR_GAIN_DEN as int, 26214, 4);
        vstd::arithmetic::div_mod::lemma_div_pos_is_pos(mag, LINEAR_GAIN_DEN as int);
    } else {
        let num = mag * (AGC_VOICES as int);
        let den = LINEAR_GAIN_DEN * n;
        assert(mag * (AGC_VOICES as int) <= 262144 * n && 0 <= mag * (AGC_VOICES as int))
            by (nonlinear_arith)
            requires
                0 <= mag <= 32768 * n,
                0 < n,
                AGC_VOICES == 8usize,
        ;
        lemma_div_is_ordered(num, 262144 * n, den);
        assert(262144 * n == 26214 * (LINEAR_GAIN_DEN * n) + 4 * n) by (nonlinear_arith)
            requires
                LINEAR_GAIN_DEN == 10i64,
        ;
        assert(0 <= 4 * n < LINEAR_GAIN_DEN * n) by (nonlinear_arith)
            requires
                0 < n,
                LINEAR_GAIN_DEN == 10i64,
        ;
        lemma_fundamental_div_mod_converse_div(262144 * n, den, 26214, 4 * n);
        vstd::arithmetic::div_mod::lemma_div_pos_is_pos(num, den);
    }
}

} // verus!
