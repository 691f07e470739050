use crate::frame::{
    frames_in, lemma_full_frame, lemma_oversized_chunk, lemma_split_feed, leftover, one_shot, FrameBuffer,
};
use vstd::arithmetic::div_mod::lemma_fundamental_div_mod_converse;
use crate::pcm::{audio_buffer_to_signal, decoded, lemma_decoded_concat};
use vstd::prelude::*;

verus! {

/// The fundamental-frequency algorithms a tuner can run.
#[derive(Clone, Copy, Debug, PartialEq, Eq, Structural)]
pub enum Detector {
    RawFftDetector,
    PowerCepstrum,
    ComplexCepstrum,
    AutocorrelationDetector,
    MarcoDetector,
}

/// Errors a caller can correct.
#[derive(Clone, Copy, Debug, PartialEq, Eq, Structural)]
pub enum TunerError {
    /// The algorithm name is none of the recognised ones.
    UnknownAlgorithm,
    /// An operation was asked of a tuner that does not exist yet.
    TunerNotInitialized,
    /// A PCM buffer of an odd number of bytes.
    OddBufferLength,
}

pub const RAW_FFT_ALGORITHM: &'static str = "rawfft";

pub const POWER_CEPSTRUM_ALGORITHM: &'static str = "power";

pub const COMPLEX_CEPSTRUM_ALGORITHM: &'static str = "complex";

pub const AUTOCORRELATION_ALGORITHM: &'static str = "autocorrelation";

pub const MARCO_ALGORITHM: &'static str = "marco";

/// The detector that an algorithm name selects, if any.
pub open spec fn detector_named(name: Seq<char>) -> Option<Detector> {
    if name == "rawfft"@ {
        Some(Detector::RawFftDetector)
    } else if name == "power"@ {
        Some(Detector::PowerCepstrum)
    } else if name == "complex"@ {
        Some(Detector::ComplexCepstrum)
    } else if name == "autocorrelation"@ {
        Some(Detector::AutocorrelationDetector)
    } else if name == "marco"@ {
        Some(Detector::MarcoDetector)
    } else {
        None
    }
}

/// Character-wise equality of two strings.
fn same_text(a: &str, b: &str) -> (r: bool)
    ensures
        r == (a@ == b@),
{
    let n = a.unicode_len();
    if n != b.unicode_len() {
        return false;
    }
    let mut i: usize = 0;
    while i < n
        invariant
            n == a@.len(),
            n == b@.len(),
            i <= n,
            a@.subrange(0, i as int) == b@.subrange(0, i as int),
        decreases n - i,
    {
        if a.get_char(i) != b.get_char(i) {
            return false;
        }
        assert(a@.subrange(0, i + 1) =~= a@.subrange(0, i as int).push(a@[i as int]));
        assert(b@.subrange(0, i + 1) =~= b@.subrange(0, i as int).push(b@[i as int]));
        i = i + 1;
    }
    assert(a@ =~= a@.subrange(0, n as int));
    assert(b@ =~= b@.subrange(0, n as int));
    true
}

/// Selects the detector for an algorithm name.
pub fn detector_for(algorithm: &str) -> (r: Result<Detector, TunerError>)
    ensures
        match detector_named(algorithm@) {
            Some(d) => r == Ok::<Detector, TunerError>(d),
            None => r == Err::<Detector, TunerError>(TunerError::UnknownAlgorithm),
        },
{
    if same_text(algorithm, RAW_FFT_ALGORITHM) {
        Ok(Detector::RawFftDetector)
    } else if same_text(algorithm, POWER_CEPSTRUM_ALGORITHM) {
        Ok(Detector::PowerCepstrum)
    } else if same_text(algorithm, COMPLEX_CEPSTRUM_ALGORITHM) {
        Ok(Detector::ComplexCepstrum)
    } else if same_text(algorithm, AUTOCORRELATION_ALGORITHM) {
        Ok(Detector::AutocorrelationDetector)
    } else if same_text(algorithm, MARCO_ALGORITHM) {
        Ok(Detector::MarcoDetector)
    } else {
        Err(TunerError::UnknownAlgorithm)
    }
}

/// The streaming pitch-detection engine: the active detector, the sample
/// rate it analyses at, and the frame being filled.
pub struct Tuner {
    detector: Detector,
    sample_rate: u32,
    frame: FrameBuffer,
}

impl Tuner {
    pub closed spec fn wf(&self) -> bool {
        self.frame.wf() && self.sample_rate > 0
    }

    /// The active detector.
    pub closed spec fn algorithm(&self) -> Detector {
        self.detector
    }

    /// Samples per second of the incoming audio.
    pub closed spec fn rate(&self) -> nat {
        self.sample_rate as nat
    }

    /// Samples per analysis frame.
    pub closed spec fn cap(&self) -> nat {
        self.frame.cap()
    }

    /// Samples received since the last complete frame.
    pub closed spec fn pending(&self) -> Seq<i16> {
        self.frame.pending()
    }

    /// The same tuner running `d` instead of its detector.
    pub closed spec fn with_algorithm(self, d: Detector) -> Tuner {
        Tuner { detector: d, ..self }
    }

    /// The frames that ingesting `bytes` completes.
    pub open spec fn frames_for(&self, bytes: Seq<u8>) -> Seq<Seq<i16>> {
        frames_in(self.pending() + decoded(bytes), self.cap())
    }

    /// A well-formed tuner has a positive frame size and sample rate, and
    /// holds fewer samples than a frame.
    pub proof fn lemma_wf_bounds(&self)
        requires
            self.wf(),
        ensures
            self.cap() > 0,
            self.rate() > 0,
            self.pending().len() < self.cap(),
    {
        self.frame.lemma_wf_bounds();
    }

    /// A tuner running `algorithm` on frames of `num_samples` samples taken
    /// at `sample_rate`, with nothing buffered yet.
    pub fn new(algorithm: &str, num_samples: usize, sample_rate: u32) -> (r: Result<
        Tuner,
        TunerError,
    >)
        requires
            num_samples > 0,
            sample_rate > 0,
        ensures
            detector_named(algorithm@) is None ==> r == Err::<Tuner, TunerError>(
                TunerError::UnknownAlgorithm,
            ),
            detector_named(algorithm@) is Some ==> r is Ok,
            r matches Ok(t) ==> {
                &&& t.wf()
                &&& Some(t.algorithm()) == detector_named(algorithm@)
                &&& t.cap() == num_samples
                &&& t.rate() == sample_rate
                &&& t.pending() == Seq::<i16>::empty()
            },
    {
        match detector_for(algorithm) {
            Ok(d) => Ok(Tuner { detector: d, sample_rate, frame: FrameBuffer::new(num_samples) }),
            Err(e) => Err(e),
        }
    }

    pub fn detector(&self) -> (r: Detector)
        ensures
            r == self.algorithm(),
    {
        self.detector
    }

    pub fn sample_rate(&self) -> (r: u32)
        requires
            self.wf(),
        ensures
            r == self.rate(),
            r > 0,
    {
        self.sample_rate
    }

    pub fn capacity(&self) -> (r: usize)
        requires
            self.wf(),
        ensures
            r == self.cap(),
            r > 0,
    {
        proof {
            self.frame.lemma_wf_bounds();
        }
        self.frame.capacity()
    }

    /// How many samples the current frame still lacks.
    pub fn remaining_capacity(&self) -> (r: usize)
        requires
            self.wf(),
        ensures
            r == self.cap() - self.pending().len(),
            0 < r <= self.cap(),
    {
        self.frame.remaining_capacity()
    }

    /// The samples buffered towards the next frame.
    pub fn buffered(&self) -> (r: Vec<i16>)
        requires
            self.wf(),
        ensures
            r@ == self.pending(),
    {
        self.frame.buffered()
    }

    /// Switches to the detector that `algorithm` names; the buffered samples
    /// stay. An unknown name changes nothing.
    pub fn set_algorithm(&mut self, algorithm: &str) -> (r: Result<(), TunerError>)
        ensures
            match detector_named(algorithm@) {
                Some(d) => r is Ok && *final(self) == old(self).with_algorithm(d),
                None => r == Err::<(), TunerError>(TunerError::UnknownAlgorithm) && *final(self)
                    == *old(self),
            },
    {
        match detector_for(algorithm) {
            Ok(d) => {
                self.detector = d;
                Ok(())
            },
            Err(e) => Err(e),
        }
    }

    /// Drops the buffered samples.
    pub fn reset(&mut self)
        requires
            old(self).wf(),
        ensures
            final(self).wf(),
            final(self).pending() == Seq::<i16>::empty(),
            final(self).cap() == old(self).cap(),
            final(self).algorithm() == old(self).algorithm(),
            final(self).rate() == old(self).rate(),
    {
        self.frame.reset();
    }

    /// Feeds a buffer of 16-bit little-endian PCM and returns the frames it
    /// completes, each ready for the active detector, oldest first. A buffer
    /// of an odd length is refused and changes nothing.
    pub fn ingest(&mut self, bytes: &[u8]) -> (r: Result<Vec<Vec<i16>>, TunerError>)
        requires
            old(self).wf(),
        ensures
            bytes@.len() % 2 == 1 <==> r is Err,
            r is Err ==> r == Err::<Vec<Vec<i16>>, TunerError>(TunerError::OddBufferLength)
                && *final(self) == *old(self),
            r matches Ok(frames) ==> {
                &&& final(self).wf()
                &&& frames.deep_view() == old(self).frames_for(bytes@)
                &&& final(self).pending() == leftover(
                    old(self).pending() + decoded(bytes@),
                    old(self).cap(),
                )
                &&& frames@.len() == (old(self).pending().len() + bytes@.len() / 2) / old(
                    self,
                ).cap()
                &&& final(self).pending().len() == (old(self).pending().len() + bytes@.len() / 2)
                    % old(self).cap()
                &&& final(self).cap() == old(self).cap()
                &&& final(self).algorithm() == old(self).algorithm()
                &&& final(self).rate() == old(self).rate()
            },
    {
        proof {
            self.frame.lemma_wf_bounds();
            lemma_oversized_chunk(self.pending() + decoded(bytes@), self.cap());
        }
        let samples = match audio_buffer_to_signal(bytes) {
            Ok(samples) => samples,
            Err(e) => return Err(e),
        };
        let frames = self.frame.push_samples(samples.as_slice());
        Ok(frames)
    }

    /// The frame a one-shot detection analyses: the buffer's samples cut or
    /// zero-padded to the frame size. The buffered samples are not touched.
    pub fn one_shot_frame(&self, bytes: &[u8]) -> (r: Result<Vec<i16>, TunerError>)
        requires
            self.wf(),
        ensures
            bytes@.len() % 2 == 1 <==> r is Err,
            r is Err ==> r == Err::<Vec<i16>, TunerError>(TunerError::OddBufferLength),
            r matches Ok(f) ==> f@ == one_shot(decoded(bytes@), self.cap()),
    {
        let samples = match audio_buffer_to_signal(bytes) {
            Ok(samples) => samples,
            Err(e) => return Err(e),
        };
        let cap = self.frame.capacity();
        let mut f: Vec<i16> = Vec::with_capacity(cap);
        let mut i: usize = 0;
        while i < cap
            invariant
                cap == self.cap(),
                i <= cap,
                samples@ == decoded(bytes@),
                f@ =~= one_shot(samples@, cap as nat).subrange(0, i as int),
            decreases cap - i,
        {
            if i < samples.len() {
                f.push(samples[i]);
            } else {
                f.push(0);
            }
            i = i + 1;
        }
        assert(f@ =~= one_shot(samples@, cap as nat));
        Ok(f)
    }
}

/// Changes the algorithm of the tuner held in `slot`; without a tuner there
/// is nothing to change.
pub fn tuner_change_algorithm(slot: &mut Option<Tuner>, algorithm: &str) -> (r: Result<
    (),
    TunerError,
>)
    ensures
        *old(slot) is None ==> r == Err::<(), TunerError>(TunerError::TunerNotInitialized)
            && *final(slot) == *old(slot),
        *old(slot) matches Some(t) ==> match detector_named(algorithm@) {
            Some(d) => r is Ok && *final(slot) == Some(t.with_algorithm(d)),
            None => r == Err::<(), TunerError>(TunerError::UnknownAlgorithm) && *final(slot)
                == *old(slot),
        },
{
    match slot {
        Some(t) => t.set_algorithm(algorithm),
        None => Err(TunerError::TunerNotInitialized),
    }
}

/// `tuner_change_algorithm` for an owned algorithm name.
pub fn change_algorithm(slot: &mut Option<Tuner>, algorithm: String) -> (r: Result<
    (),
    TunerError,
>)
    ensures
        *old(slot) is None ==> r == Err::<(), TunerError>(TunerError::TunerNotInitialized)
            && *final(slot) == *old(slot),
        *old(slot) matches Some(t) ==> match detector_named(algorithm@) {
            Some(d) => r is Ok && *final(slot) == Some(t.with_algorithm(d)),
            None => r == Err::<(), TunerError>(TunerError::UnknownAlgorithm) && *final(slot)
                == *old(slot),
        },
{
    tuner_change_algorithm(slot, algorithm.as_str())
}

/// Switching the detector keeps the buffered samples, so a later buffer
/// completes the same frames as without the switch, and the new detector
/// analyses them.
pub proof fn lemma_switch_keeps_frames(t: Tuner, d: Detector, bytes: Seq<u8>)
    ensures
        t.with_algorithm(d).algorithm() == d,
        t.with_algorithm(d).frames_for(bytes) == t.frames_for(bytes),
        t.with_algorithm(d).pending() == t.pending(),
        t.with_algorithm(d).cap() == t.cap(),
        t.with_algorithm(d).rate() == t.rate(),
        t.wf() ==> t.with_algorithm(d).wf(),
{
}

/// Ingesting `a` into `t` and then `b` into the tuner `u` that the first
/// call leaves emits the same frames, and leaves the same samples
/// buffered, as ingesting `a + b` into `t` in one call.
pub proof fn lemma_ingest_split(t: Tuner, u: Tuner, a: Seq<u8>, b: Seq<u8>)
    requires
        t.wf(),
        a.len() % 2 == 0,
        u.cap() == t.cap(),
        u.pending() == leftover(t.pending() + decoded(a), t.cap()),
    ensures
        t.frames_for(a) + u.frames_for(b) == t.frames_for(a + b),
        leftover(u.pending() + decoded(b), u.cap()) == leftover(
            t.pending() + decoded(a + b),
            t.cap(),
        ),
{
    t.lemma_wf_bounds();
    lemma_decoded_concat(a, b);
    lemma_split_feed(t.pending(), decoded(a), decoded(b), t.cap());
    assert(t.pending() + decoded(a + b) =~= t.pending() + decoded(a) + decoded(b));
}

/// A frame's worth of bytes fed in two calls, the first (`a`, all earlier
/// chunks together) short of a frame, to a tuner with nothing buffered:
/// the first call emits nothing, the second emits exactly the frame, which
/// is also what a one-shot detection of the same bytes analyses, and
/// nothing stays buffered.
pub proof fn lemma_chunked_ingest(t: Tuner, u: Tuner, a: Seq<u8>, b: Seq<u8>)
    requires
        t.wf(),
        t.pending() == Seq::<i16>::empty(),
        a.len() % 2 == 0,
        a.len() < 2 * t.cap(),
        a.len() + b.len() == 2 * t.cap(),
        u.cap() == t.cap(),
        u.pending() == leftover(t.pending() + decoded(a), t.cap()),
    ensures
        t.frames_for(a) == Seq::<Seq<i16>>::empty(),
        u.frames_for(b) == seq![decoded(a + b)],
        leftover(u.pending() + decoded(b), u.cap()) == Seq::<i16>::empty(),
        one_shot(decoded(a + b), t.cap()) == decoded(a + b),
{
    t.lemma_wf_bounds();
    let cap = t.cap();
    let da = decoded(a);
    assert(t.pending() + da =~= da);
    lemma_fundamental_div_mod_converse(da.len() as int, cap as int, 0, da.len() as int);
    assert(frames_in(da, cap) =~= Seq::<Seq<i16>>::empty());
    lemma_ingest_split(t, u, a, b);
    let f = decoded(a + b);
    assert(t.pending() + f =~= f);
    lemma_full_frame(f, cap);
    assert(t.frames_for(a) + u.frames_for(b) =~= u.frames_for(b));
    assert(one_shot(f, cap) =~= f);
}

/// A tuner with nothing buffered that switches to `d` emits, for any bytes,
/// the same frames as a fresh tuner built for `d` with the same frame size,
/// and hands them to the same detector.
pub proof fn lemma_switch_like_fresh(t: Tuner, fresh: Tuner, d: Detector, bytes: Seq<u8>)
    requires
        t.pending() == Seq::<i16>::empty(),
        fresh.pending() == Seq::<i16>::empty(),
        fresh.cap() == t.cap(),
        fresh.algorithm() == d,
    ensures
        t.with_algorithm(d).algorithm() == fresh.algorithm(),
        t.with_algorithm(d).frames_for(bytes) == fresh.frames_for(bytes),
{
}

} // verus!
