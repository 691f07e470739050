use vstd::arithmetic::div_mod::{lemma_div_is_ordered, lemma_fundamental_div_mod, lemma_mod_pos_bound};
use vstd::prelude::*;

verus! {

/// Lowest fundamental searched for, in tenths of a hertz (A0, 27.5 Hz).
pub const MIN_FREQ_DECIHERTZ: u64 = 275;

/// Highest fundamental searched for, in tenths of a hertz (C8, 4186 Hz).
pub const MAX_FREQ_DECIHERTZ: u64 = 41860;

/// `p / q` rounded to the nearest integer, halves away from zero, for
/// `p >= 0` and `q > 0`.
pub open spec fn round_div(p: int, q: int) -> int {
    (2 * p + q) / (2 * q)
}

pub open spec fn min_of(a: int, b: int) -> int {
    if a <= b {
        a
    } else {
        b
    }
}

/// The cepstral or autocorrelation lags searched, as a half-open index
/// range into a sequence of `len` values: from the period of the highest
/// frequency, `sample_rate / MAX_FREQ`, to that of the lowest,
/// `sample_rate / MIN_FREQ`, each rounded, cut to the sequence.
pub fn quefrency_range(sample_rate: u32, len: usize) -> (r: (usize, usize))
    ensures
        r.0 == min_of(round_div(10 * sample_rate, MAX_FREQ_DECIHERTZ as int), len as int),
        r.1 == min_of(round_div(10 * sample_rate, MIN_FREQ_DECIHERTZ as int), len as int),
        r.0 <= r.1 <= len,
{
    let a: u128 = 10 * (sample_rate as u128);
    let lo: u128 = (2 * a + 41860) / (2 * 41860);
    let hi: u128 = (2 * a + 275) / (2 * 275);
    proof {
        let ai = a as int;
        lemma_fundamental_div_mod(2 * ai + 41860, 83720);
        lemma_mod_pos_bound(2 * ai + 41860, 83720);
        lemma_fundamental_div_mod(2 * ai + 275, 550);
        lemma_mod_pos_bound(2 * ai + 275, 550);
    }
    let n: u128 = len as u128;
    let l = if lo < n {
        lo as usize
    } else {
        len
    };
    let h = if hi < n {
        hi as usize
    } else {
        len
    };
    (l, h)
}

/// The FFT bins searched in a spectrum of `fft_len` bins taken at
/// `sample_rate`: bin `k` stands for `k * sample_rate / fft_len` hertz, and
/// the range runs from MIN_FREQ to MAX_FREQ, each bin index rounded, cut to
/// the spectrum.
pub fn bin_range(sample_rate: u32, fft_len: usize) -> (r: (usize, usize))
    requires
        sample_rate > 0,
    ensures
        r.0 == min_of(
            round_div(MIN_FREQ_DECIHERTZ * fft_len, 10 * sample_rate),
            fft_len as int,
        ),
        r.1 == min_of(
            round_div(MAX_FREQ_DECIHERTZ * fft_len, 10 * sample_rate),
            fft_len as int,
        ),
        r.0 <= r.1 <= fft_len,
{
    let n: u128 = fft_len as u128;
    let d: u128 = 10 * (sample_rate as u128);
    let lo: u128 = (2 * (275 * n) + d) / (2 * d);
    let hi: u128 = (2 * (41860 * n) + d) / (2 * d);
    proof {
        lemma_div_is_ordered(
            2 * (275 * n as int) + d as int,
            2 * (41860 * n as int) + d as int,
            2 * d as int,
        );
    }
    let l = if lo < n {
        lo as usize
    } else {
        fft_len
    };
    let h = if hi < n {
        hi as usize
    } else {
        fft_len
    };
    (l, h)
}

} // verus!
