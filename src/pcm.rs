use crate::tuner::TunerError;
use vstd::prelude::*;

verus! {

/// The value of a signed 16-bit sample stored little-endian in `lo`, `hi`.
pub open spec fn sample_of(lo: u8, hi: u8) -> int {
    let u = lo as int + 256 * (hi as int);
    if u >= 32768 {
        u - 65536
    } else {
        u
    }
}

/// The samples held by a byte buffer: one per pair of bytes.
pub open spec fn decoded(bytes: Seq<u8>) -> Seq<i16> {
    Seq::new(bytes.len() / 2, |i: int| sample_of(bytes[2 * i], bytes[2 * i + 1]) as i16)
}

/// Decoding a buffer of an even length and then the next buffer gives the
/// samples of the two buffers joined.
pub proof fn lemma_decoded_concat(a: Seq<u8>, b: Seq<u8>)
    requires
        a.len() % 2 == 0,
    ensures
        decoded(a + b) == decoded(a) + decoded(b),
{
    let ab = a + b;
    assert forall|i: int| 0 <= i < decoded(ab).len() implies decoded(ab)[i] == (decoded(a) + decoded(b))[i] by {
        if i < a.len() / 2 {
            assert(ab[2 * i] == a[2 * i] && ab[2 * i + 1] == a[2 * i + 1]);
        } else {
            let j = i - a.len() / 2;
            assert(2 * i == a.len() + 2 * j);
            assert(ab[2 * i] == b[2 * j] && ab[2 * i + 1] == b[2 * j + 1]);
        }
    }
    assert(decoded(ab) =~= decoded(a) + decoded(b));
}

/// Decodes one little-endian 16-bit sample.
pub fn sample_from_bytes(lo: u8, hi: u8) -> (r: i16)
    ensures
        r as int == sample_of(lo, hi),
{
    let u: u32 = lo as u32 + 256 * (hi as u32);
    if u >= 32768 {
        (u as i32 - 65536) as i16
    } else {
        u as i16
    }
}

/// Converts a byte buffer of 16-bit PCM into its samples, one per pair of
/// bytes. A buffer of an odd length cannot be split into samples and is
/// refused.
pub fn audio_buffer_to_signal(bytes: &[u8]) -> (r: Result<Vec<i16>, TunerError>)
    ensures
        bytes@.len() % 2 == 1 <==> r is Err,
        r is Err ==> r == Err::<Vec<i16>, TunerError>(TunerError::OddBufferLength),
        r matches Ok(samples) ==> samples@ == decoded(bytes@),
{
    let len: usize = bytes.len();
    if len % 2 != 0 {
        return Err(TunerError::OddBufferLength);
    }
    let n: usize = len / 2;
    let mut out: Vec<i16> = Vec::with_capacity(n);
    let mut i: usize = 0;
    while i < n
        invariant
            len == bytes@.len(),
            n == len / 2,
            i <= n,
            out@ =~= decoded(bytes@).subrange(0, i as int),
        decreases n - i,
    {
        assert(2 * i + 1 < bytes@.len());
        let s = sample_from_bytes(bytes[2 * i], bytes[2 * i + 1]);
        out.push(s);
        i = i + 1;
    }
    assert(out@ =~= decoded(bytes@));
    Ok(out)
}

} // verus!
