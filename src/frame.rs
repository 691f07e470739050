use vstd::arithmetic::div_mod::lemma_fundamental_div_mod_converse;
use vstd::prelude::*;

verus! {

/// The complete frames that the samples `all` fill, in order, for frames
/// of `cap` samples.
pub open spec fn frames_in(all: Seq<i16>, cap: nat) -> Seq<Seq<i16>> {
    Seq::new(all.len() / cap, |i: int| all.subrange(i * cap, i * cap + cap))
}

/// What is left of `all` after its complete frames of `cap` samples.
pub open spec fn leftover(all: Seq<i16>, cap: nat) -> Seq<i16> {
    all.subrange(((all.len() / cap) * cap) as int, all.len() as int)
}

/// The frames emitted, and the samples left pending, when the chunks are
/// fed one after another to a buffer that holds `pending`.
pub open spec fn stream(pending: Seq<i16>, chunks: Seq<Seq<i16>>, cap: nat) -> (Seq<Seq<i16>>, Seq<i16>)
    decreases chunks.len(),
{
    if chunks.len() == 0 {
        (Seq::empty(), pending)
    } else {
        let all = pending + chunks[0];
        let rest = stream(leftover(all, cap), chunks.drop_first(), cap);
        (frames_in(all, cap) + rest.0, rest.1)
    }
}

/// The frame that a one-shot detection analyses: `samples` cut or padded
/// with zeros to `cap` samples.
pub open spec fn one_shot(samples: Seq<i16>, cap: nat) -> Seq<i16> {
    Seq::new(cap, |i: int| if i < samples.len() { samples[i] } else { 0i16 })
}

/// Feeding `a` and then `b` emits the same frames, and leaves the same
/// samples pending, as feeding `a + b` at once.
pub proof fn lemma_split_feed(pending: Seq<i16>, a: Seq<i16>, b: Seq<i16>, cap: nat)
    requires
        cap > 0,
    ensures
        frames_in(pending + a, cap) + frames_in(leftover(pending + a, cap) + b, cap)
            == frames_in(pending + a + b, cap),
        leftover(leftover(pending + a, cap) + b, cap) == leftover(pending + a + b, cap),
{
    let x = pending + a;
    let z = pending + a + b;
    let k1 = x.len() / cap;
    let y = leftover(x, cap) + b;
    let c = cap as int;
    vstd::arithmetic::div_mod::lemma_fundamental_div_mod(x.len() as int, c);
    assert(k1 * c <= x.len()) by {
        vstd::arithmetic::div_mod::lemma_mod_pos_bound(x.len() as int, c);
    }
    assert(y =~= z.subrange(k1 * c, z.len() as int));
    let k2 = y.len() / cap;
    let r2 = y.len() % cap;
    vstd::arithmetic::div_mod::lemma_fundamental_div_mod(y.len() as int, c);
    vstd::arithmetic::div_mod::lemma_mod_pos_bound(y.len() as int, c);
    assert(z.len() == (k1 + k2) * c + r2) by (nonlinear_arith)
        requires
            z.len() == y.len() + k1 * c,
            y.len() == k2 * c + r2,
    ;
    lemma_fundamental_div_mod_converse(z.len() as int, c, (k1 + k2) as int, r2 as int);
    let lhs = frames_in(x, cap) + frames_in(y, cap);
    let rhs = frames_in(z, cap);
    assert forall|i: int| 0 <= i < rhs.len() implies lhs[i] == rhs[i] by {
        if i < k1 {
            assert(i * c + c <= k1 * c) by (nonlinear_arith)
                requires
                    i < k1,
                    c > 0,
            ;
            assert(0 <= i * c) by (nonlinear_arith)
                requires
                    0 <= i,
                    c > 0,
            ;
            assert(lhs[i] =~= rhs[i]);
        } else {
            let j = i - k1;
            assert(i * c == k1 * c + j * c) by (nonlinear_arith)
                requires
                    j == i - k1,
            ;
            assert(j * c + c <= k2 * c) by (nonlinear_arith)
                requires
                    j < k2,
                    c > 0,
            ;
            assert(0 <= j * c) by (nonlinear_arith)
                requires
                    0 <= j,
                    c > 0,
            ;
            assert(lhs[i] =~= rhs[i]);
        }
    }
    assert(lhs =~= rhs);
    assert((k1 + k2) * c == k1 * c + k2 * c) by (nonlinear_arith);
    assert(leftover(y, cap) =~= leftover(z, cap));
}

/// Feeding chunks one by one emits the frames of their concatenation and
/// leaves its tail pending, whatever the chunk sizes.
pub proof fn lemma_stream_is_concatenation(pending: Seq<i16>, chunks: Seq<Seq<i16>>, cap: nat)
    requires
        cap > 0,
        pending.len() < cap,
    ensures
        stream(pending, chunks, cap).0 == frames_in(pending + chunks.flatten(), cap),
        stream(pending, chunks, cap).1 == leftover(pending + chunks.flatten(), cap),
    decreases chunks.len(),
{
    if chunks.len() == 0 {
        assert(pending + chunks.flatten() =~= pending);
        let c = cap as int;
        lemma_fundamental_div_mod_converse(pending.len() as int, c, 0, pending.len() as int);
        assert(frames_in(pending, cap) =~= Seq::<Seq<i16>>::empty());
        assert(leftover(pending, cap) =~= pending);
    } else {
        let all = pending + chunks[0];
        lemma_oversized_chunk(all, cap);
        lemma_stream_is_concatenation(leftover(all, cap), chunks.drop_first(), cap);
        lemma_split_feed(pending, chunks[0], chunks.drop_first().flatten(), cap);
        assert(pending + chunks.flatten() =~= pending + chunks[0] + chunks.drop_first().flatten());
    }
}

/// Chunks that together make up exactly one frame, fed to an empty buffer,
/// emit exactly that frame, which is also what a one-shot detection of the
/// same samples analyses, and leave the buffer empty.
pub proof fn lemma_chunked_frame_once(chunks: Seq<Seq<i16>>, cap: nat)
    requires
        cap > 0,
        chunks.flatten().len() == cap,
    ensures
        stream(Seq::empty(), chunks, cap).0 == seq![chunks.flatten()],
        stream(Seq::empty(), chunks, cap).1 == Seq::<i16>::empty(),
        one_shot(chunks.flatten(), cap) == chunks.flatten(),
{
    lemma_stream_is_concatenation(Seq::empty(), chunks, cap);
    let f = chunks.flatten();
    assert(Seq::<i16>::empty() + f =~= f);
    lemma_full_frame(f, cap);
    assert(one_shot(f, cap) =~= f);
}

/// Chunks that together fall short of a frame emit nothing and stay
/// pending, so a frame is emitted only once enough samples have arrived.
pub proof fn lemma_short_feed_emits_nothing(chunks: Seq<Seq<i16>>, cap: nat)
    requires
        chunks.flatten().len() < cap,
    ensures
        stream(Seq::empty(), chunks, cap).0 == Seq::<Seq<i16>>::empty(),
        stream(Seq::empty(), chunks, cap).1 == chunks.flatten(),
{
    lemma_stream_is_concatenation(Seq::empty(), chunks, cap);
    let f = chunks.flatten();
    assert(Seq::<i16>::empty() + f =~= f);
    lemma_fundamental_div_mod_converse(f.len() as int, cap as int, 0, f.len() as int);
    assert(frames_in(f, cap) =~= Seq::<Seq<i16>>::empty());
    assert(leftover(f, cap) =~= f);
}

/// A full frame fed to an empty buffer is emitted as it is and leaves the
/// buffer empty, so feeding it again emits the same frame again.
pub proof fn lemma_full_frame(frame: Seq<i16>, cap: nat)
    requires
        cap > 0,
        frame.len() == cap,
    ensures
        frames_in(frame, cap) == seq![frame],
        leftover(frame, cap) == Seq::<i16>::empty(),
        frames_in(leftover(frame, cap) + frame, cap) == seq![frame],
{
    vstd::arithmetic::div_mod::lemma_div_basics(cap as int);
    assert(frames_in(frame, cap)[0] =~= frame);
    assert(frames_in(frame, cap) =~= seq![frame]);
    assert(leftover(frame, cap) =~= Seq::<i16>::empty());
    assert(leftover(frame, cap) + frame =~= frame);
}

/// A chunk fed to an empty buffer emits one frame per whole frame it holds
/// and leaves the rest pending.
pub proof fn lemma_oversized_chunk(samples: Seq<i16>, cap: nat)
    requires
        cap > 0,
    ensures
        frames_in(samples, cap).len() == samples.len() / cap,
        leftover(samples, cap).len() == samples.len() % cap,
        leftover(samples, cap) == samples.subrange(samples.len() - samples.len() % cap, samples.len() as int),
{
    let c = cap as int;
    vstd::arithmetic::div_mod::lemma_fundamental_div_mod(samples.len() as int, c);
    vstd::arithmetic::div_mod::lemma_mod_pos_bound(samples.len() as int, c);
}

/// A buffer of fixed capacity that collects samples into analysis frames.
/// The slots past the filled prefix are always zero.
pub struct FrameBuffer {
    samples: Vec<i16>,
    remaining: usize,
}

/// A vector of `n` zero samples.
fn zeroed(n: usize) -> (r: Vec<i16>)
    ensures
        r@ == Seq::new(n as nat, |i: int| 0i16),
{
    let mut r: Vec<i16> = Vec::with_capacity(n);
    let mut i: usize = 0;
    while i < n
        invariant
            i <= n,
            r@ =~= Seq::new(i as nat, |j: int| 0i16),
        decreases n - i,
    {
        r.push(0);
        i = i + 1;
    }
    r
}

impl FrameBuffer {
    /// Number of samples in a complete frame.
    pub closed spec fn cap(&self) -> nat {
        self.samples@.len()
    }

    /// The samples collected since the last complete frame.
    pub closed spec fn pending(&self) -> Seq<i16> {
        self.samples@.subrange(0, self.samples@.len() - self.remaining)
    }

    pub closed spec fn wf(&self) -> bool {
        &&& self.samples@.len() > 0
        &&& 0 < self.remaining <= self.samples@.len()
        &&& forall|i: int|
            self.samples@.len() - self.remaining <= i < self.samples@.len() ==> self.samples@[i]
                == 0
    }

    /// A well-formed buffer has room for at least one sample and holds
    /// fewer samples than a frame.
    pub proof fn lemma_wf_bounds(&self)
        requires
            self.wf(),
        ensures
            self.cap() > 0,
            self.pending().len() < self.cap(),
    {
    }

    /// An empty buffer for frames of `capacity` samples.
    pub fn new(capacity: usize) -> (r: FrameBuffer)
        requires
            capacity > 0,
        ensures
            r.wf(),
            r.cap() == capacity,
            r.pending() == Seq::<i16>::empty(),
    {
        let r = FrameBuffer { samples: zeroed(capacity), remaining: capacity };
        assert(r.pending() =~= Seq::<i16>::empty());
        r
    }

    pub fn capacity(&self) -> (r: usize)
        requires
            self.wf(),
        ensures
            r == self.cap(),
    {
        self.samples.len()
    }

    /// How many samples the current frame still lacks.
    pub fn remaining_capacity(&self) -> (r: usize)
        requires
            self.wf(),
        ensures
            r == self.cap() - self.pending().len(),
            0 < r <= self.cap(),
    {
        self.remaining
    }

    /// The pending samples, in order.
    pub fn buffered(&self) -> (r: Vec<i16>)
        requires
            self.wf(),
        ensures
            r@ == self.pending(),
    {
        let n: usize = self.samples.len() - self.remaining;
        let mut r: Vec<i16> = Vec::with_capacity(n);
        let mut i: usize = 0;
        while i < n
            invariant
                n == self.samples@.len() - self.remaining,
                i <= n,
                r@ =~= self.samples@.subrange(0, i as int),
            decreases n - i,
        {
            r.push(self.samples[i]);
            i = i + 1;
        }
        r
    }

    /// Drops the pending samples and zeroes the buffer.
    pub fn reset(&mut self)
        requires
            old(self).wf(),
        ensures
            final(self).wf(),
            final(self).cap() == old(self).cap(),
            final(self).pending() == Seq::<i16>::empty(),
    {
        let cap = self.samples.len();
        self.samples = zeroed(cap);
        self.remaining = cap;
        assert(self.pending() =~= Seq::<i16>::empty());
    }

    /// Appends `input` to the pending samples and hands out every frame that
    /// becomes complete, oldest first; a frame is emitted as soon as its
    /// last sample arrives, and what follows it starts the next frame.
    pub fn push_samples(&mut self, input: &[i16]) -> (frames: Vec<Vec<i16>>)
        requires
            old(self).wf(),
        ensures
            final(self).wf(),
            final(self).cap() == old(self).cap(),
            frames.deep_view() == frames_in(old(self).pending() + input@, old(self).cap()),
            final(self).pending() == leftover(old(self).pending() + input@, old(self).cap()),
    {
        let cap = self.samples.len();
        let ghost all = self.pending() + input@;
        let ghost start_len = self.pending().len();
        let mut frames: Vec<Vec<i16>> = Vec::new();
        let mut pos: usize = 0;
        assert(self.pending() == all.subrange(0, start_len as int));
        assert(frames@.len() == 0);
        assert(frames@.len() * cap == 0) by (nonlinear_arith)
            requires
                frames@.len() == 0,
        ;
        while pos < input.len()
            invariant
                self.wf(),
                self.cap() == cap,
                all == old(self).pending() + input@,
                start_len == old(self).pending().len(),
                pos <= input@.len(),
                frames@.len() * cap + self.pending().len() == start_len + pos,
                self.pending() == all.subrange(frames@.len() * cap, start_len + pos),
                forall|i: int|
                    0 <= i < frames@.len() ==> #[trigger] frames@[i]@ == all.subrange(
                        i * cap,
                        i * cap + cap,
                    ),
            decreases input@.len() - pos,
        {
            let fill = cap - self.remaining;
            self.samples[fill] = input[pos];
            self.remaining = self.remaining - 1;
            pos = pos + 1;
            assert(self.pending() =~= all.subrange(frames@.len() * cap, start_len + pos));
            if self.remaining == 0 {
                let ghost k = frames@.len();
                let mut full = zeroed(cap);
                std::mem::swap(&mut self.samples, &mut full);
                self.remaining = cap;
                frames.push(full);
                assert((k + 1) * cap == k * cap + cap) by (nonlinear_arith);
                assert(self.pending() =~= Seq::<i16>::empty());
                assert(self.pending() =~= all.subrange(frames@.len() * cap, start_len + pos));
            }
        }
        let ghost k = frames@.len();
        proof {
            lemma_fundamental_div_mod_converse(
                all.len() as int,
                cap as int,
                k as int,
                self.pending().len() as int,
            );
        }
        assert forall|i: int| 0 <= i < k implies frames.deep_view()[i] == frames_in(
            all,
            cap as nat,
        )[i] by {
            assert(frames.deep_view()[i] =~= frames@[i]@);
        }
        assert(frames.deep_view() =~= frames_in(all, cap as nat));
        assert(self.pending() =~= leftover(all, cap as nat));
        frames
    }
}

} // verus!
