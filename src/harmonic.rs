use vstd::prelude::*;

verus! {

/// Slots in a harmonic set: the fundamental and four overtones.
pub const NUM_PARTIALS: usize = 5;

/// How many of the strongest spectral peaks are kept as candidates.
pub const NUM_CANDIDATES: usize = 30;

/// A spectral component at FFT-bin resolution: bin `bin` stands for
/// `bin * sample_rate / fft_len` hertz, and `intensity` is its scaled,
/// rounded magnitude.
#[derive(Clone, Copy, Debug, PartialEq, Eq, Structural)]
pub struct BinPartial {
    pub bin: usize,
    pub intensity: u64,
}

/// An unused slot.
pub open spec fn silent() -> BinPartial {
    BinPartial { bin: 0, intensity: 0 }
}

/// A fundamental with the partials found at two, three, four and five
/// times its frequency; a slot with no match holds a silent partial.
#[derive(Clone, Copy, Debug)]
pub struct HarmonicPitch {
    pub harmonics: [BinPartial; 5],
}

/// Whether any overtone slot of a harmonic set holds a partial.
pub open spec fn is_harmonic_spec(h: Seq<BinPartial>) -> bool {
    h[1].bin != 0 || h[2].bin != 0 || h[3].bin != 0 || h[4].bin != 0
}

/// The summed intensity of a harmonic set.
pub open spec fn total_spec(h: Seq<BinPartial>) -> int {
    h[0].intensity + h[1].intensity + h[2].intensity + h[3].intensity + h[4].intensity
}

impl Default for HarmonicPitch {
    /// Five silent slots.
    fn default() -> (r: HarmonicPitch)
        ensures
            r.harmonics@ == Seq::new(NUM_PARTIALS as nat, |i: int| silent()),
    {
        let z = BinPartial { bin: 0, intensity: 0 };
        let r = HarmonicPitch { harmonics: [z, z, z, z, z] };
        assert(r.harmonics@ =~= Seq::new(NUM_PARTIALS as nat, |i: int| silent()));
        r
    }
}

impl HarmonicPitch {
    /// A set holding only its fundamental.
    pub fn new(fundamental: BinPartial) -> (r: HarmonicPitch)
        ensures
            r.harmonics@ == seq![fundamental, silent(), silent(), silent(), silent()],
    {
        let mut r = HarmonicPitch::default();
        r.harmonics[0] = fundamental;
        assert(r.harmonics@ =~= seq![fundamental, silent(), silent(), silent(), silent()]);
        r
    }

    /// The summed intensity of all five slots, the set's confidence.
    pub fn absolute_intensity(&self) -> (r: u128)
        ensures
            r == total_spec(self.harmonics@),
    {
        self.harmonics[0].intensity as u128 + self.harmonics[1].intensity as u128
            + self.harmonics[2].intensity as u128 + self.harmonics[3].intensity as u128
            + self.harmonics[4].intensity as u128
    }

    /// Whether at least one overtone was matched.
    pub fn is_harmonic(&self) -> (r: bool)
        ensures
            r == is_harmonic_spec(self.harmonics@),
    {
        self.harmonics[1].bin != 0 || self.harmonics[2].bin != 0 || self.harmonics[3].bin != 0
            || self.harmonics[4].bin != 0
    }

    /// How many overtone slots hold a partial.
    pub fn num_overtones(&self) -> (r: usize)
        ensures
            r == (if self.harmonics@[1].bin != 0 { 1int } else { 0 }) + (if self.harmonics@[2].bin
                != 0 { 1int } else { 0 }) + (if self.harmonics@[3].bin != 0 { 1int } else { 0 }) + (
            if self.harmonics@[4].bin != 0 { 1int } else { 0 }),
    {
        let mut n: usize = 0;
        if self.harmonics[1].bin != 0 {
            n = n + 1;
        }
        if self.harmonics[2].bin != 0 {
            n = n + 1;
        }
        if self.harmonics[3].bin != 0 {
            n = n + 1;
        }
        if self.harmonics[4].bin != 0 {
            n = n + 1;
        }
        n
    }
}

/// The slot of the weakest partial: the first one of least intensity.
pub open spec fn weakest(s: Seq<BinPartial>) -> int
    decreases s.len(),
{
    if s.len() <= 1 {
        0
    } else {
        let w = weakest(s.drop_last());
        if s.last().intensity < s[w].intensity {
            s.len() - 1
        } else {
            w
        }
    }
}

/// The candidate slots after `p` is offered: it takes the weakest slot
/// when it is stronger than that slot and lies below `max_bin`.
pub open spec fn offered(slots: Seq<BinPartial>, p: BinPartial, max_bin: int) -> Seq<BinPartial> {
    let w = weakest(slots);
    if slots.len() > 0 && p.intensity > slots[w].intensity && p.bin < max_bin {
        slots.update(w, p)
    } else {
        slots
    }
}

/// The candidate slots after every partial of `spectrum` has been offered
/// in order, starting from silent slots.
pub open spec fn strongest(spectrum: Seq<BinPartial>, max_bin: int) -> Seq<BinPartial>
    decreases spectrum.len(),
{
    if spectrum.len() == 0 {
        Seq::new(NUM_CANDIDATES as nat, |i: int| silent())
    } else {
        offered(strongest(spectrum.drop_last(), max_bin), spectrum.last(), max_bin)
    }
}

/// A partial that can become a candidate: below `max_bin`, with some
/// intensity.
pub open spec fn eligible(p: BinPartial, max_bin: int) -> bool {
    p.bin < max_bin && p.intensity > 0
}

/// What the candidate slots `c` hold after selection from `spectrum`: each
/// slot is silent or an eligible partial of the spectrum, and an eligible
/// partial that no slot holds is no stronger than any slot.
pub open spec fn selects(c: Seq<BinPartial>, spectrum: Seq<BinPartial>, max_bin: int) -> bool {
    &&& c.len() == NUM_CANDIDATES
    &&& forall|k: int|
        0 <= k < c.len() ==> #[trigger] c[k] == silent() || (eligible(c[k], max_bin)
            && spectrum.contains(c[k]))
    &&& forall|i: int, k: int|
        0 <= i < spectrum.len() && 0 <= k < c.len() && eligible(spectrum[i], max_bin)
            && !c.contains(spectrum[i]) ==> #[trigger] spectrum[i].intensity <= #[trigger] c[k].intensity
}

/// `weakest` is the first slot of least intensity.
pub proof fn lemma_weakest_is_first_min(s: Seq<BinPartial>)
    requires
        s.len() > 0,
    ensures
        0 <= weakest(s) < s.len(),
        forall|j: int| 0 <= j < s.len() ==> s[weakest(s)].intensity <= #[trigger] s[j].intensity,
        forall|j: int| 0 <= j < weakest(s) ==> #[trigger] s[j].intensity > s[weakest(s)].intensity,
    decreases s.len(),
{
    if s.len() > 1 {
        let t = s.drop_last();
        lemma_weakest_is_first_min(t);
        let w = weakest(t);
        let n = s.len() - 1;
        assert(s[w] == t[w]);
        assert forall|j: int| 0 <= j < s.len() implies s[weakest(s)].intensity <= #[trigger] s[j].intensity by {
            if j < n {
                assert(s[j] == t[j]);
            }
        }
        assert forall|j: int| 0 <= j < weakest(s) implies #[trigger] s[j].intensity > s[weakest(s)].intensity by {
            if j < n {
                assert(s[j] == t[j]);
            }
        }
    }
}

proof fn lemma_strongest_selects(spectrum: Seq<BinPartial>, max_bin: int)
    ensures
        selects(strongest(spectrum, max_bin), spectrum, max_bin),
    decreases spectrum.len(),
{
    let c = strongest(spectrum, max_bin);
    if spectrum.len() == 0 {
        assert(c.len() == NUM_CANDIDATES);
    } else {
        let rest = spectrum.drop_last();
        let p = spectrum.last();
        let prev = strongest(rest, max_bin);
        lemma_strongest_selects(rest, max_bin);
        lemma_weakest_is_first_min(prev);
        let w = weakest(prev);
        assert forall|x: BinPartial| rest.contains(x) implies spectrum.contains(x) by {
            let j = choose|j: int| 0 <= j < rest.len() && rest[j] == x;
            assert(spectrum[j] == x);
        }
        assert(spectrum.contains(p)) by {
            assert(spectrum[spectrum.len() - 1] == p);
        }
        assert forall|k: int| 0 <= k < c.len() implies #[trigger] c[k] == silent() || (eligible(
            c[k],
            max_bin,
        ) && spectrum.contains(c[k])) by {
            assert(prev[k] == silent() || (eligible(prev[k], max_bin) && rest.contains(prev[k])));
        }
        assert forall|i: int, k: int|
            0 <= i < spectrum.len() && 0 <= k < c.len() && eligible(spectrum[i], max_bin)
                && !c.contains(spectrum[i]) implies #[trigger] spectrum[i].intensity
            <= #[trigger] c[k].intensity by {
            let q = spectrum[i];
            if c == prev {
                if i < rest.len() {
                    assert(rest[i] == q);
                    assert(q.intensity <= prev[k].intensity);
                } else {
                    assert(q == p);
                    assert(q.intensity <= prev[w].intensity);
                }
            } else {
                assert(c == prev.update(w, p));
                assert(c[w] == p);
                if q == prev[w] {
                    assert(prev[w].intensity <= prev[k].intensity);
                } else if i == spectrum.len() - 1 {
                    assert(c.contains(p));
                } else {
                    assert(rest[i] == q);
                    if prev.contains(q) {
                        let m = choose|m: int| 0 <= m < prev.len() && prev[m] == q;
                        if m != w {
                            assert(c[m] == q);
                        }
                    }
                    assert(q.intensity <= prev[w].intensity);
                    assert(q.intensity <= prev[k].intensity);
                }
            }
        }
    }
}

/// The first slot of least intensity; `None` for no slots.
pub fn get_index_of_lowest_intensity(partials: &Vec<BinPartial>) -> (r: Option<usize>)
    ensures
        r is None <==> partials@.len() == 0,
        r matches Some(w) ==> {
            &&& w == weakest(partials@)
            &&& w < partials@.len()
            &&& forall|j: int| 0 <= j < partials@.len() ==> partials@[w as int].intensity <= #[trigger] partials@[j].intensity
            &&& forall|j: int| 0 <= j < w ==> #[trigger] partials@[j].intensity > partials@[w as int].intensity
        },
{
    if partials.len() == 0 {
        return None;
    }
    let mut best: usize = 0;
    let mut i: usize = 1;
    assert(partials@.subrange(0, 1).len() == 1);
    while i < partials.len()
        invariant
            1 <= i <= partials@.len(),
            best < i,
            best == weakest(partials@.subrange(0, i as int)),
        decreases partials@.len() - i,
    {
        assert(partials@.subrange(0, i + 1).drop_last() =~= partials@.subrange(0, i as int));
        if partials[i].intensity < partials[best].intensity {
            best = i;
        }
        i = i + 1;
    }
    assert(partials@.subrange(0, i as int) =~= partials@);
    proof {
        lemma_weakest_is_first_min(partials@);
    }
    Some(best)
}

/// Offers `partial` to the candidate slots: it replaces the weakest one if
/// it is stronger and lies below `max_bin`.
pub fn add_partial_if_high_intensity_and_within_freq_range(
    partial: BinPartial,
    slots: &mut Vec<BinPartial>,
    max_bin: usize,
)
    ensures
        final(slots)@ == offered(old(slots)@, partial, max_bin as int),
{
    match get_index_of_lowest_intensity(slots) {
        Some(w) => {
            if partial.intensity > slots[w].intensity && partial.bin < max_bin {
                slots[w] = partial;
            }
        },
        None => {},
    }
}

/// The `NUM_CANDIDATES` strongest partials of a spectrum below `max_bin`,
/// silent slots standing in where there are fewer: each slot is silent or
/// an eligible partial of the spectrum, and every eligible partial left out
/// is no stronger than the weakest slot kept. Among equally strong ones
/// the earlier partials stay.
pub fn highest_intensity_partials(spectrum: &Vec<BinPartial>, max_bin: usize) -> (r: Vec<
    BinPartial,
>)
    ensures
        r@ == strongest(spectrum@, max_bin as int),
        selects(r@, spectrum@, max_bin as int),
{
    let mut slots: Vec<BinPartial> = Vec::new();
    let mut k: usize = 0;
    while k < NUM_CANDIDATES
        invariant
            k <= NUM_CANDIDATES,
            slots@ =~= Seq::new(k as nat, |i: int| silent()),
        decreases NUM_CANDIDATES - k,
    {
        slots.push(BinPartial { bin: 0, intensity: 0 });
        k = k + 1;
    }
    let mut i: usize = 0;
    assert(spectrum@.subrange(0, 0).len() == 0);
    while i < spectrum.len()
        invariant
            i <= spectrum@.len(),
            slots@ == strongest(spectrum@.subrange(0, i as int), max_bin as int),
        decreases spectrum@.len() - i,
    {
        assert(spectrum@.subrange(0, i + 1).drop_last() =~= spectrum@.subrange(0, i as int));
        add_partial_if_high_intensity_and_within_freq_range(spectrum[i], &mut slots, max_bin);
        i = i + 1;
    }
    assert(spectrum@.subrange(0, i as int) =~= spectrum@);
    proof {
        lemma_strongest_selects(spectrum@, max_bin as int);
    }
    slots
}

/// Whether bin `bin` lies within 2% of bin `target`.
pub open spec fn near(bin: int, target: int) -> bool {
    50 * (if bin >= target { bin - target } else { target - bin }) <= target
}

/// Whether `c[j]` is the partial taken for an overtone at bin `target`:
/// of the candidates near it, the lowest, and of equally low ones the
/// strongest.
pub open spec fn is_overtone_match(c: Seq<BinPartial>, target: int, j: int) -> bool {
    &&& 0 <= j < c.len()
    &&& near(c[j].bin as int, target)
    &&& forall|m: int|
        0 <= m < c.len() && near(#[trigger] c[m].bin as int, target) ==> c[j].bin < c[m].bin || (
        c[j].bin == c[m].bin && c[j].intensity >= c[m].intensity)
}

/// The partial that fills the slot of an overtone at bin `target`.
pub open spec fn overtone(c: Seq<BinPartial>, target: int) -> BinPartial {
    if exists|j: int| is_overtone_match(c, target, j) {
        c[choose|j: int| is_overtone_match(c, target, j)]
    } else {
        silent()
    }
}

/// The harmonic set that candidates `c` give the fundamental `p`.
pub open spec fn note_spec(c: Seq<BinPartial>, p: BinPartial) -> Seq<BinPartial> {
    seq![
        p,
        overtone(c, 2 * p.bin),
        overtone(c, 3 * p.bin),
        overtone(c, 4 * p.bin),
        overtone(c, 5 * p.bin),
    ]
}

proof fn lemma_match_unique(c: Seq<BinPartial>, target: int, j: int)
    requires
        is_overtone_match(c, target, j),
    ensures
        overtone(c, target) == c[j],
{
    let k = choose|k: int| is_overtone_match(c, target, k);
    assert(is_overtone_match(c, target, k));
    assert(near(c[k].bin as int, target));
    assert(near(c[j].bin as int, target));
    assert(c[j].bin == c[k].bin && c[j].intensity == c[k].intensity);
}

/// The index of the partial that fills the slot of an overtone at bin
/// `target`, if any candidate is near it.
fn overtone_index(c: &Vec<BinPartial>, target: u128) -> (r: Option<usize>)
    requires
        target <= 5 * usize::MAX,
    ensures
        r matches Some(j) ==> is_overtone_match(c@, target as int, j as int),
        r is None ==> forall|m: int|
            0 <= m < c@.len() ==> !near(#[trigger] c@[m].bin as int, target as int),
{
    let mut best: Option<usize> = None;
    let mut i: usize = 0;
    while i < c.len()
        invariant
            i <= c@.len(),
            target <= 5 * usize::MAX,
            best matches Some(j) ==> j < i && near(c@[j as int].bin as int, target as int) && forall|m: int|
                0 <= m < i && near(#[trigger] c@[m].bin as int, target as int) ==> c@[j as int].bin
                    < c@[m].bin || (c@[j as int].bin == c@[m].bin && c@[j as int].intensity
                    >= c@[m].intensity),
            best is None ==> forall|m: int|
                0 <= m < i ==> !near(#[trigger] c@[m].bin as int, target as int),
        decreases c@.len() - i,
    {
        let b = c[i].bin as u128;
        let d: u128 = if b >= target {
            b - target
        } else {
            target - b
        };
        if 50 * d <= target {
            match best {
                None => {
                    best = Some(i);
                },
                Some(j) => {
                    if c[i].bin < c[j].bin || (c[i].bin == c[j].bin && c[i].intensity
                        > c[j].intensity) {
                        best = Some(i);
                    }
                },
            }
        }
        i = i + 1;
    }
    best
}

/// The harmonic set of `fundamental`: each overtone slot takes the
/// lowest candidate within 2% of its multiple of the fundamental.
pub fn harmonic_note(candidates: &Vec<BinPartial>, fundamental: BinPartial) -> (r: HarmonicPitch)
    ensures
        r.harmonics@ == note_spec(candidates@, fundamental),
{
    let mut note = HarmonicPitch::new(fundamental);
    let mut k: usize = 2;
    while k <= NUM_PARTIALS
        invariant
            2 <= k <= NUM_PARTIALS + 1,
            note.harmonics@.len() == 5,
            note.harmonics@[0] == fundamental,
            forall|m: int|
                1 <= m < k - 1 ==> #[trigger] note.harmonics@[m] == overtone(
                    candidates@,
                    (m + 1) * fundamental.bin,
                ),
            forall|m: int| k - 1 <= m < 5 ==> #[trigger] note.harmonics@[m] == silent(),
        decreases NUM_PARTIALS + 1 - k,
    {
        assert((k as u128) * (fundamental.bin as u128) <= 5 * usize::MAX) by (nonlinear_arith)
            requires
                k <= 5,
                fundamental.bin <= usize::MAX,
        ;
        let target: u128 = (k as u128) * (fundamental.bin as u128);
        match overtone_index(candidates, target) {
            Some(j) => {
                proof {
                    lemma_match_unique(candidates@, target as int, j as int);
                }
                note.harmonics[k - 1] = candidates[j];
            },
            None => {
                assert(!exists|j: int| is_overtone_match(candidates@, target as int, j));
            },
        }
        k = k + 1;
    }
    assert(note.harmonics@ =~= note_spec(candidates@, fundamental));
    note
}

/// The harmonic sets of all candidates, in candidate order.
pub open spec fn notes_of(c: Seq<BinPartial>) -> Seq<Seq<BinPartial>> {
    c.map_values(|p: BinPartial| note_spec(c, p))
}

/// The harmonic sets of the candidates that matched at least one overtone,
/// in candidate order.
pub open spec fn harmonic_notes(c: Seq<BinPartial>) -> Seq<Seq<BinPartial>> {
    notes_of(c).filter(harmonic_test())
}

/// `is_harmonic_spec` as a predicate value.
pub open spec fn harmonic_test() -> spec_fn(Seq<BinPartial>) -> bool {
    |h: Seq<BinPartial>| is_harmonic_spec(h)
}

/// Whether (`t1`, `b1`) ranks at least as high as (`t2`, `b2`): greater
/// total intensity first, then the lower fundamental.
pub open spec fn ranks_at_least(t1: int, b1: int, t2: int, b2: int) -> bool {
    t1 > t2 || (t1 == t2 && b1 <= b2)
}

/// The outcome of harmonic-partial detection: the fundamental's bin and
/// the confidence in it.
#[derive(Clone, Copy, Debug, PartialEq, Eq, Structural)]
pub struct HarmonicEstimate {
    pub bin: usize,
    pub confidence: u128,
}

/// Whether `r` is what harmonic-partial detection reports for candidates
/// `c`: the best-ranked harmonic set, or, where no candidate matched an
/// overtone, the strongest single candidate (the lowest of equally strong
/// ones).
pub open spec fn is_estimate(c: Seq<BinPartial>, r: HarmonicEstimate) -> bool {
    let hs = harmonic_notes(c);
    if hs.len() > 0 {
        &&& exists|k: int|
            0 <= k < hs.len() && hs[k][0].bin == r.bin && total_spec(hs[k]) == r.confidence
        &&& forall|k: int|
            0 <= k < hs.len() ==> ranks_at_least(
                r.confidence as int,
                r.bin as int,
                total_spec(#[trigger] hs[k]),
                hs[k][0].bin as int,
            )
    } else {
        &&& exists|i: int| 0 <= i < c.len() && c[i].bin == r.bin && c[i].intensity == r.confidence
        &&& forall|i: int|
            0 <= i < c.len() ==> ranks_at_least(
                r.confidence as int,
                r.bin as int,
                #[trigger] c[i].intensity as int,
                c[i].bin as int,
            )
    }
}

/// The harmonic sets of the candidates that match at least one overtone,
/// in candidate order.
pub fn decompose_into_notes(candidates: &Vec<BinPartial>) -> (r: Vec<HarmonicPitch>)
    ensures
        r@.len() == harmonic_notes(candidates@).len(),
        forall|k: int| 0 <= k < r@.len() ==> #[trigger] r@[k].harmonics@ == harmonic_notes(candidates@)[k],
{
    let ghost c = candidates@;
    let ghost pred = harmonic_test();
    let mut notes: Vec<HarmonicPitch> = Vec::new();
    let mut i: usize = 0;
    proof {
        reveal(Seq::filter);
        assert(notes_of(c).subrange(0, 0).filter(pred) =~= Seq::<Seq<BinPartial>>::empty());
    }
    while i < candidates.len()
        invariant
            c == candidates@,
            pred == harmonic_test(),
            i <= c.len(),
            notes@.len() == notes_of(c).subrange(0, i as int).filter(pred).len(),
            forall|k: int| 0 <= k < notes@.len() ==> #[trigger] notes@[k].harmonics@ == notes_of(c).subrange(0, i as int).filter(pred)[k],
        decreases c.len() - i,
    {
        let note = harmonic_note(candidates, candidates[i]);
        let ghost prefix = notes_of(c).subrange(0, i as int);
        let ghost before = notes@;
        proof {
            assert(notes_of(c).subrange(0, i + 1) =~= prefix.push(note.harmonics@));
            prefix.lemma_filter_push(note.harmonics@, pred);
            let hh = note.harmonics@;
            assert(pred(hh) == is_harmonic_spec(hh));
        }
        if note.is_harmonic() {
            notes.push(note);
            assert(notes@[before.len() as int].harmonics@ == note.harmonics@);
        }
        i = i + 1;
    }
    assert(notes_of(c).subrange(0, i as int) =~= notes_of(c));
    notes
}

/// Whether some partial of `spectrum` below `max_bin` has any intensity.
pub open spec fn has_signal(spectrum: Seq<BinPartial>, max_bin: int) -> bool {
    exists|i: int| 0 <= i < spectrum.len() && eligible(#[trigger] spectrum[i], max_bin)
}

/// Harmonic-partial detection on a spectrum at FFT-bin resolution: keeps
/// the strongest partials below `max_bin`, builds each one's harmonic set,
/// and reports the set of greatest total intensity (the lower fundamental
/// among equals), or the strongest single partial where no set matched an
/// overtone. Nothing is detected exactly when no partial below `max_bin`
/// has any intensity; a detection always has a positive confidence.
pub fn calc_top_fundamentals(spectrum: &Vec<BinPartial>, max_bin: usize) -> (r: Option<
    HarmonicEstimate,
>)
    ensures
        r is None <==> !has_signal(spectrum@, max_bin as int),
        r matches Some(e) ==> is_estimate(strongest(spectrum@, max_bin as int), e) && e.confidence
            > 0,
{
    let e = best_harmonic_set(spectrum, max_bin);
    proof {
        lemma_strongest_selects(spectrum@, max_bin as int);
        lemma_confidence_signals(spectrum@, max_bin as int, e);
    }
    if e.confidence == 0 {
        None
    } else {
        Some(e)
    }
}

proof fn lemma_filter_from(s: Seq<Seq<BinPartial>>, pred: spec_fn(Seq<BinPartial>) -> bool, k: int)
    requires
        0 <= k < s.filter(pred).len(),
    ensures
        s.contains(s.filter(pred)[k]),
    decreases s.len(),
{
    reveal(Seq::filter);
    if s.len() > 0 {
        let sub = s.drop_last().filter(pred);
        if k < sub.len() {
            lemma_filter_from(s.drop_last(), pred, k);
            let j = choose|j: int| 0 <= j < s.drop_last().len() && s.drop_last()[j] == sub[k];
            assert(s[j] == s.filter(pred)[k]);
        } else {
            assert(s[s.len() - 1] == s.filter(pred)[k]);
        }
    }
}

proof fn lemma_overtone_from(c: Seq<BinPartial>, target: int)
    ensures
        overtone(c, target) == silent() || exists|j: int|
            0 <= j < c.len() && c[j] == overtone(c, target),
{
    if exists|j: int| is_overtone_match(c, target, j) {
        let j = choose|j: int| is_overtone_match(c, target, j);
        assert(c[j] == overtone(c, target));
    }
}

/// Every harmonic set of selected candidates holds a matched overtone with
/// some intensity, so its total is positive and the spectrum has signal.
proof fn lemma_harmonic_set_positive(spectrum: Seq<BinPartial>, max_bin: int, k: int)
    requires
        selects(strongest(spectrum, max_bin), spectrum, max_bin),
        0 <= k < harmonic_notes(strongest(spectrum, max_bin)).len(),
    ensures
        total_spec(harmonic_notes(strongest(spectrum, max_bin))[k]) > 0,
        has_signal(spectrum, max_bin),
{
    let c = strongest(spectrum, max_bin);
    let ns = notes_of(c);
    let hs = harmonic_notes(c);
    let h = hs[k];
    ns.lemma_filter_pred(harmonic_test(), k);
    lemma_filter_from(ns, harmonic_test(), k);
    let i = choose|i: int| 0 <= i < ns.len() && ns[i] == h;
    let f = c[i];
    assert(h == note_spec(c, f));
    lemma_overtone_from(c, 2 * f.bin);
    lemma_overtone_from(c, 3 * f.bin);
    lemma_overtone_from(c, 4 * f.bin);
    lemma_overtone_from(c, 5 * f.bin);
    let m: int = if h[1].bin != 0 {
        1
    } else if h[2].bin != 0 {
        2
    } else if h[3].bin != 0 {
        3
    } else {
        4
    };
    assert(h[m].bin != 0);
    let j = choose|j: int| 0 <= j < c.len() && c[j] == h[m];
    assert(c[j] != silent());
    assert(eligible(c[j], max_bin) && spectrum.contains(c[j]));
    let q = choose|q: int| 0 <= q < spectrum.len() && spectrum[q] == c[j];
    assert(eligible(spectrum[q], max_bin));
}

/// The ranked estimate has a positive confidence exactly when the
/// spectrum has signal.
proof fn lemma_confidence_signals(spectrum: Seq<BinPartial>, max_bin: int, e: HarmonicEstimate)
    requires
        selects(strongest(spectrum, max_bin), spectrum, max_bin),
        is_estimate(strongest(spectrum, max_bin), e),
    ensures
        e.confidence > 0 <==> has_signal(spectrum, max_bin),
{
    let c = strongest(spectrum, max_bin);
    let hs = harmonic_notes(c);
    if hs.len() > 0 {
        lemma_harmonic_set_positive(spectrum, max_bin, 0);
        assert(ranks_at_least(e.confidence as int, e.bin as int, total_spec(hs[0]), hs[0][0].bin as int));
    } else {
        if has_signal(spectrum, max_bin) {
            let i = choose|i: int| 0 <= i < spectrum.len() && eligible(#[trigger] spectrum[i], max_bin);
            if c.contains(spectrum[i]) {
                let k = choose|k: int| 0 <= k < c.len() && c[k] == spectrum[i];
                assert(ranks_at_least(e.confidence as int, e.bin as int, c[k].intensity as int, c[k].bin as int));
            } else {
                assert(spectrum[i].intensity <= c[0].intensity);
                assert(ranks_at_least(e.confidence as int, e.bin as int, c[0].intensity as int, c[0].bin as int));
            }
        } else {
            let k = choose|k: int| 0 <= k < c.len() && c[k].bin == e.bin && c[k].intensity == e.confidence;
            if c[k] != silent() {
                assert(eligible(c[k], max_bin) && spectrum.contains(c[k]));
                let q = choose|q: int| 0 <= q < spectrum.len() && spectrum[q] == c[k];
                assert(eligible(spectrum[q], max_bin));
            }
        }
    }
}

/// The best-ranked harmonic set of the candidates of `spectrum`, or the
/// strongest single candidate where none matched an overtone.
fn best_harmonic_set(spectrum: &Vec<BinPartial>, max_bin: usize) -> (r: HarmonicEstimate)
    ensures
        is_estimate(strongest(spectrum@, max_bin as int), r),
{
    let candidates = highest_intensity_partials(spectrum, max_bin);
    let ghost c = candidates@;
    let notes = decompose_into_notes(&candidates);
    let ghost hs = harmonic_notes(c);
    if notes.len() > 0 {
        let mut best: usize = 0;
        let mut best_total: u128 = notes[0].absolute_intensity();
        let mut i: usize = 1;
        while i < notes.len()
            invariant
                notes@.len() == hs.len(),
                forall|k: int| 0 <= k < notes@.len() ==> #[trigger] notes@[k].harmonics@ == hs[k],
                1 <= i <= notes@.len(),
                best < i,
                best_total == total_spec(hs[best as int]),
                forall|k: int|
                    0 <= k < i ==> ranks_at_least(
                        best_total as int,
                        hs[best as int][0].bin as int,
                        total_spec(#[trigger] hs[k]),
                        hs[k][0].bin as int,
                    ),
            decreases notes@.len() - i,
        {
            let t = notes[i].absolute_intensity();
            if t > best_total || (t == best_total && notes[i].harmonics[0].bin
                < notes[best].harmonics[0].bin) {
                best = i;
                best_total = t;
            }
            i = i + 1;
        }
        let r = HarmonicEstimate { bin: notes[best].harmonics[0].bin, confidence: best_total };
        assert(hs[best as int][0].bin == r.bin);
        r
    } else {
        let mut best: usize = 0;
        let mut i: usize = 1;
        while i < candidates.len()
            invariant
                c == candidates@,
                c.len() == NUM_CANDIDATES,
                1 <= i <= c.len(),
                best < i,
                forall|k: int|
                    0 <= k < i ==> ranks_at_least(
                        c[best as int].intensity as int,
                        c[best as int].bin as int,
                        #[trigger] c[k].intensity as int,
                        c[k].bin as int,
                    ),
            decreases c.len() - i,
        {
            if candidates[i].intensity > candidates[best].intensity || (candidates[i].intensity
                == candidates[best].intensity && candidates[i].bin < candidates[best].bin) {
                best = i;
            }
            i = i + 1;
        }
        HarmonicEstimate { bin: candidates[best].bin, confidence: candidates[best].intensity as u128 }
    }
}

/// Harmonic-partial detection has exactly one outcome for given
/// candidates, so the same spectrum always yields the same estimate.
pub proof fn lemma_estimate_unique(c: Seq<BinPartial>, r1: HarmonicEstimate, r2: HarmonicEstimate)
    requires
        is_estimate(c, r1),
        is_estimate(c, r2),
    ensures
        r1 == r2,
{
    let hs = harmonic_notes(c);
    if hs.len() > 0 {
        let k1 = choose|k: int|
            0 <= k < hs.len() && hs[k][0].bin == r1.bin && total_spec(hs[k]) == r1.confidence;
        let k2 = choose|k: int|
            0 <= k < hs.len() && hs[k][0].bin == r2.bin && total_spec(hs[k]) == r2.confidence;
        assert(ranks_at_least(r1.confidence as int, r1.bin as int, total_spec(hs[k2]), hs[k2][0].bin as int));
        assert(ranks_at_least(r2.confidence as int, r2.bin as int, total_spec(hs[k1]), hs[k1][0].bin as int));
    } else {
        let i1 = choose|i: int| 0 <= i < c.len() && c[i].bin == r1.bin && c[i].intensity == r1.confidence;
        let i2 = choose|i: int| 0 <= i < c.len() && c[i].bin == r2.bin && c[i].intensity == r2.confidence;
        assert(ranks_at_least(r1.confidence as int, r1.bin as int, c[i2].intensity as int, c[i2].bin as int));
        assert(ranks_at_least(r2.confidence as int, r2.bin as int, c[i1].intensity as int, c[i1].bin as int));
    }
}

} // verus!
