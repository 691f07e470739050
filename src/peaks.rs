use vstd::prelude::*;

verus! {

/// How a smoothed z-score classifier labels one value of a sequence.
#[derive(Clone, Copy, Debug, PartialEq, Eq, Structural)]
pub enum Peak {
    /// Within the threshold of the running mean.
    Flat,
    /// Significantly above it.
    High,
    /// Significantly below it.
    Low,
}

/// The sign of one value of a sequence.
#[derive(Clone, Copy, Debug, PartialEq, Eq, Structural)]
pub enum Sign {
    Positive,
    Zero,
    Negative,
}

/// The end of the run of `v` that starts at `from`: the first index at or
/// after `from` that holds something else, or the length.
pub open spec fn run_end<T>(s: Seq<T>, from: int, v: T) -> int
    decreases s.len() - from,
{
    if from < 0 || from >= s.len() || s[from] != v {
        from
    } else {
        run_end(s, from + 1, v)
    }
}

/// The first index at or after `from` that holds `v`, or the length.
pub open spec fn find_from<T>(s: Seq<T>, from: int, v: T) -> int
    decreases s.len() - from,
{
    if from < 0 || from >= s.len() || s[from] == v {
        from
    } else {
        find_from(s, from + 1, v)
    }
}

/// The points of a lobe, and how a peak is read off them: none gives no
/// peak, one is the peak, of two the larger is, and three or more are
/// fitted with a Gaussian.
#[derive(Clone, Copy, Debug, PartialEq, Eq, Structural)]
pub enum Lobe {
    Missing,
    /// The one point, at this index.
    Point(usize),
    /// Two points, at this index and the next; the larger value wins.
    Pair(usize),
    /// Three or more points, from the first index up to the second,
    /// exclusive.
    Curve(usize, usize),
}

/// The lobe made of the indices `start..end`.
pub open spec fn lobe_spec(start: int, end: int) -> Lobe {
    if end - start <= 0 {
        Lobe::Missing
    } else if end - start == 1 {
        Lobe::Point(start as usize)
    } else if end - start == 2 {
        Lobe::Pair(start as usize)
    } else {
        Lobe::Curve(start as usize, end as usize)
    }
}

/// The first run of high values in a classified sequence, all that comes
/// before it skipped.
pub open spec fn first_high_lobe(labels: Seq<Peak>) -> Lobe {
    let start = find_from(labels, 0, Peak::High);
    lobe_spec(start, run_end(labels, start, Peak::High))
}

/// The first positive side lobe of an autocorrelation: past the central
/// positive lobe and the negative run after it.
pub open spec fn side_lobe_spec(signs: Seq<Sign>) -> Lobe {
    let a = run_end(signs, 0, Sign::Positive);
    let b = run_end(signs, a, Sign::Negative);
    lobe_spec(b, run_end(signs, b, Sign::Positive))
}

fn lobe(start: usize, end: usize) -> (r: Lobe)
    requires
        start <= end,
    ensures
        r == lobe_spec(start as int, end as int),
{
    let n = end - start;
    if n == 0 {
        Lobe::Missing
    } else if n == 1 {
        Lobe::Point(start)
    } else if n == 2 {
        Lobe::Pair(start)
    } else {
        Lobe::Curve(start, end)
    }
}

fn sign_run_end(s: &Vec<Sign>, from: usize, v: Sign) -> (r: usize)
    requires
        from <= s@.len(),
    ensures
        r as int == run_end(s@, from as int, v),
        from <= r <= s@.len(),
{
    let mut i = from;
    while i < s.len() && s[i] == v
        invariant
            from <= i <= s@.len(),
            run_end(s@, i as int, v) == run_end(s@, from as int, v),
        decreases s@.len() - i,
    {
        i = i + 1;
    }
    i
}

fn peak_run_end(s: &Vec<Peak>, from: usize, v: Peak) -> (r: usize)
    requires
        from <= s@.len(),
    ensures
        r as int == run_end(s@, from as int, v),
        from <= r <= s@.len(),
{
    let mut i = from;
    while i < s.len() && s[i] == v
        invariant
            from <= i <= s@.len(),
            run_end(s@, i as int, v) == run_end(s@, from as int, v),
        decreases s@.len() - i,
    {
        i = i + 1;
    }
    i
}

fn peak_find(s: &Vec<Peak>, v: Peak) -> (r: usize)
    ensures
        r as int == find_from(s@, 0, v),
        r <= s@.len(),
{
    let mut i: usize = 0;
    while i < s.len() && s[i] != v
        invariant
            i <= s@.len(),
            find_from(s@, i as int, v) == find_from(s@, 0, v),
        decreases s@.len() - i,
    {
        i = i + 1;
    }
    i
}

/// The single lobe a classified sequence offers: leading values that are
/// not high are skipped and the run of high values after them is taken;
/// later lobes are ignored.
pub fn first_lobe(labels: &Vec<Peak>) -> (r: Lobe)
    ensures
        r == first_high_lobe(labels@),
{
    let start = peak_find(labels, Peak::High);
    let end = peak_run_end(labels, start, Peak::High);
    lobe(start, end)
}

/// The first side lobe of an autocorrelation given the signs of its values
/// from lag 0: the positive run of the central lobe and the negative run
/// after it are skipped and the next positive run is taken.
pub fn side_lobe(signs: &Vec<Sign>) -> (r: Lobe)
    ensures
        r == side_lobe_spec(signs@),
{
    let a = sign_run_end(signs, 0, Sign::Positive);
    let b = sign_run_end(signs, a, Sign::Negative);
    let c = sign_run_end(signs, b, Sign::Positive);
    lobe(b, c)
}

} // verus!
