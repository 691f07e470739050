use vstd::prelude::*;

verus! {

/// The name of the note `index` semitones above A in the chromatic
/// circle A, A#, B, C, C#, D, D#, E, F, F#, G, G#.
pub open spec fn note_name_spec(index: int) -> Seq<char> {
    if index == 0 {
        "A"@
    } else if index == 1 {
        "A#"@
    } else if index == 2 {
        "B"@
    } else if index == 3 {
        "C"@
    } else if index == 4 {
        "C#"@
    } else if index == 5 {
        "D"@
    } else if index == 6 {
        "D#"@
    } else if index == 7 {
        "E"@
    } else if index == 8 {
        "F"@
    } else if index == 9 {
        "F#"@
    } else if index == 10 {
        "G"@
    } else {
        "G#"@
    }
}

/// The chromatic name of a note index, 0 being A.
pub fn note_name(index: usize) -> (r: &'static str)
    requires
        index < 12,
    ensures
        r@ == note_name_spec(index as int),
{
    if index == 0 {
        "A"
    } else if index == 1 {
        "A#"
    } else if index == 2 {
        "B"
    } else if index == 3 {
        "C"
    } else if index == 4 {
        "C#"
    } else if index == 5 {
        "D"
    } else if index == 6 {
        "D#"
    } else if index == 7 {
        "E"
    } else if index == 8 {
        "F"
    } else if index == 9 {
        "F#"
    } else if index == 10 {
        "G"
    } else {
        "G#"
    }
}

/// Where a whole number of semitones from A4 lands on the keyboard.
#[derive(Clone, Copy, Debug, PartialEq, Eq, Structural)]
pub struct NotePosition {
    /// Index into the chromatic circle, 0 being A.
    pub note: usize,
    /// Scientific octave number; octaves start at C.
    pub octave: i32,
    /// Index of the note a semitone lower.
    pub previous: usize,
    /// Index of the note a semitone higher.
    pub next: usize,
}

/// The note of the key `semitone` semitones from A4: its name index is the
/// semitone count modulo 12, and the octave number changes at each C.
pub fn note_position(semitone: i32) -> (r: NotePosition)
    ensures
        r.note as int == semitone as int % 12,
        r.octave as int == 5 + (semitone as int - 2) / 12,
        r.previous as int == (semitone as int - 1) % 12,
        r.next as int == (semitone as int + 1) % 12,
        r.note < 12 && r.previous < 12 && r.next < 12,
{
    let s: i64 = semitone as i64;
    NotePosition {
        note: circle_index(s),
        octave: (5 + floor_div_12(s - 2)) as i32,
        previous: circle_index(s - 1),
        next: circle_index(s + 1),
    }
}

/// `k` modulo 12, in 0..12 also for negative `k`.
fn circle_index(k: i64) -> (r: usize)
    requires
        k > i64::MIN + 12,
    ensures
        r as int == k as int % 12,
{
    if k >= 0 {
        (k % 12) as usize
    } else {
        let m: i64 = (-k) % 12;
        proof {
            vstd::arithmetic::div_mod::lemma_fundamental_div_mod(-k as int, 12);
            vstd::arithmetic::div_mod::lemma_mod_pos_bound(-k as int, 12);
            let q = (-k as int) / 12;
            if m == 0 {
                lemma_mod_of_multiple(k as int, -q);
            } else {
                vstd::arithmetic::div_mod::lemma_fundamental_div_mod_converse(
                    k as int,
                    12,
                    -q - 1,
                    12 - m,
                );
            }
        }
        if m == 0 {
            0
        } else {
            (12 - m) as usize
        }
    }
}

proof fn lemma_mod_of_multiple(k: int, q: int)
    requires
        k == q * 12,
    ensures
        k % 12 == 0,
{
    vstd::arithmetic::div_mod::lemma_fundamental_div_mod_converse(k, 12, q, 0);
}

/// `k` divided by 12, rounded towards negative infinity.
fn floor_div_12(k: i64) -> (r: i64)
    requires
        k > i64::MIN + 12,
    ensures
        r as int == k as int / 12,
{
    if k >= 0 {
        k / 12
    } else {
        let n: i64 = -k;
        let q: i64 = (n + 11) / 12;
        proof {
            let nn = n as int;
            vstd::arithmetic::div_mod::lemma_fundamental_div_mod(nn + 11, 12);
            vstd::arithmetic::div_mod::lemma_mod_pos_bound(nn + 11, 12);
            let r = (nn + 11) % 12;
            vstd::arithmetic::div_mod::lemma_fundamental_div_mod_converse(
                k as int,
                12,
                -(q as int),
                11 - r,
            );
        }
        -q
    }
}

} // verus!
