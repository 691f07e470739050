use tuner_rs::harmonic::{
    add_partial_if_high_intensity_and_within_freq_range, calc_top_fundamentals, decompose_into_notes,
    get_index_of_lowest_intensity, harmonic_note, highest_intensity_partials, BinPartial, HarmonicEstimate,
    HarmonicPitch, NUM_CANDIDATES,
};
use tuner_rs::notes::{note_name, note_position};
use tuner_rs::peaks::Peak::{Flat, High, Low};
use tuner_rs::peaks::Sign::{Negative, Positive, Zero};
use tuner_rs::peaks::{first_lobe, side_lobe, Lobe};
use tuner_rs::ranges::{bin_range, quefrency_range};

fn p(bin: usize, intensity: u64) -> BinPartial {
    BinPartial { bin, intensity }
}

fn semitone_of(freq: f64) -> i32 {
    (12.0 * (freq / 440.0).log2()).round() as i32
}

#[test]
fn a4_is_a_in_octave_four() {
    let n = note_position(semitone_of(440.0));
    assert_eq!(note_name(n.note), "A");
    assert_eq!(n.octave, 4);
    assert_eq!(note_name(n.previous), "G#");
    assert_eq!(note_name(n.next), "A#");
}

#[test]
fn c5_is_c_in_octave_five() {
    let s = semitone_of(523.25);
    assert_eq!(s, 3);
    let cents = (12.0 * (523.25f64 / 440.0).log2() - s as f64) * 100.0;
    assert!(cents.abs() < 1.0);
    let n = note_position(s);
    assert_eq!(note_name(n.note), "C");
    assert_eq!(n.octave, 5);
    assert_eq!(note_name(n.previous), "B");
    assert_eq!(note_name(n.next), "C#");
}

#[test]
fn notes_below_a4_wrap_around_the_circle() {
    let n = note_position(-48);
    assert_eq!(note_name(n.note), "A");
    assert_eq!(n.octave, 0);
    let g = note_position(-14);
    assert_eq!(note_name(g.note), "G");
    assert_eq!(g.octave, 3);
    let a = note_position(-1);
    assert_eq!(note_name(a.note), "G#");
    assert_eq!(note_name(a.next), "A");
    assert_eq!(a.octave, 4);
    let high = note_position(27);
    assert_eq!(note_name(high.note), "C");
    assert_eq!(high.octave, 7);
}

#[test]
fn search_ranges_at_44k() {
    assert_eq!(quefrency_range(44000, 32768), (11, 1600));
    assert_eq!(quefrency_range(44000, 100), (11, 100));
    assert_eq!(quefrency_range(44000, 5), (5, 5));
    assert_eq!(bin_range(44000, 32768), (20, 3117));
    assert_eq!(bin_range(48000, 1024), (1, 89));
}

#[test]
fn first_lobe_skips_what_precedes_it() {
    assert_eq!(first_lobe(&vec![Flat, Low, High, High, High, Flat, High]), Lobe::Curve(2, 5));
    assert_eq!(first_lobe(&vec![Flat, High, Low, High]), Lobe::Point(1));
    assert_eq!(first_lobe(&vec![High, High]), Lobe::Pair(0));
    assert_eq!(first_lobe(&vec![Flat, Low, Flat]), Lobe::Missing);
    assert_eq!(first_lobe(&vec![]), Lobe::Missing);
}

#[test]
fn side_lobe_follows_the_central_lobe() {
    let signs = vec![Positive, Positive, Negative, Negative, Positive, Positive, Positive, Negative, Positive];
    assert_eq!(side_lobe(&signs), Lobe::Curve(4, 7));
    assert_eq!(side_lobe(&vec![Positive, Negative, Positive, Positive]), Lobe::Pair(2));
    assert_eq!(side_lobe(&vec![Positive, Zero, Positive]), Lobe::Missing);
    assert_eq!(side_lobe(&vec![Positive, Negative]), Lobe::Missing);
}

#[test]
fn harmonic_pitch_slots() {
    let h = HarmonicPitch::new(p(10, 7));
    assert_eq!(h.harmonics[0], p(10, 7));
    assert!(!h.is_harmonic());
    assert_eq!(h.absolute_intensity(), 7);
    assert_eq!(h.num_overtones(), 0);
    let full = HarmonicPitch { harmonics: [p(10, 7), p(20, 5), p(0, 0), p(40, u64::MAX), p(0, 0)] };
    assert!(full.is_harmonic());
    assert_eq!(full.num_overtones(), 2);
    assert_eq!(full.absolute_intensity(), 12 + u64::MAX as u128);
}

#[test]
fn weakest_slot_is_the_first_minimum() {
    assert_eq!(get_index_of_lowest_intensity(&vec![p(1, 5), p(2, 3), p(3, 3), p(4, 9)]), Some(1));
    assert_eq!(get_index_of_lowest_intensity(&vec![p(1, 5)]), Some(0));
    assert_eq!(get_index_of_lowest_intensity(&vec![]), None);
    let mut none: Vec<BinPartial> = vec![];
    add_partial_if_high_intensity_and_within_freq_range(p(7, 4), &mut none, 100);
    assert!(none.is_empty());
    let mut slots = vec![p(1, 5), p(2, 3), p(3, 3)];
    add_partial_if_high_intensity_and_within_freq_range(p(7, 4), &mut slots, 100);
    assert_eq!(slots, vec![p(1, 5), p(7, 4), p(3, 3)]);
    add_partial_if_high_intensity_and_within_freq_range(p(200, 40), &mut slots, 100);
    assert_eq!(slots, vec![p(1, 5), p(7, 4), p(3, 3)]);
    add_partial_if_high_intensity_and_within_freq_range(p(8, 3), &mut slots, 100);
    assert_eq!(slots, vec![p(1, 5), p(7, 4), p(3, 3)]);
}

#[test]
fn keeps_the_strongest_candidates() {
    let spectrum: Vec<BinPartial> = (1..=40).map(|b| p(b, b as u64)).collect();
    let kept = highest_intensity_partials(&spectrum, 1000);
    assert_eq!(kept.len(), NUM_CANDIDATES);
    let mut bins: Vec<usize> = kept.iter().map(|q| q.bin).collect();
    bins.sort();
    assert_eq!(bins, (11..=40).collect::<Vec<usize>>());
    let few = highest_intensity_partials(&vec![p(3, 9), p(4, 0)], 1000);
    assert_eq!(few.iter().filter(|q| q.intensity > 0).count(), 1);
    assert!(few.contains(&p(3, 9)));
}

#[test]
fn overtones_are_matched_within_two_percent() {
    let candidates = vec![p(100, 50), p(201, 20), p(199, 10), p(305, 5), p(410, 3), p(498, 8)];
    let note = harmonic_note(&candidates, p(100, 50));
    assert_eq!(note.harmonics, [p(100, 50), p(199, 10), p(305, 5), p(0, 0), p(498, 8)]);
    let notes = decompose_into_notes(&candidates);
    assert_eq!(notes.len(), 2);
    assert_eq!(notes[0].harmonics[0], p(100, 50));
    assert_eq!(notes[1].harmonics[0], p(201, 20));
    assert_eq!(notes[1].harmonics[1], p(410, 3));
}

#[test]
fn strongest_harmonic_set_wins() {
    let mut spectrum = vec![p(100, 50), p(200, 40), p(300, 30), p(150, 90), p(310, 60)];
    let r = calc_top_fundamentals(&spectrum, 1000);
    assert_eq!(r, Some(HarmonicEstimate { bin: 100, confidence: 120 }));
    spectrum[3] = p(150, 91);
    let r = calc_top_fundamentals(&spectrum, 1000);
    assert_eq!(r, Some(HarmonicEstimate { bin: 150, confidence: 121 }));
    spectrum.push(p(400, 31));
    let r = calc_top_fundamentals(&spectrum, 1000);
    assert_eq!(r, Some(HarmonicEstimate { bin: 100, confidence: 151 }));
}

#[test]
fn without_overtones_the_strongest_partial_wins() {
    let spectrum = vec![p(100, 50), p(130, 70), p(170, 70), p(700, 99)];
    assert_eq!(calc_top_fundamentals(&spectrum, 1000), Some(HarmonicEstimate { bin: 700, confidence: 99 }));
    assert_eq!(calc_top_fundamentals(&spectrum, 500), Some(HarmonicEstimate { bin: 130, confidence: 70 }));
}

#[test]
fn silent_spectrum_detects_nothing() {
    assert_eq!(calc_top_fundamentals(&vec![], 500), None);
    assert_eq!(calc_top_fundamentals(&vec![p(10, 0), p(20, 0)], 500), None);
    assert_eq!(calc_top_fundamentals(&vec![p(600, 80), p(20, 0)], 500), None);
}

#[test]
fn default_harmonic_pitch_is_silent() {
    let h = HarmonicPitch::default();
    assert_eq!(h.harmonics, [p(0, 0); 5]);
    assert!(!h.is_harmonic());
    assert_eq!(h.absolute_intensity(), 0);
}
