use std::time::Duration;

use typing_engine::diff::CharDiffKind::{Correct, Extra, Incorrect, Missed};
use typing_engine::diff::{word_difference, CharDiffKind};
use typing_engine::metrics::{
    batch_key_strokes, calculate_accuracy, error_batches, text_fits, time_step, FinalStats,
};
use typing_engine::typing::KeyStrokeKind;

fn normalize_wpm(char_amount: f64, time: f64) -> f64 {
    char_amount / 5.0 * (60.0 / time)
}

/// (wpm, raw wpm, correct, incorrect, extra, missed) of a session of the given length.
fn scored(input: &[String], correct: &[String], test_duration: Duration) -> (f64, f64, u64, u64, u64, u64) {
    let s = FinalStats::calculate(input, correct);
    let secs = test_duration.as_secs_f64();
    (
        normalize_wpm(s.wpm_chars as f64, secs),
        normalize_wpm(s.raw_wpm_chars as f64, secs),
        s.correct,
        s.incorrect,
        s.extra,
        s.missed,
    )
}

fn sample_strokes() -> Vec<(u64, KeyStrokeKind)> {
    [
        (0.1, KeyStrokeKind::Correct('a')),
        (0.5, KeyStrokeKind::Correct('a')),
        (0.8, KeyStrokeKind::Space(0)),
        (1.1, KeyStrokeKind::Incorrect('b')),
        (1.3, KeyStrokeKind::Correct('d')),
    ]
    .map(|(d, ks)| (Duration::from_secs_f64(d).as_nanos() as u64, ks))
    .to_vec()
}

fn batched(ks: &[(u64, KeyStrokeKind)], time_step: f64) -> Vec<(f64, f64, f64)> {
    let step = Duration::from_secs_f64(time_step).as_nanos() as u64;
    batch_key_strokes(ks, step)
        .iter()
        .map(|b| (b.key as f64 * time_step, b.chars as f64, b.errors as f64))
        .collect()
}

#[test]
fn word_dif_extra() {
    assert!(word_difference("aabbc", "ahhbcaa")
        .into_iter()
        .eq([Correct, Incorrect, Incorrect, Correct, Correct, Extra, Extra]))
}

#[test]
fn word_dif_missed() {
    assert!(word_difference("bbbdas", "bbb")
        .into_iter()
        .eq([Correct, Correct, Correct, Missed, Missed, Missed]))
}

#[test]
fn batch_ks() {
    let stats = sample_strokes();
    assert_eq!(batched(&stats, 1.0), vec![(1.0, 3.0, 0.0), (2.0, 2.0, 1.0)])
}

#[test]
fn batch_ks_time_step() {
    let stats = sample_strokes();
    assert_eq!(
        batched(&stats, 0.4),
        vec![
            (0.4, 1.0, 0.0),
            (0.8, 2.0, 0.0),
            (1.2000000000000002, 1.0, 1.0),
            (1.6, 1.0, 0.0)
        ]
    )
}

#[test]
fn final_stats_empty() {
    let stats = FinalStats::calculate(&[], &[]);
    assert_eq!(stats, FinalStats::default());
    assert_eq!(scored(&[], &[], Duration::from_secs(60)), (0.0, 0.0, 0, 0, 0, 0));
}

#[test]
fn final_stats_all_correct() {
    let input = ["dac", "b"].map(String::from);
    let correct = ["dac", "bb"].map(String::from);
    // 12 s makes the character count equal the wpm: x/5 * (60/12) = x
    assert_eq!(scored(&input, &correct, Duration::from_secs(12)), (5.0, 5.0, 4, 0, 0, 0))
}

#[test]
fn final_stats_errors() {
    let input = ["bbc", "bda", "cdq", "a"].map(String::from);
    let correct = ["dac", "bb", "cd", "aaa"].map(String::from);
    assert_eq!(scored(&input, &correct, Duration::from_secs(12)), (1.0, 13.0, 5, 3, 2, 0))
}

#[test]
fn final_stats_missed() {
    let input = ["bb", "b", "ha", "b"].map(String::from);
    let correct = ["bbaa", "baaa", "haaa", "b"].map(String::from);
    assert_eq!(scored(&input, &correct, Duration::from_secs(12)), (2.0, 10.0, 6, 0, 0, 7))
}

#[test]
fn final_stats_duration() {
    let input = ["aaaa", "aaaa", "aaaa", "aaaa"].map(String::from);
    let correct = ["aaaa", "aaaa", "aaaa", "aaaa"].map(String::from);
    assert_eq!(
        scored(&input, &correct, Duration::from_secs(60)),
        (20.0 / 5.0, 20.0 / 5.0, 16, 0, 0, 0)
    )
}

#[test]
fn final_stats_counts_are_characters() {
    let input = ["dac", "b"].map(String::from);
    let correct = ["dac", "bb"].map(String::from);
    let s = FinalStats::calculate(&input, &correct);
    assert_eq!(s.wpm_chars, 5);
    assert_eq!(s.raw_wpm_chars, 5);
}

#[test]
fn final_stats_last_word_longer_than_target() {
    // the last word overshoots its target: full diff, raw counts it with a space
    let input = ["ab", "abcd"].map(String::from);
    let correct = ["ab", "ab"].map(String::from);
    let s = FinalStats::calculate(&input, &correct);
    assert_eq!((s.wpm_chars, s.raw_wpm_chars), (3, 8));
    assert_eq!((s.correct, s.incorrect, s.extra, s.missed), (4, 0, 2, 0));
}

#[test]
fn final_stats_pairs_stop_at_shorter_list() {
    let input = ["ab", "cd", ""].map(String::from);
    let correct = ["ab", "cd"].map(String::from);
    let s = FinalStats::calculate(&input, &correct);
    assert_eq!((s.wpm_chars, s.raw_wpm_chars, s.correct), (6, 6, 4));
}

#[test]
fn word_dif_equal_and_empty() {
    assert_eq!(word_difference("abc", "abc"), vec![Correct, Correct, Correct]);
    assert_eq!(word_difference("", ""), Vec::<CharDiffKind>::new());
    assert_eq!(word_difference("", "xy"), vec![Extra, Extra]);
    assert_eq!(word_difference("xy", ""), vec![Missed, Missed]);
}

#[test]
fn accuracy_counts_boundaries_with_overflow_as_misses() {
    let ks = vec![
        (1, KeyStrokeKind::Correct('a')),
        (2, KeyStrokeKind::Incorrect('b')),
        (3, KeyStrokeKind::Space(0)),
        (4, KeyStrokeKind::Space(-2)),
        (5, KeyStrokeKind::Space(1)),
        (6, KeyStrokeKind::Correct('c')),
    ];
    let acc = calculate_accuracy(&ks);
    assert_eq!((acc.correct, acc.incorrect), (2, 3));
    let empty = calculate_accuracy(&[]);
    assert_eq!((empty.correct, empty.incorrect), (0, 0));
}

#[test]
fn time_step_is_a_twentieth_but_at_least_half_a_second() {
    assert_eq!(time_step(60_000_000_000), 3_000_000_000);
    assert_eq!(time_step(5_000_000_000), 500_000_000);
    assert_eq!(time_step(0), 500_000_000);
}

#[test]
fn batches_split_on_key_change_only() {
    // keys 1, 2, 1: a returning key starts a new batch
    let ks = vec![(10, KeyStrokeKind::Correct('a')), (150, KeyStrokeKind::Incorrect('b')), (90, KeyStrokeKind::Correct('c'))];
    let b = batch_key_strokes(&ks, 100);
    let got: Vec<(u64, u64, u64)> = b.iter().map(|b| (b.key, b.chars, b.errors)).collect();
    assert_eq!(got, vec![(1, 1, 0), (2, 1, 1), (1, 1, 0)]);
    assert!(batch_key_strokes(&[], 100).is_empty());
    // exactly on a step boundary the key is not rounded up
    let on_edge = batch_key_strokes(&[(200, KeyStrokeKind::Correct('a'))], 100);
    assert_eq!(on_edge[0].key, 2);
}

#[test]
fn text_fits_small_lists() {
    let input = ["ab"].map(String::from);
    assert!(text_fits(&input, &input));
    assert!(text_fits(&[], &[]));
}

#[test]
fn final_stats_last_word_not_a_prefix_is_fully_aligned() {
    let input = ["ab", "ax"].map(String::from);
    let correct = ["ab", "bbbb"].map(String::from);
    let s = FinalStats::calculate(&input, &correct);
    assert_eq!((s.correct, s.incorrect, s.extra, s.missed), (2, 2, 0, 2));
    assert_eq!((s.wpm_chars, s.raw_wpm_chars), (3, 6));
}

#[test]
fn final_stats_last_word_prefix_counts_own_length() {
    let input = ["ab", "cd"].map(String::from);
    let correct = ["ab", "cdef"].map(String::from);
    let s = FinalStats::calculate(&input, &correct);
    assert_eq!((s.correct, s.incorrect, s.extra, s.missed), (4, 0, 0, 0));
    assert_eq!((s.wpm_chars, s.raw_wpm_chars), (5, 5));
}

#[test]
fn error_series_keeps_batches_with_errors() {
    let stats = sample_strokes();
    let b = batch_key_strokes(&stats, 400_000_000);
    let e = error_batches(&b);
    let got: Vec<(u64, u64, u64)> = e.iter().map(|b| (b.key, b.chars, b.errors)).collect();
    assert_eq!(got, vec![(3, 1, 1)]);
    assert!(error_batches(&[]).is_empty());
}
