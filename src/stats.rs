//! The snapshot of a finished session: everything the results view shows.

use crate::metrics::{
    accuracy_counts, batch_key_strokes, batches, calculate_accuracy, final_stats_of, text_size,
    time_step, words_view, Accuracy, Batch, FinalStats, MIN_TIME_STEP,
};
use crate::typing::KeyStrokeKind;
use vstd::prelude::*;

verus! {

/// A finished session. Speeds are character counts over time: divide by five
/// for words, then by the minutes (`test_duration` for the totals,
/// `time_step` for each batch).
pub struct StatsState {
    /// Keystrokes per chart bucket; a bucket ends `key * time_step` after the start.
    pub batches: Vec<Batch>,
    /// Width of a chart bucket, in nanoseconds.
    pub time_step: u64,
    pub accuracy: Accuracy,
    pub key_strokes: Vec<(u64, KeyStrokeKind)>,
    /// The length the speeds are normalised by, in nanoseconds.
    pub test_duration: u64,
    pub final_stats: FinalStats,
}

/// What the results of a session are: `s` holds them for the keystroke log
/// `ks`, the length `duration` and the typed and target words.
pub open spec fn is_stats_of(
    s: StatsState,
    ks: Seq<(u64, KeyStrokeKind)>,
    duration: u64,
    inputs: Seq<Seq<char>>,
    targets: Seq<Seq<char>>,
) -> bool {
    &&& s.time_step == if duration / 20 >= MIN_TIME_STEP {
        duration / 20
    } else {
        MIN_TIME_STEP
    }
    &&& s.batches@.len() == batches(ks, s.time_step).len()
    &&& forall|j: int|
        0 <= j < s.batches@.len() ==> (
            #[trigger] s.batches@[j].key,
            s.batches@[j].chars as nat,
            s.batches@[j].errors as nat,
        ) == batches(ks, s.time_step)[j]
    &&& (s.accuracy.correct as nat, s.accuracy.incorrect as nat) == accuracy_counts(ks)
    &&& s.key_strokes@ == ks
    &&& s.test_duration == duration
    &&& (s.final_stats.wpm_chars as nat, s.final_stats.raw_wpm_chars as nat,
        s.final_stats.correct as nat, s.final_stats.incorrect as nat, s.final_stats.extra as nat,
        s.final_stats.missed as nat) == final_stats_of(inputs, targets)
}

impl StatsState {
    /// Computes the results of a session from its keystroke log, its length and
    /// the typed and target words.
    pub fn new(
        key_strokes: Vec<(u64, KeyStrokeKind)>,
        test_duration: u64,
        inputted_words: &[String],
        correct_words: &[String],
    ) -> (r: Self)
        requires
            text_size(words_view(inputted_words@)) + text_size(words_view(correct_words@))
                <= u64::MAX,
        ensures
            is_stats_of(
                r,
                key_strokes@,
                test_duration,
                words_view(inputted_words@),
                words_view(correct_words@),
            ),
    {
        let step = time_step(test_duration);
        let batched = batch_key_strokes(key_strokes.as_slice(), step);
        let accuracy = calculate_accuracy(key_strokes.as_slice());
        let final_stats = FinalStats::calculate(inputted_words, correct_words);
        StatsState {
            batches: batched,
            time_step: step,
            accuracy,
            key_strokes,
            test_duration,
            final_stats,
        }
    }
}

} // verus!
