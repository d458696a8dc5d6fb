//! End-of-session metrics: character tallies per diff kind, the character
//! counts behind wpm and raw wpm, keystroke accuracy and time buckets.

use crate::diff::{word_diff, word_difference, CharDiffKind};
use crate::typing::KeyStrokeKind;
use itertools::Itertools;
use vstd::prelude::*;

verus! {

/// `f(0) + f(1) + ... + f(n - 1)`.
pub open spec fn sum_to(n: nat, f: spec_fn(int) -> nat) -> nat
    decreases n,
{
    if n == 0 {
        0
    } else {
        sum_to((n - 1) as nat, f) + f(n - 1)
    }
}

/// How many entries of `s` are `k`.
pub open spec fn count_kind(s: Seq<CharDiffKind>, k: CharDiffKind) -> nat
    decreases s.len(),
{
    if s.len() == 0 {
        0
    } else {
        count_kind(s.drop_last(), k) + if s.last() == k {
            1nat
        } else {
            0nat
        }
    }
}

pub open spec fn words_view(ws: Seq<String>) -> Seq<Seq<char>> {
    ws.map_values(|w: String| w@)
}

/// The number of (input, target) pairs that are scored.
pub open spec fn pair_count(inputs: Seq<Seq<char>>, targets: Seq<Seq<char>>) -> nat {
    if inputs.len() <= targets.len() {
        inputs.len()
    } else {
        targets.len()
    }
}

/// Characters of a list of words with one separator after each.
pub open spec fn text_size(ws: Seq<Seq<char>>) -> nat {
    sum_to(ws.len(), |i: int| ws[i].len() + 1)
}

pub open spec fn is_prefix_of(a: Seq<char>, b: Seq<char>) -> bool {
    a.len() <= b.len() && b.take(a.len() as int) == a
}

/// The part of the target that a word is scored against. The last typed word,
/// when it is a prefix of its target, is scored only against as much of the
/// target as was typed, so a session cut short mid-word is not charged for the
/// untyped rest; every other word is scored against its whole target.
pub open spec fn scored_target(input: Seq<char>, target: Seq<char>, last: bool) -> Seq<char> {
    if last && is_prefix_of(input, target) {
        target.take(input.len() as int)
    } else {
        target
    }
}

/// Characters a word adds to the wpm count: a fully correct word counts with
/// its separator; the last word, when a prefix of its target, counts its own
/// characters; any other word counts nothing.
pub open spec fn wpm_gain(input: Seq<char>, target: Seq<char>, last: bool) -> nat {
    if input == target {
        input.len() + 1
    } else if last && is_prefix_of(input, target) {
        input.len()
    } else {
        0
    }
}

/// Characters a word adds to the raw wpm count: every word counts with its
/// separator, except a last word that is a proper prefix of its target.
pub open spec fn raw_gain(input: Seq<char>, target: Seq<char>, last: bool) -> nat {
    if input != target && last && is_prefix_of(input, target) {
        input.len()
    } else {
        input.len() + 1
    }
}

/// The diff of pair `i`, with the rule for the last typed word.
pub open spec fn pair_diff(inputs: Seq<Seq<char>>, targets: Seq<Seq<char>>, i: int) -> Seq<
    CharDiffKind,
> {
    let last = i == inputs.len() - 1;
    word_diff(scored_target(inputs[i], targets[i], last), inputs[i])
}

pub open spec fn kind_terms(inputs: Seq<Seq<char>>, targets: Seq<Seq<char>>, k: CharDiffKind) -> spec_fn(int) -> nat {
    |i: int| count_kind(pair_diff(inputs, targets, i), k)
}

pub open spec fn wpm_terms(inputs: Seq<Seq<char>>, targets: Seq<Seq<char>>) -> spec_fn(int) -> nat {
    |i: int| wpm_gain(inputs[i], targets[i], i == inputs.len() - 1)
}

pub open spec fn raw_terms(inputs: Seq<Seq<char>>, targets: Seq<Seq<char>>) -> spec_fn(int) -> nat {
    |i: int| raw_gain(inputs[i], targets[i], i == inputs.len() - 1)
}

/// Upper bound on what pair `i` adds to any one tally.
pub open spec fn size_terms(inputs: Seq<Seq<char>>, targets: Seq<Seq<char>>) -> spec_fn(int) -> nat {
    |i: int| inputs[i].len() + 1 + targets[i].len() + 1
}

/// How many positions of all scored pairs are of kind `k`.
pub open spec fn kind_total(inputs: Seq<Seq<char>>, targets: Seq<Seq<char>>, k: CharDiffKind) -> nat {
    sum_to(pair_count(inputs, targets), kind_terms(inputs, targets, k))
}

/// The character count behind wpm.
pub open spec fn wpm_total(inputs: Seq<Seq<char>>, targets: Seq<Seq<char>>) -> nat {
    sum_to(pair_count(inputs, targets), wpm_terms(inputs, targets))
}

/// The character count behind raw wpm.
pub open spec fn raw_total(inputs: Seq<Seq<char>>, targets: Seq<Seq<char>>) -> nat {
    sum_to(pair_count(inputs, targets), raw_terms(inputs, targets))
}

/// The tallies that `FinalStats::calculate` returns, as a spec value.
pub open spec fn final_stats_of(inputs: Seq<Seq<char>>, targets: Seq<Seq<char>>) -> (nat, nat, nat, nat, nat, nat) {
    (
        wpm_total(inputs, targets),
        raw_total(inputs, targets),
        kind_total(inputs, targets, CharDiffKind::Correct),
        kind_total(inputs, targets, CharDiffKind::Incorrect),
        kind_total(inputs, targets, CharDiffKind::Extra),
        kind_total(inputs, targets, CharDiffKind::Missed),
    )
}

proof fn lemma_sum_bounded(n: nat, m: nat, f: spec_fn(int) -> nat, g: spec_fn(int) -> nat)
    requires
        n <= m,
        forall|j: int| 0 <= j < m ==> #[trigger] f(j) <= g(j),
    ensures
        sum_to(n, f) <= sum_to(m, g),
    decreases m,
{
    if m > 0 {
        if n == m {
            lemma_sum_bounded((n - 1) as nat, (m - 1) as nat, f, g);
        } else {
            lemma_sum_bounded(n, (m - 1) as nat, f, g);
        }
    }
}

proof fn lemma_sum_split(n: nat, f: spec_fn(int) -> nat, g: spec_fn(int) -> nat, h: spec_fn(int) -> nat)
    requires
        forall|j: int| 0 <= j < n ==> #[trigger] h(j) == f(j) + g(j),
    ensures
        sum_to(n, h) == sum_to(n, f) + sum_to(n, g),
    decreases n,
{
    if n > 0 {
        lemma_sum_split((n - 1) as nat, f, g, h);
    }
}

proof fn lemma_count_le(s: Seq<CharDiffKind>, k: CharDiffKind)
    ensures
        count_kind(s, k) <= s.len(),
    decreases s.len(),
{
    if s.len() > 0 {
        lemma_count_le(s.drop_last(), k);
    }
}

/// Every tally of the first `n` pairs fits within the sizes of both word lists.
proof fn lemma_tally_bounds(inputs: Seq<Seq<char>>, targets: Seq<Seq<char>>, n: nat)
    requires
        n <= pair_count(inputs, targets),
    ensures
        sum_to(n, wpm_terms(inputs, targets)) <= text_size(inputs) + text_size(targets),
        sum_to(n, raw_terms(inputs, targets)) <= text_size(inputs) + text_size(targets),
        forall|k: CharDiffKind|
            sum_to(n, #[trigger] kind_terms(inputs, targets, k)) <= text_size(inputs) + text_size(
                targets,
            ),
{
    let k = pair_count(inputs, targets);
    let g = size_terms(inputs, targets);
    let a = |i: int| inputs[i].len() + 1;
    let b = |i: int| targets[i].len() + 1;
    lemma_sum_split(k, a, b, g);
    lemma_sum_bounded(k, inputs.len(), a, a);
    lemma_sum_bounded(k, targets.len(), b, b);
    lemma_sum_bounded(n, k, wpm_terms(inputs, targets), g);
    lemma_sum_bounded(n, k, raw_terms(inputs, targets), g);
    assert forall|kd: CharDiffKind|
        sum_to(n, #[trigger] kind_terms(inputs, targets, kd)) <= text_size(inputs) + text_size(
            targets,
        ) by {
        assert forall|j: int| 0 <= j < k implies #[trigger] kind_terms(inputs, targets, kd)(j) <= g(
            j,
        ) by {
            lemma_count_le(pair_diff(inputs, targets, j), kd);
        }
        lemma_sum_bounded(n, k, kind_terms(inputs, targets, kd), g);
    }
}

proof fn lemma_count_all_correct(s: Seq<CharDiffKind>, k: CharDiffKind)
    requires
        forall|i: int| 0 <= i < s.len() ==> s[i] == CharDiffKind::Correct,
    ensures
        count_kind(s, k) == if k == CharDiffKind::Correct {
            s.len()
        } else {
            0
        },
    decreases s.len(),
{
    if s.len() > 0 {
        lemma_count_all_correct(s.drop_last(), k);
    }
}

/// A last typed word that is a proper prefix of its target (the session ended
/// mid-word) adds its own length, without a separator, to both the wpm and the
/// raw wpm counts; all its characters are correct, and nothing is charged as
/// incorrect, extra or missed for the untyped rest of the target.
pub proof fn lemma_unfinished_last_word(input: Seq<char>, target: Seq<char>)
    requires
        is_prefix_of(input, target),
        input != target,
    ensures
        wpm_gain(input, target, true) == input.len(),
        raw_gain(input, target, true) == input.len(),
        count_kind(word_diff(scored_target(input, target, true), input), CharDiffKind::Correct)
            == input.len(),
        count_kind(word_diff(scored_target(input, target, true), input), CharDiffKind::Incorrect)
            == 0,
        count_kind(word_diff(scored_target(input, target, true), input), CharDiffKind::Extra) == 0,
        count_kind(word_diff(scored_target(input, target, true), input), CharDiffKind::Missed) == 0,
{
    let d = word_diff(scored_target(input, target, true), input);
    assert(scored_target(input, target, true) == input);
    assert forall|i: int| 0 <= i < d.len() implies d[i] == CharDiffKind::Correct by {}
    lemma_count_all_correct(d, CharDiffKind::Correct);
    lemma_count_all_correct(d, CharDiffKind::Incorrect);
    lemma_count_all_correct(d, CharDiffKind::Extra);
    lemma_count_all_correct(d, CharDiffKind::Missed);
}

/// Whether both word lists are small enough for their tallies to fit in `u64`.
pub fn text_fits(inputted_words: &[String], correct_words: &[String]) -> (r: bool)
    ensures
        r == (text_size(words_view(inputted_words@)) + text_size(words_view(correct_words@))
            <= u64::MAX),
{
    let a = text_len(inputted_words);
    let b = text_len(correct_words);
    match (a, b) {
        (Some(x), Some(y)) => x.checked_add(y).is_some(),
        _ => false,
    }
}

/// `text_size` of the words, if it fits in `u64`.
fn text_len(words: &[String]) -> (r: Option<u64>)
    ensures
        r is Some <==> text_size(words_view(words@)) <= u64::MAX,
        r is Some ==> r->0 == text_size(words_view(words@)),
{
    let ghost wv = words_view(words@);
    let ghost f = |i: int| wv[i].len() + 1;
    let mut total: u64 = 0;
    let mut i: usize = 0;
    while i < words.len()
        invariant
            wv == words_view(words@),
            f == (|i: int| wv[i].len() + 1),
            i <= words@.len(),
            total == sum_to(i as nat, f),
        decreases words@.len() - i,
    {
        let n = words[i].as_str().unicode_len();
        assert(wv[i as int] == words@[i as int]@);
        assert(sum_to((i + 1) as nat, f) == total + n + 1);
        match total.checked_add(n as u64) {
            Some(t) => match t.checked_add(1) {
                Some(t1) => total = t1,
                None => {
                    proof {
                        lemma_sum_bounded((i + 1) as nat, wv.len(), f, f);
                    }
                    return None;
                },
            },
            None => {
                proof {
                    lemma_sum_bounded((i + 1) as nat, wv.len(), f, f);
                }
                return None;
            },
        }
        i = i + 1;
    }
    Some(total)
}

/// Whether `a` is a prefix of `b`.
fn is_prefix(a: &str, b: &str) -> (r: bool)
    ensures
        r == is_prefix_of(a@, b@),
{
    let la = a.unicode_len();
    let lb = b.unicode_len();
    if la > lb {
        return false;
    }
    let mut i: usize = 0;
    while i < la
        invariant
            la == a@.len(),
            lb == b@.len(),
            la <= lb,
            i <= la,
            forall|j: int| 0 <= j < i ==> a@[j] == b@[j],
        decreases la - i,
    {
        if a.get_char(i) != b.get_char(i) {
            assert(b@.take(la as int)[i as int] != a@[i as int]);
            return false;
        }
        i = i + 1;
    }
    assert(b@.take(la as int) =~= a@);
    true
}

/// The tallies of a finished session. `wpm_chars` and `raw_wpm_chars` are
/// character counts; speeds follow by dividing by five and by the minutes
/// the session lasted.
#[derive(Debug, Clone, Copy, PartialEq, Eq, Structural)]
pub struct FinalStats {
    pub wpm_chars: u64,
    pub raw_wpm_chars: u64,
    pub correct: u64,
    pub incorrect: u64,
    pub extra: u64,
    pub missed: u64,
}

impl Default for FinalStats {
    fn default() -> (r: Self)
        ensures
            r == (FinalStats {
                wpm_chars: 0,
                raw_wpm_chars: 0,
                correct: 0,
                incorrect: 0,
                extra: 0,
                missed: 0,
            }),
    {
        FinalStats { wpm_chars: 0, raw_wpm_chars: 0, correct: 0, incorrect: 0, extra: 0, missed: 0 }
    }
}

/// Keystrokes that count as hits and as misses for accuracy: a matching
/// character is a hit; a mismatched character, and a word boundary that closed
/// a word of the wrong length, are misses; other boundaries count for neither.
pub open spec fn accuracy_counts(ks: Seq<(u64, KeyStrokeKind)>) -> (nat, nat)
    decreases ks.len(),
{
    if ks.len() == 0 {
        (0, 0)
    } else {
        let (c, w) = accuracy_counts(ks.drop_last());
        match ks.last().1 {
            KeyStrokeKind::Correct(_) => (c + 1, w),
            KeyStrokeKind::Incorrect(_) => (c, w + 1),
            KeyStrokeKind::Space(n) => if n != 0 {
                (c, w + 1)
            } else {
                (c, w)
            },
        }
    }
}

/// Hits and misses among the keystrokes of a session; the accuracy is
/// `correct / (correct + incorrect)`.
#[derive(Debug, Clone, Copy, PartialEq, Eq, Structural)]
pub struct Accuracy {
    pub correct: u64,
    pub incorrect: u64,
}

/// Counts hits and misses over the keystroke log.
pub fn calculate_accuracy(key_strokes: &[(u64, KeyStrokeKind)]) -> (r: Accuracy)
    ensures
        (r.correct as nat, r.incorrect as nat) == accuracy_counts(key_strokes@),
{
    let mut correct: u64 = 0;
    let mut incorrect: u64 = 0;
    let mut i: usize = 0;
    while i < key_strokes.len()
        invariant
            i <= key_strokes@.len(),
            (correct as nat, incorrect as nat) == accuracy_counts(key_strokes@.take(i as int)),
            correct + incorrect <= i,
        decreases key_strokes@.len() - i,
    {
        assert(key_strokes@.take(i as int + 1).drop_last() =~= key_strokes@.take(i as int));
        match key_strokes[i].1 {
            KeyStrokeKind::Correct(_) => correct = correct + 1,
            KeyStrokeKind::Incorrect(_) => incorrect = incorrect + 1,
            KeyStrokeKind::Space(n) => if n != 0 {
                incorrect = incorrect + 1;
            },
        }
        i = i + 1;
    }
    assert(key_strokes@.take(key_strokes@.len() as int) =~= key_strokes@);
    Accuracy { correct, incorrect }
}

/// The smallest time step used for charting, in nanoseconds (half a second).
pub const MIN_TIME_STEP: u64 = 500_000_000;

/// The width of a chart bucket for a session of the given length: a
/// twentieth of it, but never under half a second (all in nanoseconds).
pub fn time_step(test_duration: u64) -> (r: u64)
    ensures
        r == if test_duration / 20 >= MIN_TIME_STEP {
            test_duration / 20
        } else {
            MIN_TIME_STEP
        },
        r > 0,
{
    let t = test_duration / 20;
    if t >= MIN_TIME_STEP {
        t
    } else {
        MIN_TIME_STEP
    }
}

/// The bucket of a keystroke made `elapsed` after the start: `ceil(elapsed / step)`.
pub open spec fn bucket_of(elapsed: u64, step: u64) -> int {
    elapsed as int / step as int + if elapsed as int % step as int == 0 {
        0int
    } else {
        1int
    }
}

pub open spec fn bucket_keys(ks: Seq<(u64, KeyStrokeKind)>, step: u64) -> Seq<u64> {
    ks.map_values(|k: (u64, KeyStrokeKind)| bucket_of(k.0, step) as u64)
}

/// Maximal runs of equal consecutive keys, each as (key, length), in order.
pub open spec fn runs(keys: Seq<u64>) -> Seq<(u64, nat)>
    decreases keys.len(),
{
    if keys.len() == 0 {
        Seq::empty()
    } else {
        let prev = runs(keys.drop_last());
        let k = keys.last();
        if prev.len() > 0 && prev.last().0 == k {
            prev.update(prev.len() - 1, (k, prev.last().1 + 1))
        } else {
            prev.push((k, 1))
        }
    }
}

/// Where run `j` starts: the total length of the runs before it.
pub open spec fn run_start(rs: Seq<(u64, nat)>, j: int) -> nat
    decreases j,
{
    if j <= 0 {
        0
    } else {
        run_start(rs, j - 1) + rs[j - 1].1
    }
}

/// How many keystrokes of `ks` are mismatched characters.
pub open spec fn error_count(ks: Seq<(u64, KeyStrokeKind)>) -> nat
    decreases ks.len(),
{
    if ks.len() == 0 {
        0
    } else {
        error_count(ks.drop_last()) + if ks.last().1 is Incorrect {
            1nat
        } else {
            0nat
        }
    }
}

/// The chart buckets of a keystroke log: one per maximal run of consecutive
/// keystrokes that share a bucket, as (bucket, keystrokes, mismatched characters).
pub open spec fn batches(ks: Seq<(u64, KeyStrokeKind)>, step: u64) -> Seq<(u64, nat, nat)> {
    let rs = runs(bucket_keys(ks, step));
    Seq::new(
        rs.len(),
        |j: int|
            (
                rs[j].0,
                rs[j].1,
                error_count(ks.subrange(run_start(rs, j) as int, (run_start(rs, j) + rs[j].1) as int)),
            ),
    )
}

/// Relies on `Itertools::group_by` keyed by the value itself: it yields the
/// maximal runs of consecutive equal values, in order; each run is returned
/// with its length (`Iterator::count` of the group).
#[verifier::external_body]
fn group_runs(keys: &Vec<u64>) -> (r: Vec<(u64, usize)>)
    ensures
        r@.len() == runs(keys@).len(),
        forall|j: int|
            0 <= j < r@.len() ==> #[trigger] r@[j].0 == runs(keys@)[j].0 && r@[j].1 as nat == runs(
                keys@,
            )[j].1,
{
    let groups = keys.iter().group_by(|k| **k);
    let r = groups.into_iter().map(|(k, g)| (k, g.count())).collect();
    r
}

proof fn lemma_run_start_agree(s: Seq<(u64, nat)>, t: Seq<(u64, nat)>, j: int)
    requires
        0 <= j <= s.len(),
        j <= t.len(),
        forall|i: int| 0 <= i < j ==> #[trigger] s[i].1 == t[i].1,
    ensures
        run_start(s, j) == run_start(t, j),
    decreases j,
{
    if j > 0 {
        lemma_run_start_agree(s, t, j - 1);
    }
}

proof fn lemma_run_start_mono(s: Seq<(u64, nat)>, i: int, j: int)
    requires
        0 <= i <= j,
    ensures
        run_start(s, i) <= run_start(s, j),
    decreases j,
{
    if i < j {
        lemma_run_start_mono(s, i, j - 1);
    }
}

/// The runs of a sequence cover it exactly.
proof fn lemma_runs_cover(keys: Seq<u64>)
    ensures
        run_start(runs(keys), runs(keys).len() as int) == keys.len(),
    decreases keys.len(),
{
    if keys.len() > 0 {
        let prev = runs(keys.drop_last());
        lemma_runs_cover(keys.drop_last());
        let rs = runs(keys);
        let k = keys.last();
        if prev.len() > 0 && prev.last().0 == k {
            let n = prev.len() as int;
            lemma_run_start_agree(rs, prev, n - 1);
            assert(run_start(rs, n) == run_start(rs, n - 1) + rs[n - 1].1);
        } else {
            let n = prev.len() as int;
            lemma_run_start_agree(rs, prev, n);
            assert(run_start(rs, n + 1) == run_start(rs, n) + rs[n].1);
        }
    }
}

/// A bucket of the keystroke log: its index, how many keystrokes fell in it
/// and how many of those were mismatched characters. The bucket ends at
/// `key` time steps after the start.
#[derive(Debug, Clone, Copy, PartialEq, Eq, Structural)]
pub struct Batch {
    pub key: u64,
    pub chars: u64,
    pub errors: u64,
}

/// Groups the keystroke log into buckets of width `time_step` (nanoseconds);
/// consecutive keystrokes with the same bucket index form one batch.
pub fn batch_key_strokes(key_strokes: &[(u64, KeyStrokeKind)], time_step: u64) -> (r: Vec<Batch>)
    requires
        time_step > 0,
    ensures
        r@.len() == batches(key_strokes@, time_step).len(),
        forall|j: int|
            0 <= j < r@.len() ==> (#[trigger] r@[j].key, r@[j].chars as nat, r@[j].errors as nat)
                == batches(key_strokes@, time_step)[j],
{
    let ghost ks = key_strokes@;
    let mut keys: Vec<u64> = Vec::new();
    let mut i: usize = 0;
    while i < key_strokes.len()
        invariant
            ks == key_strokes@,
            i <= ks.len(),
            time_step > 0,
            keys@ =~= bucket_keys(ks, time_step).take(i as int),
        decreases ks.len() - i,
    {
        let e = key_strokes[i].0;
        let q = e / time_step;
        let key = if e % time_step == 0 {
            q
        } else {
            proof {
                vstd::arithmetic::div_mod::lemma_div_is_ordered_by_denominator(e as int, 2, time_step as int);
            }
            q + 1
        };
        keys.push(key);
        i = i + 1;
    }
    assert(keys@ =~= bucket_keys(ks, time_step));
    let rs = group_runs(&keys);
    let ghost srs = runs(keys@);
    proof {
        lemma_runs_cover(keys@);
    }
    let total = key_strokes.len();
    let mut r: Vec<Batch> = Vec::new();
    let mut start: usize = 0;
    let mut j: usize = 0;
    while j < rs.len()
        invariant
            ks == key_strokes@,
            srs == runs(bucket_keys(ks, time_step)),
            rs@.len() == srs.len(),
            forall|x: int|
                0 <= x < rs@.len() ==> #[trigger] rs@[x].0 == srs[x].0 && rs@[x].1 as nat == srs[x].1,
            run_start(srs, srs.len() as int) == ks.len(),
            total == ks.len(),
            j <= rs@.len(),
            start == run_start(srs, j as int),
            r@.len() == j,
            forall|x: int|
                0 <= x < j ==> (#[trigger] r@[x].key, r@[x].chars as nat, r@[x].errors as nat)
                    == batches(ks, time_step)[x],
        decreases rs@.len() - j,
    {
        let (key, len) = rs[j];
        proof {
            lemma_run_start_mono(srs, j as int + 1, srs.len() as int);
            assert(run_start(srs, j as int + 1) == run_start(srs, j as int) + srs[j as int].1);
        }
        let end: usize = start + len;
        let mut errors: u64 = 0;
        let mut p: usize = start;
        while p < end
            invariant
                ks == key_strokes@,
                start <= p <= end,
                end <= ks.len(),
                errors == error_count(ks.subrange(start as int, p as int)),
                errors <= p - start,
            decreases end - p,
        {
            assert(ks.subrange(start as int, p + 1).drop_last() =~= ks.subrange(start as int, p as int));
            if matches!(key_strokes[p].1, KeyStrokeKind::Incorrect(_)) {
                errors = errors + 1;
            }
            p = p + 1;
        }
        r.push(Batch { key, chars: len as u64, errors });
        start = end;
        j = j + 1;
    }
    r
}

/// The batches that hold at least one mismatched character, in order: the
/// points of the errors series.
pub open spec fn error_batches_of(s: Seq<Batch>) -> Seq<Batch>
    decreases s.len(),
{
    if s.len() == 0 {
        Seq::empty()
    } else {
        let p = error_batches_of(s.drop_last());
        if s.last().errors != 0 {
            p.push(s.last())
        } else {
            p
        }
    }
}

/// Keeps the batches with errors, for the errors series of the chart.
pub fn error_batches(batches: &[Batch]) -> (r: Vec<Batch>)
    ensures
        r@ == error_batches_of(batches@),
{
    let mut r: Vec<Batch> = Vec::new();
    let mut i: usize = 0;
    while i < batches.len()
        invariant
            i <= batches@.len(),
            r@ == error_batches_of(batches@.take(i as int)),
        decreases batches@.len() - i,
    {
        assert(batches@.take(i as int + 1).drop_last() =~= batches@.take(i as int));
        let b = batches[i];
        if b.errors != 0 {
            r.push(b);
        }
        i = i + 1;
    }
    assert(batches@.take(batches@.len() as int) =~= batches@);
    r
}

impl FinalStats {
    /// Scores the typed words against the target words, pair by pair in order
    /// (pairs stop at the shorter list).
    pub fn calculate(inputted_words: &[String], correct_words: &[String]) -> (r: FinalStats)
        requires
            text_size(words_view(inputted_words@)) + text_size(words_view(correct_words@))
                <= u64::MAX,
        ensures
            (r.wpm_chars as nat, r.raw_wpm_chars as nat, r.correct as nat, r.incorrect as nat,
                r.extra as nat, r.missed as nat) == final_stats_of(
                words_view(inputted_words@),
                words_view(correct_words@),
            ),
    {
        let ghost iv = words_view(inputted_words@);
        let ghost tv = words_view(correct_words@);
        let n: usize = if inputted_words.len() <= correct_words.len() {
            inputted_words.len()
        } else {
            correct_words.len()
        };
        let mut acc = FinalStats::default();
        let mut i: usize = 0;
        while i < n
            invariant
                iv == words_view(inputted_words@),
                tv == words_view(correct_words@),
                n == pair_count(iv, tv),
                i <= n,
                text_size(iv) + text_size(tv) <= u64::MAX,
                acc.wpm_chars == sum_to(i as nat, wpm_terms(iv, tv)),
                acc.raw_wpm_chars == sum_to(i as nat, raw_terms(iv, tv)),
                acc.correct == sum_to(i as nat, kind_terms(iv, tv, CharDiffKind::Correct)),
                acc.incorrect == sum_to(i as nat, kind_terms(iv, tv, CharDiffKind::Incorrect)),
                acc.extra == sum_to(i as nat, kind_terms(iv, tv, CharDiffKind::Extra)),
                acc.missed == sum_to(i as nat, kind_terms(iv, tv, CharDiffKind::Missed)),
            decreases n - i,
        {
            proof {
                lemma_tally_bounds(iv, tv, (i + 1) as nat);
            }
            let input = &inputted_words[i];
            let correct = &correct_words[i];
            assert(iv[i as int] == input@);
            assert(tv[i as int] == correct@);
            let last = i == inputted_words.len() - 1;
            let in_len = input.as_str().unicode_len();
            let t_len = correct.as_str().unicode_len();
            let prefix = last && is_prefix(input.as_str(), correct.as_str());
            assert(iv.len() == inputted_words@.len());
            assert(sum_to((i + 1) as nat, wpm_terms(iv, tv)) == sum_to(i as nat, wpm_terms(iv, tv))
                + wpm_gain(input@, correct@, last));
            assert(sum_to((i + 1) as nat, raw_terms(iv, tv)) == sum_to(i as nat, raw_terms(iv, tv))
                + raw_gain(input@, correct@, last));
            assert(wpm_terms(iv, tv)(i as int) == wpm_gain(input@, correct@, last));
            assert(raw_terms(iv, tv)(i as int) == raw_gain(input@, correct@, last));
            if *input == *correct {
                acc.wpm_chars = acc.wpm_chars + in_len as u64 + 1;
                acc.raw_wpm_chars = acc.raw_wpm_chars + in_len as u64 + 1;
            } else if prefix {
                acc.wpm_chars = acc.wpm_chars + in_len as u64;
                acc.raw_wpm_chars = acc.raw_wpm_chars + in_len as u64;
            } else {
                acc.raw_wpm_chars = acc.raw_wpm_chars + in_len as u64 + 1;
            }
            let target_part = if prefix {
                correct.as_str().substring_char(0, in_len)
            } else {
                correct.as_str()
            };
            let diffs = word_difference(target_part, input.as_str());
            assert(diffs@ == pair_diff(iv, tv, i as int));
            let mut c: u64 = 0;
            let mut w: u64 = 0;
            let mut e: u64 = 0;
            let mut m: u64 = 0;
            let mut j: usize = 0;
            while j < diffs.len()
                invariant
                    j <= diffs@.len(),
                    c == count_kind(diffs@.take(j as int), CharDiffKind::Correct),
                    w == count_kind(diffs@.take(j as int), CharDiffKind::Incorrect),
                    e == count_kind(diffs@.take(j as int), CharDiffKind::Extra),
                    m == count_kind(diffs@.take(j as int), CharDiffKind::Missed),
                    c <= j && w <= j && e <= j && m <= j,
                decreases diffs@.len() - j,
            {
                assert(diffs@.take(j as int + 1).drop_last() =~= diffs@.take(j as int));
                match diffs[j] {
                    CharDiffKind::Correct => c = c + 1,
                    CharDiffKind::Incorrect => w = w + 1,
                    CharDiffKind::Extra => e = e + 1,
                    CharDiffKind::Missed => m = m + 1,
                }
                j = j + 1;
            }
            assert(diffs@.take(diffs@.len() as int) =~= diffs@);
            acc.correct = acc.correct + c;
            acc.incorrect = acc.incorrect + w;
            acc.extra = acc.extra + e;
            acc.missed = acc.missed + m;
            i = i + 1;
        }
        acc
    }
}

} // verus!
