//! Position-by-position comparison of a typed word against its target word.

use itertools::{EitherOrBoth, Itertools};
use vstd::prelude::*;

verus! {

/// How one aligned character position of a typed word compares with its target.
#[derive(Debug, Clone, Copy, PartialEq, Eq, Structural)]
pub enum CharDiffKind {
    Correct,
    Incorrect,
    Extra,
    Missed,
}

/// The character at position `i`, or `None` past the end.
pub open spec fn char_at(s: Seq<char>, i: int) -> Option<char> {
    if 0 <= i < s.len() {
        Some(s[i])
    } else {
        None
    }
}

pub open spec fn max_len(a: Seq<char>, b: Seq<char>) -> nat {
    if a.len() >= b.len() {
        a.len()
    } else {
        b.len()
    }
}

/// The classification of position `i` when `input` is laid against `target`.
pub open spec fn diff_at(target: Seq<char>, input: Seq<char>, i: int) -> CharDiffKind {
    if i < target.len() && i < input.len() {
        if target[i] == input[i] {
            CharDiffKind::Correct
        } else {
            CharDiffKind::Incorrect
        }
    } else if i < input.len() {
        CharDiffKind::Extra
    } else {
        CharDiffKind::Missed
    }
}

/// The full alignment of `input` against `target`: one entry per position up to
/// the longer of the two.
pub open spec fn word_diff(target: Seq<char>, input: Seq<char>) -> Seq<CharDiffKind> {
    Seq::new(max_len(target, input), |i: int| diff_at(target, input, i))
}

/// Relies on `Itertools::zip_longest` over two `str::chars` iterators: it pairs
/// the characters while both strings have one, then yields the rest of the
/// longer string alone (`Left` from the first, `Right` from the second).
#[verifier::external_body]
fn zip_longest_chars(a: &str, b: &str) -> (r: Vec<(Option<char>, Option<char>)>)
    ensures
        r@.len() == max_len(a@, b@),
        forall|i: int| 0 <= i < r@.len() ==> #[trigger] r@[i] == (char_at(a@, i), char_at(b@, i)),
{
    a.chars().zip_longest(b.chars()).map(|e| match e {
        EitherOrBoth::Both(x, y) => (Some(x), Some(y)),
        EitherOrBoth::Left(x) => (Some(x), None),
        EitherOrBoth::Right(y) => (None, Some(y)),
    }).collect()
}

/// Compares `input` against `correct_word` position by position: positions
/// present in both are `Correct` or `Incorrect` by equality, input left over
/// after the target is `Extra`, target left over after the input is `Missed`.
pub fn word_difference(correct_word: &str, input: &str) -> (r: Vec<CharDiffKind>)
    ensures
        r@ == word_diff(correct_word@, input@),
{
    let pairs = zip_longest_chars(correct_word, input);
    let mut r: Vec<CharDiffKind> = Vec::new();
    let mut i: usize = 0;
    while i < pairs.len()
        invariant
            i <= pairs@.len(),
            pairs@.len() == max_len(correct_word@, input@),
            forall|j: int| 0 <= j < pairs@.len() ==> #[trigger] pairs@[j] == (
                char_at(correct_word@, j),
                char_at(input@, j),
            ),
            r@ =~= word_diff(correct_word@, input@).take(i as int),
        decreases pairs@.len() - i,
    {
        let kind = match pairs[i] {
            (Some(c), Some(t)) => if c == t {
                CharDiffKind::Correct
            } else {
                CharDiffKind::Incorrect
            },
            (None, _) => CharDiffKind::Extra,
            (Some(_), None) => CharDiffKind::Missed,
        };
        r.push(kind);
        i = i + 1;
    }
    r
}

} // verus!
