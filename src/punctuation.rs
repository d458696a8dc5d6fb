//! Optional preprocessing of a word list: capitalised sentence starts and
//! punctuation marks placed at random intervals.

use crate::metrics::words_view;
use crate::typing::push_char;
use rand::distributions::{Distribution, WeightedIndex};
use rand::rngs::SmallRng;
use rand::Rng;
use vstd::prelude::*;

verus! {

#[verifier::external_type_specification]
#[verifier::external_body]
pub struct ExSmallRng(SmallRng);

/// A punctuation mark that can be attached to a word.
#[derive(Debug, Clone, Copy, PartialEq, Eq, Structural)]
pub enum PunctuationKind {
    Period,
    Comma,
    Hyphen,
    Parantheses,
    Exclamation,
    Semicolon,
    Colon,
    DQuotes,
    Quotes,
}

/// The marks in their fixed order, which the weights follow.
pub open spec fn kind_spec(i: int) -> PunctuationKind {
    if i == 0 {
        PunctuationKind::Period
    } else if i == 1 {
        PunctuationKind::Comma
    } else if i == 2 {
        PunctuationKind::Hyphen
    } else if i == 3 {
        PunctuationKind::Parantheses
    } else if i == 4 {
        PunctuationKind::Exclamation
    } else if i == 5 {
        PunctuationKind::Semicolon
    } else if i == 6 {
        PunctuationKind::Colon
    } else if i == 7 {
        PunctuationKind::DQuotes
    } else {
        PunctuationKind::Quotes
    }
}

pub open spec fn char_spec(k: PunctuationKind) -> char {
    match k {
        PunctuationKind::Period => '.',
        PunctuationKind::Comma => ',',
        PunctuationKind::Hyphen => '-',
        PunctuationKind::Parantheses => ')',
        PunctuationKind::Exclamation => '!',
        PunctuationKind::Semicolon => ';',
        PunctuationKind::Colon => ':',
        PunctuationKind::DQuotes => '"',
        PunctuationKind::Quotes => '\'',
    }
}

impl PunctuationKind {
    /// The mark at position `i` of the fixed order (the last one past the end).
    pub fn kind_at(i: usize) -> (r: PunctuationKind)
        ensures
            r == kind_spec(i as int),
    {
        if i == 0 {
            PunctuationKind::Period
        } else if i == 1 {
            PunctuationKind::Comma
        } else if i == 2 {
            PunctuationKind::Hyphen
        } else if i == 3 {
            PunctuationKind::Parantheses
        } else if i == 4 {
            PunctuationKind::Exclamation
        } else if i == 5 {
            PunctuationKind::Semicolon
        } else if i == 6 {
            PunctuationKind::Colon
        } else if i == 7 {
            PunctuationKind::DQuotes
        } else {
            PunctuationKind::Quotes
        }
    }

    /// The character of the mark.
    pub fn to_char(self) -> (r: char)
        ensures
            r == char_spec(self),
    {
        match self {
            PunctuationKind::Period => '.',
            PunctuationKind::Comma => ',',
            PunctuationKind::Hyphen => '-',
            PunctuationKind::Parantheses => ')',
            PunctuationKind::Exclamation => '!',
            PunctuationKind::Semicolon => ';',
            PunctuationKind::Colon => ':',
            PunctuationKind::DQuotes => '"',
            PunctuationKind::Quotes => '\'',
        }
    }
}

/// `w` with its first character in ASCII upper case.
pub open spec fn capitalized(w: Seq<char>) -> Seq<char> {
    if w.len() == 0 {
        w
    } else {
        seq![upper_spec(w[0])] + w.skip(1)
    }
}

pub open spec fn is_lower(c: char) -> bool {
    'a' <= c <= 'z'
}

/// The ASCII upper case of `c`: lower-case letters move 32 code points down,
/// everything else stays.
pub open spec fn upper_spec(c: char) -> char {
    if is_lower(c) {
        (((c as u32) - 32) as u8) as char
    } else {
        c
    }
}

/// The ASCII upper case of `c`.
fn upper(c: char) -> (r: char)
    ensures
        r == upper_spec(c),
{
    if 'a' <= c && c <= 'z' {
        (((c as u32) - 32) as u8) as char
    } else {
        c
    }
}

/// Relies on `Rng::gen_range` over the inclusive range `lo..=hi`: a value in
/// it. It panics on an empty range, which `requires` rules out.
#[verifier::external_body]
fn draw_jump(rng: &mut SmallRng, lo: usize, hi: usize) -> (r: usize)
    requires
        lo <= hi,
    ensures
        lo <= r <= hi,
{
    rng.gen_range(lo..=hi)
}

/// Relies on `WeightedIndex::new` and its `sample`: for a non-empty list of
/// non-negative weights with a positive total, it is built, and a sample is
/// an index into the list.
#[verifier::external_body]
fn draw_weighted(rng: &mut SmallRng, weights: &[i32]) -> (r: Option<usize>)
    requires
        weights@.len() > 0,
        weights@.len() <= 64,
        weights@[0] > 0,
        forall|i: int| 0 <= i < weights@.len() ==> 0 <= #[trigger] weights@[i] <= 1_000_000,
    ensures
        r is Some && r->0 < weights@.len(),
{
    match WeightedIndex::new(weights) {
        Ok(d) => Some(d.sample(rng)),
        Err(_) => None,
    }
}

/// Whether a mark ends a sentence, so that the next word is capitalised.
pub open spec fn ends_sentence(m: Option<PunctuationKind>) -> bool {
    m == Some(PunctuationKind::Period) || m == Some(PunctuationKind::Exclamation)
}

/// The words that word `w` becomes with an optional mark: most marks follow
/// the word, quotes and parentheses wrap it, and a hyphen stands as a word of
/// its own before it.
pub open spec fn marked(w: Seq<char>, m: Option<PunctuationKind>) -> Seq<Seq<char>> {
    match m {
        None => seq![w],
        Some(k) => match k {
            PunctuationKind::DQuotes | PunctuationKind::Quotes => seq![
                seq![char_spec(k)] + w + seq![char_spec(k)],
            ],
            PunctuationKind::Parantheses => seq![seq!['('] + w + seq![')']],
            PunctuationKind::Hyphen => seq![seq!['-'], w],
            _ => seq![w.push(char_spec(k))],
        },
    }
}

/// Whether word `i` starts a sentence: the first word, and every word after a
/// sentence-ending mark.
pub open spec fn starts_sentence(marks: Seq<Option<PunctuationKind>>, i: int) -> bool {
    i == 0 || ends_sentence(marks[i - 1])
}

/// The words `0 .. n` of `words` with the marks `marks` applied.
pub open spec fn punctuated(
    words: Seq<Seq<char>>,
    marks: Seq<Option<PunctuationKind>>,
    n: nat,
) -> Seq<Seq<char>>
    decreases n,
{
    if n == 0 {
        Seq::empty()
    } else {
        let i = n - 1;
        let w = if starts_sentence(marks, i) {
            capitalized(words[i])
        } else {
            words[i]
        };
        punctuated(words, marks, (n - 1) as nat) + marked(w, marks[i])
    }
}

/// The index of the last mark before `i`, or 0 when there is none.
pub open spec fn prev_mark(marks: Seq<Option<PunctuationKind>>, i: int) -> int
    decreases i,
{
    if i <= 0 {
        0
    } else if marks[i - 1] is Some {
        i - 1
    } else {
        prev_mark(marks, i - 1)
    }
}

/// Every mark lies `lo ..= hi` words after the previous one (the first: after
/// the start of the list).
pub open spec fn well_spaced(marks: Seq<Option<PunctuationKind>>, lo: usize, hi: usize) -> bool {
    forall|i: int|
        0 <= i < marks.len() && #[trigger] marks[i] is Some ==> lo <= i - prev_mark(marks, i) <= hi
}

/// No word lies more than `hi` words after the previous mark (or the start).
pub open spec fn no_long_gaps(marks: Seq<Option<PunctuationKind>>, hi: usize) -> bool {
    forall|i: int| 0 <= i < marks.len() ==> i - #[trigger] prev_mark(marks, i) <= hi
}

proof fn lemma_prev_mark_prefix(s: Seq<Option<PunctuationKind>>, t: Seq<Option<PunctuationKind>>, i: int)
    requires
        0 <= i <= s.len(),
        i <= t.len(),
        forall|j: int| 0 <= j < i ==> s[j] == t[j],
    ensures
        prev_mark(s, i) == prev_mark(t, i),
    decreases i,
{
    if i > 0 {
        lemma_prev_mark_prefix(s, t, i - 1);
    }
}

/// The first character of `w` in ASCII upper case.
fn capitalize(w: &String) -> (r: String)
    ensures
        r@ == capitalized(w@),
{
    let n = w.as_str().unicode_len();
    if n == 0 {
        return w.clone();
    }
    let mut r = String::new();
    push_char(&mut r, upper(w.as_str().get_char(0)));
    r.append(w.as_str().substring_char(1, n));
    assert(r@ =~= capitalized(w@));
    r
}

/// `open`, then `w`, then `close`.
fn wrapped(open: char, w: &String, close: char) -> (r: String)
    ensures
        r@ == seq![open] + w@ + seq![close],
{
    let mut r = String::new();
    push_char(&mut r, open);
    r.append(w.as_str());
    push_char(&mut r, close);
    assert(r@ =~= seq![open] + w@ + seq![close]);
    r
}

/// Appends what `w` becomes with mark `m`.
fn push_marked(out: &mut Vec<String>, w: String, m: Option<PunctuationKind>)
    ensures
        words_view(final(out)@) == words_view(old(out)@) + marked(w@, m),
{
    let ghost before = words_view(out@);
    match m {
        None => out.push(w),
        Some(k) => {
            let c = k.to_char();
            match k {
                PunctuationKind::DQuotes | PunctuationKind::Quotes => out.push(wrapped(c, &w, c)),
                PunctuationKind::Parantheses => out.push(wrapped('(', &w, ')')),
                PunctuationKind::Hyphen => {
                    let mut h = String::new();
                    push_char(&mut h, c);
                    out.push(h);
                    out.push(w);
                },
                _ => {
                    let mut w = w;
                    push_char(&mut w, c);
                    out.push(w);
                },
            }
        },
    }
    assert(words_view(out@) =~= before + marked(w@, m));
}

/// Applies given marks to a word list: each word starting a sentence is
/// capitalised, and word `i` takes mark `marks[i]`.
pub fn apply_marks(words: &Vec<String>, marks: &Vec<Option<PunctuationKind>>) -> (r: Vec<String>)
    requires
        marks@.len() == words@.len(),
    ensures
        words_view(r@) == punctuated(words_view(words@), marks@, words@.len()),
{
    let ghost wv = words_view(words@);
    let mut out: Vec<String> = Vec::new();
    let mut i: usize = 0;
    while i < words.len()
        invariant
            wv == words_view(words@),
            marks@.len() == words@.len(),
            i <= words@.len(),
            words_view(out@) == punctuated(wv, marks@, i as nat),
        decreases words@.len() - i,
    {
        assert(wv[i as int] == words@[i as int]@);
        let starts = i == 0 || marks[i - 1] == Some(PunctuationKind::Period) || marks[i - 1]
            == Some(PunctuationKind::Exclamation);
        let w = if starts {
            capitalize(&words[i])
        } else {
            words[i].clone()
        };
        push_marked(&mut out, w, marks[i]);
        i = i + 1;
    }
    out
}

/// Draws where the marks of a list of `n` words go and which they are: the
/// first lies `lo ..= hi` words into the list, each later one `lo ..= hi` words
/// after the previous; the mark is drawn by weight.
fn draw_marks(n: usize, lo: usize, hi: usize, rng: &mut SmallRng) -> (r: Vec<Option<PunctuationKind>>)
    requires
        lo <= hi,
    ensures
        r@.len() == n,
        well_spaced(r@, lo, hi),
        lo >= 1 ==> no_long_gaps(r@, hi),
{
    let weights: Vec<i32> = vec![3, 2, 2, 2, 2, 1, 2, 2, 2];
    let mut marks: Vec<Option<PunctuationKind>> = Vec::new();
    let mut next_index = draw_jump(rng, lo, hi);
    let ghost mut last: int = 0;
    let ghost mut next_true: int = next_index as int;
    let mut i: usize = 0;
    while i < n
        invariant
            lo <= hi,
            weights@ == seq![3i32, 2, 2, 2, 2, 1, 2, 2, 2],
            i <= n,
            marks@.len() == i,
            well_spaced(marks@, lo, hi),
            last == prev_mark(marks@, i as int),
            0 <= last <= i,
            last + lo <= next_true <= last + hi,
            next_index == if next_true > usize::MAX {
                usize::MAX as int
            } else {
                next_true
            },
            lo >= 1 ==> next_true >= i,
            lo >= 1 ==> no_long_gaps(marks@, hi),
            i > 0 ==> last < i,
        decreases n - i,
    {
        let ghost old_marks = marks@;
        let mark = if i == next_index {
            let jump = draw_jump(rng, lo, hi);
            proof {
                next_true = i + jump;
            }
            next_index = next_index.saturating_add(jump);
            let k = match draw_weighted(rng, weights.as_slice()) {
                Some(j) => PunctuationKind::kind_at(j),
                None => PunctuationKind::Quotes,
            };
            Some(k)
        } else {
            None
        };
        marks.push(mark);
        proof {
            lemma_prev_mark_prefix(marks@, old_marks, i as int);
            assert forall|j: int|
                0 <= j < marks@.len() && #[trigger] marks@[j] is Some implies lo <= j - prev_mark(
                    marks@,
                    j,
                ) <= hi by {
                if j < i {
                    lemma_prev_mark_prefix(marks@, old_marks, j);
                    assert(old_marks[j] is Some);
                }
            }
            if lo >= 1 {
                assert forall|j: int| 0 <= j < marks@.len() implies j - #[trigger] prev_mark(
                    marks@,
                    j,
                ) <= hi by {
                    if j < i {
                        lemma_prev_mark_prefix(marks@, old_marks, j);
                    }
                }
            }
            if mark is Some {
                last = i as int;
            }
        }
        i = i + 1;
    }
    marks
}

/// Capitalises sentence starts and attaches punctuation marks placed at
/// random: see `draw_marks` for where they go and `apply_marks` for what they
/// do to the words.
pub fn punctuate(words: Vec<String>, lo: usize, hi: usize, rng: &mut SmallRng) -> (r: Vec<String>)
    requires
        lo <= hi,
    ensures
        exists|marks: Seq<Option<PunctuationKind>>|
            #![trigger punctuated(words_view(words@), marks, words@.len())]
            marks.len() == words@.len() && well_spaced(marks, lo, hi) && (lo >= 1 ==> no_long_gaps(
                marks,
                hi,
            )) && words_view(r@) == punctuated(words_view(words@), marks, words@.len()),
{
    let marks = draw_marks(words.len(), lo, hi, rng);
    apply_marks(&words, &marks)
}

} // verus!
