use rand::rngs::SmallRng;
use rand::SeedableRng;

use typing_engine::punctuation::{apply_marks, punctuate, PunctuationKind};
use typing_engine::typing::{is_quit, KeyCode, KeyEvent};

fn words(ws: &[&str]) -> Vec<String> {
    ws.iter().map(|w| w.to_string()).collect()
}

/// The letters of a punctuated list, without marks.
fn letters(ws: &[String]) -> String {
    ws.iter()
        .flat_map(|w| w.chars())
        .filter(|c| c.is_ascii_alphabetic())
        .map(|c| c.to_ascii_lowercase())
        .collect()
}

#[test]
fn marks_map_to_characters() {
    let chars: Vec<char> = (0..9).map(|i| PunctuationKind::kind_at(i).to_char()).collect();
    assert_eq!(chars, vec!['.', ',', '-', ')', '!', ';', ':', '"', '\'']);
    assert_eq!(PunctuationKind::kind_at(42), PunctuationKind::Quotes);
}

#[test]
fn first_word_is_capitalised() {
    let mut rng = SmallRng::seed_from_u64(7);
    let out = punctuate(words(&["hello", "world", "again"]), 10, 20, &mut rng);
    // no mark falls inside three words when the first lies ten words in
    assert_eq!(out, words(&["Hello", "world", "again"]));
}

#[test]
fn every_word_marked_with_unit_jumps() {
    for seed in 0..20 {
        let mut rng = SmallRng::seed_from_u64(seed);
        let input = words(&["one", "two", "three", "four", "five"]);
        let out = punctuate(input.clone(), 1, 1, &mut rng);
        // words after the first each carry a mark: the output differs from
        // the input in every word but the first
        assert_eq!(letters(&out), letters(&input));
        let marked = out
            .iter()
            .filter(|w| w.chars().any(|c| !c.is_ascii_alphabetic()))
            .count();
        assert!(marked >= 4, "seed {seed}: {out:?}");
        assert!(out[0].starts_with('O'));
    }
}

#[test]
fn empty_list_stays_empty() {
    let mut rng = SmallRng::seed_from_u64(1);
    assert!(punctuate(Vec::new(), 2, 4, &mut rng).is_empty());
}

#[test]
fn quit_keys() {
    let esc = KeyEvent { code: KeyCode::Esc, control: false, press: true };
    let ctrl_c = KeyEvent { code: KeyCode::Char('c'), control: true, press: true };
    let c = KeyEvent { code: KeyCode::Char('c'), control: false, press: true };
    let released = KeyEvent { code: KeyCode::Esc, control: false, press: false };
    assert!(is_quit(esc));
    assert!(is_quit(ctrl_c));
    assert!(!is_quit(c));
    assert!(!is_quit(released));
}

#[test]
fn given_marks_are_applied() {
    let input = words(&["the", "cat", "sat", "on", "a", "mat", "now"]);
    let marks = vec![
        None,
        Some(PunctuationKind::Period),
        None,
        Some(PunctuationKind::Hyphen),
        Some(PunctuationKind::Parantheses),
        Some(PunctuationKind::DQuotes),
        Some(PunctuationKind::Exclamation),
    ];
    let out = apply_marks(&input, &marks);
    assert_eq!(out, words(&["The", "cat.", "Sat", "-", "on", "(a)", "\"mat\"", "now!"]));
    let one = apply_marks(&words(&["x", "y", "z"]), &vec![Some(PunctuationKind::Comma), Some(PunctuationKind::Quotes), Some(PunctuationKind::Semicolon)]);
    assert_eq!(one, words(&["X,", "'y'", "z;"]));
    let colon = apply_marks(&words(&["é", "b"]), &vec![None, Some(PunctuationKind::Colon)]);
    assert_eq!(colon, words(&["é", "b:"]));
}
