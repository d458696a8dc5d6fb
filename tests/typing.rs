use typing_engine::layout::{layout, CellStyle, Layout};
use typing_engine::typing::{
    classify, Action, KeyCode, KeyEvent, KeyStrokeKind, Screen, TestMode, TypingState,
};

fn words(ws: &[&str]) -> Vec<String> {
    ws.iter().map(|w| w.to_string()).collect()
}

fn press(c: char) -> KeyEvent {
    KeyEvent { code: KeyCode::Char(c), control: false, press: true }
}

fn backspace(control: bool) -> KeyEvent {
    KeyEvent { code: KeyCode::Backspace, control, press: true }
}

fn type_str(state: &mut TypingState, s: &str, t: u64) {
    for c in s.chars() {
        state.handle_event(press(c), t);
    }
}

/// Every character cell of a layout: (column, row, character, style).
fn cells(l: &Layout) -> Vec<(usize, usize, char, CellStyle)> {
    l.words
        .iter()
        .flat_map(|w| w.chars.iter().enumerate().map(move |(k, &(c, st))| (w.x + k, w.y, c, st)))
        .collect()
}

fn boundaries(state: &TypingState) -> usize {
    state.key_strokes.iter().filter(|(_, k)| matches!(k, KeyStrokeKind::Space(_))).count()
}

#[test]
fn new_pads_or_cuts_word_list_in_word_mode() {
    let s = TypingState::new(words(&["a", "b"]), TestMode::Words(4));
    assert_eq!(s.word_list, words(&["a", "b", "", ""]));
    let s = TypingState::new(words(&["a", "b", "c"]), TestMode::Words(2));
    assert_eq!(s.word_list, words(&["a", "b"]));
    let s = TypingState::new(words(&["a", "b", "c"]), TestMode::Duration(1));
    assert_eq!(s.word_list, words(&["a", "b", "c"]));
    assert_eq!(s.written_words, words(&[""]));
    assert_eq!(s.rows, vec![0]);
    assert!(!s.started);
}

#[test]
fn classify_keys() {
    assert_eq!(classify(press('a')), Action::AddChar('a'));
    assert_eq!(classify(press(' ')), Action::AddSpace);
    assert_eq!(classify(press('\t')), Action::Ignore);
    assert_eq!(classify(KeyEvent { code: KeyCode::Char('w'), control: true, press: true }), Action::RemoveWord);
    assert_eq!(classify(backspace(true)), Action::RemoveWord);
    assert_eq!(classify(backspace(false)), Action::RemoveChar);
    assert_eq!(classify(KeyEvent { code: KeyCode::Char('a'), control: false, press: false }), Action::Ignore);
    assert_eq!(classify(KeyEvent { code: KeyCode::Other, control: false, press: true }), Action::Ignore);
}

#[test]
fn typing_records_keystrokes() {
    let mut s = TypingState::new(words(&["ab", "cd"]), TestMode::Duration(30));
    s.handle_event(press('a'), 5);
    s.handle_event(press('x'), 6);
    s.handle_event(press('z'), 7);
    s.handle_event(press(' '), 8);
    assert!(s.started);
    assert_eq!(s.written_words, words(&["axz", ""]));
    assert_eq!(
        s.key_strokes,
        vec![
            (5, KeyStrokeKind::Correct('a')),
            (6, KeyStrokeKind::Incorrect('x')),
            (7, KeyStrokeKind::Incorrect('z')),
            (8, KeyStrokeKind::Space(1)),
        ]
    );
    s.handle_event(press('c'), 9);
    s.handle_event(press(' '), 10);
    assert_eq!(s.key_strokes[5], (10, KeyStrokeKind::Space(-1)));
}

#[test]
fn typing_past_the_word_list() {
    let mut s = TypingState::new(words(&["a"]), TestMode::Duration(30));
    type_str(&mut s, "a", 1);
    s.handle_event(press(' '), 2);
    s.handle_event(press('b'), 3);
    s.handle_event(press(' '), 4);
    assert_eq!(s.key_strokes[2], (3, KeyStrokeKind::Incorrect('b')));
    assert_eq!(s.key_strokes[3], (4, KeyStrokeKind::Space(1)));
}

#[test]
fn backspace_reopens_only_wrong_words() {
    let mut s = TypingState::new(words(&["ab", "cd", "ef"]), TestMode::Duration(30));
    type_str(&mut s, "ab", 1);
    s.handle_event(press(' '), 2);
    s.handle_event(backspace(false), 3);
    // "ab" is correct: the empty word stays open
    assert_eq!(s.written_words, words(&["ab", ""]));
    type_str(&mut s, "cx", 4);
    s.handle_event(backspace(false), 5);
    assert_eq!(s.written_words, words(&["ab", "c"]));
    s.handle_event(press('y'), 6);
    s.handle_event(press(' '), 7);
    s.handle_event(backspace(false), 8);
    // "cy" is wrong: it is reopened
    assert_eq!(s.written_words, words(&["ab", "cy"]));
    // the log keeps every keystroke
    assert_eq!(s.key_strokes.len(), 7);
}

#[test]
fn control_backspace_clears_words() {
    let mut s = TypingState::new(words(&["ab", "cd"]), TestMode::Duration(30));
    type_str(&mut s, "ax", 1);
    s.handle_event(backspace(true), 2);
    assert_eq!(s.written_words, words(&[""]));
    type_str(&mut s, "ax", 3);
    s.handle_event(press(' '), 4);
    s.handle_event(backspace(true), 5);
    // the empty word reopens the wrong previous one and clears it
    assert_eq!(s.written_words, words(&[""]));
    s.handle_event(backspace(true), 6);
    assert_eq!(s.written_words, words(&[""]));
}

#[test]
fn buffers_track_boundaries_without_reopening() {
    let mut s = TypingState::new(words(&["the", "cat", "sat"]), TestMode::Duration(30));
    for (i, c) in "tha cat s".chars().enumerate() {
        s.handle_event(press(c), i as u64);
        assert_eq!(s.written_words.len() - 1, boundaries(&s));
    }
    s.handle_event(backspace(false), 20);
    s.handle_event(backspace(true), 21);
    assert_eq!(s.written_words.len() - 1, boundaries(&s));
}

#[test]
fn releases_and_unknown_keys_change_nothing() {
    let mut s = TypingState::new(words(&["ab"]), TestMode::Duration(30));
    s.handle_event(KeyEvent { code: KeyCode::Char('a'), control: false, press: false }, 1);
    s.handle_event(KeyEvent { code: KeyCode::Other, control: false, press: true }, 1);
    s.handle_event(backspace(false), 1);
    assert!(!s.started);
    assert!(s.key_strokes.is_empty());
    assert_eq!(s.written_words, words(&[""]));
}

#[test]
fn session_ends_after_duration() {
    let mut s = TypingState::new(words(&["ab", "cd"]), TestMode::Duration(1_000));
    assert!(!s.is_finished(5_000));
    type_str(&mut s, "ab", 0);
    assert!(!s.is_finished(1_000));
    assert!(s.is_finished(1_001));
    match s.update(1_001) {
        Screen::Stats(st) => {
            assert_eq!(st.test_duration, 1_000);
            // a last word equal to its target counts with its separator
            assert_eq!(st.final_stats.wpm_chars, 3);
            assert_eq!(st.final_stats.correct, 2);
            assert_eq!((st.accuracy.correct, st.accuracy.incorrect), (2, 0));
        }
        Screen::Typing(_) => panic!("session should have ended"),
    }
}

#[test]
fn session_ends_after_word_count() {
    let mut s = TypingState::new(words(&["ab", "cd", "ef"]), TestMode::Words(2));
    type_str(&mut s, "ab cd", 0);
    assert!(!s.is_finished(7));
    s.handle_event(press(' '), 0);
    assert!(s.is_finished(7));
    match s.update(7) {
        Screen::Stats(st) => {
            assert_eq!(st.test_duration, 7);
            assert_eq!(st.final_stats.wpm_chars, 6);
            assert_eq!(st.final_stats.correct, 4);
        }
        Screen::Typing(_) => panic!("session should have ended"),
    }
}

#[test]
fn unfinished_session_stays() {
    let s = TypingState::new(words(&["ab"]), TestMode::Words(1));
    match s.update(0) {
        Screen::Typing(t) => assert_eq!(t.written_words, words(&[""])),
        Screen::Stats(_) => panic!("nothing was typed"),
    }
}

#[test]
fn layout_wraps_and_places_cursor() {
    let mut s = TypingState::new(words(&["ab", "cd", "efg"]), TestMode::Duration(30));
    type_str(&mut s, "ax ", 0);
    // width 6: "ab cd" fits on row 0, "efg" wraps to row 1
    let l = layout(&s, 6, 3);
    assert_eq!(l.rows, vec![0, 2]);
    assert_eq!(l.cursor, Some((3, 0)));
    let row0: Vec<(usize, char, CellStyle)> =
        cells(&l).into_iter().filter(|c| c.1 == 0).map(|c| (c.0, c.2, c.3)).collect();
    assert_eq!(
        row0,
        vec![
            (0, 'a', CellStyle::Correct),
            (1, 'x', CellStyle::Error),
            (3, 'c', CellStyle::Untyped),
            (4, 'd', CellStyle::Untyped),
        ]
    );
    let row1: Vec<(usize, char)> = cells(&l).into_iter().filter(|c| c.1 == 1).map(|c| (c.0, c.2)).collect();
    assert_eq!(row1, vec![(0, 'e'), (1, 'f'), (2, 'g')]);
}

#[test]
fn layout_shows_extra_letters_and_wraps_cursor() {
    let mut s = TypingState::new(words(&["ab", "cd"]), TestMode::Duration(30));
    type_str(&mut s, "abcd", 0);
    let l = layout(&s, 4, 3);
    let row0: Vec<(char, CellStyle)> = cells(&l).into_iter().filter(|c| c.1 == 0).map(|c| (c.2, c.3)).collect();
    assert_eq!(
        row0,
        vec![
            ('a', CellStyle::Correct),
            ('b', CellStyle::Correct),
            ('c', CellStyle::Error),
            ('d', CellStyle::Error),
        ]
    );
    // the cursor lands on the row end and moves to the next row
    assert_eq!(l.cursor, Some((0, 1)));
}

#[test]
fn layout_scrolls_when_active_word_reaches_third_row() {
    let mut s = TypingState::new(words(&["aa", "bb", "cc", "dd", "ee"]), TestMode::Duration(30));
    type_str(&mut s, "aa bb ", 0);
    // width 2: one word per row; the active word would sit on row 2, so the
    // layout starts one row later
    let first = s.render_layout(2, 3);
    assert_eq!(first.rows, vec![1, 2, 3, 4]);
    assert_eq!(s.rows, vec![1, 2, 3, 4]);
    assert_eq!(first.cursor, Some((0, 1)));
    let second = s.render_layout(2, 3);
    assert_eq!(second.rows, vec![1, 2, 3, 4]);
    assert_eq!(second.cursor, Some((0, 1)));
    assert_eq!(cells(&first), cells(&second));
}

#[test]
fn layout_twice_is_identical() {
    let mut s = TypingState::new(words(&["ab", "cd", "efg", "h"]), TestMode::Duration(30));
    type_str(&mut s, "ab c", 0);
    let once = s.render_layout(6, 3);
    let rows_once = s.rows.clone();
    let twice = s.render_layout(6, 3);
    assert_eq!(cells(&once), cells(&twice));
    assert_eq!(once.cursor, twice.cursor);
    assert_eq!(rows_once, s.rows);
    assert_eq!(once.rows, twice.rows);
}

#[test]
fn layout_twice_is_identical_after_scrolling() {
    let mut s = TypingState::new(words(&["a", "b", "c"]), TestMode::Duration(30));
    type_str(&mut s, "a b ", 0);
    let once = s.render_layout(1, 3);
    let twice = s.render_layout(1, 3);
    assert_eq!(once.cursor, twice.cursor);
    assert_eq!(cells(&once), cells(&twice));
    assert_eq!(once.rows, twice.rows);

    let mut t = TypingState::new(words(&["a", "b", "c", "d"]), TestMode::Duration(30));
    type_str(&mut t, "a b c ", 0);
    let once = t.render_layout(1, 4);
    let twice = t.render_layout(1, 4);
    assert_eq!(once.rows, twice.rows);
    assert_eq!(once.cursor, twice.cursor);
    assert_eq!(cells(&once), cells(&twice));
}

#[test]
fn layout_keeps_whole_words_and_cursor_below_area() {
    // a word wider than the area keeps all its cells and styles
    let mut s = TypingState::new(words(&["abcdef"]), TestMode::Duration(30));
    type_str(&mut s, "abxdefg", 0);
    // it wraps to its own row, where it runs past the row end
    let l = layout(&s, 4, 2);
    let got: Vec<(usize, char, CellStyle)> = cells(&l).into_iter().map(|c| (c.0, c.2, c.3)).collect();
    assert_eq!(got.len(), 7);
    assert_eq!(got[2], (2, 'x', CellStyle::Error));
    assert_eq!(got[6], (6, 'g', CellStyle::Error));
    assert_eq!(l.cursor, Some((0, 2)));
    // typed up to the row end on the last row: the cursor wraps below the area
    let mut t = TypingState::new(words(&["abcd"]), TestMode::Duration(30));
    type_str(&mut t, "abcd", 0);
    assert_eq!(layout(&t, 4, 1).cursor, Some((0, 1)));
}

#[test]
fn layout_of_empty_area() {
    let s = TypingState::new(words(&["ab"]), TestMode::Duration(30));
    let l = layout(&s, 10, 0);
    assert!(l.words.is_empty());
    assert_eq!(l.cursor, None);
}

#[test]
fn progress_is_clamped() {
    let s = TypingState::new(words(&["ab", "cd"]), TestMode::Duration(1_000));
    assert_eq!(s.progress(0), (0, 1_000));
    assert_eq!(s.progress(250), (250, 1_000));
    assert_eq!(s.progress(5_000), (1_000, 1_000));
    let w = TypingState::new(words(&["ab", "cd"]), TestMode::Words(2));
    assert_eq!(w.progress(99), (0, 2));
    let empty = TypingState::new(words(&[]), TestMode::Words(0));
    assert_eq!(empty.progress(0), (1, 1));
    let zero = TypingState::new(words(&["a"]), TestMode::Duration(0));
    assert_eq!(zero.progress(10), (1, 1));
}

#[test]
fn progress_counts_closed_words() {
    let mut s = TypingState::new(words(&["ab", "cd", "ef"]), TestMode::Words(2));
    type_str(&mut s, "ab cd ef ", 0);
    assert_eq!(s.progress(0), (2, 2));
    let mut t = TypingState::new(words(&["ab", "cd", "ef"]), TestMode::Words(3));
    type_str(&mut t, "ab ", 0);
    assert_eq!(t.progress(0), (1, 3));
}
