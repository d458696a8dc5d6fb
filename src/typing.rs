//! The typing session: word buffers, the keystroke log and the end condition.

use crate::metrics::{text_size, words_view};
use crate::stats::{is_stats_of, StatsState};
use vstd::prelude::*;

verus! {

/// What one recorded keystroke was.
#[derive(Debug, Clone, Copy, PartialEq, Eq, Structural)]
pub enum KeyStrokeKind {
    /// A character that matched the target word at its position.
    Correct(char),
    /// A character that did not match (or lay past the end of the target word).
    Incorrect(char),
    /// A word boundary, carrying the typed length minus the target length of the
    /// word it closed: positive for extra letters, negative for skipped ones.
    Space(i32),
}

/// When a session ends: after a fixed time (nanoseconds since the first
/// keystroke), or once a given number of words has been closed.
#[derive(Debug, Clone, Copy, PartialEq, Eq, Structural)]
pub enum TestMode {
    Duration(u64),
    Words(usize),
}

/// A key as the session sees it.
#[derive(Debug, Clone, Copy, PartialEq, Eq, Structural)]
pub enum KeyCode {
    Char(char),
    Backspace,
    Esc,
    Other,
}

/// A key event: the key, whether control was held, and whether it was a press
/// (releases and repeats are ignored).
#[derive(Debug, Clone, Copy, PartialEq, Eq, Structural)]
pub struct KeyEvent {
    pub code: KeyCode,
    pub control: bool,
    pub press: bool,
}

/// What a key event does to the session.
#[derive(Debug, Clone, Copy, PartialEq, Eq, Structural)]
pub enum Action {
    RemoveWord,
    AddChar(char),
    AddSpace,
    RemoveChar,
    Ignore,
}

pub open spec fn action_of(ev: KeyEvent) -> Action {
    if !ev.press {
        Action::Ignore
    } else {
        match ev.code {
            KeyCode::Char(c) => if c == 'w' && ev.control {
                Action::RemoveWord
            } else if '!' <= c && c <= '~' {
                Action::AddChar(c)
            } else if c == ' ' {
                Action::AddSpace
            } else {
                Action::Ignore
            },
            KeyCode::Backspace => if ev.control {
                Action::RemoveWord
            } else {
                Action::RemoveChar
            },
            _ => Action::Ignore,
        }
    }
}

/// Whether a key event quits the program: escape, or control-c, pressed.
pub open spec fn quits(ev: KeyEvent) -> bool {
    ev.press && (ev.code == KeyCode::Esc || (ev.code == KeyCode::Char('c') && ev.control))
}

/// Decides whether a key event quits the program.
pub fn is_quit(ev: KeyEvent) -> (r: bool)
    ensures
        r == quits(ev),
{
    ev.press && match ev.code {
        KeyCode::Esc => true,
        KeyCode::Char(c) => c == 'c' && ev.control,
        _ => false,
    }
}

/// Decides what a key event does: control-w and control-backspace remove a
/// word, a printable ASCII character is typed, space closes the word,
/// backspace removes a character, anything else is ignored.
pub fn classify(ev: KeyEvent) -> (r: Action)
    ensures
        r == action_of(ev),
{
    if !ev.press {
        return Action::Ignore;
    }
    match ev.code {
        KeyCode::Char(c) => if c == 'w' && ev.control {
            Action::RemoveWord
        } else if '!' <= c && c <= '~' {
            Action::AddChar(c)
        } else if c == ' ' {
            Action::AddSpace
        } else {
            Action::Ignore
        },
        KeyCode::Backspace => if ev.control {
            Action::RemoveWord
        } else {
            Action::RemoveChar
        },
        _ => Action::Ignore,
    }
}

/// The target word at index `i`; past the end of the list there is none, and
/// an empty word stands in.
pub open spec fn target_at(words: Seq<Seq<char>>, i: int) -> Seq<char> {
    if 0 <= i < words.len() {
        words[i]
    } else {
        Seq::empty()
    }
}

/// `n` clamped into the range of `i32`.
pub open spec fn clamp_i32(n: int) -> i32 {
    if n > i32::MAX {
        i32::MAX
    } else if n < i32::MIN {
        i32::MIN
    } else {
        n as i32
    }
}

/// The abstract state of a session: the typed words, the keystroke log and
/// whether the clock has started.
pub struct TypingModel {
    pub written: Seq<Seq<char>>,
    pub log: Seq<(u64, KeyStrokeKind)>,
    pub started: bool,
}

/// How a typed character is classified: correct when the target word has that
/// character at the position it was typed at.
pub open spec fn classify_char(target: Seq<char>, pos: int, c: char) -> KeyStrokeKind {
    if 0 <= pos < target.len() && target[pos] == c {
        KeyStrokeKind::Correct(c)
    } else {
        KeyStrokeKind::Incorrect(c)
    }
}

/// Backspace on an empty word: reopens the previous word unless it already
/// equals its target.
pub open spec fn remove_empty(words: Seq<Seq<char>>, w: Seq<Seq<char>>) -> Seq<Seq<char>> {
    if w.len() > 1 && w[w.len() - 2] != target_at(words, w.len() - 2) {
        w.drop_last()
    } else {
        w
    }
}

/// The effect of one key event made `t` nanoseconds after the start, with the
/// target words `words`.
pub open spec fn step(words: Seq<Seq<char>>, m: TypingModel, ev: KeyEvent, t: u64) -> TypingModel {
    let w = m.written;
    let cur = w.last();
    let i = w.len() - 1;
    match action_of(ev) {
        Action::AddChar(c) => TypingModel {
            written: w.update(i, cur.push(c)),
            log: m.log.push((t, classify_char(target_at(words, i), cur.len() as int, c))),
            started: true,
        },
        Action::AddSpace => TypingModel {
            written: w.push(Seq::empty()),
            log: m.log.push(
                (t, KeyStrokeKind::Space(clamp_i32(cur.len() - target_at(words, i).len()))),
            ),
            started: true,
        },
        Action::RemoveChar => TypingModel {
            written: if cur.len() == 0 {
                remove_empty(words, w)
            } else {
                w.update(i, cur.drop_last())
            },
            ..m
        },
        Action::RemoveWord => TypingModel {
            written: if cur.len() == 0 {
                let r = remove_empty(words, w);
                r.update(r.len() - 1, Seq::empty())
            } else {
                w.update(i, Seq::empty())
            },
            ..m
        },
        Action::Ignore => m,
    }
}

/// Whether the session is over `elapsed` nanoseconds after its start: in
/// duration mode once that time is exceeded, in word-count mode once a buffer
/// beyond the last counted word exists. A session that has not started never ends.
pub open spec fn finished(mode: TestMode, m: TypingModel, elapsed: u64) -> bool {
    m.started && match mode {
        TestMode::Duration(d) => elapsed > d,
        TestMode::Words(n) => m.written.len() > n,
    }
}

/// The length that speeds are normalised by: the configured duration in
/// duration mode, the time actually taken in word-count mode.
pub open spec fn normalising_length(mode: TestMode, elapsed: u64) -> u64 {
    match mode {
        TestMode::Duration(d) => d,
        TestMode::Words(_) => elapsed,
    }
}

/// What is on screen: a session being typed, or the results of a finished one.
pub enum Screen {
    Typing(TypingState),
    Stats(StatsState),
}

/// How many word boundaries the log holds.
pub open spec fn boundary_count(log: Seq<(u64, KeyStrokeKind)>) -> nat
    decreases log.len(),
{
    if log.len() == 0 {
        0
    } else {
        boundary_count(log.drop_last()) + if log.last().1 is Space {
            1nat
        } else {
            0nat
        }
    }
}

/// The state of a session before any key.
pub open spec fn fresh_model() -> TypingModel {
    TypingModel { written: seq![Seq::<char>::empty()], log: Seq::empty(), started: false }
}

/// The state after a sequence of timed key events.
pub open spec fn run(words: Seq<Seq<char>>, m: TypingModel, evs: Seq<(KeyEvent, u64)>) -> TypingModel
    decreases evs.len(),
{
    if evs.len() == 0 {
        m
    } else {
        let prev = run(words, m, evs.drop_last());
        step(words, prev, evs.last().0, evs.last().1)
    }
}

/// Whether the event is a backspace that reopens the previous, closed word.
pub open spec fn reopens(words: Seq<Seq<char>>, m: TypingModel, ev: KeyEvent) -> bool {
    let a = action_of(ev);
    &&& (a is RemoveChar || a is RemoveWord)
    &&& m.written.last().len() == 0
    &&& remove_empty(words, m.written).len() < m.written.len()
}

/// Whether no event of the sequence reopens a closed word.
pub open spec fn never_reopens(words: Seq<Seq<char>>, m: TypingModel, evs: Seq<(KeyEvent, u64)>) -> bool {
    forall|k: int| 0 <= k < evs.len() ==> !reopens(words, #[trigger] run(words, m, evs.take(k)), evs[k].0)
}

/// One key event that does not reopen a closed word keeps the word buffers and
/// the logged word boundaries in step: a typed character adds neither, a space
/// adds one of each, and a removal inside the current word adds neither.
pub proof fn lemma_step_keeps_count(words: Seq<Seq<char>>, m: TypingModel, ev: KeyEvent, t: u64)
    requires
        m.written.len() >= 1,
        m.written.len() - 1 == boundary_count(m.log),
        !reopens(words, m, ev),
    ensures
        step(words, m, ev, t).written.len() >= 1,
        step(words, m, ev, t).written.len() - 1 == boundary_count(step(words, m, ev, t).log),
{
    let n = step(words, m, ev, t);
    if n.log.len() > m.log.len() {
        assert(n.log.drop_last() == m.log);
    }
}

/// Word buffers and logged word boundaries stay in step: from a fresh session,
/// after every prefix of any sequence of key events in which no backspace
/// reopens a closed word, the number of buffers minus one equals the number of
/// word boundaries in the log. (A reopened word drops its buffer, while the
/// log keeps its boundary.)
pub proof fn lemma_buffers_match_boundaries(words: Seq<Seq<char>>, evs: Seq<(KeyEvent, u64)>)
    requires
        never_reopens(words, fresh_model(), evs),
    ensures
        forall|k: int|
            0 <= k <= evs.len() ==> {
                let m = #[trigger] run(words, fresh_model(), evs.take(k));
                m.written.len() >= 1 && m.written.len() - 1 == boundary_count(m.log)
            },
    decreases evs.len(),
{
    if evs.len() > 0 {
        let init = evs.drop_last();
        assert forall|k: int| 0 <= k < init.len() implies !reopens(
            words,
            #[trigger] run(words, fresh_model(), init.take(k)),
            init[k].0,
        ) by {
            assert(init.take(k) == evs.take(k));
            assert(!reopens(words, run(words, fresh_model(), evs.take(k)), evs[k].0));
        }
        lemma_buffers_match_boundaries(words, init);
        assert forall|k: int| 0 <= k <= evs.len() implies {
            let m = #[trigger] run(words, fresh_model(), evs.take(k));
            m.written.len() >= 1 && m.written.len() - 1 == boundary_count(m.log)
        } by {
            if k < evs.len() {
                assert(evs.take(k) == init.take(k));
            } else {
                let j = evs.len() - 1;
                assert(evs.take(j) == init.take(j));
                assert(init.take(j) == init);
                assert(evs.take(k) == evs);
                assert(!reopens(words, run(words, fresh_model(), evs.take(j)), evs[j].0));
                lemma_step_keeps_count(words, run(words, fresh_model(), init), evs.last().0, evs.last().1);
            }
        }
    } else {
        assert(evs.take(0) == evs);
    }
}

/// Relies on `String::push`: appends one character.
#[verifier::external_body]
pub(crate) fn push_char(s: &mut String, c: char)
    ensures
        final(s)@ == old(s)@.push(c),
{
    s.push(c)
}

/// Relies on `String::pop`: removes the last character, if there is one.
#[verifier::external_body]
fn pop_char(s: &mut String) -> (r: Option<char>)
    ensures
        old(s)@.len() == 0 ==> r is None && final(s)@ == old(s)@,
        old(s)@.len() > 0 ==> r == Some(old(s)@.last()) && final(s)@ == old(s)@.drop_last(),
{
    s.pop()
}

/// A typing session in progress.
pub struct TypingState {
    /// One buffer per word attempted so far; the last is the word being typed.
    pub written_words: Vec<String>,
    /// Whether the first character or space has been typed (the clock runs from then).
    pub started: bool,
    /// Word indices at which the visible rows start; only the first is read by the layout.
    pub rows: Vec<usize>,
    /// The target words.
    pub word_list: Vec<String>,
    /// Every keystroke, with the nanoseconds since the start at which it came.
    pub key_strokes: Vec<(u64, KeyStrokeKind)>,
    pub mode: TestMode,
}

impl View for TypingState {
    type V = TypingModel;

    open spec fn view(&self) -> TypingModel {
        TypingModel {
            written: words_view(self.written_words@),
            log: self.key_strokes@,
            started: self.started,
        }
    }
}

impl TypingState {
    pub open spec fn wf(&self) -> bool {
        &&& self.written_words@.len() >= 1
        &&& self.rows@.len() >= 1
        &&& !self.started ==> self.key_strokes@.len() == 0
    }

    pub open spec fn targets(&self) -> Seq<Seq<char>> {
        words_view(self.word_list@)
    }

    /// Starts a session. In word-count mode the word list is cut or padded with
    /// empty words to exactly the requested count.
    pub fn new(word_list: Vec<String>, mode: TestMode) -> (r: Self)
        ensures
            r.wf(),
            r@.written == seq![Seq::<char>::empty()],
            r@.log.len() == 0,
            !r@.started,
            r.rows@ == seq![0usize],
            r.mode == mode,
            match mode {
                TestMode::Words(n) => r.targets().len() == n && forall|i: int|
                    0 <= i < n ==> #[trigger] r.targets()[i] == if i < word_list@.len() {
                        word_list@[i]@
                    } else {
                        Seq::empty()
                    },
                TestMode::Duration(_) => r.word_list@ == word_list@,
            },
    {
        let mut word_list = word_list;
        let ghost given = word_list@;
        if let TestMode::Words(n) = mode {
            if word_list.len() > n {
                word_list.truncate(n);
            }
            while word_list.len() < n
                invariant
                    word_list@.len() <= n,
                    word_list@.len() >= given.len() || word_list@.len() == n,
                    forall|i: int|
                        0 <= i < word_list@.len() ==> #[trigger] word_list@[i]@ == if i
                            < given.len() {
                            given[i]@
                        } else {
                            Seq::empty()
                        },
                decreases n - word_list@.len(),
            {
                let ghost before = word_list@;
                word_list.push(String::new());
                assert(forall|i: int| 0 <= i < before.len() ==> word_list@[i] == before[i]);
            }
        }
        let mut written_words: Vec<String> = Vec::new();
        written_words.push(String::new());
        let mut rows: Vec<usize> = Vec::new();
        rows.push(0);
        let r = TypingState {
            written_words,
            started: false,
            rows,
            word_list,
            key_strokes: Vec::new(),
            mode,
        };
        assert(r@.written =~= seq![Seq::<char>::empty()]);
        r
    }

    /// Length of the target word at `i` (zero past the end of the list).
    fn target_len(&self, i: usize) -> (r: usize)
        ensures
            r == target_at(self.targets(), i as int).len(),
    {
        if i < self.word_list.len() {
            self.word_list[i].as_str().unicode_len()
        } else {
            0
        }
    }

    /// The keystroke kind of typing `c` at position `pos` of word `i`.
    fn char_kind(&self, i: usize, pos: usize, c: char) -> (r: KeyStrokeKind)
        ensures
            r == classify_char(target_at(self.targets(), i as int), pos as int, c),
    {
        if i < self.word_list.len() {
            let w = self.word_list[i].as_str();
            if pos < w.unicode_len() && w.get_char(pos) == c {
                return KeyStrokeKind::Correct(c);
            }
        }
        KeyStrokeKind::Incorrect(c)
    }

    /// Takes the word being typed out of the buffers.
    fn take_current(&mut self) -> (r: String)
        requires
            old(self).written_words@.len() >= 1,
        ensures
            r@ == old(self)@.written.last(),
            final(self)@.written == old(self)@.written.drop_last(),
            final(self).written_words@.len() == old(self).written_words@.len() - 1,
            final(self).word_list == old(self).word_list,
            final(self).rows == old(self).rows,
            final(self).mode == old(self).mode,
            final(self)@.log == old(self)@.log,
            final(self)@.started == old(self)@.started,
    {
        let ghost w = self.written_words@;
        let r = self.written_words.pop().unwrap();
        assert(words_view(self.written_words@) =~= words_view(w).drop_last());
        r
    }

    /// Puts a word back as the one being typed.
    fn put_current(&mut self, s: String)
        ensures
            final(self)@.written == old(self)@.written.push(s@),
            final(self).written_words@.len() == old(self).written_words@.len() + 1,
            final(self).word_list == old(self).word_list,
            final(self).rows == old(self).rows,
            final(self).mode == old(self).mode,
            final(self)@.log == old(self)@.log,
            final(self)@.started == old(self)@.started,
    {
        let ghost w = self.written_words@;
        self.written_words.push(s);
        assert(words_view(self.written_words@) =~= words_view(w).push(s@));
    }

    /// Backspace on an empty word: reopens the previous word unless it already
    /// equals its target.
    fn remove_empty(&mut self)
        requires
            old(self).wf(),
        ensures
            final(self).wf(),
            final(self)@ == (TypingModel {
                written: remove_empty(old(self).targets(), old(self)@.written),
                ..old(self)@
            }),
            final(self).word_list == old(self).word_list,
            final(self).rows == old(self).rows,
            final(self).mode == old(self).mode,
    {
        let n = self.written_words.len();
        if n > 1 {
            let i = n - 2;
            let same = if i < self.word_list.len() {
                self.written_words[i] == self.word_list[i]
            } else {
                self.written_words[i].as_str().unicode_len() == 0
            };
            proof {
                if i >= self.word_list@.len() {
                    assert(same == (self@.written[i as int] =~= Seq::<char>::empty()));
                }
            }
            if !same {
                let _ = self.take_current();
            }
        }
    }

    fn remove_char(&mut self)
        requires
            old(self).wf(),
        ensures
            final(self).wf(),
            final(self)@ == step(
                old(self).targets(),
                old(self)@,
                KeyEvent { code: KeyCode::Backspace, control: false, press: true },
                0,
            ),
            final(self).word_list == old(self).word_list,
            final(self).rows == old(self).rows,
            final(self).mode == old(self).mode,
    {
        if self.written_words[self.written_words.len() - 1].as_str().unicode_len() == 0 {
            self.remove_empty();
        } else {
            let ghost w = self@.written;
            let mut cur = self.take_current();
            let _ = pop_char(&mut cur);
            self.put_current(cur);
            assert(self@.written =~= w.update(w.len() - 1, w.last().drop_last()));
        }
    }

    fn remove_word(&mut self)
        requires
            old(self).wf(),
        ensures
            final(self).wf(),
            final(self)@ == step(
                old(self).targets(),
                old(self)@,
                KeyEvent { code: KeyCode::Backspace, control: true, press: true },
                0,
            ),
            final(self).word_list == old(self).word_list,
            final(self).rows == old(self).rows,
            final(self).mode == old(self).mode,
    {
        if self.written_words[self.written_words.len() - 1].as_str().unicode_len() == 0 {
            self.remove_empty();
        }
        let ghost w = self@.written;
        let _ = self.take_current();
        self.put_current(String::new());
        assert(self@.written =~= w.update(w.len() - 1, Seq::empty()));
    }

    fn add_char(&mut self, c: char, elapsed: u64)
        requires
            old(self).wf(),
            '!' <= c <= '~',
        ensures
            final(self).wf(),
            final(self)@ == step(
                old(self).targets(),
                old(self)@,
                KeyEvent { code: KeyCode::Char(c), control: false, press: true },
                elapsed,
            ),
            final(self).word_list == old(self).word_list,
            final(self).rows == old(self).rows,
            final(self).mode == old(self).mode,
    {
        let ghost w = self@.written;
        let i = self.written_words.len() - 1;
        let mut cur = self.take_current();
        let pos = cur.as_str().unicode_len();
        let kind = self.char_kind(i, pos, c);
        push_char(&mut cur, c);
        self.put_current(cur);
        self.key_strokes.push((elapsed, kind));
        self.started = true;
        assert(self@.written =~= w.update(w.len() - 1, w.last().push(c)));
    }

    fn add_space(&mut self, elapsed: u64)
        requires
            old(self).wf(),
        ensures
            final(self).wf(),
            final(self)@ == step(
                old(self).targets(),
                old(self)@,
                KeyEvent { code: KeyCode::Char(' '), control: false, press: true },
                elapsed,
            ),
            final(self).word_list == old(self).word_list,
            final(self).rows == old(self).rows,
            final(self).mode == old(self).mode,
    {
        let i = self.written_words.len() - 1;
        let typed = self.written_words[i].as_str().unicode_len();
        let target = self.target_len(i);
        let overflow: i32 = if typed >= target {
            if typed - target > i32::MAX as usize {
                i32::MAX
            } else {
                (typed - target) as i32
            }
        } else {
            if target - typed > 2147483648usize {
                i32::MIN
            } else {
                (0i64 - (target - typed) as i64) as i32
            }
        };
        self.key_strokes.push((elapsed, KeyStrokeKind::Space(overflow)));
        self.put_current(String::new());
        self.started = true;
    }

    /// How far the session has come, as a fraction `done / total` kept within
    /// zero and one: the time elapsed out of the duration, or the words closed
    /// out of the word count. A session of length zero is complete.
    pub fn progress(&self, elapsed: u64) -> (r: (u64, u64))
        requires
            self.wf(),
        ensures
            r.1 > 0,
            r.0 <= r.1,
            ({
                let (done, total) = match self.mode {
                    TestMode::Duration(d) => (elapsed as int, d as int),
                    TestMode::Words(n) => (self.written_words@.len() - 1, n as int),
                };
                if total == 0 {
                    r == (1u64, 1u64)
                } else {
                    r.1 == total && r.0 == if done <= total {
                        done
                    } else {
                        total
                    }
                }
            }),
    {
        let (done, total): (u64, u64) = match self.mode {
            TestMode::Duration(d) => (elapsed, d),
            TestMode::Words(n) => ((self.written_words.len() - 1) as u64, n as u64),
        };
        if total == 0 {
            (1, 1)
        } else if done <= total {
            (done, total)
        } else {
            (total, total)
        }
    }

    /// Whether the session is over `elapsed` nanoseconds after its start.
    pub fn is_finished(&self, elapsed: u64) -> (r: bool)
        ensures
            r == finished(self.mode, self@, elapsed),
    {
        self.started && match self.mode {
            TestMode::Duration(d) => elapsed > d,
            TestMode::Words(n) => self.written_words.len() > n,
        }
    }

    /// One tick, `elapsed` nanoseconds after the start: a finished session turns
    /// into its results, any other stays as it is.
    pub fn update(self, elapsed: u64) -> (r: Screen)
        requires
            text_size(self@.written) + text_size(self.targets()) <= u64::MAX,
        ensures
            finished(self.mode, self@, elapsed) ==> match r {
                Screen::Stats(s) => is_stats_of(
                    s,
                    self@.log,
                    normalising_length(self.mode, elapsed),
                    self@.written,
                    self.targets(),
                ),
                Screen::Typing(_) => false,
            },
            !finished(self.mode, self@, elapsed) ==> r == Screen::Typing(self),
    {
        if self.is_finished(elapsed) {
            let duration = match self.mode {
                TestMode::Duration(d) => d,
                TestMode::Words(_) => elapsed,
            };
            Screen::Stats(
                StatsState::new(
                    self.key_strokes,
                    duration,
                    self.written_words.as_slice(),
                    self.word_list.as_slice(),
                ),
            )
        } else {
            Screen::Typing(self)
        }
    }

    /// Applies one key event made `elapsed` nanoseconds after the start.
    pub fn handle_event(&mut self, event: KeyEvent, elapsed: u64)
        requires
            old(self).wf(),
        ensures
            final(self).wf(),
            final(self)@ == step(old(self).targets(), old(self)@, event, elapsed),
            final(self).word_list == old(self).word_list,
            final(self).rows == old(self).rows,
            final(self).mode == old(self).mode,
    {
        match classify(event) {
            Action::RemoveWord => self.remove_word(),
            Action::AddChar(c) => self.add_char(c, elapsed),
            Action::AddSpace => self.add_space(elapsed),
            Action::RemoveChar => self.remove_char(),
            Action::Ignore => {},
        }
    }
}

} // verus!
