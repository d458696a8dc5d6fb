//! Word-wrap layout of a typing session: where each word goes, which style
//! each of its characters has, where the cursor is, and which rows are tracked.

use crate::typing::TypingState;
use vstd::prelude::*;

verus! {

/// The style class of a laid-out character.
#[derive(Debug, Clone, Copy, PartialEq, Eq, Structural)]
pub enum CellStyle {
    /// Typed and matching the target.
    Correct,
    /// Typed and not matching (or typed past the end of the target word).
    Error,
    /// Not typed yet.
    Untyped,
}

/// A word placed with its first character at column `x` of row `y`: the
/// characters it shows, each with its style, one cell after another.
pub struct PlacedWord {
    pub x: usize,
    pub y: usize,
    pub chars: Vec<(char, CellStyle)>,
}

/// The layout of a session in a text area: the placed words, the cursor cell
/// (when the active word is shown) and the word indices at which the tracked
/// rows start. Parts of words or a cursor beyond the area are the drawer's to
/// clip.
pub struct Layout {
    pub words: Vec<PlacedWord>,
    pub cursor: Option<(usize, usize)>,
    pub rows: Vec<usize>,
}

pub open spec fn placed_view(ws: Seq<PlacedWord>) -> Seq<(usize, usize, Seq<(char, CellStyle)>)> {
    ws.map_values(|p: PlacedWord| (p.x, p.y, p.chars@))
}

/// What a word shows: the typed characters, followed by the untyped rest of
/// the target when the input is shorter.
pub open spec fn display_of(input: Option<Seq<char>>, word: Seq<char>) -> Seq<char> {
    match input {
        None => word,
        Some(s) => if word.len() > s.len() {
            s + word.skip(s.len() as int)
        } else {
            s
        },
    }
}

/// The style of position `k` of a word shown with the given input.
pub open spec fn style_at(input: Option<Seq<char>>, word: Seq<char>, k: int) -> CellStyle {
    match input {
        None => CellStyle::Untyped,
        Some(s) => if s == word {
            CellStyle::Correct
        } else if k < s.len() {
            if k < word.len() && word[k] == s[k] {
                CellStyle::Correct
            } else {
                CellStyle::Error
            }
        } else {
            CellStyle::Untyped
        },
    }
}

/// Character `k` of what a word shows.
pub open spec fn shown_char(input: Option<Seq<char>>, word: Seq<char>, k: int) -> char {
    display_of(input, word)[k]
}

/// The styled characters of a word shown with the given input.
pub open spec fn word_cells(input: Option<Seq<char>>, word: Seq<char>) -> Seq<(char, CellStyle)> {
    Seq::new(
        display_of(input, word).len(),
        |k: int| (shown_char(input, word, k), style_at(input, word, k)),
    )
}

/// One pass of the layout in progress: the next column (capped one past the
/// row end), the current row, the tracked row starts, the placed words, the
/// cursor, the row of the active word once it is placed, and whether the area
/// is full.
pub struct LayState {
    pub x: int,
    pub y: int,
    pub rows: Seq<usize>,
    pub words: Seq<(usize, usize, Seq<(char, CellStyle)>)>,
    pub cursor: Option<(usize, usize)>,
    pub active_row: Option<int>,
    pub done: bool,
}

/// The input typed for word `i`, if that word has been reached.
pub open spec fn input_at(written: Seq<Seq<char>>, i: int) -> Option<Seq<char>> {
    if 0 <= i < written.len() {
        Some(written[i])
    } else {
        None
    }
}

/// The cursor for the active word shown at column `x` of row `y`: after its
/// typed characters, moved to the start of the next row when it reaches the
/// row end.
pub open spec fn cursor_at(x: int, typed: int, y: int, width: int) -> (usize, usize) {
    if x + typed >= width {
        (0, (y + 1) as usize)
    } else {
        ((x + typed) as usize, y as usize)
    }
}

/// Lays out word `i`. The word wraps to a new row (which is tracked) when it
/// would pass the row end; once a row beyond the area is reached the pass is
/// done.
pub open spec fn lay_word(
    st: LayState,
    targets: Seq<Seq<char>>,
    written: Seq<Seq<char>>,
    i: int,
    width: int,
    height: int,
) -> LayState {
    if st.done {
        st
    } else {
        let word = targets[i];
        let input = input_at(written, i);
        let d = display_of(input, word);
        let wrap = st.x + d.len() > width;
        let x = if wrap {
            0
        } else {
            st.x
        };
        let y = if wrap {
            st.y + 1
        } else {
            st.y
        };
        let rows = if wrap {
            st.rows.push(i as usize)
        } else {
            st.rows
        };
        if y >= height {
            LayState { x, y, rows, done: true, ..st }
        } else {
            let active = i == written.len() - 1;
            LayState {
                x: if x + d.len() + 1 <= width + 1 {
                    x + d.len() + 1
                } else {
                    width + 1
                },
                y,
                rows,
                words: st.words.push((x as usize, y as usize, word_cells(input, word))),
                cursor: if active {
                    Some(cursor_at(x, written[i].len() as int, y, width))
                } else {
                    st.cursor
                },
                active_row: if active {
                    Some(y)
                } else {
                    st.active_row
                },
                done: false,
            }
        }
    }
}

/// A pass over the words `first .. first + k`.
pub open spec fn lay_upto(
    targets: Seq<Seq<char>>,
    written: Seq<Seq<char>>,
    first: usize,
    width: int,
    height: int,
    k: nat,
) -> LayState
    decreases k,
{
    if k == 0 {
        LayState {
            x: 0,
            y: 0,
            rows: seq![first],
            words: Seq::empty(),
            cursor: None,
            active_row: None,
            done: false,
        }
    } else {
        lay_word(
            lay_upto(targets, written, first, width, height, (k - 1) as nat),
            targets,
            written,
            first + k - 1,
            width,
            height,
        )
    }
}

/// A pass from word `first` to the end of the list (or of the area).
pub open spec fn pass_from(
    targets: Seq<Seq<char>>,
    written: Seq<Seq<char>>,
    first: usize,
    width: int,
    height: int,
) -> LayState {
    let k = if first < targets.len() {
        (targets.len() - first) as nat
    } else {
        0
    };
    lay_upto(targets, written, first, width, height, k)
}

/// Whether a pass has to scroll: the active word lies on the third row or
/// lower, and the second tracked row starts at a later word than the first.
pub open spec fn scrolls(p: LayState) -> bool {
    &&& p.active_row matches Some(y) && y >= 2
    &&& p.rows.len() > 1
    &&& p.rows[1] > p.rows[0]
}

/// Passes from `first`, dropping the oldest tracked row while the pass has to
/// scroll (at most `fuel` times).
pub open spec fn settle(
    targets: Seq<Seq<char>>,
    written: Seq<Seq<char>>,
    first: usize,
    width: int,
    height: int,
    fuel: nat,
) -> LayState
    decreases fuel,
{
    let p = pass_from(targets, written, first, width, height);
    if scrolls(p) && fuel > 0 {
        settle(targets, written, p.rows[1], width, height, (fuel - 1) as nat)
    } else {
        p
    }
}

/// The layout of a session whose tracked rows start at word `first`: passes
/// are repeated from the next tracked row until the active word sits on the
/// first or second row.
pub open spec fn layout_of(
    targets: Seq<Seq<char>>,
    written: Seq<Seq<char>>,
    first: usize,
    width: int,
    height: int,
) -> LayState {
    settle(targets, written, first, width, height, targets.len())
}

proof fn lemma_done_stays(
    targets: Seq<Seq<char>>,
    written: Seq<Seq<char>>,
    first: usize,
    width: int,
    height: int,
    k: nat,
    m: nat,
)
    requires
        k <= m,
        lay_upto(targets, written, first, width, height, k).done,
    ensures
        lay_upto(targets, written, first, width, height, m) == lay_upto(
            targets,
            written,
            first,
            width,
            height,
            k,
        ),
    decreases m,
{
    if k < m {
        lemma_done_stays(targets, written, first, width, height, k, (m - 1) as nat);
    }
}

proof fn lemma_rows_start(
    targets: Seq<Seq<char>>,
    written: Seq<Seq<char>>,
    first: usize,
    width: int,
    height: int,
    k: nat,
)
    ensures
        lay_upto(targets, written, first, width, height, k).rows.len() >= 1,
        lay_upto(targets, written, first, width, height, k).rows[0] == first,
    decreases k,
{
    if k > 0 {
        lemma_rows_start(targets, written, first, width, height, (k - 1) as nat);
    }
}

/// With enough fuel, settling ends on a pass that does not scroll and that
/// starts where it was made from.
proof fn lemma_settle_stops(
    targets: Seq<Seq<char>>,
    written: Seq<Seq<char>>,
    first: usize,
    width: int,
    height: int,
    fuel: nat,
)
    requires
        fuel + first >= targets.len(),
    ensures
        ({
            let r = settle(targets, written, first, width, height, fuel);
            &&& r.rows.len() >= 1
            &&& r == pass_from(targets, written, r.rows[0], width, height)
            &&& !scrolls(r)
        }),
    decreases fuel,
{
    let p = pass_from(targets, written, first, width, height);
    let k = if first < targets.len() {
        (targets.len() - first) as nat
    } else {
        0
    };
    lemma_rows_start(targets, written, first, width, height, k);
    if scrolls(p) && fuel > 0 {
        lemma_settle_stops(targets, written, p.rows[1], width, height, (fuel - 1) as nat);
    } else if fuel == 0 {
        assert(k == 0);
    }
}

/// Laying out is idempotent: laying a session out again from the rows that a
/// layout produced gives the same words, cursor and rows.
pub proof fn lemma_layout_idempotent(
    targets: Seq<Seq<char>>,
    written: Seq<Seq<char>>,
    first: usize,
    width: int,
    height: int,
)
    ensures
        layout_of(targets, written, first, width, height).rows.len() >= 1,
        ({
            let once = layout_of(targets, written, first, width, height);
            layout_of(targets, written, once.rows[0], width, height) == once
        }),
{
    let n = targets.len();
    lemma_settle_stops(targets, written, first, width, height, n);
    let once = layout_of(targets, written, first, width, height);
    lemma_settle_stops(targets, written, once.rows[0], width, height, n);
}

pub open spec fn opt_view(input: Option<&str>) -> Option<Seq<char>> {
    match input {
        None => None,
        Some(s) => Some(s@),
    }
}

/// Character `k` of what a word shows, and its style.
fn shown_cell(input: Option<&str>, word: &str, same: bool, k: usize) -> (r: (char, CellStyle))
    requires
        k < display_of(opt_view(input), word@).len(),
        same == (input is Some && input->0@ == word@),
    ensures
        r == (shown_char(opt_view(input), word@, k as int), style_at(opt_view(input), word@, k as int)),
{
    let ghost d = display_of(opt_view(input), word@);
    match input {
        None => (word.get_char(k), CellStyle::Untyped),
        Some(s) => {
            let slen = s.unicode_len();
            let wlen = word.unicode_len();
            let ch = if k < slen {
                s.get_char(k)
            } else {
                word.get_char(k)
            };
            proof {
                if wlen > slen {
                    assert(d == s@ + word@.skip(slen as int));
                    if k >= slen {
                        assert(d[k as int] == word@.skip(slen as int)[k - slen]);
                    }
                }
            }
            let style = if same {
                CellStyle::Correct
            } else if k < slen {
                if k < wlen && word.get_char(k) == s.get_char(k) {
                    CellStyle::Correct
                } else {
                    CellStyle::Error
                }
            } else {
                CellStyle::Untyped
            };
            (ch, style)
        },
    }
}

/// The styled characters of a word.
fn styled_word(input: Option<&str>, word: &str, same: bool, dlen: usize) -> (r: Vec<(char, CellStyle)>)
    requires
        dlen == display_of(opt_view(input), word@).len(),
        same == (input is Some && input->0@ == word@),
    ensures
        r@ == word_cells(opt_view(input), word@),
{
    let ghost wc = word_cells(opt_view(input), word@);
    let mut r: Vec<(char, CellStyle)> = Vec::new();
    let mut k: usize = 0;
    while k < dlen
        invariant
            k <= dlen,
            dlen == wc.len(),
            dlen == display_of(opt_view(input), word@).len(),
            same == (input is Some && input->0@ == word@),
            wc == word_cells(opt_view(input), word@),
            r@ == wc.take(k as int),
        decreases dlen - k,
    {
        let c = shown_cell(input, word, same, k);
        r.push(c);
        k = k + 1;
        assert(r@ =~= wc.take(k as int));
    }
    assert(wc.take(dlen as int) =~= wc);
    r
}

/// One pass of the layout from word `first`; also returns the row of the
/// active word, if it was placed.
fn pass(state: &TypingState, first: usize, width: u16, height: u16) -> (r: (Layout, Option<usize>))
    requires
        state.wf(),
    ensures
        ({
            let st = pass_from(state.targets(), state@.written, first, width as int, height as int);
            &&& placed_view(r.0.words@) == st.words
            &&& r.0.cursor == st.cursor
            &&& r.0.rows@ == st.rows
            &&& match r.1 {
                Some(y) => st.active_row == Some(y as int),
                None => st.active_row is None,
            }
        }),
{
    let ghost targets = state.targets();
    let ghost written = state@.written;
    let n = state.word_list.len();
    let w = width as usize;
    let h = height as usize;
    let mut x: usize = 0;
    let mut y: usize = 0;
    let mut rows: Vec<usize> = Vec::new();
    rows.push(first);
    let mut words: Vec<PlacedWord> = Vec::new();
    let mut cursor: Option<(usize, usize)> = None;
    let mut active_row: Option<usize> = None;
    let mut done = false;
    let mut i: usize = first;
    proof {
        assert(rows@ =~= seq![first]);
        assert(placed_view(words@) =~= Seq::empty());
    }
    while i < n && !done
        invariant
            targets == state.targets(),
            written == state@.written,
            state.wf(),
            n == targets.len(),
            w == width as int,
            h == height as int,
            first <= i,
            i <= n || i == first,
            ({
                let st = lay_upto(targets, written, first, w as int, h as int, (i - first) as nat);
                &&& st.x == x
                &&& st.y == y
                &&& st.rows == rows@
                &&& st.words == placed_view(words@)
                &&& st.cursor == cursor
                &&& st.done == done
                &&& match active_row {
                    Some(ay) => st.active_row == Some(ay as int),
                    None => st.active_row is None,
                }
            }),
            x <= w + 1,
            !done ==> y <= h,
            y <= h + 1,
        decreases n - i,
    {
        let word = state.word_list[i].as_str();
        assert(targets[i as int] == word@);
        let wlen = word.unicode_len();
        let input: Option<&str> = if i < state.written_words.len() {
            Some(state.written_words[i].as_str())
        } else {
            None
        };
        assert(opt_view(input) == input_at(written, i as int));
        let same = match input {
            Some(_) => state.written_words[i] == state.word_list[i],
            None => false,
        };
        let slen: usize = match input {
            Some(s) => s.unicode_len(),
            None => 0,
        };
        let dlen: usize = if input.is_some() && slen >= wlen {
            slen
        } else {
            wlen
        };
        assert(dlen == display_of(input_at(written, i as int), targets[i as int]).len());
        let wrap = x > w || dlen > w - x;
        if wrap {
            x = 0;
            y = y + 1;
            rows.push(i);
        }
        if y >= h {
            done = true;
        } else {
            if i == state.written_words.len() - 1 {
                cursor = if slen >= w - x {
                    Some((0, y + 1))
                } else {
                    Some((x + slen, y))
                };
                active_row = Some(y);
            }
            let chars = styled_word(input, word, same, dlen);
            let ghost before = words@;
            words.push(PlacedWord { x, y, chars });
            assert(placed_view(words@) =~= placed_view(before).push(
                (x, y, word_cells(input_at(written, i as int), targets[i as int])),
            ));
            x = if dlen <= w - x {
                x + dlen + 1
            } else {
                w + 1
            };
        }
        i = i + 1;
        assert((i - first) as nat - 1 == (i - 1 - first) as nat);
    }
    proof {
        let k = (i - first) as nat;
        let total = if first < n {
            (n - first) as nat
        } else {
            0
        };
        if done {
            lemma_done_stays(targets, written, first, w as int, h as int, k, total);
        }
    }
    (Layout { words, cursor, rows }, active_row)
}

/// Lays out a session in a text area of `width` by `height` cells, starting
/// from the first tracked row and scrolling until the active word sits on the
/// first or second row.
pub fn layout(state: &TypingState, width: u16, height: u16) -> (r: Layout)
    requires
        state.wf(),
    ensures
        ({
            let st = layout_of(
                state.targets(),
                state@.written,
                state.rows@[0],
                width as int,
                height as int,
            );
            placed_view(r.words@) == st.words && r.cursor == st.cursor && r.rows@ == st.rows
        }),
        r.rows@.len() >= 1,
{
    let ghost targets = state.targets();
    let ghost written = state@.written;
    let ghost start = state.rows@[0];
    let mut fuel: usize = state.word_list.len();
    let mut first = state.rows[0];
    let (mut current, mut active) = pass(state, first, width, height);
    proof {
        lemma_settle_stops(targets, written, start, width as int, height as int, targets.len());
    }
    loop
        invariant
            state.wf(),
            targets == state.targets(),
            written == state@.written,
            settle(targets, written, first, width as int, height as int, fuel as nat) == layout_of(
                targets,
                written,
                start,
                width as int,
                height as int,
            ),
            ({
                let st = pass_from(targets, written, first, width as int, height as int);
                &&& placed_view(current.words@) == st.words
                &&& current.cursor == st.cursor
                &&& current.rows@ == st.rows
                &&& match active {
                    Some(y) => st.active_row == Some(y as int),
                    None => st.active_row is None,
                }
            }),
        ensures
            settle(targets, written, first, width as int, height as int, fuel as nat) == pass_from(
                targets,
                written,
                first,
                width as int,
                height as int,
            ),
            ({
                let st = pass_from(targets, written, first, width as int, height as int);
                &&& placed_view(current.words@) == st.words
                &&& current.cursor == st.cursor
                &&& current.rows@ == st.rows
            }),
        decreases fuel,
    {
        let more = match active {
            Some(y) => y >= 2 && current.rows.len() > 1 && current.rows[1] > current.rows[0],
            None => false,
        };
        if !more || fuel == 0 {
            break;
        }
        first = current.rows[1];
        fuel = fuel - 1;
        let (next, next_active) = pass(state, first, width, height);
        current = next;
        active = next_active;
    }
    proof {
        let k = if first < targets.len() {
            (targets.len() - first) as nat
        } else {
            0
        };
        lemma_rows_start(targets, written, first, width as int, height as int, k);
    }
    current
}

impl TypingState {
    /// Lays the session out in a `width` by `height` area and keeps the row
    /// starts it produced for the next layout.
    pub fn render_layout(&mut self, width: u16, height: u16) -> (r: Layout)
        requires
            old(self).wf(),
        ensures
            ({
                let st = layout_of(
                    old(self).targets(),
                    old(self)@.written,
                    old(self).rows@[0],
                    width as int,
                    height as int,
                );
                placed_view(r.words@) == st.words && r.cursor == st.cursor && r.rows@ == st.rows
            }),
            final(self).wf(),
            final(self).rows@ == r.rows@,
            final(self)@ == old(self)@,
            final(self).word_list == old(self).word_list,
            final(self).mode == old(self).mode,
    {
        let r = layout(self, width, height);
        self.rows = r.rows.clone();
        r
    }
}

} // verus!
