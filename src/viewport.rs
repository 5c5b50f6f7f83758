//! The cursor and the view frame: single-step motions with the sticky
//! column, repeated steps, and word motions over a row's graphemes.
use crate::editor::Direction;
use crate::file::Document;
use crate::text::{char_is_separator, chars_of, grapheme_clusters, is_separator, views};
use vstd::prelude::*;

verus! {

/// Where the cursor stands: the first visible row, the cursor's row on the
/// screen and its column in graphemes within the row's text.
#[derive(Debug, Clone, Copy, PartialEq, Eq, Structural)]
pub struct Cursor {
    pub first_row: usize,
    pub screen_row: usize,
    pub column: usize,
}

/// The document row under the cursor.
pub open spec fn abs_row(c: Cursor) -> int {
    c.first_row + c.screen_row
}

pub open spec fn min(a: int, b: int) -> int {
    if a <= b {
        a
    } else {
        b
    }
}

/// The cursor after one step down: the screen row moves unless it is at
/// the bottom edge, where the frame shifts; the column sticks but is
/// clamped to the new row. On the last row nothing moves.
pub open spec fn down(c: Cursor, doc: Document, height: nat) -> Cursor {
    let r = abs_row(c);
    if r + 1 < doc.rows().len() {
        let col = min(c.column as int, doc.row_len(r + 1) as int) as usize;
        if c.screen_row + 2 >= height {
            Cursor { first_row: (c.first_row + 1) as usize, screen_row: c.screen_row, column: col }
        } else {
            Cursor { first_row: c.first_row, screen_row: (c.screen_row + 1) as usize, column: col }
        }
    } else {
        c
    }
}

/// The cursor after one step up, symmetric to `down`. On the first row
/// nothing moves.
pub open spec fn up(c: Cursor, doc: Document) -> Cursor {
    let r = abs_row(c);
    if r > 0 {
        let col = min(c.column as int, doc.row_len(r - 1) as int) as usize;
        if c.screen_row == 0 {
            Cursor { first_row: (c.first_row - 1) as usize, screen_row: 0, column: col }
        } else {
            Cursor { first_row: c.first_row, screen_row: (c.screen_row - 1) as usize, column: col }
        }
    } else {
        c
    }
}

/// The cursor after one step left; at the first column it wraps to the end
/// of the row above.
pub open spec fn left(c: Cursor, doc: Document) -> Cursor {
    if c.column > 0 {
        Cursor { column: (c.column - 1) as usize, ..c }
    } else if abs_row(c) > 0 {
        let u = up(c, doc);
        Cursor { column: doc.row_len(abs_row(c) - 1) as usize, ..u }
    } else {
        c
    }
}

/// The cursor after one step right; at the end of a row it wraps to the
/// start of the next, except on the last row.
pub open spec fn right(c: Cursor, doc: Document, height: nat) -> Cursor {
    if c.column as int == doc.row_len(abs_row(c)) as int {
        if abs_row(c) + 1 == doc.rows().len() {
            c
        } else {
            Cursor { column: 0, ..down(c, doc, height) }
        }
    } else {
        Cursor { column: (c.column + 1) as usize, ..c }
    }
}

/// The cursor after one motion.
pub open spec fn moved(c: Cursor, d: Direction, doc: Document, height: nat, width: nat, buffer: nat) -> Cursor {
    match d {
        Direction::Down => down(c, doc, height),
        Direction::Up => up(c, doc),
        Direction::Left => left(c, doc),
        Direction::Right => right(c, doc, height),
    }
}

/// The cursor after `k` steps up.
pub open spec fn up_n(c: Cursor, doc: Document, k: nat) -> Cursor
    decreases k,
{
    if k == 0 {
        c
    } else {
        up(up_n(c, doc, (k - 1) as nat), doc)
    }
}

/// The cursor after `k` steps down.
pub open spec fn down_n(c: Cursor, doc: Document, height: nat, k: nat) -> Cursor
    decreases k,
{
    if k == 0 {
        c
    } else {
        down(down_n(c, doc, height, (k - 1) as nat), doc, height)
    }
}

/// The cursor stands on a row of `doc`, within its text, and on the screen.
pub open spec fn cursor_ok(c: Cursor, doc: Document, height: nat) -> bool {
    &&& c.screen_row + 2 <= height
    &&& abs_row(c) < doc.rows().len()
    &&& c.column <= doc.row_len(abs_row(c))
}

/// A cluster that separates words: it starts with whitespace or ASCII
/// punctuation.
pub open spec fn is_sep_cluster(g: Seq<char>) -> bool {
    g.len() > 0 && is_separator(g[0])
}

/// The first index from `i` on whose cluster is a separator exactly when
/// `want` holds; `gs.len()` when there is none.
pub open spec fn find_from(gs: Seq<Seq<char>>, i: int, want: bool) -> int
    decreases gs.len() - i,
{
    if i < 0 || i >= gs.len() {
        gs.len() as int
    } else if is_sep_cluster(gs[i]) == want {
        i
    } else {
        find_from(gs, i + 1, want)
    }
}

/// The last index at or before `i` whose cluster is a separator exactly
/// when `want` holds; -1 when there is none.
pub open spec fn find_back(gs: Seq<Seq<char>>, i: int, want: bool) -> int
    decreases i + 1,
{
    if i < 0 || i >= gs.len() {
        -1
    } else if is_sep_cluster(gs[i]) == want {
        i
    } else {
        find_back(gs, i - 1, want)
    }
}

/// The start of the next word after column `col`: past the rest of the
/// current word and the separators after it; -1 when the row has none.
pub open spec fn next_word(gs: Seq<Seq<char>>, col: int) -> int {
    let i = find_from(gs, col, true);
    if i >= gs.len() {
        -1
    } else {
        let j = find_from(gs, i + 1, false);
        if j >= gs.len() {
            -1
        } else {
            j
        }
    }
}

/// The end of the previous word before column `col`: back over the rest of
/// the current word and the separators before it; -1 when there is none.
pub open spec fn prev_word(gs: Seq<Seq<char>>, col: int) -> int {
    if gs.len() == 0 {
        -1
    } else {
        let i = find_back(gs, min(col, gs.len() - 1), true);
        if i < 0 {
            -1
        } else {
            find_back(gs, i - 1, false)
        }
    }
}

/// The first column of the next row, or no move on the last row.
pub open spec fn next_line_start(c: Cursor, doc: Document, height: nat) -> Cursor {
    if abs_row(c) + 1 < doc.rows().len() {
        Cursor { column: 0, ..down(c, doc, height) }
    } else {
        c
    }
}

pub proof fn lemma_up_n(c: Cursor, doc: Document, height: nat, k: nat)
    requires
        cursor_ok(c, doc, height),
    ensures
        cursor_ok(up_n(c, doc, k), doc, height),
        abs_row(up_n(c, doc, k)) == if abs_row(c) >= k { abs_row(c) - k } else { 0 },
    decreases k,
{
    if k > 0 {
        lemma_up_n(c, doc, height, (k - 1) as nat);
        let p = up_n(c, doc, (k - 1) as nat);
        doc.lemma_rows_fit();
        if abs_row(p) > 0 {
            doc.rows()[abs_row(p) - 1].lemma_len_fits();
        }
    }
}

pub proof fn lemma_down_n(c: Cursor, doc: Document, height: nat, k: nat)
    requires
        cursor_ok(c, doc, height),
    ensures
        cursor_ok(down_n(c, doc, height, k), doc, height),
        abs_row(down_n(c, doc, height, k)) == min(abs_row(c) + k, doc.rows().len() - 1),
        down_n(c, doc, height, k).first_row >= c.first_row,
    decreases k,
{
    if k > 0 {
        lemma_down_n(c, doc, height, (k - 1) as nat);
        let p = down_n(c, doc, height, (k - 1) as nat);
        doc.lemma_rows_fit();
        if abs_row(p) + 1 < doc.rows().len() {
            doc.rows()[abs_row(p) + 1].lemma_len_fits();
        }
    }
}

/// Moving down and then up keeps the column whenever the row below is at
/// least as long as that column (the cursor's own row always is), and
/// returns to the same row.
pub proof fn lemma_sticky_column(c: Cursor, doc: Document, height: nat)
    requires
        doc.wf(),
        height >= 2,
        cursor_ok(c, doc, height),
        abs_row(c) + 1 < doc.rows().len(),
        doc.row_len(abs_row(c) + 1) >= c.column,
    ensures
        up(down(c, doc, height), doc).column == c.column,
        abs_row(up(down(c, doc, height), doc)) == abs_row(c),
{
    doc.lemma_rows_fit();
}

pub(crate) fn is_sep_exec(g: &String) -> (r: bool)
    ensures
        r == is_sep_cluster(g@),
{
    let cs = crate::text::chars_of(g.as_str());
    cs.len() > 0 && char_is_separator(cs[0])
}

/// `find_from` over the clusters `gs`.
pub(crate) fn find_from_exec(gs: &Vec<String>, i: usize, want: bool) -> (r: usize)
    ensures
        r == find_from(views(gs@), i as int, want),
{
    let mut k = i;
    while k < gs.len()
        invariant
            i <= k,
            find_from(views(gs@), i as int, want) == find_from(views(gs@), k as int, want),
        decreases gs@.len() - k,
    {
        proof {
            assert(views(gs@)[k as int] == gs@[k as int]@);
        }
        if is_sep_exec(&gs[k]) == want {
            return k;
        }
        k = k + 1;
    }
    gs.len()
}

/// `find_back` from index `i - 1`, plus one: 0 when there is none.
pub(crate) fn find_back_exec(gs: &Vec<String>, i: usize, want: bool) -> (r: usize)
    requires
        i <= gs@.len(),
    ensures
        r == find_back(views(gs@), i - 1, want) + 1,
        r <= i,
{
    let mut k = i;
    while k > 0
        invariant
            k <= i <= gs@.len(),
            find_back(views(gs@), i - 1, want) == find_back(views(gs@), k - 1, want),
        decreases k,
    {
        proof {
            assert(views(gs@)[k - 1] == gs@[k - 1]@);
        }
        if is_sep_exec(&gs[k - 1]) == want {
            return k;
        }
        k = k - 1;
    }
    0
}

/// The frame and screen row after a step down from `c` (the column is
/// set apart).
pub open spec fn next_frame(c: Cursor, height: nat) -> Cursor {
    if c.screen_row + 2 >= height {
        Cursor { first_row: (c.first_row + 1) as usize, ..c }
    } else {
        Cursor { screen_row: (c.screen_row + 1) as usize, ..c }
    }
}

/// The frame and screen row after a step up from `c`.
pub open spec fn prev_frame(c: Cursor) -> Cursor {
    if c.screen_row == 0 {
        Cursor { first_row: (c.first_row - 1) as usize, ..c }
    } else {
        Cursor { screen_row: (c.screen_row - 1) as usize, ..c }
    }
}

/// `c` with its column clamped to the length of its row in `doc`.
pub open spec fn clamped(c: Cursor, doc: Document) -> Cursor {
    Cursor { column: min(c.column as int, doc.row_len(abs_row(c)) as int) as usize, ..c }
}

/// The cursor after one next-word motion.
pub open spec fn next_word_cursor(c: Cursor, doc: Document, height: nat) -> Cursor {
    let j = next_word(grapheme_clusters(doc.texts()[abs_row(c)]), c.column as int);
    if j >= 0 {
        Cursor { column: j as usize, ..c }
    } else {
        next_line_start(c, doc, height)
    }
}

/// The cursor after one previous-word motion.
pub open spec fn prev_word_cursor(c: Cursor, doc: Document, height: nat) -> Cursor {
    let j = prev_word(grapheme_clusters(doc.texts()[abs_row(c)]), c.column as int);
    if j >= 0 {
        Cursor { column: j as usize, ..c }
    } else {
        next_line_start(c, doc, height)
    }
}

/// The cursor after `n` word motions, forward or backward.
pub open spec fn word_steps(c: Cursor, doc: Document, height: nat, n: nat, forward: bool) -> Cursor
    decreases n,
{
    if n == 0 {
        c
    } else {
        let p = word_steps(c, doc, height, (n - 1) as nat, forward);
        if forward {
            next_word_cursor(p, doc, height)
        } else {
            prev_word_cursor(p, doc, height)
        }
    }
}

} // verus!
