//! The editing engine: terminal size, modes, the status line state, the
//! cursor and view frame, and the editor that wires keys to the document,
//! the history and the search.
use crate::command::{
    char_views, command_view, commands_of, is_set_line, parse_commands, parse_usize, set_request,
    split_words, string_from, usize_of, words_of, Command,
};
use crate::file::{
    doc_matches, head, lex_sorted, spliced, tail, without, DPositionDescriptor, Document, IPositionDescriptor,
    NLPositionDescriptor, Row,
};
use crate::history::{pushed, History, HistoryNode};
use crate::search::pattern_compiles;
use crate::text::{
    same_chars,    char_is_space, chars_of, decimal_width, digits, grapheme_clusters, graphemes,
    last_non_space, leading_spaces, push_char, spaces,
};
use crate::viewport::{
    abs_row, clamped, cursor_ok, down, down_n, find_back_exec, find_from_exec, left,
    lemma_down_n, lemma_up_n, min, moved, next_frame, next_line_start, next_word, prev_frame,
    prev_word, right, up, up_n, word_steps, Cursor,
};
use vstd::prelude::*;

verus! {

/// The size of the terminal, in cells.
pub struct Terminal {
    height: u16,
    width: u16,
}

impl Terminal {
    pub closed spec fn spec_width(&self) -> nat {
        self.width as nat
    }

    pub closed spec fn spec_height(&self) -> nat {
        self.height as nat
    }

    /// A terminal of `width` columns and `height` rows.
    pub fn new(width: u16, height: u16) -> (r: Terminal)
        ensures
            r.spec_width() == width,
            r.spec_height() == height,
    {
        Terminal { height, width }
    }

    /// `(width, height)`.
    pub fn size(&self) -> (r: (u16, u16))
        ensures
            r.0 == self.spec_width(),
            r.1 == self.spec_height(),
    {
        (self.width, self.height)
    }

    pub fn set_dimensions(&mut self, width: u16, height: u16)
        ensures
            final(self).spec_width() == width,
            final(self).spec_height() == height,
    {
        self.width = width;
        self.height = height;
    }
}

#[derive(Debug, Clone, Copy, PartialEq, Eq, Structural)]
pub enum EditorMode {
    Normal,
    Command,
    Insert,
    Search,
}

/// The name the status line shows for a mode.
pub open spec fn mode_name(m: EditorMode) -> Seq<char> {
    match m {
        EditorMode::Normal => "VIEW"@,
        EditorMode::Command => "COMMAND"@,
        EditorMode::Insert => "INSERT"@,
        EditorMode::Search => "SEARCH"@,
    }
}

impl EditorMode {
    /// The name the status line shows for the mode.
    pub fn to_string(&self) -> (r: String)
        ensures
            r@ == mode_name(*self),
    {
        match self {
            EditorMode::Normal => "VIEW".to_owned(),
            EditorMode::Command => "COMMAND".to_owned(),
            EditorMode::Insert => "INSERT".to_owned(),
            EditorMode::Search => "SEARCH".to_owned(),
        }
    }
}

#[derive(Debug, Clone, Copy, PartialEq, Eq, Structural)]
pub enum Direction {
    Down,
    Up,
    Left,
    Right,
}

/// The pending command line and the mode shown in the status line.
pub struct StatusBar {
    pub terminal_size: (u16, u16),
    pub cmd: String,
    pub cmd_chars: usize,
    pub mode: EditorMode,
}

impl StatusBar {
    /// The character count matches the command text.
    pub open spec fn wf(&self) -> bool {
        self.cmd_chars == self.cmd@.len()
    }

    /// An empty command line in Normal mode.
    pub fn default(terminal_size: (u16, u16)) -> (r: Self)
        ensures
            r.wf(),
            r.terminal_size == terminal_size,
            r.cmd@.len() == 0,
            r.mode == EditorMode::Normal,
    {
        StatusBar { terminal_size, cmd: String::new(), cmd_chars: 0, mode: EditorMode::Normal }
    }

    /// Appends a character to the command line.
    pub fn add_command(&mut self, command: char)
        requires
            old(self).wf(),
            old(self).cmd_chars < usize::MAX,
        ensures
            final(self).wf(),
            final(self).cmd@ == old(self).cmd@.push(command),
            final(self).mode == old(self).mode,
            final(self).terminal_size == old(self).terminal_size,
    {
        self.cmd_chars = self.cmd_chars + 1;
        crate::text::push_char(&mut self.cmd, command);
    }

    /// Drops the last character of the command line.
    pub fn remove_command(&mut self)
        requires
            old(self).wf(),
            old(self).cmd_chars > 0,
        ensures
            final(self).wf(),
            final(self).cmd@ == old(self).cmd@.drop_last(),
            final(self).mode == old(self).mode,
            final(self).terminal_size == old(self).terminal_size,
    {
        self.cmd_chars = self.cmd_chars - 1;
        crate::text::pop_char(&mut self.cmd);
    }

    /// Empties the command line.
    pub fn clear_command(&mut self)
        ensures
            final(self).wf(),
            final(self).cmd@.len() == 0,
            final(self).mode == old(self).mode,
            final(self).terminal_size == old(self).terminal_size,
    {
        self.cmd = String::new();
        self.cmd_chars = 0;
    }

    /// The status line for position `current` of `total`: the left part,
    /// and the `current/total` counter shown apart from it.
    pub fn layout(&self, current: usize, total: usize) -> (r: (String, String))
        requires
            self.wf(),
        ensures
            r.1@ == decimal(current as nat) + seq!['/'] + decimal(total as nat),
            r.0@ == status_left(self.cmd@, self.cmd_chars as nat, self.mode, r.1@, self.terminal_size.0 as nat),
    {
        let mut counter = decimal_string(current);
        push_char(&mut counter, '/');
        counter.append(decimal_string(total).as_str());
        let mode = self.mode.to_string();
        let mode_len = mode.as_str().unicode_len();
        let counter_len = counter.as_str().unicode_len();
        let width = self.terminal_size.0 as usize;
        let used = mode_len as u128 + counter_len as u128 + 3 + self.cmd_chars as u128;
        let room: usize = if (width as u128) > used {
            (width as u128 - used) as usize
        } else {
            0
        };
        let mut left = self.cmd.clone();
        let mut i: usize = 0;
        while i < room
            invariant
                i <= room,
                left@ == self.cmd@ + spaces(i as nat),
            decreases room - i,
        {
            push_char(&mut left, ' ');
            proof {
                assert(self.cmd@ + spaces((i + 1) as nat) =~= (self.cmd@ + spaces(i as nat)).push(' '));
            }
            i = i + 1;
        }
        left.append(mode.as_str());
        left.append(" | ");
        proof {
            assert(mode_name(self.mode).len() == mode_len);
        }
        (left, counter)
    }

    pub fn set_mode(&mut self, mode: &EditorMode)
        ensures
            final(self).mode == *mode,
            final(self).cmd == old(self).cmd,
            final(self).cmd_chars == old(self).cmd_chars,
            final(self).terminal_size == old(self).terminal_size,
    {
        self.mode = *mode;
    }
}

/// The decimal digit character for `d`.
pub open spec fn digit_char(d: nat) -> char {
    seq!['0', '1', '2', '3', '4', '5', '6', '7', '8', '9'][d as int]
}

/// The decimal representation of `n`.
pub open spec fn decimal(n: nat) -> Seq<char>
    decreases n,
{
    if n < 10 {
        seq![digit_char(n)]
    } else {
        decimal(n / 10).push(digit_char(n % 10))
    }
}

fn digit_of(d: usize) -> (r: char)
    requires
        d < 10,
    ensures
        r == digit_char(d as nat),
{
    match d {
        0 => '0',
        1 => '1',
        2 => '2',
        3 => '3',
        4 => '4',
        5 => '5',
        6 => '6',
        7 => '7',
        8 => '8',
        _ => '9',
    }
}

/// The decimal representation of `n`.
pub fn decimal_string(n: usize) -> (r: String)
    ensures
        r@ == decimal(n as nat),
{
    let mut rev: Vec<char> = Vec::new();
    let mut m = n;
    while m >= 10
        invariant
            decimal(n as nat) == decimal(m as nat) + rev@.reverse(),
        decreases m,
    {
        let d = digit_of(m % 10);
        let ghost before = rev@;
        rev.push(d);
        proof {
            assert(rev@.reverse() =~= seq![d] + before.reverse());
            assert(decimal(m as nat) == decimal((m / 10) as nat).push(d));
            assert(decimal((m / 10) as nat).push(d) + before.reverse() =~= decimal((m / 10) as nat) + (seq![d] + before.reverse()));
        }
        m = m / 10;
    }
    let mut out = String::new();
    push_char(&mut out, digit_of(m));
    let mut k = rev.len();
    proof {
        assert(rev@.reverse().skip(0) =~= rev@.reverse());
        assert(rev@.reverse().take(0) =~= Seq::<char>::empty());
    }
    while k > 0
        invariant
            k <= rev@.len(),
            out@ == seq![digit_char(m as nat)] + rev@.reverse().take(rev@.len() - k),
        decreases k,
    {
        push_char(&mut out, rev[k - 1]);
        proof {
            assert(rev@.reverse().take(rev@.len() - k + 1) =~= rev@.reverse().take(rev@.len() - k).push(rev@[k - 1]));
        }
        k = k - 1;
    }
    proof {
        assert(rev@.reverse().take(rev@.len() as int) =~= rev@.reverse());
    }
    out
}

/// The status line's left part for a command line `cmd` of `cmd_chars`
/// characters, mode `mode`, counter text `counter` and terminal width
/// `width`: the command, spaces that push the mode name right, the mode
/// name and a separator.
pub open spec fn status_left(cmd: Seq<char>, cmd_chars: nat, mode: EditorMode, counter: Seq<char>, width: nat) -> Seq<char> {
    let room = width - mode_name(mode).len() - counter.len() - 3 - cmd_chars;
    cmd + spaces(if room > 0 { room as nat } else { 0 }) + mode_name(mode) + " | "@
}

/// The row that the `j`-th step of a multi-line delete from row `line`
/// clears, in a document of `len` rows: it moves down one row a step and
/// stays on the last row.
pub open spec fn cleared_row(line: int, len: int, j: int) -> int {
    min(line + j, len - 1)
}

/// The text that row had just before that step.
pub open spec fn cleared_text(t: Seq<Seq<char>>, line: int, len: int, j: int) -> Seq<char> {
    cleared(t, line, j)[cleared_row(line, len, j)]
}

/// `n` is a snapshot of row `line` whose text was `text`.
pub open spec fn snapshot_of(n: HistoryNode, line: int, text: Seq<char>) -> bool {
    &&& n.altered_rows.start == line
    &&& n.altered_rows.end == line + 1
    &&& n.rows@.len() == 1
    &&& n.rows@[0]@ == text
}

/// `after` is `before` with a snapshot of row `line`, whose text was `text`,
/// pushed on.
pub open spec fn pushed_snapshot(
    before: History,
    after: History,
    line: int,
    text: Seq<char>,
) -> bool {
    &&& after.spec_capacity() == before.spec_capacity()
    &&& after.nodes() == pushed(before.nodes(), after.nodes()[0], before.spec_capacity())
    &&& before.spec_capacity() > 0 ==> snapshot_of(after.nodes()[0], line, text)
}

/// Number of rows a snapshot restores.
pub open spec fn restored_count(n: HistoryNode) -> int {
    let span = n.altered_rows.end - n.altered_rows.start;
    if span <= 0 {
        0
    } else {
        min(span, n.rows@.len() as int)
    }
}

/// The texts `t` with the rows of snapshot `n` put back.
pub open spec fn restored(t: Seq<Seq<char>>, n: HistoryNode) -> Seq<Seq<char>> {
    Seq::new(
        t.len(),
        |i: int|
            if n.altered_rows.start <= i < n.altered_rows.start + restored_count(n) {
                n.rows@[i - n.altered_rows.start]@
            } else {
                t[i]
            },
    )
}

/// The indentation a split of `t` carries over: its leading whitespace,
/// rounded down to an even count.
pub open spec fn indent_of(t: Seq<char>) -> int {
    (leading_spaces(t) / 2 * 2) as int
}

/// Whether splitting row `t` opens a block: the row, as it stood before the
/// split, ends in `{`, trailing whitespace aside.
pub open spec fn opens_block(t: Seq<char>) -> bool {
    last_non_space(t) == Some('{') && indent_of(t) + 2 <= usize::MAX
}

/// The rows a line split at column `col` of row `line` gives.
pub open spec fn split_texts(t: Seq<Seq<char>>, line: int, col: int) -> Seq<Seq<char>> {
    let row = t[line];
    if opens_block(row) {
        t.update(line, head(row, col)).insert(line + 1, spaces((indent_of(row) + 2) as nat) + tail(row, col)).insert(
            line + 2,
            spaces(indent_of(row) as nat).push('}'),
        )
    } else {
        t.update(line, head(row, col)).insert(line + 1, tail(row, col))
    }
}

/// Number of leading whitespace characters of `s`.
fn leading_spaces_exec(s: &str) -> (r: usize)
    ensures
        r == leading_spaces(s@),
{
    let cs = chars_of(s);
    let mut i: usize = 0;
    proof {
        assert(s@.skip(0) =~= s@);
    }
    while i < cs.len() && char_is_space(cs[i])
        invariant
            i <= cs@.len(),
            cs@ == s@,
            leading_spaces(s@) == i + leading_spaces(s@.skip(i as int)),
        decreases cs@.len() - i,
    {
        proof {
            assert(s@.skip(i as int).drop_first() =~= s@.skip(i as int + 1));
        }
        i = i + 1;
    }
    i
}

/// The last non-whitespace character of `s`.
fn last_non_space_exec(s: &str) -> (r: Option<char>)
    ensures
        r == last_non_space(s@),
{
    let cs = chars_of(s);
    let mut i: usize = cs.len();
    proof {
        assert(s@.take(i as int) =~= s@);
    }
    while i > 0 && char_is_space(cs[i - 1])
        invariant
            i <= cs@.len(),
            cs@ == s@,
            last_non_space(s@) == last_non_space(s@.take(i as int)),
        decreases i,
    {
        proof {
            assert(s@.take(i as int).drop_last() =~= s@.take(i as int - 1));
        }
        i = i - 1;
    }
    if i == 0 {
        proof {
            assert(s@.take(0) =~= Seq::<char>::empty());
        }
        None
    } else {
        Some(cs[i - 1])
    }
}

/// A text of `n` spaces.
fn spaces_string(n: usize) -> (r: String)
    ensures
        r@ == spaces(n as nat),
{
    let mut out = String::new();
    let mut i: usize = 0;
    while i < n
        invariant
            i <= n,
            out@ == spaces(i as nat),
        decreases n - i,
    {
        push_char(&mut out, ' ');
        proof {
            assert(spaces(i as nat).push(' ') =~= spaces((i + 1) as nat));
        }
        i = i + 1;
    }
    out
}

proof fn lemma_pushed_snapshot(before: History, after: History, node: HistoryNode, line: int, text: Seq<char>)
    requires
        after.spec_capacity() == before.spec_capacity(),
        after.nodes() == pushed(before.nodes(), node, before.spec_capacity()),
        snapshot_of(node, line, text),
    ensures
        pushed_snapshot(before, after, line, text),
{
    if before.spec_capacity() == 0 {
        assert(after.nodes() =~= Seq::<HistoryNode>::empty());
        assert(pushed(before.nodes(), after.nodes()[0], 0) =~= Seq::<HistoryNode>::empty());
    } else {
        assert(after.nodes()[0] == node);
    }
}

/// Inserting at the end of a row appends.
proof fn lemma_splice_end(r: Row, c: char)
    requires
        r.wf(),
    ensures
        spliced(r@, r.spec_len() as int, c) == r@.push(c),
{
    let cl = crate::text::grapheme_clusters(r@);
    assert(cl.take(r.spec_len() as int) =~= cl);
    assert(cl.skip(r.spec_len() as int) =~= Seq::<Seq<char>>::empty());
    assert(tail(r@, r.spec_len() as int) =~= Seq::<char>::empty());
}

/// Popping the last grapheme removes it.
proof fn lemma_pop_end(r: Row)
    requires
        r.wf(),
        r.spec_len() > 0,
    ensures
        head(r@, r.spec_len() - 1) == without(r@, r.spec_len() - 1),
{
    let cl = crate::text::grapheme_clusters(r@);
    assert(cl.skip(r.spec_len() as int) =~= Seq::<Seq<char>>::empty());
    assert(tail(r@, r.spec_len() as int) =~= Seq::<char>::empty());
    assert(head(r@, r.spec_len() - 1) + Seq::<char>::empty() =~= head(r@, r.spec_len() - 1));
}

/// `t` with the rows from `from` on, `k` of them, emptied.
pub open spec fn cleared(t: Seq<Seq<char>>, from: int, k: int) -> Seq<Seq<char>> {
    Seq::new(t.len(), |i: int| if from <= i < from + k { Seq::empty() } else { t[i] })
}

/// Keys the editor reacts to.
#[derive(Debug, Clone, Copy, PartialEq, Eq, Structural)]
pub enum Key {
    /// A printable character, with or without shift.
    Char(char),
    Enter,
    Esc,
    Backspace,
    Tab,
    Up,
    Down,
    Left,
    Right,
    /// Anything else.
    Other,
}

/// The editor: one document, its history and search state, the cursor and
/// view frame, the mode and the status line.
pub struct Editor {
    pub terminal: Terminal,
    pub file: Document,
    pub mode: EditorMode,
    pub status_bar: StatusBar,
    pub history: History,
    pub search_results: Vec<(usize, usize)>,
    pub search_next: usize,
    pub altered: bool,
    pub quit: bool,
    pub search_current: usize,
    pub search_total: usize,
    pub cursor: Cursor,
    pub buffer: usize,
}

impl Editor {
    pub open spec fn doc(&self) -> Document {
        self.file
    }

    pub open spec fn cur(&self) -> Cursor {
        self.cursor
    }

    pub open spec fn hist(&self) -> History {
        self.history
    }

    pub open spec fn spec_mode(&self) -> EditorMode {
        self.mode
    }

    pub open spec fn bar(&self) -> StatusBar {
        self.status_bar
    }

    pub open spec fn height(&self) -> nat {
        self.terminal.spec_height()
    }

    pub open spec fn width(&self) -> nat {
        self.terminal.spec_width()
    }

    /// Width of the line-number gutter.
    pub open spec fn gutter(&self) -> nat {
        self.buffer as nat
    }

    pub open spec fn spec_quit(&self) -> bool {
        self.quit
    }

    pub open spec fn spec_altered(&self) -> bool {
        self.altered
    }

    /// The pending search matches, the index of the next one, and the
    /// `(current, total)` counter.
    pub open spec fn search_state(&self) -> (Seq<(usize, usize)>, nat, nat, nat) {
        (self.search_results@, self.search_next as nat, self.search_current as nat, self.search_total as nat)
    }

    /// All of `wf` but the cursor's column.
    pub open spec fn wf_frame(&self) -> bool {
        &&& self.file.wf()
        &&& self.history.wf()
        &&& self.status_bar.wf()
        &&& self.terminal.spec_height() >= 2
        &&& self.cursor.screen_row + 2 <= self.terminal.spec_height()
        &&& abs_row(self.cursor) < self.file.rows().len()
        &&& self.buffer == digits(self.file.rows().len())
        &&& self.search_next <= self.search_results@.len()
    }

    pub open spec fn wf(&self) -> bool {
        &&& self.wf_frame()
        &&& cursor_ok(self.cursor, self.file, self.terminal.spec_height())
    }

    /// The same editor after an edit: another document, history and cursor,
    /// the gutter recomputed.
    pub open spec fn edited(&self, file: Document, history: History, cursor: Cursor) -> Editor {
        Editor { file, history, cursor, buffer: digits(file.rows().len()) as usize, ..*self }
    }

    /// What typing `key` does to `a`, giving `b`.
    pub open spec fn inserted(a: Editor, key: char, b: Editor) -> bool {
        let line = abs_row(a.cursor);
        let t = a.file.texts();
        let d = b.file;
        &&& d.texts() == t.update(line, spliced(t[line], a.cursor.column as int, key))
        &&& pushed_snapshot(a.history, b.history, line, t[line])
        &&& b == a.edited(
            d,
            b.history,
            Cursor { column: min(a.cursor.column + 1, d.row_len(line) as int) as usize, ..a.cursor },
        )
    }

    /// What a backspace does to `a`, giving `b`.
    pub open spec fn backspaced(a: Editor, b: Editor) -> bool {
        let line = abs_row(a.cursor);
        let col = a.cursor.column as int;
        let t = a.file.texts();
        let d = b.file;
        &&& pushed_snapshot(a.history, b.history, line, t[line])
        &&& if col == 0 && line > 0 {
            &&& d.texts() == t.take(line - 1).push(t[line - 1] + t[line]) + t.skip(line + 1)
            &&& b == a.edited(
                d,
                b.history,
                Cursor {
                    column: min(a.file.row_len(line - 1) as int, d.row_len(line - 1) as int) as usize,
                    ..prev_frame(a.cursor)
                },
            )
        } else if col == 0 {
            &&& d.texts() == t
            &&& b == a.edited(d, b.history, a.cursor)
        } else {
            &&& d.texts() == t.update(line, without(t[line], col - 1))
            &&& b == a.edited(d, b.history, left(clamped(a.cursor, d), d))
        }
    }

    /// What a line split does to `a`, giving `b`.
    pub open spec fn split_done(a: Editor, b: Editor) -> bool {
        let line = abs_row(a.cursor);
        let col = a.cursor.column as int;
        let t = a.file.texts();
        let d = b.file;
        let column = if opens_block(t[line]) {
            min(indent_of(t[line]) + 2, d.row_len(line + 1) as int)
        } else {
            0
        };
        &&& pushed_snapshot(a.history, b.history, line, t[line])
        &&& d.texts() == split_texts(t, line, col)
        &&& b == a.edited(d, b.history, Cursor { column: column as usize, ..next_frame(a.cursor, a.height()) })
    }

    /// `b` is `a` after a search that matched: the matches, in row-major
    /// order, are pending from the first on, the counter reads `1/total`
    /// and the mode is Search.
    pub open spec fn found(a: Editor, b: Editor, pattern: Seq<char>) -> bool {
        let res = b.search_results@;
        &&& res == doc_matches(a.file.texts(), pattern)
        &&& res.len() > 0
        &&& lex_sorted(res)
        &&& forall|i: int| 0 <= i < res.len() ==> (#[trigger] res[i]).0 < a.file.rows().len()
        &&& b == (Editor {
            mode: EditorMode::Search,
            status_bar: StatusBar { mode: EditorMode::Search, ..a.status_bar },
            search_results: b.search_results,
            search_next: 0,
            search_current: 1,
            search_total: res.len() as usize,
            ..a
        })
    }

    /// What the command `letter`, with repeat count `count` and argument
    /// `arg`, does to `a`, giving `b`.
    pub open spec fn applied(a: Editor, letter: char, count: nat, arg: Seq<char>, b: Editor) -> bool {
        let c = a.cursor;
        let line = abs_row(c);
        let len = a.file.rows().len();
        if letter == 'q' {
            b == if a.file.name_view().len() > 0 || !a.altered {
                Editor { quit: true, ..a }
            } else {
                a
            }
        } else if letter == 'x' {
            b == Editor { quit: true, altered: false, ..a }
        } else if letter == 'e' {
            b == a.with_cursor(Cursor { column: a.file.row_len(line) as usize, ..c })
        } else if letter == 'a' {
            b == a.with_cursor(Cursor { column: 0, ..c })
        } else if letter == 'A' {
            b == (Editor {
                mode: EditorMode::Insert,
                status_bar: StatusBar { mode: EditorMode::Insert, ..a.status_bar },
                cursor: Cursor { column: a.file.row_len(line) as usize, ..c },
                ..a
            })
        } else if letter == 'i' {
            b == (Editor {
                mode: EditorMode::Insert,
                status_bar: StatusBar { mode: EditorMode::Insert, ..a.status_bar },
                ..a
            })
        } else if letter == 'g' {
            b == a.with_cursor(up_n(c, a.file, len)) && abs_row(b.cursor) == 0
        } else if letter == 'G' {
            b == a.with_cursor(down_n(c, a.file, a.height(), (len - c.first_row) as nat))
                && abs_row(b.cursor) == len - 1
        } else if letter == 'w' || letter == 'b' {
            b == a.with_cursor(word_steps(c, a.file, a.height(), count, letter == 'w'))
        } else if letter == 'd' {
            &&& b == a.edited(b.file, b.history, b.cursor)
            &&& b.file.texts() == cleared(a.file.texts(), line, count as int)
            &&& b.history.nodes().len() == min(
                (a.history.nodes().len() + count) as int,
                a.history.spec_capacity() as int,
            )
            &&& abs_row(b.cursor) == min(line + count, len - 1)
            &&& b.cursor.column == 0
            &&& forall|k: int|
                0 <= k < b.history.nodes().len() && k < count ==> snapshot_of(
                    #[trigger] b.history.nodes()[k],
                    cleared_row(line, len as int, count - 1 - k),
                    cleared_text(a.file.texts(), line, len as int, count - 1 - k),
                )
            &&& forall|k: int|
                count <= k < b.history.nodes().len() ==> #[trigger] b.history.nodes()[k]
                    == a.history.nodes()[k - count]
        } else if letter == 'u' {
            &&& exists|states: Seq<Editor>|
                #[trigger] Editor::undo_chain(a, states, count) && states.last() == b
            &&& b == a.edited(b.file, b.history, b.cursor)
            &&& b.history.nodes() == a.history.nodes().skip(min(count as int, a.history.nodes().len() as int))
            &&& b.history.spec_capacity() == a.history.spec_capacity()
        } else if letter == '/' {
            if arg.len() == 0 {
                b == a
            } else if pattern_compiles(arg) && doc_matches(a.file.texts(), arg).len() > 0 {
                let res = b.search_results@;
                let m = res[0];
                &&& b.mode == EditorMode::Search
                &&& exists|s: Editor| #[trigger] Editor::found(a, s, arg) && b == (Editor { search_next: 1, cursor: b.cursor, ..s })
                &&& abs_row(b.cursor) == m.0
                &&& b.cursor.column == min(m.1 as int, a.file.row_len(m.0 as int) as int)
            } else {
                b == (Editor {
                    mode: EditorMode::Normal,
                    status_bar: StatusBar { mode: EditorMode::Normal, ..a.status_bar },
                    ..a
                })
            }
        } else {
            b == a
        }
    }

    /// What a settings line does to `a`, giving `b`: `line N` moves to line
    /// `N` as `goto_line` does, `filename NAME` renames the document, and
    /// anything else changes nothing; the command line is emptied.
    pub open spec fn set_done(a: Editor, b: Editor) -> bool {
        let req = set_request(words_of(a.status_bar.cmd@), 1);
        &&& b.status_bar.cmd@.len() == 0
        &&& match req {
            Some((key, Some(arg))) => if key == "line"@ {
                match usize_of(arg) {
                    Some(n) => {
                        &&& Editor::same_but_command(a.with_cursor(b.cursor), b)
                        &&& n <= a.file.rows().len() ==> abs_row(b.cursor) == if n == 0 { 0 } else { n - 1 }
                        &&& n <= a.file.rows().len() && n <= abs_row(a.cursor) ==> b.cursor == up_n(
                            a.cursor,
                            a.file,
                            (abs_row(a.cursor) - n + 1) as nat,
                        )
                        &&& n <= a.file.rows().len() && n > abs_row(a.cursor) ==> b.cursor == down_n(
                            a.cursor,
                            a.file,
                            a.height(),
                            (n - abs_row(a.cursor) - 1) as nat,
                        )
                        &&& n > a.file.rows().len() ==> b.cursor == a.cursor
                    },
                    None => Editor::same_but_command(a, b),
                }
            } else {
                &&& b.file.name_view() == arg
                &&& b.file.rows() == a.file.rows()
                &&& Editor::same_but_command(Editor { file: b.file, ..a }, b)
            },
            _ => Editor::same_but_command(a, b),
        }
    }

    /// `states` runs from `a` through `n` undos, one state after each.
    pub open spec fn undo_chain(a: Editor, states: Seq<Editor>, n: nat) -> bool {
        &&& states.len() == n + 1
        &&& states[0] == a
        &&& forall|i: int| 0 <= i < n ==> Editor::undone(#[trigger] states[i], states[i + 1])
    }

    /// `b` is `a` but for the command line.
    pub open spec fn same_but_command(a: Editor, b: Editor) -> bool {
        b == (Editor {
            status_bar: StatusBar { cmd: b.status_bar.cmd, cmd_chars: b.status_bar.cmd_chars, ..a.status_bar },
            ..a
        })
    }

    /// `states` runs from `a` through the commands `cmds`, one state after
    /// each.
    pub open spec fn ran(a: Editor, cmds: Seq<(char, nat, Seq<char>)>, states: Seq<Editor>) -> bool {
        &&& states.len() == cmds.len() + 1
        &&& states[0] == a
        &&& forall|i: int|
            0 <= i < cmds.len() ==> Editor::applied(
                #[trigger] states[i],
                cmds[i].0,
                cmds[i].1,
                cmds[i].2,
                states[i + 1],
            )
    }

    /// The same editor in mode `m`, the status line included.
    pub open spec fn moded(&self, m: EditorMode) -> Editor {
        Editor { mode: m, status_bar: StatusBar { mode: m, ..self.status_bar }, ..*self }
    }

    /// The mode the editor settles in after a command line ran: Insert and
    /// Search stay, anything else becomes Normal.
    pub open spec fn settled(&self) -> Editor {
        if self.mode == EditorMode::Insert || self.mode == EditorMode::Search {
            *self
        } else {
            self.moded(EditorMode::Normal)
        }
    }

    /// What a key does in Normal mode.
    pub open spec fn normal_key(a: Editor, key: Key, b: Editor) -> bool {
        match key {
            Key::Char('i') => b == a.moded(EditorMode::Insert),
            Key::Char(':') => {
                &&& b.mode == EditorMode::Command
                &&& a.status_bar.cmd_chars < usize::MAX ==> b.status_bar.cmd@ == a.status_bar.cmd@.push(':')
                &&& Editor::same_but_command(a.moded(EditorMode::Command), b)
            },
            Key::Up => b == a.with_cursor(a.after(Direction::Up)),
            Key::Down => b == a.with_cursor(a.after(Direction::Down)),
            Key::Left => b == a.with_cursor(a.after(Direction::Left)),
            Key::Right => b == a.with_cursor(a.after(Direction::Right)),
            _ => b == a,
        }
    }

    /// What a key does in Insert mode; the document counts as modified
    /// afterwards.
    pub open spec fn insert_key(a: Editor, key: Key, b: Editor) -> bool {
        let b0 = b.with_altered(a.altered);
        &&& b.altered
        &&& match key {
            Key::Char(c) => Editor::inserted(a, c, b0),
            Key::Tab => exists|mid: Editor| #[trigger] Editor::inserted(a, ' ', mid) && Editor::inserted(mid, ' ', b0),
            Key::Backspace => Editor::backspaced(a, b0),
            Key::Enter => Editor::split_done(a, b0),
            Key::Esc => b0 == a.moded(EditorMode::Normal),
            Key::Up => b0 == a.with_cursor(a.after(Direction::Up)),
            Key::Down => b0 == a.with_cursor(a.after(Direction::Down)),
            Key::Left => b0 == a.with_cursor(a.after(Direction::Left)),
            Key::Right => b0 == a.with_cursor(a.after(Direction::Right)),
            Key::Other => b0 == a,
        }
    }

    /// What a key does in Search mode.
    pub open spec fn search_key(a: Editor, key: Key, b: Editor) -> bool {
        match key {
            Key::Esc => b == a.moded(EditorMode::Normal),
            Key::Char('i') => b == a.moded(EditorMode::Insert),
            Key::Enter => if a.search_next < a.search_results@.len() {
                let m = a.search_results@[a.search_next as int];
                &&& b == (Editor {
                    search_next: (a.search_next + 1) as usize,
                    search_current: if a.search_current < usize::MAX { (a.search_current + 1) as usize } else { a.search_current },
                    cursor: b.cursor,
                    ..a
                })
                &&& m.0 < a.file.rows().len() ==> abs_row(b.cursor) == m.0 && b.cursor.column == min(
                    m.1 as int,
                    a.file.row_len(m.0 as int) as int,
                )
            } else {
                b == a.moded(EditorMode::Normal)
            },
            _ => b == a,
        }
    }

    /// What a key does in Command mode. Enter runs the commands of the line
    /// one after the other and empties it.
    pub open spec fn command_key(a: Editor, key: Key, b: Editor) -> bool {
        match key {
            Key::Char(c) => if a.status_bar.cmd_chars < usize::MAX {
                b.status_bar.cmd@ == a.status_bar.cmd@.push(c) && Editor::same_but_command(a, b)
            } else {
                b == a
            },
            Key::Esc => b.status_bar.cmd@.len() == 0 && Editor::same_but_command(a.moded(EditorMode::Normal), b),
            Key::Backspace => if a.status_bar.cmd_chars > 1 {
                b.status_bar.cmd@ == a.status_bar.cmd@.drop_last() && Editor::same_but_command(a, b)
            } else {
                b == a
            },
            Key::Enter => {
                &&& b.status_bar.cmd@.len() == 0
                &&& !is_set_line(a.status_bar.cmd@) ==> exists|states: Seq<Editor>|
                    Editor::ran(a, commands_of(a.status_bar.cmd@), states)
                        && Editor::same_but_command(states.last().settled(), b)
                &&& is_set_line(a.status_bar.cmd@) ==> exists|e: Editor|
                    #[trigger] Editor::set_done(a, e) && b == e.settled()
            },
            _ => b == a,
        }
    }

    /// What an undo does to `a`, giving `b`.
    pub open spec fn undone(a: Editor, b: Editor) -> bool {
        if a.history.nodes().len() == 0 {
            b == a
        } else {
            let n = a.history.nodes()[0];
            let d = b.file;
            let end = n.altered_rows.end as int;
            &&& b.history.nodes() == a.history.nodes().drop_first()
            &&& b.history.spec_capacity() == a.history.spec_capacity()
            &&& d.texts() == restored(a.file.texts(), n)
            &&& b == a.edited(d, b.history, b.cursor)
            &&& b.cursor.column == d.row_len(abs_row(b.cursor))
            &&& end <= a.file.rows().len() ==> abs_row(b.cursor) == if end == 0 { 0 } else { end - 1 }
            &&& end > a.file.rows().len() ==> abs_row(b.cursor) == abs_row(a.cursor)
        }
    }

    /// The cursor after one motion in this editor.
    pub open spec fn after(&self, d: Direction) -> Cursor {
        moved(self.cursor, d, self.file, self.terminal.spec_height(), self.terminal.spec_width(), self.buffer as nat)
    }

    /// The same editor with another modified flag.
    pub open spec fn with_altered(&self, altered: bool) -> Editor {
        Editor { altered, ..*self }
    }

    /// The same editor with another cursor.
    pub open spec fn with_cursor(&self, c: Cursor) -> Editor {
        Editor { cursor: c, ..*self }
    }

    /// An editor on `file` in Normal mode, the cursor on the first row.
    pub fn new(file: Document, width: u16, height: u16) -> (r: Editor)
        requires
            file.wf(),
            height >= 2,
        ensures
            r.wf(),
            r.doc() == file,
            r.cur() == (Cursor { first_row: 0, screen_row: 0, column: 0 }),
            r.spec_mode() == EditorMode::Normal,
            r.hist().nodes().len() == 0,
            r.hist().spec_capacity() == 50,
            !r.spec_quit(),
            !r.spec_altered(),
            r.height() == height,
            r.width() == width,
    {
        let buffer = decimal_width(file.len());
        Editor {
            terminal: Terminal::new(width, height),
            file,
            mode: EditorMode::Normal,
            status_bar: StatusBar::default((width, height)),
            history: History::new(),
            search_results: Vec::new(),
            search_next: 0,
            altered: false,
            quit: false,
            search_current: 0,
            search_total: 0,
            cursor: Cursor { first_row: 0, screen_row: 0, column: 0 },
            buffer,
        }
    }

    /// The document row under the cursor.
    fn row(&self) -> (r: usize)
        requires
            self.wf(),
        ensures
            r == abs_row(self.cur()),
    {
        proof {
            self.file.lemma_rows_fit();
        }
        self.cursor.first_row + self.cursor.screen_row
    }

    pub fn file(&self) -> (r: &Document)
        ensures
            *r == self.doc(),
    {
        &self.file
    }

    pub fn mode(&self) -> (r: EditorMode)
        ensures
            r == self.spec_mode(),
    {
        self.mode
    }

    pub fn status_bar(&self) -> (r: &StatusBar)
        ensures
            *r == self.bar(),
    {
        &self.status_bar
    }

    pub fn history(&self) -> (r: &History)
        ensures
            *r == self.hist(),
    {
        &self.history
    }

    pub fn cursor(&self) -> (r: Cursor)
        ensures
            r == self.cur(),
    {
        self.cursor
    }

    pub fn terminal(&self) -> (r: &Terminal)
        ensures
            r.spec_width() == self.width(),
            r.spec_height() == self.height(),
    {
        &self.terminal
    }

    /// Width of the line-number gutter.
    pub fn buffer(&self) -> (r: usize)
        ensures
            r == self.gutter(),
    {
        self.buffer
    }

    /// Whether a quit was requested.
    pub fn should_quit(&self) -> (r: bool)
        ensures
            r == self.spec_quit(),
    {
        self.quit
    }

    /// Whether the document was modified and must be saved on quit.
    pub fn is_altered(&self) -> (r: bool)
        ensures
            r == self.spec_altered(),
    {
        self.altered
    }

    /// The `(current, total)` search counter.
    pub fn search_counter(&self) -> (r: (usize, usize))
        ensures
            r.0 == self.search_state().2,
            r.1 == self.search_state().3,
    {
        (self.search_current, self.search_total)
    }

    /// The half-open range of visible rows: `height - 1` rows, the last
    /// screen row being the status line.
    pub fn view_frame(&self) -> (r: (usize, usize))
        requires
            self.wf(),
        ensures
            r.0 == self.cur().first_row,
            r.1 == min(self.cur().first_row + self.height() - 1, usize::MAX as int),
    {
        let h = (self.terminal.height - 1) as usize;
        if self.cursor.first_row > usize::MAX - h {
            (self.cursor.first_row, usize::MAX)
        } else {
            (self.cursor.first_row, self.cursor.first_row + h)
        }
    }

    /// The cursor's terminal cell `(column, row)`: the text column is offset
    /// by the gutter and one separator column.
    pub fn screen_position(&self) -> (r: (usize, usize))
        requires
            self.wf(),
        ensures
            r.0 == min(self.gutter() + 1 + self.cur().column, usize::MAX as int),
            r.1 == self.cur().screen_row,
    {
        proof {
            self.file.lemma_rows_fit();
            crate::text::lemma_digits_bound(self.file.rows().len());
        }
        let col = if self.cursor.column > usize::MAX - 1 - self.buffer {
            usize::MAX
        } else {
            self.buffer + 1 + self.cursor.column
        };
        (col, self.cursor.screen_row)
    }

    /// Takes a new terminal size; the cursor keeps its row in the document
    /// and the frame shifts if the cursor would fall off the screen.
    pub fn resize(&mut self, width: u16, height: u16)
        requires
            old(self).wf(),
            height >= 2,
        ensures
            final(self).wf(),
            final(self).doc() == old(self).doc(),
            final(self).hist() == old(self).hist(),
            final(self).spec_mode() == old(self).spec_mode(),
            abs_row(final(self).cur()) == abs_row(old(self).cur()),
            final(self).cur().column == old(self).cur().column,
            final(self).height() == height,
            final(self).width() == width,
    {
        self.terminal.set_dimensions(width, height);
        self.status_bar.terminal_size = (width, height);
        proof {
            self.file.lemma_rows_fit();
        }
        let bottom = (height - 2) as usize;
        if self.cursor.screen_row > bottom {
            let shift = self.cursor.screen_row - bottom;
            self.cursor = Cursor {
                first_row: self.cursor.first_row + shift,
                screen_row: bottom,
                column: self.cursor.column,
            };
        }
    }

    /// Recomputes the gutter width from the number of rows.
    fn set_buffer(&mut self)
        ensures
            final(self).buffer == digits(old(self).file.rows().len()),
            *final(self) == (Editor { buffer: final(self).buffer, ..*old(self) }),
    {
        self.buffer = decimal_width(self.file.len());
    }

    proof fn lemma_step_ok(&self, d: Direction)
        requires
            self.wf(),
        ensures
            cursor_ok(self.after(d), self.file, self.terminal.spec_height()),
    {
        let r = abs_row(self.cursor);
        self.file.lemma_rows_fit();
        self.file.rows()[r].lemma_len_fits();
        if r + 1 < self.file.rows().len() {
            self.file.rows()[r + 1].lemma_len_fits();
        }
        if r > 0 {
            self.file.rows()[r - 1].lemma_len_fits();
        }
        let c = self.cursor;
        let doc = self.file;
        let h = self.terminal.spec_height();
        match d {
            Direction::Down => {
                assert(cursor_ok(down(c, doc, h), doc, h));
            },
            Direction::Up => {
                assert(cursor_ok(up(c, doc), doc, h));
            },
            Direction::Left => {
                assert(cursor_ok(left(c, doc), doc, h));
            },
            Direction::Right => {
                assert(cursor_ok(down(c, doc, h), doc, h));
                assert(cursor_ok(right(c, doc, h), doc, h));
            },
        }
    }

    fn step_down(&mut self)
        requires
            old(self).wf(),
        ensures
            final(self).wf(),
            *final(self) == old(self).with_cursor(old(self).after(Direction::Down)),
    {
        proof {
            self.lemma_step_ok(Direction::Down);
            self.file.lemma_rows_fit();
        }
        let c = self.cursor;
        let row = c.first_row + c.screen_row;
        if row < self.file.len() - 1 {
            let len = self.file.get_row(row + 1).unwrap().len();
            let col = if c.column <= len {
                c.column
            } else {
                len
            };
            if c.screen_row + 2 >= self.terminal.height as usize {
                self.cursor = Cursor { first_row: c.first_row + 1, screen_row: c.screen_row, column: col };
            } else {
                self.cursor = Cursor { first_row: c.first_row, screen_row: c.screen_row + 1, column: col };
            }
        }
    }

    fn step_up(&mut self)
        requires
            old(self).wf(),
        ensures
            final(self).wf(),
            *final(self) == old(self).with_cursor(old(self).after(Direction::Up)),
    {
        proof {
            self.lemma_step_ok(Direction::Up);
            self.file.lemma_rows_fit();
        }
        let c = self.cursor;
        let row = c.first_row + c.screen_row;
        if row > 0 {
            let len = self.file.get_row(row - 1).unwrap().len();
            let col = if c.column <= len {
                c.column
            } else {
                len
            };
            if c.screen_row == 0 {
                self.cursor = Cursor { first_row: c.first_row - 1, screen_row: 0, column: col };
            } else {
                self.cursor = Cursor { first_row: c.first_row, screen_row: c.screen_row - 1, column: col };
            }
        }
    }

    /// Clamps the cursor's column to its row.
    fn clamp_column(&mut self)
        requires
            old(self).wf_frame(),
        ensures
            final(self).wf(),
            *final(self) == old(self).with_cursor(clamped(old(self).cur(), old(self).doc())),
    {
        proof {
            self.file.lemma_rows_fit();
        }
        let row = self.cursor.first_row + self.cursor.screen_row;
        let len = self.file.get_row(row).unwrap().len();
        if self.cursor.column > len {
            self.cursor = Cursor { column: len, ..self.cursor };
        }
    }

    /// A snapshot of row `line`.
    fn snapshot(&self, line: usize) -> (r: HistoryNode)
        requires
            self.wf(),
            line < self.doc().rows().len(),
        ensures
            snapshot_of(r, line as int, self.doc().texts()[line as int]),
    {
        proof {
            self.file.lemma_rows_fit();
        }
        let mut v: Vec<Row> = Vec::new();
        v.push(self.file.get_row(line).unwrap().duplicate());
        HistoryNode::create(v.as_slice(), std::ops::Range { start: line, end: line + 1 })
    }

    /// Types `key` at the cursor: the row is recorded in the history, the
    /// character goes before the grapheme under the cursor and the cursor
    /// moves one column right, staying within the row.
    pub fn insert(&mut self, key: char)
        requires
            old(self).wf(),
        ensures
            final(self).wf(),
            Editor::inserted(*old(self), key, *final(self)),
    {
        let line = self.row();
        let column = self.cursor.column;
        let node = self.snapshot(line);
        let ghost h0 = self.history;
        self.history.push(node);
        proof {
            lemma_pushed_snapshot(h0, self.history, node, line as int, self.file.texts()[line as int]);
        }
        let mut row = self.file.get_row(line).unwrap().duplicate();
        let ghost t = self.file.texts();
        proof {
            assert(t[line as int] == row@);
        }
        if column == row.len() {
            proof {
                lemma_splice_end(row, key);
            }
            row.insert(IPositionDescriptor::End(key));
        } else {
            row.insert(IPositionDescriptor::Middle(column, key));
        }
        let len = row.len();
        self.file.replace(line, row);
        proof {
            assert(self.file.texts() =~= t.update(line as int, row@));
        }
        let col = if column < len {
            column + 1
        } else {
            len
        };
        self.cursor = Cursor { column: col, ..self.cursor };
    }

    /// Applies a backspace at the cursor: the row is recorded in the
    /// history; at the start of a row the row is merged into the one above,
    /// elsewhere the grapheme before the cursor goes.
    pub fn delete(&mut self)
        requires
            old(self).wf(),
        ensures
            final(self).wf(),
            Editor::backspaced(*old(self), *final(self)),
    {
        let line = self.row();
        let column = self.cursor.column;
        let node = self.snapshot(line);
        let ghost h0 = self.history;
        self.history.push(node);
        proof {
            lemma_pushed_snapshot(h0, self.history, node, line as int, self.file.texts()[line as int]);
        }
        let ghost t = self.file.texts();
        let ghost rows = self.file.rows();
        let row_length = self.file.get_row(line).unwrap().len();
        proof {
            assert(t[line as int] == rows[line as int]@);
            if column > 0 && column == row_length {
                lemma_pop_end(rows[line as int]);
            }
        }
        let descrip = if column == 0 {
            DPositionDescriptor::Beginning(line)
        } else if column == row_length {
            DPositionDescriptor::End(line)
        } else {
            DPositionDescriptor::Middle(line, column - 1)
        };
        let merged = self.file.handle_delete(descrip);
        proof {
            assert(self.file.texts().len() == self.file.rows().len());
            assert(t.len() == rows.len());
            if column == 0 && line > 0 {
                assert(merged == Some(rows[line - 1].spec_len() as usize));
                assert(self.file.texts().len() == t.len() - 1);
            } else {
                assert(merged is None);
                assert(self.file.texts().len() == t.len());
            }
        }
        match merged {
            Some(offset) => {
                self.set_buffer();
                let len = self.file.get_row(line - 1).unwrap().len();
                let col = if offset <= len {
                    offset
                } else {
                    len
                };
                let c = self.cursor;
                proof {
                    self.file.lemma_rows_fit();
                    crate::text::lemma_digits_bound(self.file.rows().len());
                    rows[line - 1].lemma_len_fits();
                    self.file.rows()[line - 1].lemma_len_fits();
                    assert(offset == rows[line - 1].spec_len());
                    assert(len == self.file.row_len(line - 1));
                }
                if c.screen_row == 0 {
                    self.cursor = Cursor { first_row: c.first_row - 1, screen_row: 0, column: col };
                } else {
                    self.cursor = Cursor { first_row: c.first_row, screen_row: c.screen_row - 1, column: col };
                }
            },
            None => {
                self.clamp_column();
                self.scroll(Direction::Left);
            },
        }
    }

    /// Splits the row at the cursor and moves to the start of the new row.
    /// When what stays ends in `{`, the new row is indented two columns
    /// deeper than the row and a closing `}` row at the row's indentation
    /// follows it.
    pub fn insert_row(&mut self)
        requires
            old(self).wf(),
        ensures
            final(self).wf(),
            Editor::split_done(*old(self), *final(self)),
    {
        let line = self.row();
        let column = self.cursor.column;
        let node = self.snapshot(line);
        let ghost h0 = self.history;
        self.history.push(node);
        proof {
            lemma_pushed_snapshot(h0, self.history, node, line as int, self.file.texts()[line as int]);
        }
        let ghost t = self.file.texts();
        let mut row = self.file.get_row(line).unwrap().duplicate();
        proof {
            assert(t[line as int] == row@);
            self.file.lemma_rows_fit();
        }
        let indent = leading_spaces_exec(row.content()) / 2 * 2;
        let n = row.len();
        let descr = if column == 0 {
            NLPositionDescriptor::Beginning
        } else if column == n {
            NLPositionDescriptor::End
        } else {
            NLPositionDescriptor::Middle(column - 1)
        };
        let brace = indent <= usize::MAX - 2 && match last_non_space_exec(row.content()) {
            Some(c) => c == '{',
            None => false,
        };
        let new_row = row.add_new_line(descr);
        self.file.replace(line, row);
        proof {
            assert(self.file.texts() =~= t.update(line as int, row@));
        }
        if brace {
            let mut opened = spaces_string(indent + 2);
            opened.append(new_row.content());
            let opened_row = Row::from_text(opened.as_str());
            self.file.insert_row(line + 1, opened_row);
            proof {
                self.file.lemma_rows_fit();
            }
            let mut closing = spaces_string(indent);
            push_char(&mut closing, '}');
            let closing_row = Row::from_text(closing.as_str());
            self.file.insert_row(line + 2, closing_row);
        } else {
            self.file.insert_row(line + 1, new_row);
        }
        self.set_buffer();
        let len_next = self.file.get_row(line + 1).unwrap().len();
        let col = if brace {
            if indent + 2 <= len_next {
                indent + 2
            } else {
                len_next
            }
        } else {
            0
        };
        let c = self.cursor;
        if c.screen_row + 2 >= self.terminal.height as usize {
            self.cursor = Cursor { first_row: c.first_row + 1, screen_row: c.screen_row, column: col };
        } else {
            self.cursor = Cursor { first_row: c.first_row, screen_row: c.screen_row + 1, column: col };
        }
    }

    /// Takes the most recent snapshot off the history, puts its rows back
    /// and moves to the end of the last restored row.
    pub fn undo(&mut self)
        requires
            old(self).wf(),
        ensures
            final(self).wf(),
            Editor::undone(*old(self), *final(self)),
    {
        if self.history.len() == 0 {
            return;
        }
        match self.history.pop() {
            None => {},
            Some(node) => {
                let ghost n = node;
                let ghost t = self.file.texts();
                let (range, rows) = node.extract();
                let start = range.start;
                let end = range.end;
                let count = if end > start {
                    if end - start < rows.len() {
                        end - start
                    } else {
                        rows.len()
                    }
                } else {
                    0
                };
                let mut k: usize = 0;
                let ghost pre = *self;
                while k < count
                    invariant
                        *self == (Editor { file: self.file, ..pre }),
                        pre.history.nodes() == old(self).history.nodes().drop_first(),
                        pre.history.spec_capacity() == old(self).history.spec_capacity(),
                        k <= count,
                        count == restored_count(n),
                        rows@ == n.rows@,
                        start == n.altered_rows.start,
                        self.wf_frame(),
                        self.file.rows().len() == t.len(),
                        self.file.texts() == Seq::new(
                            t.len(),
                            |i: int|
                                if start <= i < start + k {
                                    rows@[i - start]@
                                } else {
                                    t[i]
                                },
                        ),
                    decreases count - k,
                {
                    let len = self.file.len();
                    if k < len && start < len - k {
                        let ghost before = self.file.texts();
                        self.file.replace(start + k, Row::from_text(rows[k].content()));
                        proof {
                            assert(self.file.texts() =~= before.update(start + k, rows@[k as int]@));
                        }
                    }
                    proof {
                        assert(self.file.texts() =~= Seq::new(
                            t.len(),
                            |i: int|
                                if start <= i < start + k + 1 {
                                    rows@[i - start]@
                                } else {
                                    t[i]
                                },
                        ));
                    }
                    k = k + 1;
                }
                self.clamp_column();
                self.goto_line(end);
                self.move_to_line_end();
            },
        }
    }

    /// Switches to `mode`, in the editor and in the status line.
    fn set_mode(&mut self, mode: EditorMode)
        requires
            old(self).wf(),
        ensures
            final(self).wf(),
            *final(self) == (Editor {
                mode,
                status_bar: StatusBar { mode, ..old(self).status_bar },
                ..*old(self)
            }),
    {
        self.status_bar.set_mode(&mode);
        self.mode = mode;
    }

    /// Searches the document for `expr` and reports whether it matched.
    fn search_found(&mut self, expr: String) -> (r: bool)
        requires
            old(self).wf(),
        ensures
            final(self).wf(),
            !r ==> *final(self) == *old(self),
            !pattern_compiles(expr@) ==> !r,
            r == (pattern_compiles(expr@) && doc_matches(old(self).file.texts(), expr@).len() > 0),
            r ==> Editor::found(*old(self), *final(self), expr@),
    {
        let (num_results, results) = self.file.search_for(&expr);
        if num_results > 0 {
            self.search_total = num_results;
            self.search_current = 1;
            self.set_mode(EditorMode::Search);
            self.search_results = results;
            self.search_next = 0;
            true
        } else {
            false
        }
    }

    /// Searches the document for `expr`. When there are matches, they become
    /// the pending results, the counter reads `1/total` and the editor enters
    /// Search mode; otherwise nothing changes.
    pub fn search(&mut self, expr: String)
        requires
            old(self).wf(),
        ensures
            final(self).wf(),
            !pattern_compiles(expr@) ==> *final(self) == *old(self),
            pattern_compiles(expr@) && doc_matches(old(self).file.texts(), expr@).len() > 0
                ==> Editor::found(*old(self), *final(self), expr@),
            !(pattern_compiles(expr@) && doc_matches(old(self).file.texts(), expr@).len() > 0)
                ==> *final(self) == *old(self),
    {
        self.search_found(expr);
    }

    /// Moves to the match `m`: its row, and its column clamped to the row.
    fn jump_to(&mut self, m: (usize, usize))
        requires
            old(self).wf(),
        ensures
            final(self).wf(),
            *final(self) == old(self).with_cursor(final(self).cur()),
            m.0 < old(self).doc().rows().len() ==> abs_row(final(self).cur()) == m.0
                && final(self).cur().column == min(m.1 as int, old(self).doc().row_len(m.0 as int) as int),
    {
        proof {
            self.file.lemma_rows_fit();
        }
        if m.0 < self.file.len() {
            self.goto_line(m.0 + 1);
            let len = self.file.get_row(m.0).unwrap().len();
            let col = if m.1 <= len {
                m.1
            } else {
                len
            };
            self.cursor = Cursor { column: col, ..self.cursor };
        }
    }

    /// Records row under the cursor, empties it and moves down one row to
    /// its first column.
    fn delete_line(&mut self)
        requires
            old(self).wf(),
        ensures
            final(self).wf(),
            pushed_snapshot(
                old(self).hist(),
                final(self).hist(),
                abs_row(old(self).cur()),
                old(self).doc().texts()[abs_row(old(self).cur())],
            ),
            final(self).doc().texts() == old(self).doc().texts().update(abs_row(old(self).cur()), Seq::empty()),
            final(self).doc().rows().len() == old(self).doc().rows().len(),
            final(self).spec_mode() == old(self).spec_mode(),
            abs_row(final(self).cur()) == min(abs_row(old(self).cur()) + 1, old(self).doc().rows().len() - 1),
            final(self).cur().column == 0,
            *final(self) == old(self).edited(final(self).doc(), final(self).hist(), final(self).cur()),
    {
        let line = self.row();
        let node = self.snapshot(line);
        let ghost h0 = self.history;
        self.history.push(node);
        proof {
            lemma_pushed_snapshot(h0, self.history, node, line as int, self.file.texts()[line as int]);
        }
        let ghost t0 = self.file.texts();
        self.file.clear_row(line);
        proof {
            assert(self.file.texts().len() == t0.len());
            assert(self.file.rows().len() == self.file.texts().len());
        }
        self.cursor = Cursor { column: 0, ..self.cursor };
        self.step_down();
    }

    /// Runs one command.
    fn apply_command(&mut self, cmd: &Command)
        requires
            old(self).wf(),
        ensures
            final(self).wf(),
            Editor::applied(*old(self), cmd.letter, cmd.count as nat, cmd.argument@, *final(self)),
    {
        let letter = cmd.letter;
        let count = cmd.count;
        if letter == 'q' {
            if !self.file.name().is_empty() || !self.altered {
                self.quit = true;
            }
        } else if letter == 'x' {
            self.quit = true;
            self.altered = false;
        } else if letter == 'e' {
            self.move_to_line_end();
        } else if letter == 'a' {
            self.move_to_line_beginning();
        } else if letter == 'A' {
            self.move_to_line_end();
            self.set_mode(EditorMode::Insert);
        } else if letter == 'i' {
            self.set_mode(EditorMode::Insert);
        } else if letter == 'g' {
            self.move_to_beginning();
        } else if letter == 'G' {
            self.move_to_end();
        } else if letter == 'w' || letter == 'b' {
            let mut j: u32 = 0;
            while j < count
                invariant
                    j <= count,
                    self.wf(),
                    *self == old(self).with_cursor(
                        word_steps(old(self).cur(), old(self).doc(), old(self).height(), j as nat, letter == 'w'),
                    ),
                decreases count - j,
            {
                if letter == 'w' {
                    self.move_to_next_word();
                } else {
                    self.move_to_prev_word();
                }
                j = j + 1;
            }
        } else if letter == 'd' {
            let ghost line = abs_row(self.cursor);
            let ghost t = self.file.texts();
            let ghost len = self.file.rows().len();
            proof {
                assert(cleared(t, line, 0) =~= t);
            }
            let mut j: u32 = 0;
            while j < count
                invariant
                    j <= count,
                    self.wf(),
                    *self == old(self).edited(self.file, self.history, self.cursor),
                    len == old(self).doc().rows().len(),
                    t == old(self).doc().texts(),
                    line == abs_row(old(self).cur()),
                    line < len,
                    self.file.rows().len() == len,
                    self.file.texts() == cleared(t, line, j as int),
                    self.history.nodes().len() == min(
                        old(self).history.nodes().len() + j,
                        old(self).history.spec_capacity() as int,
                    ),
                    self.history.spec_capacity() == old(self).history.spec_capacity(),
                    abs_row(self.cursor) == min(line + j, len - 1),
                    j > 0 ==> self.cursor.column == 0,
                    forall|k: int|
                        0 <= k < self.history.nodes().len() && k < j ==> snapshot_of(
                            #[trigger] self.history.nodes()[k],
                            cleared_row(line, len as int, j - 1 - k),
                            cleared_text(t, line, len as int, j - 1 - k),
                        ),
                    forall|k: int|
                        j <= k < self.history.nodes().len() ==> #[trigger] self.history.nodes()[k]
                            == old(self).history.nodes()[k - j],
                decreases count - j,
            {
                let ghost before = self.file.texts();
                let ghost h0 = self.history.nodes();
                self.delete_line();
                proof {
                    let h1 = self.history.nodes();
                    let cap = self.history.spec_capacity();
                    assert(h1 == pushed(h0, h1[0], cap));
                    assert forall|k: int|
                        0 <= k < h1.len() && k < j + 1 implies snapshot_of(
                            #[trigger] h1[k],
                            cleared_row(line, len as int, j - k),
                            cleared_text(t, line, len as int, j - k),
                        ) by {
                        if k > 0 {
                            assert(h1[k] == h0[k - 1]);
                        }
                    }
                    assert forall|k: int| j + 1 <= k < h1.len() implies #[trigger] h1[k]
                        == old(self).history.nodes()[k - (j + 1)] by {
                        assert(h1[k] == h0[k - 1]);
                    }
                    let r = min(line + j, len - 1);
                    assert(self.file.texts() == before.update(r, Seq::empty()));
                    assert(before == cleared(t, line, j as int));
                    assert forall|i: int| 0 <= i < len implies #[trigger] self.file.texts()[i] == cleared(
                        t,
                        line,
                        j + 1,
                    )[i] by {
                        if i == r {
                            assert(line <= r < line + j + 1);
                        }
                    }
                    assert(self.file.texts() =~= cleared(t, line, j + 1));
                }
                j = j + 1;
            }
            self.move_to_line_beginning();
        } else if letter == 'u' {
            let mut j: u32 = 0;
            let ghost mut states: Seq<Editor> = seq![*self];
            proof {
                assert(self.history.nodes().skip(0) =~= self.history.nodes());
            }
            while j < count
                invariant
                    j <= count,
                    self.wf(),
                    Editor::undo_chain(*old(self), states, j as nat),
                    states.last() == *self,
                    *self == old(self).edited(self.file, self.history, self.cursor),
                    self.history.nodes() == old(self).history.nodes().skip(
                        min(j as int, old(self).history.nodes().len() as int),
                    ),
                    self.history.spec_capacity() == old(self).history.spec_capacity(),
                decreases count - j,
            {
                let ghost h = self.history.nodes();
                self.undo();
                proof {
                    states = states.push(*self);
                    let n0 = old(self).history.nodes();
                    if j < n0.len() {
                        assert(h.drop_first() =~= n0.skip(j + 1));
                    }
                }
                j = j + 1;
            }
            proof {
                assert(Editor::undo_chain(*old(self), states, count as nat) && states.last() == *self);
            }
        } else if letter == '/' {
            if cmd.argument.as_str().unicode_len() > 0 {
                let arg = cmd.argument.clone();
                let ghost a = *self;
                if self.search_found(arg) {
                    let ghost s = *self;
                    let m = self.search_results[0];
                    self.search_next = 1;
                    self.jump_to(m);
                    proof {
                        assert(Editor::found(a, s, cmd.argument@));
                    }
                } else {
                    self.set_mode(EditorMode::Normal);
                }
            }
        }
    }

    /// Runs the command line and empties it. `Err` means that the commands
    /// left the editor in a mode other than Normal: Insert, or Search on a
    /// search that matched.
    pub fn evaluate_expr(&mut self) -> (r: Result<(), ()>)
        requires
            old(self).wf(),
            old(self).spec_mode() == EditorMode::Command,
        ensures
            final(self).wf(),
            final(self).bar().cmd@.len() == 0,
            r is Err <==> (final(self).spec_mode() == EditorMode::Insert || final(self).spec_mode()
                == EditorMode::Search),
            !is_set_line(old(self).bar().cmd@) ==> exists|states: Seq<Editor>|
                Editor::ran(*old(self), commands_of(old(self).bar().cmd@), states)
                    && Editor::same_but_command(states.last(), *final(self)),
            is_set_line(old(self).bar().cmd@) ==> Editor::set_done(*old(self), *final(self)),
    {
        let cs = chars_of(self.status_bar.cmd.as_str());
        if cs.len() >= 4 && cs[0] == ':' && cs[1] == 's' && cs[2] == 'e' && cs[3] == 't' {
            let words = split_words(&cs);
            let ghost ws = char_views(words@);
            let mut idx: usize = if words.len() > 0 {
                1
            } else {
                0
            };
            while idx < words.len() && !same_chars(&words[idx], "line") && !same_chars(
                &words[idx],
                "filename",
            )
                invariant
                    idx <= words@.len(),
                    words@.len() > 0 ==> idx >= 1,
                    ws == char_views(words@),
                    set_request(ws, 1) == set_request(ws, idx as int),
                decreases words@.len() - idx,
            {
                proof {
                    assert(ws[idx as int] == words@[idx as int]@);
                }
                idx = idx + 1;
            }
            if idx < words.len() {
                proof {
                    assert(ws[idx as int] == words@[idx as int]@);
                    if idx + 1 < words@.len() {
                        assert(ws[idx + 1] == words@[idx + 1]@);
                    }
                }
                if same_chars(&words[idx], "line") {
                    if idx + 1 < words.len() {
                        match parse_usize(&words[idx + 1]) {
                            Some(line_no) => self.goto_line(line_no),
                            None => {},
                        }
                    }
                } else if idx + 1 < words.len() {
                    let name = string_from(&words[idx + 1]);
                    self.file.set_name(name.as_str());
                }
            }
        } else {
            let commands = parse_commands(self.status_bar.cmd.as_str());
            let ghost cmds = commands_of(old(self).status_bar.cmd@);
            let ghost mut states: Seq<Editor> = seq![*old(self)];
            proof {
                assert(commands@.map_values(|c: Command| command_view(c)).len() == commands@.len());
            }
            let mut k: usize = 0;
            while k < commands.len()
                invariant
                    k <= commands@.len(),
                    self.wf(),
                    commands@.map_values(|c: Command| command_view(c)) == cmds,
                    cmds == commands_of(old(self).status_bar.cmd@),
                    states.len() == k + 1,
                    states[0] == *old(self),
                    states.last() == *self,
                    forall|i: int|
                        0 <= i < k ==> Editor::applied(
                            #[trigger] states[i],
                            cmds[i].0,
                            cmds[i].1,
                            cmds[i].2,
                            states[i + 1],
                        ),
                decreases commands@.len() - k,
            {
                proof {
                    assert(cmds[k as int] == command_view(commands@[k as int]));
                }
                self.apply_command(&commands[k]);
                proof {
                    states = states.push(*self);
                }
                k = k + 1;
            }
            proof {
                assert(Editor::ran(*old(self), cmds, states));
            }
        }
        self.status_bar.clear_command();
        if self.mode == EditorMode::Insert || self.mode == EditorMode::Search {
            Err(())
        } else {
            Ok(())
        }
    }

    /// A key in Command mode: characters extend the command line, Enter runs
    /// it, Esc drops it, Backspace removes its last character but the first.
    pub fn handle_command(&mut self, key: Key)
        requires
            old(self).wf(),
            old(self).spec_mode() == EditorMode::Command,
        ensures
            final(self).wf(),
            Editor::command_key(*old(self), key, *final(self)),
    {
        match key {
            Key::Char(c) => {
                if self.status_bar.cmd_chars < usize::MAX {
                    self.status_bar.add_command(c);
                }
            },
            Key::Enter => {
                let ghost a = *self;
                let r = self.evaluate_expr();
                let ghost e = *self;
                if let Ok(_) = r {
                    self.set_mode(EditorMode::Normal);
                }
                proof {
                    if is_set_line(a.status_bar.cmd@) {
                        assert(Editor::set_done(a, e) && *self == e.settled());
                    }
                    if !is_set_line(a.status_bar.cmd@) {
                        let states = choose|states: Seq<Editor>|
                            Editor::ran(a, commands_of(a.status_bar.cmd@), states)
                                && Editor::same_but_command(states.last(), e);
                        assert(Editor::ran(a, commands_of(a.status_bar.cmd@), states)
                            && Editor::same_but_command(states.last().settled(), *self));
                    }
                }
            },
            Key::Esc => {
                self.set_mode(EditorMode::Normal);
                self.status_bar.clear_command();
            },
            Key::Backspace => {
                if self.status_bar.cmd_chars > 1 {
                    self.status_bar.remove_command();
                }
            },
            _ => {},
        }
    }

    /// A key in Insert mode: characters are typed, Tab types two spaces,
    /// Backspace deletes, Enter splits the line, Esc leaves for Normal mode
    /// and the arrows move. The document counts as modified afterwards.
    pub fn handle_insert(&mut self, key: Key)
        requires
            old(self).wf(),
        ensures
            final(self).wf(),
            Editor::insert_key(*old(self), key, *final(self)),
    {
        match key {
            Key::Char(c) => self.insert(c),
            Key::Tab => {
                self.insert(' ');
                let ghost mid = *self;
                self.insert(' ');
                proof {
                    assert(Editor::inserted(*old(self), ' ', mid));
                }
            },
            Key::Backspace => self.delete(),
            Key::Enter => self.insert_row(),
            Key::Esc => self.set_mode(EditorMode::Normal),
            Key::Down => self.scroll(Direction::Down),
            Key::Up => self.scroll(Direction::Up),
            Key::Left => self.scroll(Direction::Left),
            Key::Right => self.scroll(Direction::Right),
            Key::Other => {},
        }
        self.altered = true;
    }

    /// A key in Normal mode: `i` enters Insert mode, `:` starts a command
    /// line, the arrows move.
    pub fn handle_normal(&mut self, key: Key)
        requires
            old(self).wf(),
        ensures
            final(self).wf(),
            Editor::normal_key(*old(self), key, *final(self)),
    {
        match key {
            Key::Char('i') => self.set_mode(EditorMode::Insert),
            Key::Char(':') => {
                self.set_mode(EditorMode::Command);
                if self.status_bar.cmd_chars < usize::MAX {
                    self.status_bar.add_command(':');
                }
            },
            Key::Down => self.scroll(Direction::Down),
            Key::Up => self.scroll(Direction::Up),
            Key::Left => self.scroll(Direction::Left),
            Key::Right => self.scroll(Direction::Right),
            _ => {},
        }
    }

    /// A key in Search mode: Enter moves to the next match, or back to
    /// Normal mode when none is left; `i` enters Insert mode; Esc leaves.
    pub fn handle_search(&mut self, key: Key)
        requires
            old(self).wf(),
        ensures
            final(self).wf(),
            Editor::search_key(*old(self), key, *final(self)),
    {
        match key {
            Key::Esc => self.set_mode(EditorMode::Normal),
            Key::Enter => {
                if self.search_next < self.search_results.len() {
                    let m = self.search_results[self.search_next];
                    self.search_next = self.search_next + 1;
                    if self.search_current < usize::MAX {
                        self.search_current = self.search_current + 1;
                    }
                    self.jump_to(m);
                } else {
                    self.set_mode(EditorMode::Normal);
                }
            },
            Key::Char('i') => self.set_mode(EditorMode::Insert),
            _ => {},
        }
    }

    /// Hands a key to the handler of the current mode.
    pub fn handle_key(&mut self, key: Key)
        requires
            old(self).wf(),
        ensures
            final(self).wf(),
            match old(self).spec_mode() {
                EditorMode::Normal => Editor::normal_key(*old(self), key, *final(self)),
                EditorMode::Command => Editor::command_key(*old(self), key, *final(self)),
                EditorMode::Insert => Editor::insert_key(*old(self), key, *final(self)),
                EditorMode::Search => Editor::search_key(*old(self), key, *final(self)),
            },
    {
        match self.mode {
            EditorMode::Normal => self.handle_normal(key),
            EditorMode::Command => self.handle_command(key),
            EditorMode::Insert => self.handle_insert(key),
            EditorMode::Search => self.handle_search(key),
        }
    }

    /// Moves up `k` times.
    fn up_times(&mut self, k: usize)
        requires
            old(self).wf(),
        ensures
            final(self).wf(),
            *final(self) == old(self).with_cursor(up_n(old(self).cur(), old(self).doc(), k as nat)),
    {
        let mut i: usize = 0;
        while i < k
            invariant
                i <= k,
                self.wf(),
                *self == old(self).with_cursor(up_n(old(self).cur(), old(self).doc(), i as nat)),
            decreases k - i,
        {
            self.step_up();
            i = i + 1;
        }
    }

    /// Moves down `k` times.
    fn down_times(&mut self, k: usize)
        requires
            old(self).wf(),
        ensures
            final(self).wf(),
            *final(self) == old(self).with_cursor(
                down_n(old(self).cur(), old(self).doc(), old(self).height(), k as nat),
            ),
    {
        let mut i: usize = 0;
        while i < k
            invariant
                i <= k,
                self.wf(),
                *self == old(self).with_cursor(
                    down_n(old(self).cur(), old(self).doc(), old(self).height(), i as nat),
                ),
            decreases k - i,
        {
            self.step_down();
            i = i + 1;
        }
    }

    /// Moves to 1-based line `line_no` (line 0 counts as line 1) by single
    /// steps; a line past the end changes nothing.
    pub fn goto_line(&mut self, line_no: usize)
        requires
            old(self).wf(),
        ensures
            final(self).wf(),
            *final(self) == old(self).with_cursor(final(self).cur()),
            line_no <= old(self).doc().rows().len() ==> abs_row(final(self).cur()) == if line_no
                == 0 {
                0
            } else {
                line_no - 1
            },
            line_no <= old(self).doc().rows().len() && line_no <= abs_row(old(self).cur())
                ==> final(self).cur() == up_n(
                old(self).cur(),
                old(self).doc(),
                (abs_row(old(self).cur()) - line_no + 1) as nat,
            ),
            line_no <= old(self).doc().rows().len() && line_no > abs_row(old(self).cur())
                ==> final(self).cur() == down_n(
                old(self).cur(),
                old(self).doc(),
                old(self).height(),
                (line_no - abs_row(old(self).cur()) - 1) as nat,
            ),
            line_no > old(self).doc().rows().len() ==> *final(self) == *old(self),
    {
        let row = self.row();
        if line_no <= self.file.len() {
            proof {
                lemma_up_n(self.cursor, self.file, self.height(), (row - line_no + 1) as nat);
                lemma_down_n(self.cursor, self.file, self.height(), (line_no - row - 1) as nat);
            }
            if line_no <= row {
                self.up_times(row - line_no + 1);
            } else {
                self.down_times(line_no - row - 1);
            }
        }
    }

    /// Moves to the first row.
    fn move_to_beginning(&mut self)
        requires
            old(self).wf(),
        ensures
            final(self).wf(),
            *final(self) == old(self).with_cursor(
                up_n(old(self).cur(), old(self).doc(), old(self).doc().rows().len()),
            ),
            abs_row(final(self).cur()) == 0,
    {
        proof {
            lemma_up_n(self.cursor, self.file, self.height(), self.file.rows().len());
        }
        let n = self.file.len();
        self.up_times(n);
    }

    /// Moves to the last row.
    fn move_to_end(&mut self)
        requires
            old(self).wf(),
        ensures
            final(self).wf(),
            *final(self) == old(self).with_cursor(
                down_n(
                    old(self).cur(),
                    old(self).doc(),
                    old(self).height(),
                    (old(self).doc().rows().len() - old(self).cur().first_row) as nat,
                ),
            ),
            abs_row(final(self).cur()) == old(self).doc().rows().len() - 1,
    {
        let n = self.file.len();
        let k = n - self.cursor.first_row;
        proof {
            lemma_down_n(self.cursor, self.file, self.height(), k as nat);
        }
        self.down_times(k);
    }

    /// Puts the cursor after the last grapheme of its row.
    fn move_to_line_end(&mut self)
        requires
            old(self).wf(),
        ensures
            final(self).wf(),
            *final(self) == old(self).with_cursor(
                Cursor {
                    column: old(self).doc().row_len(abs_row(old(self).cur())) as usize,
                    ..old(self).cur()
                },
            ),
            final(self).cur().column == old(self).doc().row_len(abs_row(old(self).cur())),
    {
        let row = self.row();
        let len = self.file.get_row(row).unwrap().len();
        self.cursor = Cursor { column: len, ..self.cursor };
    }

    /// Puts the cursor on the first column of its row.
    fn move_to_line_beginning(&mut self)
        requires
            old(self).wf(),
        ensures
            final(self).wf(),
            *final(self) == old(self).with_cursor(Cursor { column: 0, ..old(self).cur() }),
    {
        self.cursor = Cursor { column: 0, ..self.cursor };
    }

    /// Moves to the first column of the next row; no move on the last row.
    fn next_line(&mut self)
        requires
            old(self).wf(),
        ensures
            final(self).wf(),
            *final(self) == old(self).with_cursor(
                next_line_start(old(self).cur(), old(self).doc(), old(self).height()),
            ),
    {
        let row = self.row();
        if row < self.file.len() - 1 {
            self.step_down();
            self.cursor = Cursor { column: 0, ..self.cursor };
        }
    }

    /// Moves to the start of the next word of the row, or else to the start
    /// of the next row.
    fn move_to_next_word(&mut self)
        requires
            old(self).wf(),
        ensures
            final(self).wf(),
            ({
                let c = old(self).cur();
                let t = old(self).doc().texts()[abs_row(c)];
                let j = next_word(grapheme_clusters(t), c.column as int);
                *final(self) == old(self).with_cursor(
                    if j >= 0 {
                        Cursor { column: j as usize, ..c }
                    } else {
                        next_line_start(c, old(self).doc(), old(self).height())
                    },
                )
            }),
    {
        let row = self.row();
        let gs = graphemes(self.file.get_row(row).unwrap().content());
        let i = find_from_exec(&gs, self.cursor.column, true);
        if i < gs.len() {
            let j = find_from_exec(&gs, i + 1, false);
            if j < gs.len() {
                self.cursor = Cursor { column: j, ..self.cursor };
                return;
            }
        }
        self.next_line();
    }

    /// Moves to the end of the previous word of the row, or else to the
    /// start of the next row.
    fn move_to_prev_word(&mut self)
        requires
            old(self).wf(),
        ensures
            final(self).wf(),
            ({
                let c = old(self).cur();
                let t = old(self).doc().texts()[abs_row(c)];
                let j = prev_word(grapheme_clusters(t), c.column as int);
                *final(self) == old(self).with_cursor(
                    if j >= 0 {
                        Cursor { column: j as usize, ..c }
                    } else {
                        next_line_start(c, old(self).doc(), old(self).height())
                    },
                )
            }),
    {
        let row = self.row();
        let gs = graphemes(self.file.get_row(row).unwrap().content());
        if gs.len() > 0 {
            let start = if self.cursor.column < gs.len() - 1 {
                self.cursor.column
            } else {
                gs.len() - 1
            };
            let i = find_back_exec(&gs, start + 1, true);
            if i > 0 {
                let j = find_back_exec(&gs, i - 1, false);
                if j > 0 {
                    self.cursor = Cursor { column: j - 1, ..self.cursor };
                    return;
                }
            }
        }
        self.next_line();
    }

    /// Moves the cursor one step.
    pub fn scroll(&mut self, direction: Direction)
        requires
            old(self).wf(),
        ensures
            final(self).wf(),
            *final(self) == old(self).with_cursor(old(self).after(direction)),
    {
        proof {
            self.lemma_step_ok(direction);
            self.file.lemma_rows_fit();
        }
        let c = self.cursor;
        let row = c.first_row + c.screen_row;
        match direction {
            Direction::Down => self.step_down(),
            Direction::Up => self.step_up(),
            Direction::Left => {
                if c.column > 0 {
                    self.cursor = Cursor { column: c.column - 1, ..c };
                } else if row > 0 {
                    self.step_up();
                    let len = self.file.get_row(row - 1).unwrap().len();
                    self.cursor = Cursor { column: len, ..self.cursor };
                }
            },
            Direction::Right => {
                let len = self.file.get_row(row).unwrap().len();
                if c.column == len {
                    if row + 1 == self.file.len() {
                        return;
                    }
                    self.step_down();
                    self.cursor = Cursor { column: 0, ..self.cursor };
                } else {
                    self.cursor = Cursor { column: c.column + 1, ..c };
                }
            },
        }
    }
}

/// Typing a character and then undoing restores every row exactly as it
/// was, provided the history has room for the snapshot.
pub proof fn lemma_undo_round_trip(a: Editor, key: char, b: Editor, c: Editor)
    requires
        a.wf(),
        a.hist().spec_capacity() > 0,
        Editor::inserted(a, key, b),
        Editor::undone(b, c),
    ensures
        c.doc().texts() == a.doc().texts(),
{
    let line = abs_row(a.cur());
    let t = a.doc().texts();
    let n = b.hist().nodes()[0];
    assert(b.hist().nodes().len() > 0);
    assert(restored_count(n) == 1);
    assert(c.doc().texts() =~= t);
}

/// A backspace inside a row followed by an undo restores every row exactly
/// as it was, provided the history has room for the snapshot.
pub proof fn lemma_undo_round_trip_backspace(a: Editor, b: Editor, c: Editor)
    requires
        a.wf(),
        a.hist().spec_capacity() > 0,
        a.cur().column > 0,
        Editor::backspaced(a, b),
        Editor::undone(b, c),
    ensures
        c.doc().texts() == a.doc().texts(),
{
    let t = a.doc().texts();
    let n = b.hist().nodes()[0];
    assert(b.hist().nodes().len() > 0);
    assert(restored_count(n) == 1);
    assert(c.doc().texts() =~= t);
}

/// A backspace or a line split never leaves the document without rows.
pub proof fn lemma_never_empty(a: Editor, b: Editor)
    requires
        a.wf(),
        Editor::backspaced(a, b) || Editor::split_done(a, b),
    ensures
        b.doc().texts().len() >= 1,
{
}

} // verus!
