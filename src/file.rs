//! Rows and documents: grapheme-aware line storage.
use crate::search::{column_of, compile, find_starts, match_starts, pattern_compiles, sorted_starts};
use crate::text::{
    append_range, chars_of, grapheme_clusters, grapheme_count, graphemes, join,
    lemma_join_one, lemma_join_split, push_char, views,
};
use vstd::prelude::*;

verus! {

broadcast use vstd::std_specs::vec::axiom_spec_len;

/// Where a line is split.
pub enum NLPositionDescriptor {
    /// Before the first grapheme: the whole row moves to the new line.
    Beginning,
    /// After the grapheme at this index.
    Middle(usize),
    /// After the last grapheme: the new line is empty.
    End,
}

/// Where a character is inserted.
pub enum IPositionDescriptor {
    /// Before the grapheme at this index.
    Middle(usize, char),
    /// After the last grapheme.
    End(char),
}

/// What a backspace removes, by row index.
pub enum DPositionDescriptor {
    /// At the start of the row: the row is merged into the one above.
    Beginning(usize),
    /// The grapheme at the given index of the given row.
    Middle(usize, usize),
    /// The last grapheme of the row.
    End(usize),
}

/// The text of the first `k` grapheme clusters of `s`.
pub open spec fn head(s: Seq<char>, k: int) -> Seq<char> {
    join(grapheme_clusters(s).take(k))
}

/// The text of `s` from grapheme cluster `k` on.
pub open spec fn tail(s: Seq<char>, k: int) -> Seq<char> {
    join(grapheme_clusters(s).skip(k))
}

/// `s` with `c` inserted before grapheme cluster `k`.
pub open spec fn spliced(s: Seq<char>, k: int, c: char) -> Seq<char> {
    head(s, k) + seq![c] + tail(s, k)
}

/// `s` without grapheme cluster `k`.
pub open spec fn without(s: Seq<char>, k: int) -> Seq<char> {
    head(s, k) + tail(s, k + 1)
}

/// A single line of text together with its length in grapheme clusters.
pub struct Row {
    content: String,
    len: usize,
}

impl View for Row {
    type V = Seq<char>;

    closed spec fn view(&self) -> Seq<char> {
        self.content@
    }
}

impl Row {
    /// The stored length.
    pub closed spec fn spec_len(&self) -> nat {
        self.len as nat
    }

    pub proof fn lemma_len_fits(&self)
        ensures
            self.spec_len() <= usize::MAX,
    {
    }

    /// The stored length is the number of grapheme clusters of the content,
    /// and the clusters are non-empty and make up the content.
    pub open spec fn wf(&self) -> bool {
        &&& self.spec_len() == grapheme_count(self@)
        &&& join(grapheme_clusters(self@)) == self@
        &&& forall|i: int|
            0 <= i < grapheme_count(self@) ==> (#[trigger] grapheme_clusters(self@)[i]).len() > 0
    }

    /// Builds a row holding `s`.
    fn build(content: String) -> (r: Row)
        ensures
            r@ == content@,
            r.wf(),
    {
        let gs = graphemes(content.as_str());
        let len = gs.len();
        Row { content, len }
    }

    /// A row holding the text `s`.
    pub fn from_text(s: &str) -> (r: Row)
        ensures
            r@ == s@,
            r.wf(),
    {
        Row::build(s.to_owned())
    }

    pub fn content(&self) -> (r: &str)
        ensures
            r@ == self@,
    {
        self.content.as_str()
    }

    pub fn len(&self) -> (r: usize)
        ensures
            r == self.spec_len(),
    {
        self.len
    }

    /// An independent copy of this row.
    pub fn duplicate(&self) -> (r: Row)
        ensures
            r@ == self@,
            r.spec_len() == self.spec_len(),
    {
        Row { content: self.content.clone(), len: self.len }
    }

    /// Inserts a character before a grapheme, or at the end.
    pub fn insert(&mut self, descrip: IPositionDescriptor)
        requires
            old(self).wf(),
            descrip matches IPositionDescriptor::Middle(k, _) ==> k <= old(self).spec_len(),
        ensures
            final(self).wf(),
            match descrip {
                IPositionDescriptor::Middle(k, c) => final(self)@ == spliced(old(self)@, k as int, c),
                IPositionDescriptor::End(c) => final(self)@ == old(self)@.push(c),
            },
    {
        match descrip {
            IPositionDescriptor::Middle(before, character) => {
                let gs = graphemes(self.content.as_str());
                let mut new = String::new();
                append_range(&gs, 0, before, &mut new);
                push_char(&mut new, character);
                append_range(&gs, before, gs.len(), &mut new);
                proof {
                    assert(views(gs@).subrange(0, before as int) =~= grapheme_clusters(
                        self@,
                    ).take(before as int));
                    assert(views(gs@).subrange(before as int, gs@.len() as int)
                        =~= grapheme_clusters(self@).skip(before as int));
                    assert(new@ =~= spliced(self@, before as int, character));
                }
                *self = Row::build(new);
            },
            IPositionDescriptor::End(character) => {
                let mut new = self.content.clone();
                push_char(&mut new, character);
                *self = Row::build(new);
            },
        }
    }

    /// Splits the row: what stands before the split point stays, the rest is
    /// returned as a new row.
    pub fn add_new_line(&mut self, at: NLPositionDescriptor) -> (r: Row)
        requires
            old(self).wf(),
            at matches NLPositionDescriptor::Middle(k) ==> k < old(self).spec_len(),
        ensures
            final(self).wf(),
            r.wf(),
            final(self)@ == head(old(self)@, split_point(at, old(self).spec_len())),
            r@ == tail(old(self)@, split_point(at, old(self).spec_len())),
            final(self)@ + r@ == old(self)@,
    {
        let ghost k = split_point(at, old(self).spec_len());
        let ghost s = self@;
        proof {
            lemma_join_split(grapheme_clusters(s), k);
        }
        match at {
            NLPositionDescriptor::Beginning => {
                let content = self.content.clone();
                *self = Row::build(String::new());
                proof {
                    assert(grapheme_clusters(s).take(0) =~= Seq::<Seq<char>>::empty());
                    assert(grapheme_clusters(s).skip(0) =~= grapheme_clusters(s));
                }
                Row::build(content)
            },
            NLPositionDescriptor::Middle(at) => {
                let gs = graphemes(self.content.as_str());
                let mut old = String::new();
                let mut new = String::new();
                append_range(&gs, 0, at + 1, &mut old);
                append_range(&gs, at + 1, gs.len(), &mut new);
                proof {
                    assert(views(gs@).subrange(0, k) =~= grapheme_clusters(s).take(k));
                    assert(views(gs@).subrange(k, gs@.len() as int) =~= grapheme_clusters(
                        s,
                    ).skip(k));
                    assert(old@ =~= head(s, k));
                    assert(new@ =~= tail(s, k));
                }
                *self = Row::build(old);
                Row::build(new)
            },
            NLPositionDescriptor::End => {
                proof {
                    assert(grapheme_clusters(s).take(k) =~= grapheme_clusters(s));
                    assert(grapheme_clusters(s).skip(k) =~= Seq::<Seq<char>>::empty());
                    assert(tail(s, k) =~= Seq::<char>::empty());
                }
                Row::build(String::new())
            },
        }
    }

    /// Removes the grapheme at index `at`.
    pub fn delete(&mut self, at: usize)
        requires
            old(self).wf(),
            at < old(self).spec_len(),
        ensures
            final(self).wf(),
            final(self)@ == without(old(self)@, at as int),
    {
        let gs = graphemes(self.content.as_str());
        let mut new = String::new();
        append_range(&gs, 0, at, &mut new);
        append_range(&gs, at + 1, gs.len(), &mut new);
        proof {
            assert(views(gs@).subrange(0, at as int) =~= grapheme_clusters(self@).take(at as int));
            assert(views(gs@).subrange(at as int + 1, gs@.len() as int) =~= grapheme_clusters(
                self@,
            ).skip(at as int + 1));
        }
        *self = Row::build(new);
    }

    /// Appends the content of `other`.
    pub fn append(&mut self, other: &Self)
        requires
            old(self).wf(),
        ensures
            final(self).wf(),
            final(self)@ == old(self)@ + other@,
    {
        let mut new = self.content.clone();
        new.append(other.content.as_str());
        *self = Row::build(new);
    }

    /// Removes the last grapheme and returns the last character it held.
    pub fn pop(&mut self) -> (r: Option<char>)
        requires
            old(self).wf(),
        ensures
            final(self).wf(),
            old(self).spec_len() == 0 ==> r is None && final(self)@ == old(self)@,
            old(self).spec_len() > 0 ==> r == Some(old(self)@.last()) && final(self)@ == head(
                old(self)@,
                old(self).spec_len() - 1,
            ),
    {
        if self.len == 0 {
            return None;
        }
        let ghost s = self@;
        let gs = graphemes(self.content.as_str());
        let n = gs.len();
        let mut new = String::new();
        append_range(&gs, 0, n - 1, &mut new);
        let chars = chars_of(self.content.as_str());
        proof {
            let cl = grapheme_clusters(s);
            assert(views(gs@).subrange(0, n - 1) =~= cl.take(n - 1));
            lemma_join_split(cl, n - 1);
            assert(cl.skip(n - 1) =~= seq![cl[n - 1]]);
            lemma_join_one(cl[n - 1]);
            assert(cl[n - 1].len() > 0);
            assert(s.last() == cl[n - 1].last());
        }
        let last = chars[chars.len() - 1];
        *self = Row::build(new);
        Some(last)
    }

    /// Compiles `expr` and returns the matches in this row as
    /// `(row_id, column)` pairs with their number; an invalid pattern has none.
    pub fn search_for(&self, row_id: usize, expr: &String) -> (r: (usize, Vec<(usize, usize)>))
        requires
            self.wf(),
        ensures
            r.0 == r.1@.len(),
            !pattern_compiles(expr@) ==> r.0 == 0,
            pattern_compiles(expr@) ==> r.1@ == row_matches(row_id, self@, expr@),
            forall|i: int| 0 <= i < r.1@.len() ==> (#[trigger] r.1@[i]).0 == row_id,
            forall|i: int, j: int| 0 <= i <= j < r.1@.len() ==> r.1@[i].1 <= r.1@[j].1,
    {
        match compile(expr.as_str()) {
            Ok(re) => {
                let starts = find_starts(&re, self.content.as_str());
                let found = self.match_columns(row_id, &starts);
                proof {
                    assert(found@ =~= row_matches(row_id, self@, expr@));
                    self.lemma_columns_sorted(starts@);
                    assert forall|i: int, j: int| 0 <= i <= j < found@.len() implies found@[i].1
                        <= found@[j].1 by {
                        assert(found@[i] == (
                            row_id,
                            column_of(grapheme_clusters(self@), starts@[i] as int) as usize,
                        ));
                        assert(found@[j] == (
                            row_id,
                            column_of(grapheme_clusters(self@), starts@[j] as int) as usize,
                        ));
                    }
                }
                (found.len(), found)
            },
            Err(_) => (0, Vec::new()),
        }
    }

    proof fn lemma_columns_sorted(&self, starts: Seq<usize>)
        requires
            self.wf(),
            sorted_starts(starts),
        ensures
            forall|i: int, j: int|
                #![trigger starts[i], starts[j]]
                0 <= i <= j < starts.len() ==> column_of(grapheme_clusters(self@), starts[i] as int)
                    <= column_of(grapheme_clusters(self@), starts[j] as int) <= self.spec_len(),
    {
        assert forall|i: int, j: int|
            #![trigger starts[i], starts[j]]
            0 <= i <= j < starts.len() implies column_of(
            grapheme_clusters(self@),
            starts[i] as int,
        ) <= column_of(grapheme_clusters(self@), starts[j] as int) <= self.spec_len() by {
            crate::search::lemma_column_bound(grapheme_clusters(self@), starts[j] as int);
            crate::search::lemma_column_monotone(
                grapheme_clusters(self@),
                starts[i] as int,
                starts[j] as int,
            );
        }
    }

    /// Turns match starts, given as byte offsets into the content, into
    /// `(row_id, column)` pairs, where the column is the index of the
    /// grapheme the match starts in.
    pub fn match_columns(&self, row_id: usize, starts: &Vec<usize>) -> (r: Vec<(usize, usize)>)
        requires
            self.wf(),
        ensures
            r@.len() == starts@.len(),
            forall|i: int|
                0 <= i < r@.len() ==> (#[trigger] r@[i]) == (
                    row_id,
                    column_of(grapheme_clusters(self@), starts@[i] as int) as usize,
                ),
    {
        let gs = graphemes(self.content.as_str());
        let mut out: Vec<(usize, usize)> = Vec::new();
        let mut i: usize = 0;
        while i < starts.len()
            invariant
                i <= starts@.len(),
                views(gs@) == grapheme_clusters(self@),
                out@.len() == i,
                forall|j: int|
                    0 <= j < i ==> (#[trigger] out@[j]) == (
                        row_id,
                        column_of(grapheme_clusters(self@), starts@[j] as int) as usize,
                    ),
            decreases starts@.len() - i,
        {
            let col = crate::search::grapheme_column(&gs, starts[i]);
            out.push((row_id, col));
            i = i + 1;
        }
        out
    }
}

/// The split point, in graphemes, that a split descriptor names.
pub open spec fn split_point(at: NLPositionDescriptor, len: nat) -> int {
    match at {
        NLPositionDescriptor::Beginning => 0,
        NLPositionDescriptor::Middle(k) => k + 1,
        NLPositionDescriptor::End => len as int,
    }
}


/// Line break handling of a text: the complete lines met so far (each without
/// its `\n` and a `\r` just before it) and the pending, unterminated line.
pub open spec fn scan_lines(s: Seq<char>) -> (Seq<Seq<char>>, Seq<char>)
    decreases s.len(),
{
    if s.len() == 0 {
        (Seq::empty(), Seq::empty())
    } else {
        let (ls, cur) = scan_lines(s.drop_last());
        if s.last() == '\n' {
            (ls.push(strip_cr(cur)), Seq::empty())
        } else {
            (ls, cur.push(s.last()))
        }
    }
}

/// `l` without one trailing carriage return.
pub open spec fn strip_cr(l: Seq<char>) -> Seq<char> {
    if l.len() > 0 && l.last() == '\r' {
        l.drop_last()
    } else {
        l
    }
}

/// The lines of a text; a final line needs no line break.
pub open spec fn text_lines(s: Seq<char>) -> Seq<Seq<char>> {
    let (ls, cur) = scan_lines(s);
    if cur.len() > 0 {
        ls.push(cur)
    } else {
        ls
    }
}

/// The rows that a text opens as: its lines, or one empty row when it has none.
pub open spec fn opened_rows(s: Seq<char>) -> Seq<Seq<char>> {
    if text_lines(s).len() == 0 {
        seq![Seq::empty()]
    } else {
        text_lines(s)
    }
}

/// Each row followed by a line break.
pub open spec fn joined_lines(rs: Seq<Seq<char>>) -> Seq<char>
    decreases rs.len(),
{
    if rs.len() == 0 {
        Seq::empty()
    } else {
        joined_lines(rs.drop_last()) + rs.last() + seq!['\n']
    }
}

/// The matches of `p` in row `row` of text `row_text`: the row and the
/// grapheme column of each match start, in order.
pub open spec fn row_matches(row: usize, row_text: Seq<char>, p: Seq<char>) -> Seq<(usize, usize)> {
    Seq::new(
        match_starts(p, row_text).len(),
        |k: int| (row, column_of(grapheme_clusters(row_text), match_starts(p, row_text)[k] as int) as usize),
    )
}

/// The matches of `p` in the rows `texts`, row after row.
pub open spec fn doc_matches(texts: Seq<Seq<char>>, p: Seq<char>) -> Seq<(usize, usize)>
    decreases texts.len(),
{
    if texts.len() == 0 {
        Seq::empty()
    } else {
        doc_matches(texts.drop_last(), p) + row_matches((texts.len() - 1) as usize, texts.last(), p)
    }
}

/// Row positions in lexicographic (row, column) order.
pub open spec fn lex_sorted(s: Seq<(usize, usize)>) -> bool {
    forall|i: int, j: int|
        #![trigger s[i], s[j]]
        0 <= i <= j < s.len() ==> s[i].0 < s[j].0 || (s[i].0 == s[j].0 && s[i].1 <= s[j].1)
}

/// The texts of a sequence of rows.
pub open spec fn texts_of(rows: Seq<Row>) -> Seq<Seq<char>> {
    rows.map_values(|r: Row| r@)
}

/// The text of `v[0..n]`.
fn string_of(v: &Vec<char>, n: usize) -> (r: String)
    requires
        n <= v@.len(),
    ensures
        r@ == v@.take(n as int),
{
    let mut out = String::new();
    let mut i: usize = 0;
    while i < n
        invariant
            i <= n <= v@.len(),
            out@ == v@.take(i as int),
        decreases n - i,
    {
        push_char(&mut out, v[i]);
        proof {
            assert(v@.take(i as int + 1) =~= v@.take(i as int).push(v@[i as int]));
        }
        i = i + 1;
    }
    out
}

/// An ordered sequence of rows, never empty, with a file name.
pub struct Document {
    file_name: String,
    rows: Vec<Row>,
}

impl Document {
    pub closed spec fn rows(&self) -> Seq<Row> {
        self.rows@
    }

    pub closed spec fn name_view(&self) -> Seq<char> {
        self.file_name@
    }

    pub proof fn lemma_rows_fit(&self)
        ensures
            self.rows().len() <= usize::MAX,
    {
        vstd::std_specs::vec::axiom_spec_len(&self.rows);
    }

    /// The texts of the rows.
    pub open spec fn texts(&self) -> Seq<Seq<char>> {
        texts_of(self.rows())
    }

    /// Length in graphemes of row `i`.
    pub open spec fn row_len(&self, i: int) -> nat {
        self.rows()[i].spec_len()
    }

    /// At least one row, each well formed.
    pub open spec fn wf(&self) -> bool {
        &&& 1 <= self.rows().len() <= usize::MAX
        &&& forall|i: int| 0 <= i < self.rows().len() ==> (#[trigger] self.rows()[i]).wf()
    }

    /// An empty document: one empty row.
    pub fn new(file_name: &str) -> (r: Document)
        ensures
            r.wf(),
            r.name_view() == file_name@,
            r.texts() == seq![Seq::<char>::empty()],
    {
        let mut rows = Vec::new();
        rows.push(Row::build(String::new()));
        let r = Document { file_name: file_name.to_owned(), rows };
        proof {
            assert(r.texts() =~= seq![Seq::<char>::empty()]);
        }
        r
    }

    /// A document named `file_name` whose rows are the lines of `raw_content`.
    pub fn open(file_name: &str, raw_content: &str) -> (r: Document)
        ensures
            r.wf(),
            r.name_view() == file_name@,
            r.texts() == opened_rows(raw_content@),
    {
        let cs = chars_of(raw_content);
        let mut rows: Vec<Row> = Vec::new();
        let mut cur: Vec<char> = Vec::new();
        let mut i: usize = 0;
        while i < cs.len()
            invariant
                i <= cs@.len(),
                cs@ == raw_content@,
                scan_lines(cs@.take(i as int)) == (texts_of(rows@), cur@),
                forall|j: int| 0 <= j < rows@.len() ==> (#[trigger] rows@[j]).wf(),
            decreases cs@.len() - i,
        {
            let c = cs[i];
            proof {
                assert(cs@.take(i as int + 1).drop_last() =~= cs@.take(i as int));
            }
            if c == '\n' {
                let n = cur.len();
                let keep = if n > 0 && cur[n - 1] == '\r' {
                    n - 1
                } else {
                    n
                };
                let line = string_of(&cur, keep);
                let row = Row::build(line);
                proof {
                    assert(cur@.take(keep as int) =~= strip_cr(cur@));
                }
                let ghost before = rows@;
                rows.push(row);
                cur = Vec::new();
                proof {
                    assert(texts_of(rows@) =~= texts_of(before).push(row@));
                }
            } else {
                cur.push(c);
            }
            i = i + 1;
        }
        proof {
            assert(cs@.take(i as int) =~= cs@);
        }
        if cur.len() > 0 {
            let n = cur.len();
            let line = string_of(&cur, n);
            let ghost before = rows@;
            let row = Row::build(line);
            rows.push(row);
            proof {
                assert(cur@.take(n as int) =~= cur@);
                assert(texts_of(rows@) =~= texts_of(before).push(cur@));
            }
        }
        if rows.len() == 0 {
            let row = Row::build(String::new());
            rows.push(row);
            proof {
                assert(texts_of(rows@) =~= seq![Seq::<char>::empty()]);
            }
        }
        Document { file_name: file_name.to_owned(), rows }
    }

    pub fn name(&self) -> (r: &str)
        ensures
            r@ == self.name_view(),
    {
        self.file_name.as_str()
    }

    pub fn set_name(&mut self, name: &str)
        ensures
            final(self).name_view() == name@,
            final(self).rows() == old(self).rows(),
    {
        self.file_name = name.to_owned();
    }

    pub fn get_row(&self, index: usize) -> (r: Option<&Row>)
        ensures
            index < self.rows().len() ==> r == Some(&self.rows()[index as int]),
            index >= self.rows().len() ==> r is None,
    {
        if index < self.rows.len() {
            Some(&self.rows[index])
        } else {
            None
        }
    }

    /// Row `index` for changing in place, or `Err` past the end.
    pub fn get_row_mut(&mut self, index: usize) -> (r: Result<&mut Row, ()>)
        ensures
            index < old(self).rows().len() <==> r is Ok,
            r matches Ok(row) ==> *row == old(self).rows()[index as int]
                && final(self).rows() == old(self).rows().update(index as int, *final(row)),
            r is Err ==> *final(self) == *old(self),
    {
        if index < self.rows.len() {
            Ok(&mut self.rows[index])
        } else {
            Err(())
        }
    }

    /// Empties row `index` in place; an index past the end changes nothing.
    pub fn clear_row(&mut self, index: usize)
        requires
            old(self).wf(),
        ensures
            final(self).wf(),
            final(self).name_view() == old(self).name_view(),
            index < old(self).rows().len() ==> final(self).texts() == old(self).texts().update(
                index as int,
                Seq::empty(),
            ),
            index >= old(self).rows().len() ==> final(self).rows() == old(self).rows(),
    {
        if index < self.rows.len() {
            let ghost before = self.rows@;
            self.rows.set(index, Row::build(String::new()));
            proof {
                assert(texts_of(self.rows@) =~= texts_of(before).update(
                    index as int,
                    Seq::empty(),
                ));
            }
        }
    }

    pub fn len(&self) -> (r: usize)
        ensures
            r == self.rows().len(),
    {
        self.rows.len()
    }

    /// The whole text: every row followed by a line break.
    pub fn to_str(&self) -> (r: String)
        ensures
            r@ == joined_lines(self.texts()),
    {
        let mut out = String::new();
        let mut i: usize = 0;
        while i < self.rows.len()
            invariant
                i <= self.rows@.len(),
                out@ == joined_lines(self.texts().take(i as int)),
            decreases self.rows@.len() - i,
        {
            out.append(self.rows[i].content());
            push_char(&mut out, '\n');
            proof {
                assert(self.texts().take(i as int + 1).drop_last() =~= self.texts().take(i as int));
            }
            i = i + 1;
        }
        proof {
            assert(self.texts().take(i as int) =~= self.texts());
        }
        out
    }

    /// Inserts `row` so that it becomes row `row_no`.
    pub fn insert_row(&mut self, row_no: usize, row: Row)
        requires
            old(self).wf(),
            row.wf(),
            row_no <= old(self).rows().len(),
        ensures
            final(self).wf(),
            final(self).name_view() == old(self).name_view(),
            final(self).rows() == old(self).rows().insert(row_no as int, row),
            final(self).texts() == old(self).texts().insert(row_no as int, row@),
    {
        self.rows.insert(row_no, row);
        proof {
            vstd::std_specs::vec::axiom_spec_len(&self.rows);
            assert(texts_of(self.rows@) =~= texts_of(old(self).rows@).insert(row_no as int, row@));
        }
    }

    /// Puts `new_row` in place of row `index`; an index past the end changes
    /// nothing.
    pub fn replace(&mut self, index: usize, new_row: Row)
        requires
            old(self).wf(),
            new_row.wf(),
        ensures
            final(self).wf(),
            final(self).name_view() == old(self).name_view(),
            index < old(self).rows().len() ==> final(self).rows() == old(self).rows().update(
                index as int,
                new_row,
            ),
            index >= old(self).rows().len() ==> final(self).rows() == old(self).rows(),
    {
        if index < self.rows.len() {
            self.rows.set(index, new_row);
        }
    }

    /// Applies a backspace. Merging a row into the one above returns the
    /// length the upper row had; anything out of range changes nothing.
    pub fn handle_delete(&mut self, descrip: DPositionDescriptor) -> (r: Option<usize>)
        requires
            old(self).wf(),
        ensures
            final(self).wf(),
            final(self).name_view() == old(self).name_view(),
            deleted(old(self).texts(), old(self).rows(), descrip, final(self).texts(), r),
    {
        let ghost t = self.texts();
        match descrip {
            DPositionDescriptor::Middle(row_no, at) => {
                if row_no < self.rows.len() && at < self.rows[row_no].len() {
                    let mut row = self.rows[row_no].duplicate();
                    proof {
                        assert(t[row_no as int] == row@);
                    }
                    row.delete(at);
                    self.rows.set(row_no, row);
                    proof {
                        assert(self.texts() =~= t.update(row_no as int, row@));
                    }
                }
                None
            },
            DPositionDescriptor::Beginning(row_no) => {
                if row_no == 0 || row_no >= self.rows.len() {
                    return None;
                }
                let row = self.rows.remove(row_no);
                let mut prev_row = self.rows[row_no - 1].duplicate();
                let prev_len = prev_row.len();
                prev_row.append(&row);
                self.rows.set(row_no - 1, prev_row);
                proof {
                    assert(self.texts() =~= t.take(row_no - 1).push(t[row_no - 1] + t[row_no as int])
                        + t.skip(row_no + 1));
                }
                Some(prev_len)
            },
            DPositionDescriptor::End(row_no) => {
                if row_no < self.rows.len() {
                    let mut row = self.rows[row_no].duplicate();
                    proof {
                        assert(t[row_no as int] == row@);
                    }
                    row.pop();
                    self.rows.set(row_no, row);
                    proof {
                        assert(self.texts() =~= t.update(row_no as int, row@));
                        assert(t.update(row_no as int, t[row_no as int]) =~= t);
                    }
                }
                None
            },
        }
    }

    /// Searches every row for `expr`; returns the number of matches and the
    /// `(row, column)` of each, in row-major order. An invalid pattern has no
    /// matches.
    pub fn search_for(&self, expr: &String) -> (r: (usize, Vec<(usize, usize)>))
        requires
            self.wf(),
        ensures
            r.0 == r.1@.len(),
            !pattern_compiles(expr@) ==> r.0 == 0,
            pattern_compiles(expr@) ==> r.1@ == doc_matches(self.texts(), expr@),
            lex_sorted(r.1@),
            forall|i: int| 0 <= i < r.1@.len() ==> (#[trigger] r.1@[i]).0 < self.rows().len(),
    {
        let re = match compile(expr.as_str()) {
            Ok(re) => re,
            Err(_) => {
                return (0, Vec::new());
            },
        };
        let mut out: Vec<(usize, usize)> = Vec::new();
        let mut row_id: usize = 0;
        while row_id < self.rows.len()
            invariant
                row_id <= self.rows@.len(),
                self.wf(),
                lex_sorted(out@),
                forall|i: int| 0 <= i < out@.len() ==> (#[trigger] out@[i]).0 < row_id,
                re.source() == expr@,
                out@ == doc_matches(self.texts().take(row_id as int), expr@),
            decreases self.rows@.len() - row_id,
        {
            let row = &self.rows[row_id];
            let starts = find_starts(&re, row.content());
            let found = row.match_columns(row_id, &starts);
            proof {
                assert(found@ =~= row_matches(row_id, row@, expr@));
                let tk = self.texts().take(row_id as int + 1);
                assert(tk.drop_last() =~= self.texts().take(row_id as int));
                assert(tk.last() == row@);
                assert(row.wf());
                row.lemma_columns_sorted(starts@);
            }
            let ghost prev = out@;
            let mut k: usize = 0;
            while k < found.len()
                invariant
                    k <= found@.len(),
                    prev == doc_matches(self.texts().take(row_id as int), expr@),
                    found@ == row_matches(row_id, self.texts()[row_id as int], expr@),
                    prev.len() <= out@.len(),
                    out@ == prev + found@.take(k as int),
                    lex_sorted(prev),
                    forall|i: int| 0 <= i < prev.len() ==> (#[trigger] prev[i]).0 < row_id,
                    forall|i: int| 0 <= i < found@.len() ==> (#[trigger] found@[i]).0 == row_id,
                    forall|i: int, j: int|
                        #![trigger found@[i], found@[j]]
                        0 <= i <= j < found@.len() ==> found@[i].1 <= found@[j].1,
                    lex_sorted(out@),
                    forall|i: int| 0 <= i < out@.len() ==> (#[trigger] out@[i]).0 <= row_id,
                decreases found@.len() - k,
            {
                out.push(found[k]);
                proof {
                    assert(found@.take(k as int + 1) =~= found@.take(k as int).push(found@[k as int]));
                    let o = out@;
                    assert forall|i: int, j: int|
                        #![trigger o[i], o[j]]
                        0 <= i <= j < o.len() implies o[i].0 < o[j].0 || (o[i].0 == o[j].0
                            && o[i].1 <= o[j].1) by {
                        if i >= prev.len() {
                            assert(o[i] == found@[i - prev.len()]);
                            assert(o[j] == found@[j - prev.len()]);
                        } else if j >= prev.len() {
                            assert(o[i] == prev[i]);
                            assert(o[j] == found@[j - prev.len()]);
                        } else {
                            assert(o[i] == prev[i]);
                            assert(o[j] == prev[j]);
                        }
                    }
                }
                k = k + 1;
            }
            proof {
                assert(found@.take(found@.len() as int) =~= found@);
                let tk = self.texts().take(row_id as int + 1);
                assert(tk.drop_last() =~= self.texts().take(row_id as int));
                assert(out@ == doc_matches(tk, expr@));
                assert forall|i: int| 0 <= i < out@.len() implies (#[trigger] out@[i]).0 < row_id
                    + 1 by {
                    if i >= prev.len() {
                        assert(out@[i] == found@[i - prev.len()]);
                    } else {
                        assert(out@[i] == prev[i]);
                    }
                }
            }
            row_id = row_id + 1;
        }
        proof {
            assert(self.texts().take(row_id as int) =~= self.texts());
        }
        (out.len(), out)
    }
}

/// What a backspace described by `d` does to rows with texts `t`: `t2` is
/// the outcome and `r` the merge result.
pub open spec fn deleted(
    t: Seq<Seq<char>>,
    rows: Seq<Row>,
    d: DPositionDescriptor,
    t2: Seq<Seq<char>>,
    r: Option<usize>,
) -> bool {
    match d {
        DPositionDescriptor::Middle(row_no, at) => r is None && if row_no < t.len() && at
            < rows[row_no as int].spec_len() {
            t2 == t.update(row_no as int, without(t[row_no as int], at as int))
        } else {
            t2 == t
        },
        DPositionDescriptor::Beginning(row_no) => if 0 < row_no < t.len() {
            &&& r == Some(rows[row_no - 1].spec_len() as usize)
            &&& t2 == t.take(row_no - 1).push(t[row_no - 1] + t[row_no as int]) + t.skip(
                row_no + 1,
            )
        } else {
            r is None && t2 == t
        },
        DPositionDescriptor::End(row_no) => r is None && if row_no < t.len() {
            if rows[row_no as int].spec_len() == 0 {
                t2 == t
            } else {
                t2 == t.update(
                    row_no as int,
                    head(t[row_no as int], rows[row_no as int].spec_len() - 1),
                )
            }
        } else {
            t2 == t
        },
    }
}

/// In a well-formed document every row's length is the number of grapheme
/// clusters of its text.
pub proof fn lemma_row_lengths(doc: Document)
    requires
        doc.wf(),
    ensures
        forall|i: int| 0 <= i < doc.rows().len() ==> #[trigger] doc.row_len(i) == grapheme_count(doc.texts()[i]),
{
    assert forall|i: int| 0 <= i < doc.rows().len() implies #[trigger] doc.row_len(i) == grapheme_count(doc.texts()[i]) by {
        assert(doc.rows()[i].wf());
    }
}

} // verus!
