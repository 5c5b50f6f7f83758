//! Pattern search support: compiling patterns, finding match starts and
//! mapping byte offsets to grapheme columns.
use crate::text::{chars_of, views};
use vstd::prelude::*;

verus! {

#[verifier::external_type_specification]
#[verifier::external_body]
pub struct ExRegex(regex::Regex);

#[verifier::external_type_specification]
#[verifier::external_body]
pub struct ExRegexError(regex::Error);

/// Whether a pattern is a valid regular expression.
pub uninterp spec fn pattern_compiles(p: Seq<char>) -> bool;

/// A compiled regular expression together with the pattern text it was
/// compiled from. Only `compile` makes one.
pub struct Pattern {
    re: regex::Regex,
    source: String,
}

impl Pattern {
    /// The pattern text.
    pub closed spec fn source(&self) -> Seq<char> {
        self.source@
    }
}

/// The byte offsets at which the successive non-overlapping matches of
/// `pattern` start in `text`.
pub uninterp spec fn match_starts(pattern: Seq<char>, text: Seq<char>) -> Seq<usize>;

/// Relies on `regex::Regex::new`: it succeeds exactly on valid patterns, and
/// whether a pattern is valid depends on the pattern alone.
#[verifier::external_body]
pub(crate) fn compile(p: &str) -> (r: Result<Pattern, regex::Error>)
    ensures
        r is Ok == pattern_compiles(p@),
        r matches Ok(pat) ==> pat.source() == p@,
{
    match regex::Regex::new(p) {
        Ok(re) => Ok(Pattern { re, source: p.to_string() }),
        Err(e) => Err(e),
    }
}

/// Match starts that never decrease.
pub open spec fn sorted_starts(s: Seq<usize>) -> bool {
    forall|i: int, j: int| 0 <= i <= j < s.len() ==> s[i] <= s[j]
}

/// Relies on `regex::Regex::find_iter` and `Match::start`: the byte starts
/// of the successive non-overlapping matches, which depend on the pattern
/// and the text alone and never decrease.
#[verifier::external_body]
pub(crate) fn find_starts(pat: &Pattern, text: &str) -> (r: Vec<usize>)
    ensures
        r@ == match_starts(pat.source(), text@),
        sorted_starts(r@),
{
    pat.re.find_iter(text).map(|m| m.start()).collect()
}

/// Bytes that UTF-8 takes for a character.
pub open spec fn char_bytes(c: char) -> nat {
    let u = c as u32;
    if u < 0x80 {
        1
    } else if u < 0x800 {
        2
    } else if u < 0x10000 {
        3
    } else {
        4
    }
}

/// Bytes that UTF-8 takes for a text.
pub open spec fn byte_len(s: Seq<char>) -> nat
    decreases s.len(),
{
    if s.len() == 0 {
        0
    } else {
        byte_len(s.drop_last()) + char_bytes(s.last())
    }
}

/// The grapheme column that byte offset `b` falls in: the number of leading
/// clusters that end at or before `b`.
pub open spec fn column_of(gs: Seq<Seq<char>>, b: int) -> nat
    decreases gs.len(),
{
    if gs.len() == 0 {
        0
    } else if byte_len(gs[0]) <= b {
        1 + column_of(gs.drop_first(), b - byte_len(gs[0]))
    } else {
        0
    }
}

pub proof fn lemma_column_monotone(gs: Seq<Seq<char>>, b1: int, b2: int)
    requires
        b1 <= b2,
    ensures
        column_of(gs, b1) <= column_of(gs, b2),
    decreases gs.len(),
{
    if gs.len() > 0 && byte_len(gs[0]) <= b1 {
        lemma_column_monotone(gs.drop_first(), b1 - byte_len(gs[0]), b2 - byte_len(gs[0]));
    }
}

pub proof fn lemma_column_bound(gs: Seq<Seq<char>>, b: int)
    ensures
        column_of(gs, b) <= gs.len(),
    decreases gs.len(),
{
    if gs.len() > 0 && byte_len(gs[0]) <= b {
        lemma_column_bound(gs.drop_first(), b - byte_len(gs[0]));
    }
}

fn char_width(c: char) -> (r: usize)
    ensures
        r == char_bytes(c),
{
    let u = c as u32;
    if u < 0x80 {
        1
    } else if u < 0x800 {
        2
    } else if u < 0x10000 {
        3
    } else {
        4
    }
}

/// The UTF-8 length of `g` when it is at most `limit`.
fn bytes_within(g: &String, limit: usize) -> (r: Option<usize>)
    ensures
        byte_len(g@) <= limit ==> r == Some(byte_len(g@) as usize),
        byte_len(g@) > limit ==> r is None,
{
    let cs = chars_of(g.as_str());
    let mut acc: usize = 0;
    let mut i: usize = 0;
    while i < cs.len()
        invariant
            i <= cs@.len(),
            cs@ == g@,
            acc == byte_len(cs@.take(i as int)),
            acc <= limit,
        decreases cs@.len() - i,
    {
        let w = char_width(cs[i]);
        proof {
            assert(cs@.take(i as int + 1).drop_last() =~= cs@.take(i as int));
        }
        if w > limit - acc {
            proof {
                lemma_byte_len_prefix(cs@, i as int + 1);
            }
            return None;
        }
        acc = acc + w;
        i = i + 1;
    }
    proof {
        assert(cs@.take(i as int) =~= cs@);
    }
    Some(acc)
}

proof fn lemma_byte_len_prefix(s: Seq<char>, k: int)
    requires
        0 <= k <= s.len(),
    ensures
        byte_len(s.take(k)) <= byte_len(s),
    decreases s.len() - k,
{
    if k < s.len() {
        lemma_byte_len_prefix(s, k + 1);
        assert(s.take(k + 1).drop_last() =~= s.take(k));
    } else {
        assert(s.take(k) =~= s);
    }
}

/// The grapheme column of byte offset `b` among the clusters `gs`.
pub(crate) fn grapheme_column(gs: &Vec<String>, b: usize) -> (r: usize)
    ensures
        r == column_of(views(gs@), b as int),
{
    let mut col: usize = 0;
    let mut rest: usize = b;
    proof {
        assert(views(gs@).skip(0) =~= views(gs@));
    }
    while col < gs.len()
        invariant
            col <= gs@.len(),
            column_of(views(gs@), b as int) == col + column_of(
                views(gs@).skip(col as int),
                rest as int,
            ),
        decreases gs@.len() - col,
    {
        let ghost tl = views(gs@).skip(col as int);
        proof {
            assert(tl[0] == gs@[col as int]@);
            assert(tl.drop_first() =~= views(gs@).skip(col as int + 1));
        }
        match bytes_within(&gs[col], rest) {
            Some(w) => {
                rest = rest - w;
                col = col + 1;
            },
            None => {
                return col;
            },
        }
    }
    proof {
        assert(views(gs@).skip(col as int) =~= Seq::<Seq<char>>::empty());
    }
    col
}

} // verus!
