//! Text primitives: grapheme clusters, joining, character classes and
//! decimal widths.
use unicode_segmentation::UnicodeSegmentation;
use vstd::prelude::*;
use vstd::std_specs::iter::IteratorSpec;

verus! {

/// The grapheme clusters (extended) of a text, in order.
pub uninterp spec fn grapheme_clusters(s: Seq<char>) -> Seq<Seq<char>>;

/// The concatenation of a sequence of pieces.
pub open spec fn join(gs: Seq<Seq<char>>) -> Seq<char>
    decreases gs.len(),
{
    if gs.len() == 0 {
        Seq::empty()
    } else {
        join(gs.drop_last()) + gs.last()
    }
}

/// The views of a sequence of strings.
pub open spec fn views(v: Seq<String>) -> Seq<Seq<char>> {
    v.map_values(|g: String| g@)
}

/// Number of grapheme clusters of a text.
pub open spec fn grapheme_count(s: Seq<char>) -> nat {
    grapheme_clusters(s).len()
}

/// Relies on `UnicodeSegmentation::graphemes(s, true)`: it yields consecutive,
/// non-empty slices of `s` that together cover it.
#[verifier::external_body]
pub(crate) fn graphemes(s: &str) -> (r: Vec<String>)
    ensures
        views(r@) == grapheme_clusters(s@),
        join(views(r@)) == s@,
        forall|i: int| 0 <= i < r@.len() ==> (#[trigger] r@[i])@.len() > 0,
{
    s.graphemes(true).map(|g| g.to_string()).collect()
}

/// The characters of `s`, in order.
pub(crate) fn chars_of(s: &str) -> (r: Vec<char>)
    ensures
        r@ == s@,
{
    broadcast use vstd::string::group_string_axioms;

    let n = s.unicode_len();
    let mut it = s.chars();
    let mut out: Vec<char> = Vec::new();
    while out.len() < n
        invariant
            n == s@.len(),
            it.obeys_prophetic_iter_laws(),
            out@ + it.remaining() == s@,
        decreases n - out@.len(),
    {
        if let Some(c) = it.next() {
            out.push(c);
            proof {
                assert(out@ + it.remaining() =~= s@);
            }
        }
    }
    proof {
        assert(out@ =~= s@);
    }
    out
}

/// Relies on `String::push`: appends one character.
#[verifier::external_body]
pub(crate) fn push_char(s: &mut String, c: char)
    ensures
        final(s)@ == old(s)@.push(c),
{
    s.push(c)
}

/// Relies on `String::pop`: removes and returns the last character.
#[verifier::external_body]
pub(crate) fn pop_char(s: &mut String) -> (r: Option<char>)
    ensures
        old(s)@.len() == 0 ==> r is None && final(s)@ == old(s)@,
        old(s)@.len() > 0 ==> r == Some(old(s)@.last()) && final(s)@ == old(s)@.drop_last(),
{
    s.pop()
}

pub proof fn lemma_join_append(a: Seq<Seq<char>>, b: Seq<Seq<char>>)
    ensures
        join(a + b) == join(a) + join(b),
    decreases b.len(),
{
    if b.len() == 0 {
        assert(a + b =~= a);
        assert(join(b) =~= Seq::<char>::empty());
        assert(join(a) + join(b) =~= join(a));
    } else {
        let b1 = b.drop_last();
        lemma_join_append(a, b1);
        assert((a + b).drop_last() =~= a + b1);
        assert((a + b).last() == b.last());
        assert(join(a) + join(b) =~= join(a) + join(b1) + b.last());
    }
}

pub proof fn lemma_join_split(gs: Seq<Seq<char>>, k: int)
    requires
        0 <= k <= gs.len(),
    ensures
        join(gs) == join(gs.take(k)) + join(gs.skip(k)),
{
    assert(gs =~= gs.take(k) + gs.skip(k));
    lemma_join_append(gs.take(k), gs.skip(k));
}

pub proof fn lemma_join_one(g: Seq<char>)
    ensures
        join(seq![g]) == g,
{
    assert(seq![g].drop_last() =~= Seq::<Seq<char>>::empty());
    assert(join(Seq::<Seq<char>>::empty()) + g =~= g);
}

/// Appends the pieces `gs[lo..hi]` to `out`.
pub(crate) fn append_range(gs: &Vec<String>, lo: usize, hi: usize, out: &mut String)
    requires
        lo <= hi <= gs@.len(),
    ensures
        final(out)@ == old(out)@ + join(views(gs@).subrange(lo as int, hi as int)),
{
    let mut i = lo;
    while i < hi
        invariant
            lo <= i <= hi <= gs@.len(),
            out@ == old(out)@ + join(views(gs@).subrange(lo as int, i as int)),
        decreases hi - i,
    {
        out.append(gs[i].as_str());
        proof {
            let s = views(gs@).subrange(lo as int, i as int + 1);
            assert(s.drop_last() =~= views(gs@).subrange(lo as int, i as int));
            assert(s.last() == gs@[i as int]@);
        }
        i = i + 1;
    }
}

/// Whitespace as Unicode's White_Space property lists it.
pub open spec fn is_space(c: char) -> bool {
    let u = c as u32;
    (0x9 <= u <= 0xd) || u == 0x20 || u == 0x85 || u == 0xa0 || u == 0x1680 || (0x2000 <= u
        <= 0x200a) || u == 0x2028 || u == 0x2029 || u == 0x202f || u == 0x205f || u == 0x3000
}

/// ASCII punctuation: the printable ASCII characters that are neither
/// letters, digits nor the space.
pub open spec fn is_punct(c: char) -> bool {
    let u = c as u32;
    (0x21 <= u <= 0x2f) || (0x3a <= u <= 0x40) || (0x5b <= u <= 0x60) || (0x7b <= u <= 0x7e)
}

/// A character that separates words: whitespace or ASCII punctuation.
pub open spec fn is_separator(c: char) -> bool {
    is_space(c) || is_punct(c)
}

pub fn char_is_space(c: char) -> (r: bool)
    ensures
        r == is_space(c),
{
    let u = c as u32;
    (0x9 <= u && u <= 0xd) || u == 0x20 || u == 0x85 || u == 0xa0 || u == 0x1680 || (0x2000 <= u
        && u <= 0x200a) || u == 0x2028 || u == 0x2029 || u == 0x202f || u == 0x205f || u == 0x3000
}

pub fn char_is_separator(c: char) -> (r: bool)
    ensures
        r == is_separator(c),
{
    let u = c as u32;
    char_is_space(c) || (0x21 <= u && u <= 0x2f) || (0x3a <= u && u <= 0x40) || (0x5b <= u && u
        <= 0x60) || (0x7b <= u && u <= 0x7e)
}

/// Number of decimal digits needed to print `n`.
pub open spec fn digits(n: nat) -> nat
    decreases n,
{
    if n < 10 {
        1
    } else {
        1 + digits(n / 10)
    }
}

pub open spec fn pow10(k: nat) -> nat
    decreases k,
{
    if k == 0 {
        1
    } else {
        10 * pow10((k - 1) as nat)
    }
}

pub proof fn lemma_digits_below(n: nat, k: nat)
    requires
        k >= 1,
        n < pow10(k),
    ensures
        digits(n) <= k,
    decreases k,
{
    if n >= 10 {
        assert(k >= 2) by {
            if k == 1 {
                assert(pow10(1) == 10 * pow10(0));
            }
        }
        assert(pow10(k) == 10 * pow10((k - 1) as nat));
        assert(n / 10 < pow10((k - 1) as nat));
        lemma_digits_below(n / 10, (k - 1) as nat);
    }
}

pub proof fn lemma_digits_bound(n: nat)
    ensures
        1 <= digits(n),
        n <= 0xffff_ffff_ffff_ffff ==> digits(n) <= 20,
    decreases n,
{
    if n >= 10 {
        lemma_digits_bound(n / 10);
    }
    if n <= 0xffff_ffff_ffff_ffff {
        reveal_with_fuel(pow10, 21);
        assert(pow10(20) == 100000000000000000000nat);
        lemma_digits_below(n, 20);
    }
}

/// Width of the decimal representation of `n`.
pub fn decimal_width(n: usize) -> (r: usize)
    ensures
        r == digits(n as nat),
        1 <= r <= 20,
{
    let mut m = n;
    let mut w: usize = 1;
    proof {
        lemma_digits_bound(n as nat);
    }
    while m >= 10
        invariant
            w + digits(m as nat) == digits(n as nat) + 1,
            digits(n as nat) <= 20,
            1 <= w,
        decreases m,
    {
        proof {
            lemma_digits_bound((m / 10) as nat);
        }
        m = m / 10;
        w = w + 1;
    }
    w
}

/// Number of leading whitespace characters of `s`.
pub open spec fn leading_spaces(s: Seq<char>) -> nat
    decreases s.len(),
{
    if s.len() > 0 && is_space(s[0]) {
        1 + leading_spaces(s.drop_first())
    } else {
        0
    }
}

/// The last character of `s` that is not whitespace, if any.
pub open spec fn last_non_space(s: Seq<char>) -> Option<char>
    decreases s.len(),
{
    if s.len() == 0 {
        None
    } else if !is_space(s.last()) {
        Some(s.last())
    } else {
        last_non_space(s.drop_last())
    }
}

/// A text of `n` spaces.
pub open spec fn spaces(n: nat) -> Seq<char> {
    Seq::new(n, |i: int| ' ')
}


/// Whether `w` holds exactly the characters of `s`.
pub(crate) fn same_chars(w: &Vec<char>, s: &str) -> (r: bool)
    ensures
        r == (w@ == s@),
{
    let cs = chars_of(s);
    if w.len() != cs.len() {
        return false;
    }
    let mut i: usize = 0;
    while i < w.len()
        invariant
            i <= w@.len(),
            w@.len() == cs@.len(),
            cs@ == s@,
            forall|j: int| 0 <= j < i ==> w@[j] == cs@[j],
        decreases w@.len() - i,
    {
        if w[i] != cs[i] {
            return false;
        }
        i = i + 1;
    }
    proof {
        assert(w@ =~= s@);
    }
    true
}

} // verus!
