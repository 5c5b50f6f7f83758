//! The command-line language: repeat counts, the commands of a line and
//! the small readers the settings line needs.
use crate::text::{char_is_space, chars_of, is_space, pop_char, push_char};
use vstd::prelude::*;

verus! {

pub open spec fn is_digit(c: char) -> bool {
    '0' <= c <= '9'
}

/// Number of decimal digits at the end of `s` (the top of a stack).
pub open spec fn trailing_digits(s: Seq<char>) -> nat
    decreases s.len(),
{
    if s.len() > 0 && is_digit(s.last()) {
        1 + trailing_digits(s.drop_last())
    } else {
        0
    }
}

/// The number that the top `k` characters of the stack `s` spell, read in
/// the order they come off it.
pub open spec fn stack_value(s: Seq<char>, k: nat) -> nat
    decreases k,
{
    if k == 0 || k > s.len() {
        0
    } else {
        stack_value(s, (k - 1) as nat) * 10 + ((s[s.len() - k] as u32) - ('0' as u32)) as nat
    }
}

/// The repeat count read off the stack `s`: the digits on top as a number,
/// or 1 when there are none or they overflow a `u32`.
pub open spec fn count_of(s: Seq<char>) -> nat {
    let k = trailing_digits(s);
    if k == 0 || stack_value(s, k) > u32::MAX {
        1
    } else {
        stack_value(s, k)
    }
}

proof fn lemma_trailing_digits(s: Seq<char>, i: nat)
    requires
        i <= trailing_digits(s),
    ensures
        trailing_digits(s) == i + trailing_digits(s.take(s.len() - i)),
        i < trailing_digits(s) ==> is_digit(s[s.len() - i - 1]),
        trailing_digits(s) <= s.len(),
    decreases i,
{
    if i > 0 {
        lemma_trailing_digits(s, (i - 1) as nat);
        let t = s.take(s.len() - (i - 1));
        assert(t.drop_last() =~= s.take(s.len() - i));
    } else {
        assert(s.take(s.len() as int) =~= s);
    }
    lemma_trailing_bound(s);
    if i < trailing_digits(s) {
        lemma_trailing_top(s, i);
    }
}

proof fn lemma_trailing_bound(s: Seq<char>)
    ensures
        trailing_digits(s) <= s.len(),
    decreases s.len(),
{
    if s.len() > 0 {
        lemma_trailing_bound(s.drop_last());
    }
}

proof fn lemma_trailing_top(s: Seq<char>, i: nat)
    requires
        i < trailing_digits(s),
    ensures
        is_digit(s[s.len() - i - 1]),
    decreases i,
{
    assert(s.len() > 0 && is_digit(s.last()));
    lemma_trailing_bound(s);
    if i > 0 {
        lemma_trailing_top(s.drop_last(), (i - 1) as nat);
        assert(s.drop_last()[s.len() - 1 - i] == s[s.len() - i - 1]);
    }
}

proof fn lemma_stack_value_grows(s: Seq<char>, k: nat)
    requires
        k < s.len(),
    ensures
        stack_value(s, k + 1) >= stack_value(s, k),
{
}

/// Pops the decimal digits off the top of the stack `commands` and returns
/// the number they spell in the order they come off, or 1 when there are
/// none or the number overflows a `u32`.
pub fn numeric_modifer(commands: &mut String) -> (r: u32)
    ensures
        r == count_of(old(commands)@),
        final(commands)@ == old(commands)@.take(
            old(commands)@.len() - trailing_digits(old(commands)@),
        ),
{
    let ghost s = commands@;
    let mut acc: u64 = 0;
    let mut overflow = false;
    let mut i: usize = 0;
    let total = commands.as_str().unicode_len();
    proof {
        lemma_trailing_digits(s, 0);
    }
    loop
        invariant
            i <= trailing_digits(s),
            total == s.len(),
            commands@ == s.take(s.len() - i),
            overflow <==> stack_value(s, i as nat) > u32::MAX,
            !overflow ==> acc == stack_value(s, i as nat),
            trailing_digits(s) <= s.len(),
        ensures
            i == trailing_digits(s),
            commands@ == s.take(s.len() - i),
            overflow <==> stack_value(s, i as nat) > u32::MAX,
            !overflow ==> acc == stack_value(s, i as nat),
        decreases s.len() - i,
    {
        proof {
            lemma_trailing_digits(s, i as nat);
        }
        match pop_char(commands) {
            Some(c) => {
                if '0' <= c && c <= '9' {
                    proof {
                        assert(commands@ =~= s.take(s.len() - i - 1));
                        assert(c == s[s.len() - i - 1]);
                    }
                    if !overflow {
                        let d = (c as u32 - '0' as u32) as u64;
                        acc = acc * 10 + d;
                        if acc > 0xffff_ffff {
                            overflow = true;
                        }
                    }
                    proof {
                        lemma_stack_value_grows(s, i as nat);
                        if overflow {
                            assert(stack_value(s, (i + 1) as nat) >= stack_value(s, i as nat) * 10)
                                by (nonlinear_arith)
                                requires
                                    stack_value(s, (i + 1) as nat) == stack_value(s, i as nat) * 10
                                        + ((s[s.len() - (i + 1)] as u32) - ('0' as u32)) as nat,
                            ;
                        }
                    }
                    i = i + 1;
                } else {
                    crate::text::push_char(commands, c);
                    proof {
                        assert(commands@ =~= s.take(s.len() - i));
                        assert(i == trailing_digits(s));
                    }
                    break ;
                }
            },
            None => {
                proof {
                    assert(i == trailing_digits(s));
                }
                break ;
            },
        }
    }
    if i == 0 || overflow {
        1
    } else {
        acc as u32
    }
}

/// Pops everything off the stack `commands` and returns it in the order it
/// came off, if there was anything.
pub fn word_modifier(commands: &mut String) -> (r: Option<String>)
    ensures
        final(commands)@.len() == 0,
        old(commands)@.len() == 0 ==> r is None,
        old(commands)@.len() > 0 ==> r is Some && r->Some_0@ == old(commands)@.reverse(),
{
    let ghost s = commands@;
    let mut modifier = String::new();
    let mut i: usize = 0;
    let total = commands.as_str().unicode_len();
    loop
        invariant
            i <= s.len(),
            total == s.len(),
            commands@ == s.take(s.len() - i),
            modifier@ == s.skip(s.len() - i).reverse(),
        ensures
            i == s.len(),
            commands@.len() == 0,
            modifier@ == s.skip(s.len() - i).reverse(),
        decreases s.len() - i,
    {
        match pop_char(commands) {
            Some(c) => {
                push_char(&mut modifier, c);
                proof {
                    assert(s.skip(s.len() - i - 1).reverse() =~= s.skip(s.len() - i).reverse().push(c));
                    assert(commands@ =~= s.take(s.len() - i - 1));
                }
                i = i + 1;
            },
            None => {
                proof {
                    assert(s.take(s.len() - i).len() == 0);
                }
                break ;
            },
        }
    }
    proof {
        assert(s.skip(0) =~= s);
    }
    if modifier.unicode_len() > 0 {
        Some(modifier)
    } else {
        None
    }
}



/// The text of `v`.
pub(crate) fn string_from(v: &Vec<char>) -> (r: String)
    ensures
        r@ == v@,
{
    let mut out = String::new();
    let mut i: usize = 0;
    while i < v.len()
        invariant
            i <= v@.len(),
            out@ == v@.take(i as int),
        decreases v@.len() - i,
    {
        push_char(&mut out, v[i]);
        proof {
            assert(v@.take(i as int + 1) =~= v@.take(i as int).push(v@[i as int]));
        }
        i = i + 1;
    }
    proof {
        assert(v@.take(i as int) =~= v@);
    }
    out
}


/// The letters the command language knows.
pub open spec fn is_command_letter(c: char) -> bool {
    c == 'q' || c == 'x' || c == 'g' || c == 'G' || c == 'a' || c == 'e' || c == 'A' || c == 'i'
        || c == 'w' || c == 'b' || c == 'd' || c == 'u' || c == '/'
}

/// The value of the decimal digits `s[i..j]`.
pub open spec fn numeral(s: Seq<char>, i: int, j: int) -> nat
    decreases j - i,
{
    if j <= i {
        0
    } else {
        numeral(s, i, j - 1) * 10 + ((s[j - 1] as u32) - ('0' as u32)) as nat
    }
}

/// The repeat count that the digits `s[i..j]` set: 1 when there are none
/// or they overflow a `u32`.
pub open spec fn repeat_count(s: Seq<char>, i: int, j: int) -> nat {
    if j <= i || numeral(s, i, j) > u32::MAX {
        1
    } else {
        numeral(s, i, j)
    }
}

/// The commands of the command line `s` from index `i` on, where the
/// pending digits began at `start`: each known letter with the count its
/// digits set; `/` takes the rest of the line as its argument; unknown
/// letters are dropped with their digits.
pub open spec fn commands_from(s: Seq<char>, i: int, start: int) -> Seq<(char, nat, Seq<char>)>
    decreases s.len() - i,
{
    if i < 0 || i >= s.len() {
        Seq::empty()
    } else if is_digit(s[i]) {
        commands_from(s, i + 1, start)
    } else if s[i] == '/' {
        seq![(s[i], repeat_count(s, start, i), s.skip(i + 1))]
    } else if is_command_letter(s[i]) {
        seq![(s[i], repeat_count(s, start, i), Seq::<char>::empty())] + commands_from(s, i + 1, i + 1)
    } else {
        commands_from(s, i + 1, i + 1)
    }
}

/// The commands of a command line.
pub open spec fn commands_of(s: Seq<char>) -> Seq<(char, nat, Seq<char>)> {
    commands_from(s, 0, 0)
}

/// One command of the command line.
pub struct Command {
    pub letter: char,
    pub count: u32,
    pub argument: String,
}

pub open spec fn command_view(c: Command) -> (char, nat, Seq<char>) {
    (c.letter, c.count as nat, c.argument@)
}

/// Splits a command line into its commands.
pub fn parse_commands(line: &str) -> (r: Vec<Command>)
    ensures
        r@.map_values(|c: Command| command_view(c)) == commands_of(line@),
{
    let cs = chars_of(line);
    let mut out: Vec<Command> = Vec::new();
    let mut i: usize = 0;
    let mut start: usize = 0;
    let mut acc: u64 = 0;
    let mut overflow = false;
    while i < cs.len()
        invariant
            cs@ == line@,
            start <= i <= cs@.len(),
            out@.map_values(|c: Command| command_view(c)) + commands_from(cs@, i as int, start as int)
                == commands_of(line@),
            overflow <==> numeral(cs@, start as int, i as int) > u32::MAX,
            !overflow ==> acc == numeral(cs@, start as int, i as int),
        decreases cs@.len() - i,
    {
        let c = cs[i];
        let ghost before = out@;
        if '0' <= c && c <= '9' {
            if !overflow {
                acc = acc * 10 + (c as u32 - '0' as u32) as u64;
                if acc > 0xffff_ffff {
                    overflow = true;
                }
            } else {
                proof {
                    assert(numeral(cs@, start as int, i + 1) >= numeral(cs@, start as int, i as int) * 10)
                        by (nonlinear_arith)
                        requires
                            numeral(cs@, start as int, i + 1) == numeral(cs@, start as int, i as int) * 10
                                + ((cs@[i as int] as u32) - ('0' as u32)) as nat,
                    ;
                }
            }
            i = i + 1;
        } else {
            let count: u32 = if i == start || overflow {
                1
            } else {
                acc as u32
            };
            if c == '/' {
                let mut argument = String::new();
                let mut k = i + 1;
                while k < cs.len()
                    invariant
                        i < k <= cs@.len(),
                        argument@ == cs@.subrange(i + 1, k as int),
                    decreases cs@.len() - k,
                {
                    push_char(&mut argument, cs[k]);
                    proof {
                        assert(cs@.subrange(i + 1, k + 1) =~= cs@.subrange(i + 1, k as int).push(cs@[k as int]));
                    }
                    k = k + 1;
                }
                out.push(Command { letter: c, count, argument });
                proof {
                    assert(argument@ =~= cs@.skip(i + 1));
                    assert(out@.map_values(|c: Command| command_view(c)) =~= before.map_values(
                        |c: Command| command_view(c),
                    ) + commands_from(cs@, i as int, start as int));
                }
                return out;
            }
            if c == 'q' || c == 'x' || c == 'g' || c == 'G' || c == 'a' || c == 'e' || c == 'A'
                || c == 'i' || c == 'w' || c == 'b' || c == 'd' || c == 'u' {
                out.push(Command { letter: c, count, argument: String::new() });
                proof {
                    let v = |c: Command| command_view(c);
                    assert(out@.map_values(v) =~= before.map_values(v).push(
                        (c, repeat_count(cs@, start as int, i as int), Seq::<char>::empty()),
                    ));
                    assert(commands_from(cs@, i as int, start as int) == seq![(c, repeat_count(cs@, start as int, i as int), Seq::<char>::empty())] + commands_from(cs@, i + 1, i + 1));
                    assert(before.map_values(v).push(
                        (c, repeat_count(cs@, start as int, i as int), Seq::<char>::empty()),
                    ) + commands_from(cs@, i + 1, i + 1) =~= before.map_values(v) + (seq![(c, repeat_count(cs@, start as int, i as int), Seq::<char>::empty())] + commands_from(cs@, i + 1, i + 1)));
                }
            }
            i = i + 1;
            start = i;
            acc = 0;
            overflow = false;
        }
    }
    proof {
        assert(out@.map_values(|c: Command| command_view(c)) + Seq::<(char, nat, Seq<char>)>::empty()
            =~= out@.map_values(|c: Command| command_view(c)));
    }
    out
}

/// Whether a command line is a settings line (`:set ...`).
pub open spec fn is_set_line(s: Seq<char>) -> bool {
    s.len() >= 4 && s[0] == ':' && s[1] == 's' && s[2] == 'e' && s[3] == 't'
}

/// The words of `s` read so far and the word being read at its end, with
/// whitespace between words.
pub open spec fn scan_words(s: Seq<char>) -> (Seq<Seq<char>>, Seq<char>)
    decreases s.len(),
{
    if s.len() == 0 {
        (Seq::empty(), Seq::empty())
    } else {
        let (ws, cur) = scan_words(s.drop_last());
        if is_space(s.last()) {
            if cur.len() > 0 {
                (ws.push(cur), Seq::empty())
            } else {
                (ws, Seq::empty())
            }
        } else {
            (ws, cur.push(s.last()))
        }
    }
}

/// The whitespace-separated words of `s`.
pub open spec fn words_of(s: Seq<char>) -> Seq<Seq<char>> {
    let (ws, cur) = scan_words(s);
    if cur.len() > 0 {
        ws.push(cur)
    } else {
        ws
    }
}

/// The texts of a sequence of character vectors.
pub open spec fn char_views(v: Seq<Vec<char>>) -> Seq<Seq<char>> {
    v.map_values(|w: Vec<char>| w@)
}

/// The whitespace-separated words of `cs`.
pub(crate) fn split_words(cs: &Vec<char>) -> (r: Vec<Vec<char>>)
    ensures
        char_views(r@) == words_of(cs@),
{
    let mut words: Vec<Vec<char>> = Vec::new();
    let mut cur: Vec<char> = Vec::new();
    let mut i: usize = 0;
    while i < cs.len()
        invariant
            i <= cs@.len(),
            scan_words(cs@.take(i as int)) == (char_views(words@), cur@),
        decreases cs@.len() - i,
    {
        proof {
            assert(cs@.take(i as int + 1).drop_last() =~= cs@.take(i as int));
        }
        if char_is_space(cs[i]) {
            if cur.len() > 0 {
                let ghost before = words@;
                let ghost c = cur@;
                words.push(cur);
                cur = Vec::new();
                proof {
                    assert(char_views(words@) =~= char_views(before).push(c));
                }
            }
        } else {
            cur.push(cs[i]);
        }
        i = i + 1;
    }
    proof {
        assert(cs@.take(i as int) =~= cs@);
    }
    if cur.len() > 0 {
        let ghost before = words@;
        let ghost c = cur@;
        words.push(cur);
        proof {
            assert(char_views(words@) =~= char_views(before).push(c));
        }
    }
    words
}

/// The digits of a `usize` numeral: the text after an optional `+`.
pub open spec fn numeral_digits(w: Seq<char>) -> Seq<char> {
    if w.len() > 0 && w[0] == '+' {
        w.drop_first()
    } else {
        w
    }
}

/// The value `str::parse::<usize>` reads from `w`: at least one digit after
/// an optional `+`, nothing else, and no overflow.
pub open spec fn usize_of(w: Seq<char>) -> Option<nat> {
    let d = numeral_digits(w);
    if d.len() > 0 && (forall|j: int| 0 <= j < d.len() ==> is_digit(#[trigger] d[j])) && numeral(
        d,
        0,
        d.len() as int,
    ) <= usize::MAX {
        Some(numeral(d, 0, d.len() as int))
    } else {
        None
    }
}

proof fn lemma_numeral_grows(s: Seq<char>, i: int, j: int, k: int)
    requires
        i <= j <= k <= s.len(),
        forall|m: int| j <= m < k ==> is_digit(#[trigger] s[m]),
    ensures
        numeral(s, i, j) <= numeral(s, i, k),
    decreases k - j,
{
    if j < k {
        lemma_numeral_grows(s, i, j, k - 1);
        assert(is_digit(s[k - 1]));
    }
}

/// Reads `w` as a decimal `usize`, as `str::parse` does.
pub(crate) fn parse_usize(w: &Vec<char>) -> (r: Option<usize>)
    ensures
        r matches Some(n) ==> usize_of(w@) == Some(n as nat),
        r is None ==> usize_of(w@) is None,
{
    let start: usize = if w.len() > 0 && w[0] == '+' {
        1
    } else {
        0
    };
    let ghost d = numeral_digits(w@);
    proof {
        assert(d =~= w@.skip(start as int));
    }
    if start >= w.len() {
        proof {
            assert(d.len() == 0);
        }
        return None;
    }
    let mut acc: u128 = 0;
    let mut i: usize = start;
    while i < w.len()
        invariant
            start <= i <= w@.len(),
            d == w@.skip(start as int),
            d == numeral_digits(w@),
            forall|j: int| 0 <= j < i - start ==> is_digit(#[trigger] d[j]),
            acc == numeral(d, 0, i - start),
            acc <= usize::MAX,
        decreases w@.len() - i,
    {
        let c = w[i];
        proof {
            assert(d[i - start] == c);
        }
        if !('0' <= c && c <= '9') {
            proof {
                let k = i - start;
                assert(0 <= k < d.len());
                assert(!is_digit(d[k]));
                assert(!(forall|j: int| 0 <= j < d.len() ==> is_digit(#[trigger] d[j])));
            }
            return None;
        }
        let v = acc * 10 + (c as u32 - '0' as u32) as u128;
        proof {
            assert(numeral(d, 0, i - start + 1) == v);
        }
        if v > usize::MAX as u128 {
            proof {
                let k = i - start;
                assert(0 <= k < d.len());
                assert(is_digit(d[k]));
                if forall|j: int| 0 <= j < d.len() ==> is_digit(#[trigger] d[j]) {
                    lemma_numeral_grows(d, 0, k + 1, d.len() as int);
                    assert(numeral(d, 0, d.len() as int) > usize::MAX);
                }
            }
            return None;
        }
        acc = v;
        i = i + 1;
    }
    proof {
        assert(i - start == d.len());
    }
    Some(acc as usize)
}


/// What a settings line asks for: the first `line` or `filename` word from
/// word `idx` on, with the word that follows it if any.
pub open spec fn set_request(ws: Seq<Seq<char>>, idx: int) -> Option<(Seq<char>, Option<Seq<char>>)>
    decreases ws.len() - idx,
{
    if idx < 0 || idx >= ws.len() {
        None
    } else if ws[idx] == "line"@ || ws[idx] == "filename"@ {
        Some((ws[idx], if idx + 1 < ws.len() { Some(ws[idx + 1]) } else { None }))
    } else {
        set_request(ws, idx + 1)
    }
}
} // verus!
