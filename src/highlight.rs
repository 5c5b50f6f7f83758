//! Highlighting rules: which language a file is, where its syntax settings
//! live, and how a token kind maps to the color and style those settings
//! give it. Turning text into tokens is left to the lexers around the
//! library.
use crate::text::{chars_of, same_chars};
use json::JsonValue;
use vstd::prelude::*;

verus! {

#[verifier::external_type_specification]
#[verifier::external_body]
pub struct ExJsonValue(json::JsonValue);

/// Relies on json's `Index<&str> for JsonValue`: the member `key` of an
/// object, or null for anything else.
#[verifier::external_body]
fn json_member<'a>(v: &'a JsonValue, key: &str) -> &'a JsonValue {
    &v[key]
}

/// Relies on `JsonValue::as_str`: the text of a string value, `None` for
/// any other value.
#[verifier::external_body]
fn json_text(v: &JsonValue) -> Option<String> {
    v.as_str().map(|s| s.to_string())
}

/// The kinds of token the lexers tell apart.
#[derive(Debug, Clone, Copy, PartialEq, Eq, Structural)]
pub enum TokenKind {
    Keyword,
    Type,
    Char,
    Str,
    Comment,
    MultiLineCommentStart,
    MultiLineCommentEnd,
    MultiLineComment,
    Number,
    Function,
    Constant,
    DontCare,
}

/// Colors a syntax file can name.
#[derive(Debug, Clone, Copy, PartialEq, Eq, Structural)]
pub enum HighlightColor {
    Blue,
    DarkBlue,
    Red,
    Magenta,
    Green,
    Yellow,
    DarkYellow,
    DarkGrey,
}

/// Text styles a syntax file can name.
#[derive(Debug, Clone, Copy, PartialEq, Eq, Structural)]
pub enum TextStyle {
    Bold,
    Italic,
    NormalIntensity,
}

/// Languages with a lexer.
#[derive(Debug, Clone, Copy, PartialEq, Eq, Structural)]
pub enum Language {
    Rust,
    Python,
    C,
    Plain,
}

/// The color a syntax file means by `name`.
pub open spec fn color_named(name: Seq<char>) -> Option<HighlightColor> {
    if name == "blue"@ {
        Some(HighlightColor::Blue)
    } else if name == "darkblue"@ {
        Some(HighlightColor::DarkBlue)
    } else if name == "red"@ {
        Some(HighlightColor::Red)
    } else if name == "purple"@ {
        Some(HighlightColor::Magenta)
    } else if name == "green"@ {
        Some(HighlightColor::Green)
    } else if name == "yellow"@ {
        Some(HighlightColor::Yellow)
    } else if name == "orange"@ {
        Some(HighlightColor::DarkYellow)
    } else if name == "grey"@ {
        Some(HighlightColor::DarkGrey)
    } else {
        None
    }
}

/// The color a syntax file means by `color_str`, if any.
pub fn get_color(color_str: &str) -> (r: Option<HighlightColor>)
    ensures
        r == color_named(color_str@),
{
    let cs = chars_of(color_str);
    if same_chars(&cs, "blue") {
        Some(HighlightColor::Blue)
    } else if same_chars(&cs, "darkblue") {
        Some(HighlightColor::DarkBlue)
    } else if same_chars(&cs, "red") {
        Some(HighlightColor::Red)
    } else if same_chars(&cs, "purple") {
        Some(HighlightColor::Magenta)
    } else if same_chars(&cs, "green") {
        Some(HighlightColor::Green)
    } else if same_chars(&cs, "yellow") {
        Some(HighlightColor::Yellow)
    } else if same_chars(&cs, "orange") {
        Some(HighlightColor::DarkYellow)
    } else if same_chars(&cs, "grey") {
        Some(HighlightColor::DarkGrey)
    } else {
        None
    }
}

/// The style a syntax file means by `name`.
pub open spec fn style_named(name: Seq<char>) -> TextStyle {
    if name == "bold"@ {
        TextStyle::Bold
    } else if name == "italic"@ {
        TextStyle::Italic
    } else {
        TextStyle::NormalIntensity
    }
}

/// The style a syntax file means by `name`.
pub fn style_of(name: &str) -> (r: TextStyle)
    ensures
        r == style_named(name@),
{
    let cs = chars_of(name);
    if same_chars(&cs, "bold") {
        TextStyle::Bold
    } else if same_chars(&cs, "italic") {
        TextStyle::Italic
    } else {
        TextStyle::NormalIntensity
    }
}

/// The key under which a syntax file sets a token kind, empty for kinds it
/// does not set.
pub open spec fn class_of(k: TokenKind) -> Seq<char> {
    match k {
        TokenKind::Keyword => "keyword"@,
        TokenKind::Type => "type"@,
        TokenKind::Char => "char"@,
        TokenKind::Str => "string"@,
        TokenKind::Comment => "comment"@,
        TokenKind::MultiLineCommentStart => "comment"@,
        TokenKind::MultiLineCommentEnd => "comment"@,
        TokenKind::MultiLineComment => "comment"@,
        TokenKind::Number => "number"@,
        TokenKind::Function => "function"@,
        TokenKind::Constant => "constant"@,
        TokenKind::DontCare => ""@,
    }
}

pub fn class_name(k: TokenKind) -> (r: &'static str)
    ensures
        r@ == class_of(k),
{
    match k {
        TokenKind::Keyword => "keyword",
        TokenKind::Type => "type",
        TokenKind::Char => "char",
        TokenKind::Str => "string",
        TokenKind::Comment => "comment",
        TokenKind::MultiLineCommentStart => "comment",
        TokenKind::MultiLineCommentEnd => "comment",
        TokenKind::MultiLineComment => "comment",
        TokenKind::Number => "number",
        TokenKind::Function => "function",
        TokenKind::Constant => "constant",
        TokenKind::DontCare => "",
    }
}

/// What a syntax file sets for one token class: a color name and a style
/// name, each when given as text.
pub struct ClassSetting {
    pub class: String,
    pub color: Option<String>,
    pub style: Option<String>,
}

/// The settings of a syntax file, per token class.
pub struct SyntaxRules {
    pub settings: Vec<ClassSetting>,
}

/// The classes a syntax file can set.
pub open spec fn classes() -> Seq<Seq<char>> {
    seq!["keyword"@, "type"@, "char"@, "string"@, "comment"@, "number"@, "function"@, "constant"@]
}

/// The first setting for `class`.
pub open spec fn setting_for(ss: Seq<ClassSetting>, class: Seq<char>) -> Option<ClassSetting>
    decreases ss.len(),
{
    if ss.len() == 0 {
        None
    } else if ss[0].class@ == class {
        Some(ss[0])
    } else {
        setting_for(ss.drop_first(), class)
    }
}

/// The color the rules give a token kind.
pub open spec fn color_for(rules: SyntaxRules, k: TokenKind) -> Option<HighlightColor> {
    if k == TokenKind::DontCare {
        None
    } else {
        match setting_for(rules.settings@, class_of(k)) {
            Some(s) => match s.color {
                Some(name) => color_named(name@),
                None => None,
            },
            None => None,
        }
    }
}

/// The style the rules give a token kind.
pub open spec fn style_for(rules: SyntaxRules, k: TokenKind) -> TextStyle {
    match setting_for(rules.settings@, class_of(k)) {
        Some(s) => match s.style {
            Some(name) => style_named(name@),
            None => TextStyle::NormalIntensity,
        },
        None => TextStyle::NormalIntensity,
    }
}

impl SyntaxRules {
    /// Reads, for each class, the text under `colors` and under `style` in
    /// a syntax file.
    pub fn from_json(syntax: &JsonValue) -> (r: SyntaxRules)
        ensures
            r.settings@.len() == classes().len(),
            forall|i: int| 0 <= i < classes().len() ==> (#[trigger] r.settings@[i]).class@ == classes()[i],
    {
        let colors = json_member(syntax, "colors");
        let styles = json_member(syntax, "style");
        let names = [
            "keyword",
            "type",
            "char",
            "string",
            "comment",
            "number",
            "function",
            "constant",
        ];
        let mut settings: Vec<ClassSetting> = Vec::new();
        let mut i: usize = 0;
        while i < 8
            invariant
                i <= 8,
                names@ == seq!["keyword", "type", "char", "string", "comment", "number", "function", "constant"],
                settings@.len() == i,
                forall|j: int| 0 <= j < i ==> (#[trigger] settings@[j]).class@ == classes()[j],
            decreases 8 - i,
        {
            let class = names[i];
            settings.push(
                ClassSetting {
                    class: class.to_owned(),
                    color: json_text(json_member(colors, class)),
                    style: json_text(json_member(styles, class)),
                },
            );
            i = i + 1;
        }
        SyntaxRules { settings }
    }

    /// The first setting for `class`.
    fn setting(&self, class: &str) -> (r: Option<&ClassSetting>)
        ensures
            r matches Some(s) ==> setting_for(self.settings@, class@) == Some(*s),
            r is None ==> setting_for(self.settings@, class@) is None,
    {
        let mut i: usize = 0;
        proof {
            assert(self.settings@.skip(0) =~= self.settings@);
        }
        while i < self.settings.len()
            invariant
                i <= self.settings@.len(),
                setting_for(self.settings@, class@) == setting_for(self.settings@.skip(i as int), class@),
            decreases self.settings@.len() - i,
        {
            proof {
                assert(self.settings@.skip(i as int).drop_first() =~= self.settings@.skip(i + 1));
                assert(self.settings@.skip(i as int)[0] == self.settings@[i as int]);
            }
            if same_chars(&chars_of(self.settings[i].class.as_str()), class) {
                return Some(&self.settings[i]);
            }
            i = i + 1;
        }
        None
    }
}

/// The color the syntax rules give a token kind: the color named for its
/// class. Kinds without a class, and classes with no color named as text,
/// get none.
pub fn match_color(token: TokenKind, syntax_rules: &SyntaxRules) -> (r: Option<HighlightColor>)
    ensures
        r == color_for(*syntax_rules, token),
{
    if token == TokenKind::DontCare {
        return None;
    }
    match syntax_rules.setting(class_name(token)) {
        Some(s) => match &s.color {
            Some(name) => get_color(name.as_str()),
            None => None,
        },
        None => None,
    }
}

/// The style the syntax rules give a token kind: the style named for its
/// class, normal when none is named as text.
pub fn get_attribute(token: TokenKind, syntax_rules: &SyntaxRules) -> (r: TextStyle)
    ensures
        r == style_for(*syntax_rules, token),
{
    match syntax_rules.setting(class_name(token)) {
        Some(s) => match &s.style {
            Some(name) => style_of(name.as_str()),
            None => TextStyle::NormalIntensity,
        },
        None => TextStyle::NormalIntensity,
    }
}

/// A token as a lexer reports it: its kind and its byte range in the row.
#[derive(Debug, Clone, Copy, PartialEq, Eq, Structural)]
pub struct Token {
    pub kind: TokenKind,
    pub start: usize,
    pub end: usize,
}

/// What one token becomes, and whether a comment spanning rows is open
/// after it. Comment markers open, close or toggle such a comment; inside
/// one every other token reads as a comment; a function token is split into
/// its name and its opening parenthesis.
pub open spec fn refine_step(t: Token, in_comment: bool) -> (Seq<Token>, bool) {
    match t.kind {
        TokenKind::MultiLineCommentStart => (seq![t], true),
        TokenKind::MultiLineCommentEnd => (seq![t], false),
        TokenKind::MultiLineComment => (seq![t], !in_comment),
        _ => if in_comment {
            (seq![Token { kind: TokenKind::Comment, ..t }], in_comment)
        } else if t.kind == TokenKind::Function && t.start < t.end {
            (
                seq![
                    Token { end: (t.end - 1) as usize, ..t },
                    Token { kind: TokenKind::DontCare, start: (t.end - 1) as usize, end: t.end },
                ],
                in_comment,
            )
        } else {
            (seq![t], in_comment)
        },
    }
}

/// `refine_step` over a row of tokens, in order.
pub open spec fn refined(ts: Seq<Token>, in_comment: bool) -> (Seq<Token>, bool)
    decreases ts.len(),
{
    if ts.len() == 0 {
        (Seq::empty(), in_comment)
    } else {
        let (out, c) = refined(ts.drop_last(), in_comment);
        let (more, c2) = refine_step(ts.last(), c);
        (out + more, c2)
    }
}

/// Refines the tokens of one row; `in_comment` carries an open comment
/// from row to row.
pub fn refine_row(tokens: &Vec<Token>, in_comment: &mut bool) -> (r: Vec<Token>)
    ensures
        r@ == refined(tokens@, *old(in_comment)).0,
        *final(in_comment) == refined(tokens@, *old(in_comment)).1,
{
    let mut out: Vec<Token> = Vec::new();
    let mut i: usize = 0;
    while i < tokens.len()
        invariant
            i <= tokens@.len(),
            (out@, *in_comment) == refined(tokens@.take(i as int), *old(in_comment)),
        decreases tokens@.len() - i,
    {
        let t = tokens[i];
        proof {
            assert(tokens@.take(i as int + 1).drop_last() =~= tokens@.take(i as int));
        }
        let ghost before = out@;
        match t.kind {
            TokenKind::MultiLineCommentStart => {
                out.push(t);
                *in_comment = true;
            },
            TokenKind::MultiLineCommentEnd => {
                out.push(t);
                *in_comment = false;
            },
            TokenKind::MultiLineComment => {
                out.push(t);
                *in_comment = !*in_comment;
            },
            _ => {
                if *in_comment {
                    out.push(Token { kind: TokenKind::Comment, ..t });
                } else if t.kind == TokenKind::Function && t.start < t.end {
                    out.push(Token { end: t.end - 1, ..t });
                    out.push(Token { kind: TokenKind::DontCare, start: t.end - 1, end: t.end });
                } else {
                    out.push(t);
                }
            },
        }
        proof {
            let (more, _) = refine_step(t, refined(tokens@.take(i as int), *old(in_comment)).1);
            assert(out@ =~= before + more);
        }
        i = i + 1;
    }
    proof {
        assert(tokens@.take(i as int) =~= tokens@);
    }
    out
}

/// What follows the last `.` of a file name, or the whole name when it
/// has none.
pub open spec fn extension_of(name: Seq<char>) -> Seq<char>
    decreases name.len(),
{
    if name.len() == 0 {
        name
    } else if name.last() == '.' {
        Seq::empty()
    } else {
        extension_of(name.drop_last()).push(name.last())
    }
}

fn extension(name: &str) -> (r: Vec<char>)
    ensures
        r@ == extension_of(name@),
{
    let cs = chars_of(name);
    let mut start: usize = cs.len();
    proof {
        assert(name@.take(start as int) =~= name@);
        assert(name@.skip(start as int) =~= Seq::<char>::empty());
        assert(extension_of(name@) + Seq::<char>::empty() =~= extension_of(name@));
    }
    while start > 0 && cs[start - 1] != '.'
        invariant
            start <= cs@.len(),
            cs@ == name@,
            extension_of(name@) == extension_of(name@.take(start as int)) + name@.skip(
                start as int,
            ),
        decreases start,
    {
        proof {
            let p = name@.take(start as int);
            assert(p.drop_last() =~= name@.take(start - 1));
            assert(name@.skip(start - 1) =~= seq![p.last()] + name@.skip(start as int));
            assert(extension_of(p) == extension_of(p.drop_last()).push(p.last()));
            assert(extension_of(p.drop_last()).push(p.last()) + name@.skip(start as int)
                =~= extension_of(p.drop_last()) + name@.skip(start - 1));
        }
        start = start - 1;
    }
    proof {
        if start > 0 {
            let p = name@.take(start as int);
            assert(p.last() == '.');
            assert(extension_of(p) =~= Seq::<char>::empty());
        } else {
            assert(name@.take(0) =~= Seq::<char>::empty());
        }
        assert(extension_of(name@.take(start as int)) + name@.skip(start as int) =~= name@.skip(
            start as int,
        ) || start > 0);
    }
    let mut out: Vec<char> = Vec::new();
    let mut i = start;
    while i < cs.len()
        invariant
            start <= i <= cs@.len(),
            out@ == cs@.subrange(start as int, i as int),
        decreases cs@.len() - i,
    {
        out.push(cs[i]);
        proof {
            assert(cs@.subrange(start as int, i + 1) =~= cs@.subrange(start as int, i as int).push(cs@[i as int]));
        }
        i = i + 1;
    }
    proof {
        assert(out@ =~= name@.skip(start as int));
        if start > 0 {
            assert(extension_of(name@.take(start as int)) =~= Seq::<char>::empty());
        }
        assert(extension_of(name@) =~= name@.skip(start as int));
    }
    out
}

/// The language a file name's extension selects.
pub open spec fn language_for(ext: Seq<char>) -> Language {
    if ext == "rs"@ {
        Language::Rust
    } else if ext == "py"@ {
        Language::Python
    } else if ext == "c"@ {
        Language::C
    } else {
        Language::Plain
    }
}

/// The language of a file, by its extension.
pub fn language_of(file_name: &str) -> (r: Language)
    ensures
        r == language_for(extension_of(file_name@)),
{
    let e = extension(file_name);
    if same_chars(&e, "rs") {
        Language::Rust
    } else if same_chars(&e, "py") {
        Language::Python
    } else if same_chars(&e, "c") {
        Language::C
    } else {
        Language::Plain
    }
}

/// Where, under the home directory, the syntax settings for a file name's
/// extension live.
pub open spec fn syntax_path_for(ext: Seq<char>) -> Option<Seq<char>> {
    if ext == "rs"@ {
        Some(".editrc/syntax/rust.json"@)
    } else if ext == "py"@ {
        Some(".editrc/syntax/python.json"@)
    } else if ext == "c"@ || ext == "cc"@ {
        Some(".editrc/syntax/c.json"@)
    } else {
        None
    }
}

/// The syntax settings file for a file, by its extension.
pub fn syntax_path(file_name: &str) -> (r: Option<String>)
    ensures
        r matches Some(p) ==> syntax_path_for(extension_of(file_name@)) == Some(p@),
        r is None ==> syntax_path_for(extension_of(file_name@)) is None,
{
    let e = extension(file_name);
    if same_chars(&e, "rs") {
        Some(".editrc/syntax/rust.json".to_owned())
    } else if same_chars(&e, "py") {
        Some(".editrc/syntax/python.json".to_owned())
    } else if same_chars(&e, "c") || same_chars(&e, "cc") {
        Some(".editrc/syntax/c.json".to_owned())
    } else {
        None
    }
}

/// The name a lexer gives a function token: its text without the opening
/// parenthesis that ends it.
pub fn trim_function(slice: &str) -> (r: String)
    ensures
        slice@.len() > 0 ==> r@ == slice@.drop_last(),
        slice@.len() == 0 ==> r@.len() == 0,
{
    let mut string = slice.to_owned();
    crate::text::pop_char(&mut string);
    string
}

} // verus!
