use modal_editor::highlight::{
    get_attribute, get_color, language_of, match_color, refine_row, style_of, syntax_path,
    trim_function, HighlightColor, Language, SyntaxRules, TextStyle, Token, TokenKind,
};

fn rules() -> SyntaxRules {
    let v = json::parse(
        r#"{"highlight": true,
            "colors": {"keyword": "purple", "string": "green", "comment": "grey", "type": 3},
            "style": {"keyword": "bold", "comment": "italic", "string": "plain"}}"#,
    )
    .unwrap();
    SyntaxRules::from_json(&v)
}

#[test]
fn color_names() {
    assert_eq!(get_color("blue"), Some(HighlightColor::Blue));
    assert_eq!(get_color("darkblue"), Some(HighlightColor::DarkBlue));
    assert_eq!(get_color("red"), Some(HighlightColor::Red));
    assert_eq!(get_color("purple"), Some(HighlightColor::Magenta));
    assert_eq!(get_color("green"), Some(HighlightColor::Green));
    assert_eq!(get_color("yellow"), Some(HighlightColor::Yellow));
    assert_eq!(get_color("orange"), Some(HighlightColor::DarkYellow));
    assert_eq!(get_color("grey"), Some(HighlightColor::DarkGrey));
    assert_eq!(get_color("pink"), None);
    assert_eq!(get_color(""), None);
}

#[test]
fn style_names() {
    assert_eq!(style_of("bold"), TextStyle::Bold);
    assert_eq!(style_of("italic"), TextStyle::Italic);
    assert_eq!(style_of("wavy"), TextStyle::NormalIntensity);
}

#[test]
fn colors_and_styles_from_rules() {
    let r = rules();
    assert_eq!(match_color(TokenKind::Keyword, &r), Some(HighlightColor::Magenta));
    assert_eq!(match_color(TokenKind::Str, &r), Some(HighlightColor::Green));
    assert_eq!(match_color(TokenKind::MultiLineCommentStart, &r), Some(HighlightColor::DarkGrey));
    assert_eq!(match_color(TokenKind::Type, &r), None);
    assert_eq!(match_color(TokenKind::Number, &r), None);
    assert_eq!(match_color(TokenKind::DontCare, &r), None);
    assert_eq!(get_attribute(TokenKind::Keyword, &r), TextStyle::Bold);
    assert_eq!(get_attribute(TokenKind::Comment, &r), TextStyle::Italic);
    assert_eq!(get_attribute(TokenKind::Str, &r), TextStyle::NormalIntensity);
    assert_eq!(get_attribute(TokenKind::Number, &r), TextStyle::NormalIntensity);
}

#[test]
fn languages_and_settings_paths() {
    assert_eq!(language_of("main.rs"), Language::Rust);
    assert_eq!(language_of("a.b.py"), Language::Python);
    assert_eq!(language_of("x.c"), Language::C);
    assert_eq!(language_of("x.cc"), Language::Plain);
    assert_eq!(language_of("rs"), Language::Rust);
    assert_eq!(language_of("notes.txt"), Language::Plain);
    assert_eq!(syntax_path("main.rs"), Some(".editrc/syntax/rust.json".to_string()));
    assert_eq!(syntax_path("x.py"), Some(".editrc/syntax/python.json".to_string()));
    assert_eq!(syntax_path("x.cc"), Some(".editrc/syntax/c.json".to_string()));
    assert_eq!(syntax_path("x.c"), Some(".editrc/syntax/c.json".to_string()));
    assert_eq!(syntax_path("x."), None);
    assert_eq!(syntax_path(""), None);
}

#[test]
fn function_names_lose_the_parenthesis() {
    assert_eq!(trim_function("main("), "main");
    assert_eq!(trim_function(""), "");
}

fn tok(kind: TokenKind, start: usize, end: usize) -> Token {
    Token { kind, start, end }
}

#[test]
fn refining_splits_functions_and_tracks_comments() {
    let mut open = false;
    let row = vec![tok(TokenKind::Function, 0, 5), tok(TokenKind::MultiLineCommentStart, 6, 8), tok(TokenKind::Keyword, 9, 12)];
    let out = refine_row(&row, &mut open);
    assert_eq!(
        out,
        vec![
            tok(TokenKind::Function, 0, 4),
            tok(TokenKind::DontCare, 4, 5),
            tok(TokenKind::MultiLineCommentStart, 6, 8),
            tok(TokenKind::Comment, 9, 12),
        ]
    );
    assert!(open);
    let out = refine_row(&vec![tok(TokenKind::Number, 0, 1), tok(TokenKind::MultiLineCommentEnd, 2, 4), tok(TokenKind::Number, 5, 6)], &mut open);
    assert_eq!(out, vec![tok(TokenKind::Comment, 0, 1), tok(TokenKind::MultiLineCommentEnd, 2, 4), tok(TokenKind::Number, 5, 6)]);
    assert!(!open);
    let out = refine_row(&vec![tok(TokenKind::MultiLineComment, 0, 3), tok(TokenKind::Str, 4, 6)], &mut open);
    assert_eq!(out[1].kind, TokenKind::Comment);
    assert!(open);
}

#[test]
fn rules_read_every_class() {
    let r = rules();
    assert_eq!(r.settings.len(), 8);
    assert_eq!(r.settings[0].class, "keyword");
    assert_eq!(r.settings[0].color.as_deref(), Some("purple"));
    assert_eq!(r.settings[0].style.as_deref(), Some("bold"));
    assert_eq!(r.settings[1].color, None);
    assert_eq!(r.settings[7].class, "constant");
}
