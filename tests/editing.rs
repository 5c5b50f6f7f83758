use modal_editor::editor::{Editor, EditorMode, Key};
use modal_editor::viewport::Cursor;
use modal_editor::file::Document;

fn texts(e: &Editor) -> Vec<String> {
    let d = e.file();
    let mut out = Vec::new();
    for i in 0..d.len() {
        out.push(d.get_row(i).unwrap().content().to_string());
    }
    out
}

fn editor_on(text: &str) -> Editor {
    Editor::new(Document::open("notes.txt", text), 80, 24)
}

fn type_str(e: &mut Editor, s: &str) {
    for c in s.chars() {
        e.handle_key(Key::Char(c));
    }
}

fn run_command(e: &mut Editor, cmd: &str) {
    e.handle_key(Key::Char(':'));
    type_str(e, cmd);
    e.handle_key(Key::Enter);
}

#[test]
fn typing_then_enter_then_typing() {
    let mut e = Editor::new(Document::new(""), 80, 24);
    e.handle_key(Key::Char('i'));
    assert_eq!(e.mode(), EditorMode::Insert);
    type_str(&mut e, "ab");
    e.handle_key(Key::Enter);
    type_str(&mut e, "c");
    assert_eq!(texts(&e), vec!["ab", "c"]);
    assert!(e.is_altered());
}

#[test]
fn backspace_in_middle_and_at_start() {
    let mut e = editor_on("abc");
    e.handle_key(Key::Right);
    assert_eq!(e.cursor().column, 1);
    e.handle_key(Key::Char('i'));
    e.handle_key(Key::Backspace);
    assert_eq!(texts(&e), vec!["bc"]);
    assert_eq!(e.cursor().column, 0);
    e.handle_key(Key::Backspace);
    assert_eq!(texts(&e), vec!["bc"]);
    assert_eq!(e.cursor(), Cursor { first_row: 0, screen_row: 0, column: 0 });
    assert_eq!(e.file().len(), 1);
}

#[test]
fn backspace_at_row_start_merges() {
    let mut e = editor_on("ab\ncd");
    e.handle_key(Key::Down);
    e.handle_key(Key::Char('i'));
    e.handle_key(Key::Backspace);
    assert_eq!(texts(&e), vec!["abcd"]);
    assert_eq!(e.cursor(), Cursor { first_row: 0, screen_row: 0, column: 2 });
}

#[test]
fn enter_after_open_brace() {
    let mut e = editor_on("foo {");
    run_command(&mut e, "e");
    assert_eq!(e.cursor().column, 5);
    e.handle_key(Key::Char('i'));
    e.handle_key(Key::Enter);
    assert_eq!(texts(&e), vec!["foo {", "  ", "}"]);
    assert_eq!(e.cursor(), Cursor { first_row: 0, screen_row: 1, column: 2 });
}

#[test]
fn enter_after_indented_brace() {
    let mut e = editor_on("   if x {");
    run_command(&mut e, "e");
    e.handle_key(Key::Char('i'));
    e.handle_key(Key::Enter);
    assert_eq!(texts(&e), vec!["   if x {", "    ", "  }"]);
    assert_eq!(e.cursor().column, 4);
}

#[test]
fn enter_in_middle_splits() {
    let mut e = editor_on("hello");
    e.handle_key(Key::Right);
    e.handle_key(Key::Right);
    e.handle_key(Key::Char('i'));
    e.handle_key(Key::Enter);
    assert_eq!(texts(&e), vec!["he", "llo"]);
    assert_eq!(e.cursor(), Cursor { first_row: 0, screen_row: 1, column: 0 });
}

#[test]
fn delete_three_lines_command() {
    let mut e = editor_on("r0\nr1\nr2\nr3\nr4");
    run_command(&mut e, "3d");
    assert_eq!(texts(&e), vec!["", "", "", "r3", "r4"]);
    assert_eq!(e.history().len(), 3);
    assert_eq!(e.mode(), EditorMode::Normal);
    assert_eq!(e.status_bar().cmd, "");
    assert_eq!(e.status_bar().cmd_chars, 0);
}

#[test]
fn undo_after_typing_restores_row() {
    let mut e = editor_on("abc\nxyz");
    e.handle_key(Key::Char('i'));
    type_str(&mut e, "Q");
    assert_eq!(texts(&e), vec!["Qabc", "xyz"]);
    e.handle_key(Key::Esc);
    run_command(&mut e, "u");
    assert_eq!(texts(&e), vec!["abc", "xyz"]);
    assert_eq!(e.cursor().column, 3);
}

#[test]
fn undo_count_pops_several() {
    let mut e = editor_on("abc");
    e.handle_key(Key::Char('i'));
    type_str(&mut e, "xy");
    e.handle_key(Key::Esc);
    run_command(&mut e, "2u");
    assert_eq!(texts(&e), vec!["abc"]);
    assert_eq!(e.history().len(), 0);
}

#[test]
fn sticky_column_down_then_up() {
    let mut e = editor_on("abcdef\nabcdef\nab");
    for _ in 0..4 {
        e.handle_key(Key::Right);
    }
    e.handle_key(Key::Down);
    assert_eq!(e.cursor().column, 4);
    e.handle_key(Key::Up);
    assert_eq!(e.cursor(), Cursor { first_row: 0, screen_row: 0, column: 4 });
    e.handle_key(Key::Down);
    e.handle_key(Key::Down);
    assert_eq!(e.cursor().column, 2);
}

#[test]
fn search_scenario() {
    let mut e = editor_on("xab\nab y");
    let (n, res) = e.file().search_for(&"ab".to_string());
    assert_eq!(n, 2);
    assert_eq!(res, vec![(0, 1), (1, 0)]);
    run_command(&mut e, "/ab");
    assert_eq!(e.mode(), EditorMode::Search);
    assert_eq!(e.search_counter(), (1, 2));
    assert_eq!(e.cursor(), Cursor { first_row: 0, screen_row: 0, column: 1 });
    e.handle_key(Key::Enter);
    assert_eq!(e.search_counter(), (2, 2));
    assert_eq!(e.cursor(), Cursor { first_row: 0, screen_row: 1, column: 0 });
    e.handle_key(Key::Enter);
    assert_eq!(e.mode(), EditorMode::Normal);
}

#[test]
fn search_without_match_stays_normal() {
    let mut e = editor_on("abc");
    run_command(&mut e, "/zz");
    assert_eq!(e.mode(), EditorMode::Normal);
    assert_eq!(e.search_counter(), (0, 0));
}

#[test]
fn invalid_pattern_has_no_matches() {
    let d = Document::open("", "a(b\n(");
    let (n, res) = d.search_for(&"(".to_string());
    assert_eq!(n, 0);
    assert!(res.is_empty());
}

#[test]
fn search_order_is_row_major() {
    let d = Document::open("", "a a a\nb\naa a");
    let (n, res) = d.search_for(&"a".to_string());
    assert_eq!(n, 6);
    assert_eq!(res, vec![(0, 0), (0, 2), (0, 4), (2, 0), (2, 1), (2, 3)]);
    for w in res.windows(2) {
        assert!(w[0] <= w[1]);
    }
}

#[test]
fn search_columns_count_graphemes() {
    let d = Document::open("", "e\u{301}tab");
    let (_, res) = d.search_for(&"ab".to_string());
    assert_eq!(res, vec![(0, 2)]);
}

#[test]
fn set_line_and_filename() {
    let mut e = editor_on("a\nb\nc\nd");
    run_command(&mut e, "set line 3");
    assert_eq!(e.cursor().screen_row, 2);
    run_command(&mut e, "set filename other.rs");
    assert_eq!(e.file().name(), "other.rs");
    assert_eq!(e.status_bar().cmd, "");
}

#[test]
fn jumps_to_last_and_first_row() {
    let mut e = editor_on("a\nb\nc\nd");
    run_command(&mut e, "G");
    assert_eq!(e.cursor().screen_row, 3);
    run_command(&mut e, "g");
    assert_eq!(e.cursor().screen_row, 0);
}

#[test]
fn scrolling_shifts_the_frame() {
    let mut e = Editor::new(Document::open("", "0\n1\n2\n3\n4\n5"), 80, 4);
    for _ in 0..4 {
        e.handle_key(Key::Down);
    }
    assert_eq!(e.cursor(), Cursor { first_row: 2, screen_row: 2, column: 0 });
    assert_eq!(e.view_frame(), (2, 5));
    for _ in 0..4 {
        e.handle_key(Key::Up);
    }
    assert_eq!(e.cursor(), Cursor { first_row: 0, screen_row: 0, column: 0 });
}

#[test]
fn right_wraps_and_stops_at_end_of_file() {
    let mut e = editor_on("ab\nc");
    e.handle_key(Key::Right);
    e.handle_key(Key::Right);
    e.handle_key(Key::Right);
    assert_eq!(e.cursor(), Cursor { first_row: 0, screen_row: 1, column: 0 });
    e.handle_key(Key::Right);
    e.handle_key(Key::Right);
    assert_eq!(e.cursor(), Cursor { first_row: 0, screen_row: 1, column: 1 });
    e.handle_key(Key::Left);
    e.handle_key(Key::Left);
    assert_eq!(e.cursor(), Cursor { first_row: 0, screen_row: 0, column: 2 });
    assert_eq!(e.screen_position(), (4, 0));
}

#[test]
fn word_motions() {
    let mut e = editor_on("foo bar, baz\nnext");
    run_command(&mut e, "w");
    assert_eq!(e.cursor().column, 4);
    run_command(&mut e, "2w");
    assert_eq!(e.cursor(), Cursor { first_row: 0, screen_row: 1, column: 0 });
    let mut e = editor_on("foo bar");
    run_command(&mut e, "e");
    run_command(&mut e, "b");
    assert_eq!(e.cursor().column, 2);
}

#[test]
fn quit_guard_and_force_quit() {
    let mut e = Editor::new(Document::new(""), 80, 24);
    e.handle_key(Key::Char('i'));
    type_str(&mut e, "x");
    e.handle_key(Key::Esc);
    run_command(&mut e, "q");
    assert!(!e.should_quit());
    run_command(&mut e, "x");
    assert!(e.should_quit());
    assert!(!e.is_altered());
    let mut named = editor_on("a");
    run_command(&mut named, "q");
    assert!(named.should_quit());
}

#[test]
fn command_mode_editing_keys() {
    let mut e = editor_on("a");
    e.handle_key(Key::Char(':'));
    assert_eq!(e.mode(), EditorMode::Command);
    type_str(&mut e, "ab");
    e.handle_key(Key::Backspace);
    assert_eq!(e.status_bar().cmd, ":a");
    e.handle_key(Key::Backspace);
    e.handle_key(Key::Backspace);
    assert_eq!(e.status_bar().cmd, ":");
    e.handle_key(Key::Esc);
    assert_eq!(e.mode(), EditorMode::Normal);
    assert_eq!(e.status_bar().cmd_chars, 0);
}

#[test]
fn append_command_enters_insert_at_end() {
    let mut e = editor_on("abc");
    run_command(&mut e, "A");
    assert_eq!(e.mode(), EditorMode::Insert);
    type_str(&mut e, "d");
    assert_eq!(texts(&e), vec!["abcd"]);
}

#[test]
fn tab_inserts_two_spaces() {
    let mut e = editor_on("x");
    e.handle_key(Key::Char('i'));
    e.handle_key(Key::Tab);
    assert_eq!(texts(&e), vec!["  x"]);
    assert_eq!(e.cursor().column, 2);
}

#[test]
fn resize_keeps_cursor_row() {
    let mut e = editor_on("0\n1\n2\n3\n4\n5\n6");
    run_command(&mut e, "set line 6");
    assert_eq!(e.cursor().screen_row, 5);
    e.resize(80, 4);
    assert_eq!(e.cursor(), Cursor { first_row: 3, screen_row: 2, column: 0 });
    assert_eq!(e.terminal().size(), (80, 4));
}

#[test]
fn search_method_sets_results() {
    let mut e = editor_on("one\ntwo one");
    e.search("one".to_string());
    assert_eq!(e.mode(), EditorMode::Search);
    assert_eq!(e.search_counter(), (1, 2));
    let mut e = editor_on("one");
    e.search("(".to_string());
    assert_eq!(e.mode(), EditorMode::Normal);
}

#[test]
fn undo_after_merge_skips_the_removed_row() {
    let mut e = editor_on("ab\ncd");
    e.handle_key(Key::Down);
    e.handle_key(Key::Char('i'));
    e.handle_key(Key::Backspace);
    assert_eq!(texts(&e), vec!["abcd"]);
    e.handle_key(Key::Esc);
    run_command(&mut e, "u");
    assert_eq!(texts(&e), vec!["abcd"]);
    assert_eq!(e.history().len(), 0);
}

#[test]
fn set_line_out_of_range_and_bad_number() {
    let mut e = editor_on("a\nb\nc");
    run_command(&mut e, "set line 9");
    assert_eq!(e.cursor().screen_row, 0);
    run_command(&mut e, "set line +2");
    assert_eq!(e.cursor().screen_row, 1);
    run_command(&mut e, "set line x2");
    assert_eq!(e.cursor().screen_row, 1);
    run_command(&mut e, "set color filename n.txt");
    assert_eq!(e.file().name(), "n.txt");
    run_command(&mut e, "set filename");
    assert_eq!(e.file().name(), "n.txt");
}

#[test]
fn delete_lines_snapshots_each_row() {
    let mut e = editor_on("r0\nr1\nr2");
    run_command(&mut e, "2d");
    assert_eq!(texts(&e), vec!["", "", "r2"]);
    run_command(&mut e, "u");
    assert_eq!(texts(&e), vec!["", "r1", "r2"]);
    run_command(&mut e, "u");
    assert_eq!(texts(&e), vec!["r0", "r1", "r2"]);
}

#[test]
fn split_after_inner_brace_opens_no_block() {
    let mut e = editor_on("x{ y");
    e.handle_key(Key::Right);
    e.handle_key(Key::Right);
    e.handle_key(Key::Char('i'));
    e.handle_key(Key::Enter);
    assert_eq!(texts(&e), vec!["x{", " y"]);
    assert_eq!(e.cursor(), Cursor { first_row: 0, screen_row: 1, column: 0 });
}

#[test]
fn typing_a_combining_mark_keeps_the_cursor_on_the_row() {
    let mut e = editor_on("e\nz");
    run_command(&mut e, "e");
    e.handle_key(Key::Char('i'));
    e.handle_key(Key::Char('\u{301}'));
    assert_eq!(texts(&e), vec!["e\u{301}", "z"]);
    assert_eq!(e.cursor(), Cursor { first_row: 0, screen_row: 0, column: 1 });
}

#[test]
fn jump_keeps_sticky_column() {
    let mut e = editor_on("abcd\nab\nabcd");
    run_command(&mut e, "e");
    run_command(&mut e, "G");
    assert_eq!(e.cursor(), Cursor { first_row: 0, screen_row: 2, column: 2 });
}
