use modal_editor::command::{numeric_modifer, word_modifier};
use modal_editor::editor::{decimal_string, EditorMode, StatusBar, Terminal};
use modal_editor::file::{DPositionDescriptor, Document, IPositionDescriptor, NLPositionDescriptor, Row};
use modal_editor::history::{History, HistoryNode};

fn node(line: usize, text: &str) -> HistoryNode {
    HistoryNode::create(&[Row::from_text(text)], line..line + 1)
}

#[test]
fn history_keeps_most_recent_up_to_capacity() {
    let mut h = History::with_capacity(3);
    assert_eq!(h.capacity(), 3);
    for i in 0..5 {
        h.push(node(i, "r"));
    }
    assert_eq!(h.len(), 3);
    let mut seen = Vec::new();
    while let Some(n) = h.pop() {
        let (range, rows) = n.extract();
        assert_eq!(rows.len(), 1);
        seen.push(range.start);
    }
    assert_eq!(seen, vec![4, 3, 2]);
}

#[test]
fn history_with_no_room_keeps_nothing() {
    let mut h = History::with_capacity(0);
    h.push(node(0, "a"));
    assert_eq!(h.len(), 0);
    assert!(h.pop().is_none());
}

#[test]
fn history_default_capacity() {
    let h = History::new();
    assert_eq!(h.capacity(), 50);
    assert_eq!(h.len(), 0);
}

#[test]
fn history_node_copies_rows() {
    let rows = vec![Row::from_text("one"), Row::from_text("two")];
    let n = HistoryNode::create(&rows, 4..6);
    let (range, copied) = n.extract();
    assert_eq!(range, 4..6);
    assert_eq!(copied[0].content(), "one");
    assert_eq!(copied[1].content(), "two");
}

#[test]
fn row_length_counts_graphemes() {
    let r = Row::from_text("e\u{301}x");
    assert_eq!(r.len(), 2);
    let r = Row::from_text("\u{1F1F7}\u{1F1FA}a");
    assert_eq!(r.len(), 2);
    assert_eq!(Row::from_text("").len(), 0);
}

#[test]
fn row_insert_keeps_length() {
    let mut r = Row::from_text("ac");
    r.insert(IPositionDescriptor::Middle(1, 'b'));
    assert_eq!(r.content(), "abc");
    assert_eq!(r.len(), 3);
    r.insert(IPositionDescriptor::End('d'));
    assert_eq!(r.content(), "abcd");
    assert_eq!(r.len(), 4);
    let mut r = Row::from_text("e\u{301}z");
    r.insert(IPositionDescriptor::Middle(1, 'y'));
    assert_eq!(r.content(), "e\u{301}yz");
    assert_eq!(r.len(), 3);
}

#[test]
fn row_delete_pop_append() {
    let mut r = Row::from_text("ab\u{e9}c");
    r.delete(2);
    assert_eq!(r.content(), "abc");
    assert_eq!(r.len(), 3);
    assert_eq!(r.pop(), Some('c'));
    assert_eq!(r.content(), "ab");
    r.append(&Row::from_text("xyz"));
    assert_eq!(r.content(), "abxyz");
    assert_eq!(r.len(), 5);
    let mut e = Row::from_text("");
    assert_eq!(e.pop(), None);
    assert_eq!(e.len(), 0);
}

#[test]
fn row_split_cases() {
    let mut r = Row::from_text("hello");
    let rest = r.add_new_line(NLPositionDescriptor::Middle(1));
    assert_eq!((r.content(), r.len()), ("he", 2));
    assert_eq!((rest.content(), rest.len()), ("llo", 3));
    let mut r = Row::from_text("abc");
    let rest = r.add_new_line(NLPositionDescriptor::Beginning);
    assert_eq!((r.content(), r.len()), ("", 0));
    assert_eq!((rest.content(), rest.len()), ("abc", 3));
    let mut r = Row::from_text("abc");
    let rest = r.add_new_line(NLPositionDescriptor::End);
    assert_eq!(r.content(), "abc");
    assert_eq!((rest.content(), rest.len()), ("", 0));
}

#[test]
fn row_search_and_columns() {
    let r = Row::from_text("abab");
    let (n, res) = r.search_for(7, &"b".to_string());
    assert_eq!(n, 2);
    assert_eq!(res, vec![(7, 1), (7, 3)]);
    let r = Row::from_text("\u{e9}\u{e9}x");
    assert_eq!(r.match_columns(0, &vec![0, 2, 4]), vec![(0, 0), (0, 1), (0, 2)]);
}

#[test]
fn document_open_splits_lines() {
    let d = Document::open("f.txt", "one\r\ntwo\n\nthree");
    assert_eq!(d.len(), 4);
    assert_eq!(d.get_row(0).unwrap().content(), "one");
    assert_eq!(d.get_row(2).unwrap().content(), "");
    assert_eq!(d.get_row(3).unwrap().content(), "three");
    assert!(d.get_row(4).is_none());
    assert_eq!(d.name(), "f.txt");
    assert_eq!(d.to_str(), "one\ntwo\n\nthree\n");
}

#[test]
fn document_open_empty_has_one_row() {
    let d = Document::open("f.txt", "");
    assert_eq!(d.len(), 1);
    assert_eq!(d.to_str(), "\n");
    let d = Document::new("g");
    assert_eq!(d.len(), 1);
    assert_eq!(d.get_row(0).unwrap().len(), 0);
}

#[test]
fn document_delete_descriptors() {
    let mut d = Document::open("", "ab\ncd");
    assert_eq!(d.handle_delete(DPositionDescriptor::Beginning(0)), None);
    assert_eq!(d.handle_delete(DPositionDescriptor::Beginning(1)), Some(2));
    assert_eq!(d.len(), 1);
    assert_eq!(d.get_row(0).unwrap().content(), "abcd");
    assert_eq!(d.handle_delete(DPositionDescriptor::Middle(0, 1)), None);
    assert_eq!(d.get_row(0).unwrap().content(), "acd");
    assert_eq!(d.handle_delete(DPositionDescriptor::End(0)), None);
    assert_eq!(d.get_row(0).unwrap().content(), "ac");
    assert_eq!(d.handle_delete(DPositionDescriptor::Middle(5, 0)), None);
    assert_eq!(d.to_str(), "ac\n");
}

#[test]
fn document_row_edits() {
    let mut d = Document::open("", "a\nb");
    d.insert_row(1, Row::from_text("mid"));
    d.replace(0, Row::from_text("A"));
    d.replace(9, Row::from_text("ignored"));
    d.clear_row(2);
    d.clear_row(7);
    d.set_name("n");
    assert_eq!(d.to_str(), "A\nmid\n\n");
    assert_eq!(d.name(), "n");
}

#[test]
fn count_read_off_the_stack() {
    let mut s = String::from("dz21");
    assert_eq!(numeric_modifer(&mut s), 12);
    assert_eq!(s, "dz");
    let mut s = String::from("d");
    assert_eq!(numeric_modifer(&mut s), 1);
    assert_eq!(s, "d");
    let mut s = String::from("99999999999");
    assert_eq!(numeric_modifer(&mut s), 1);
    assert_eq!(s, "");
    let mut s = String::from("0");
    assert_eq!(numeric_modifer(&mut s), 0);
}

#[test]
fn word_read_off_the_stack() {
    let mut s = String::from("cba");
    assert_eq!(word_modifier(&mut s), Some(String::from("abc")));
    assert_eq!(s, "");
    assert_eq!(word_modifier(&mut s), None);
}

#[test]
fn mode_names() {
    assert_eq!(EditorMode::Normal.to_string(), "VIEW");
    assert_eq!(EditorMode::Command.to_string(), "COMMAND");
    assert_eq!(EditorMode::Insert.to_string(), "INSERT");
    assert_eq!(EditorMode::Search.to_string(), "SEARCH");
}

#[test]
fn status_bar_command_line() {
    let mut b = StatusBar::default((80, 24));
    b.add_command(':');
    b.add_command('w');
    assert_eq!((b.cmd.as_str(), b.cmd_chars), (":w", 2));
    b.remove_command();
    assert_eq!((b.cmd.as_str(), b.cmd_chars), (":", 1));
    b.set_mode(&EditorMode::Insert);
    assert_eq!(b.mode, EditorMode::Insert);
    b.clear_command();
    assert_eq!(b.cmd_chars, 0);
}

#[test]
fn terminal_size() {
    let mut t = Terminal::new(80, 24);
    assert_eq!(t.size(), (80, 24));
    t.set_dimensions(100, 30);
    assert_eq!(t.size(), (100, 30));
}

#[test]
fn decimal_text() {
    assert_eq!(decimal_string(0), "0");
    assert_eq!(decimal_string(7), "7");
    assert_eq!(decimal_string(1204), "1204");
    assert_eq!(decimal_string(usize::MAX), usize::MAX.to_string());
}

#[test]
fn status_line_layout() {
    let mut b = StatusBar::default((20, 5));
    b.add_command(':');
    b.add_command('q');
    let (left, counter) = b.layout(3, 12);
    assert_eq!(counter, "3/12");
    assert_eq!(left, ":q       VIEW | ");
    let narrow = StatusBar::default((4, 5));
    let (left, counter) = narrow.layout(1, 1);
    assert_eq!(counter, "1/1");
    assert_eq!(left, "VIEW | ");
}

#[test]
fn row_changed_in_place() {
    let mut d = Document::open("", "ab\ncd");
    match d.get_row_mut(1) {
        Ok(row) => row.insert(IPositionDescriptor::End('e')),
        Err(_) => panic!("row 1 exists"),
    }
    assert_eq!(d.to_str(), "ab\ncde\n");
    assert!(d.get_row_mut(2).is_err());
}
