use hecto::document::Document;
use hecto::editor::{moved, scroll_offset, Action, Editor, Key, PromptKind, Status, QUIT_TIMES};
use hecto::position::{Position, SearchDirection};
use hecto::row::{Row, RowError};
use hecto::terminal::{Size, Terminal};

fn chars(s: &str) -> Vec<char> {
    s.chars().collect()
}

fn doc(s: &str) -> Document {
    Document::from_text(None, &chars(s))
}

fn pos(y: usize, x_word_index: usize, x: usize) -> Position {
    Position { x, x_word_index, y }
}

fn lines(d: &Document) -> Vec<String> {
    let mut out = Vec::new();
    for y in 0..d.len() {
        out.push(d.row(y).unwrap().content().iter().collect());
    }
    out
}

#[test]
fn wide_characters_take_two_columns() {
    let row = Row::from_text(chars("中国"));
    assert_eq!(row.word_width_index(), vec![2, 2]);
    assert_eq!(row.display_width(), 4);
    assert_eq!(row.grapheme_count(), 2);
}

#[test]
fn mixed_widths_and_columns() {
    let row = Row::from_text(chars("a中b"));
    assert_eq!(row.word_width_index(), vec![1, 2, 1]);
    assert_eq!(row.word_index_to_column(0), 0);
    assert_eq!(row.word_index_to_column(2), 3);
    assert_eq!(row.display_width(), 4);
    assert_eq!(row.column_to_word_index(2), 2);
    assert_eq!(row.column_to_word_index(9), 3);
}

#[test]
fn combining_mark_joins_its_base() {
    let row = Row::from_text(chars("e\u{301}x"));
    assert_eq!(row.grapheme_count(), 2);
    assert_eq!(row.word_width_index(), vec![1, 1]);
}

#[test]
fn render_leaves_out_straddling_wide_character() {
    let row = Row::from_text(chars("a中b"));
    assert_eq!(row.render(0, 4), chars("a中b"));
    assert_eq!(row.render(1, 2), chars(""));
    assert_eq!(row.render(1, 3), chars("中"));
    assert_eq!(row.render(0, 2), chars("a"));
    assert_eq!(row.render(3, 10), chars("b"));
}

#[test]
fn insert_and_delete_keep_index_in_step() {
    let mut row = Row::from_text(chars("ab"));
    assert_eq!(row.insert_at(1, '中'), Ok(()));
    assert_eq!(row.content(), chars("a中b"));
    assert_eq!(row.word_width_index().len(), row.grapheme_count());
    assert_eq!(row.word_width_index(), vec![1, 2, 1]);
    assert_eq!(row.delete_at(0), Ok(()));
    assert_eq!(row.content(), chars("中b"));
    assert_eq!(row.word_width_index().len(), row.grapheme_count());
    assert_eq!(row.insert_at(2, 'c'), Ok(()));
    assert_eq!(row.content(), chars("中bc"));
    assert_eq!(row.word_width_index().len(), row.grapheme_count());
}

#[test]
fn row_edits_out_of_range() {
    let mut row = Row::from_text(chars("ab"));
    assert_eq!(row.insert_at(3, 'x'), Err(RowError::OutOfRange));
    assert_eq!(row.delete_at(3), Err(RowError::OutOfRange));
    assert_eq!(row.content(), chars("ab"));
}

#[test]
fn delete_at_end_of_row_changes_nothing() {
    let mut row = Row::from_text(chars("ab"));
    assert_eq!(row.delete_at(2), Ok(()));
    assert_eq!(row.content(), chars("ab"));
}

#[test]
fn split_then_append_restores_row() {
    let text = "a中e\u{301}z";
    let row = Row::from_text(chars(text));
    for k in 0..=row.grapheme_count() {
        let (mut left, right) = row.split_at(k);
        assert_eq!(left.append(&right), Ok(()));
        assert_eq!(left.content(), chars(text));
    }
    let (left, right) = row.split_at(2);
    assert_eq!(left.content(), chars("a中"));
    assert_eq!(right.content(), chars("e\u{301}z"));
}

#[test]
fn open_then_save_keeps_text() {
    for text in ["hello\nworld\n", "", "one line", "\n\n", "x\r\ny\tz"] {
        let d = doc(text);
        assert_eq!(d.to_text(), chars(text));
        assert!(d.len() >= 1);
    }
    assert_eq!(lines(&doc("a\nb\n")), vec!["a", "b", ""]);
}

#[test]
fn search_finds_word_on_next_row() {
    let d = doc("hello world\nsecond line");
    let found = d.find(&chars("line"), &pos(0, 0, 0), SearchDirection::Forward);
    assert_eq!(found, Some(pos(1, 7, 7)));
}

#[test]
fn search_without_match() {
    let d = doc("hello world\nsecond line");
    let found = d.find(&chars("zzz"), &pos(0, 0, 0), SearchDirection::Forward);
    assert_eq!(found, None);
}

#[test]
fn search_skips_start_and_runs_backward() {
    let d = doc("abab\nab");
    let q = chars("ab");
    assert_eq!(d.find(&q, &pos(0, 0, 0), SearchDirection::Forward), Some(pos(0, 2, 2)));
    assert_eq!(d.find(&q, &pos(0, 2, 2), SearchDirection::Forward), Some(pos(1, 0, 0)));
    assert_eq!(d.find(&q, &pos(1, 0, 0), SearchDirection::Forward), None);
    assert_eq!(d.find(&q, &pos(1, 0, 0), SearchDirection::Backward), Some(pos(0, 2, 2)));
    assert_eq!(d.find(&q, &pos(0, 2, 2), SearchDirection::Backward), Some(pos(0, 0, 0)));
    assert_eq!(d.find(&q, &pos(0, 0, 0), SearchDirection::Backward), None);
}

#[test]
fn search_reports_display_column() {
    let d = doc("中国x");
    let found = d.find(&chars("x"), &pos(0, 0, 0), SearchDirection::Forward);
    assert_eq!(found, Some(pos(0, 2, 4)));
}

#[test]
fn right_at_end_of_only_row_stays() {
    let d = doc("ab");
    let at = pos(0, 2, 2);
    assert_eq!(moved(&d, &at, Key::Right, 10), at);
}

#[test]
fn motions_cross_rows_and_keep_column() {
    let d = doc("中中\nabcd");
    assert_eq!(moved(&d, &pos(0, 1, 2), Key::Down, 10), pos(1, 2, 2));
    assert_eq!(moved(&d, &pos(1, 3, 3), Key::Up, 10), pos(0, 2, 4));
    assert_eq!(moved(&d, &pos(1, 0, 0), Key::Left, 10), pos(0, 2, 4));
    assert_eq!(moved(&d, &pos(0, 2, 4), Key::Right, 10), pos(1, 0, 0));
    assert_eq!(moved(&d, &pos(1, 2, 2), Key::End, 10), pos(1, 4, 4));
    assert_eq!(moved(&d, &pos(1, 2, 2), Key::Home, 10), pos(1, 0, 0));
    assert_eq!(moved(&d, &pos(0, 0, 0), Key::Up, 10), pos(0, 0, 0));
    assert_eq!(moved(&d, &pos(0, 0, 0), Key::Left, 10), pos(0, 0, 0));
    assert_eq!(moved(&d, &pos(0, 0, 0), Key::PageDown, 10), pos(2, 0, 0));
    assert_eq!(moved(&d, &pos(1, 0, 0), Key::PageUp, 10), pos(0, 0, 0));
}

#[test]
fn scroll_keeps_cursor_on_screen() {
    let size = Size { width: 10, height: 5 };
    let off = scroll_offset(&pos(7, 0, 12), &pos(0, 0, 0), &size);
    assert_eq!((off.y, off.x), (3, 3));
    let off = scroll_offset(&pos(1, 0, 2), &pos(3, 0, 3), &size);
    assert_eq!((off.y, off.x), (1, 2));
    let off = scroll_offset(&pos(4, 0, 9), &pos(0, 0, 0), &size);
    assert_eq!((off.y, off.x), (0, 0));
}

#[test]
fn document_edits() {
    let mut d = doc("ab\ncd");
    assert_eq!(d.insert(&pos(0, 1, 1), 'x'), Ok(()));
    assert_eq!(lines(&d), vec!["axb", "cd"]);
    assert_eq!(d.insert(&pos(0, 1, 1), '\n'), Ok(()));
    assert_eq!(lines(&d), vec!["a", "xb", "cd"]);
    assert_eq!(d.delete(&pos(0, 1, 1)), Ok(()));
    assert_eq!(lines(&d), vec!["axb", "cd"]);
    assert_eq!(d.delete(&pos(0, 0, 0)), Ok(()));
    assert_eq!(lines(&d), vec!["xb", "cd"]);
    assert_eq!(d.insert_newline(&pos(1, 2, 2)), Ok(()));
    assert_eq!(lines(&d), vec!["xb", "cd", ""]);
    assert_eq!(d.insert(&pos(3, 0, 0), 'z'), Ok(()));
    assert_eq!(lines(&d), vec!["xb", "cd", "", "z"]);
}

#[test]
fn document_edit_errors() {
    let mut d = doc("ab");
    assert_eq!(d.insert(&pos(0, 3, 3), 'x'), Err(RowError::OutOfRange));
    assert_eq!(d.insert(&pos(2, 0, 0), 'x'), Err(RowError::OutOfRange));
    assert_eq!(d.insert_newline(&pos(0, 5, 5)), Err(RowError::OutOfRange));
    assert_eq!(d.delete(&pos(0, 4, 4)), Err(RowError::OutOfRange));
    assert_eq!(lines(&d), vec!["ab"]);
}

#[test]
fn delete_at_end_of_document_is_no_op() {
    let mut d = doc("ab\ncd");
    assert_eq!(d.delete(&pos(1, 2, 2)), Ok(()));
    assert_eq!(lines(&d), vec!["ab", "cd"]);
    assert_eq!(d.delete(&pos(5, 0, 0)), Ok(()));
    assert_eq!(lines(&d), vec!["ab", "cd"]);
}

#[test]
fn dirty_tracking() {
    let mut d = doc("ab");
    assert!(!d.is_dirty());
    assert_eq!(d.insert(&pos(0, 0, 0), 'x'), Ok(()));
    assert!(d.is_dirty());
    d.mark_saved();
    assert!(!d.is_dirty());
    assert_eq!(d.delete(&pos(0, 0, 0)), Ok(()));
    assert!(d.is_dirty());
    d.mark_saved();
    assert_eq!(d.insert_newline(&pos(0, 0, 0)), Ok(()));
    assert!(d.is_dirty());
}

#[test]
fn empty_document_has_no_rows() {
    let d = Document::default();
    assert!(d.is_empty());
    assert_eq!(d.len(), 0);
    assert!(d.row(0).is_none());
    assert!(d.file_name().is_none());
}

#[test]
fn terminal_keeps_two_rows_for_bars() {
    let t = Terminal::with_screen(80, 24);
    assert_eq!(*t.size(), Size { width: 80, height: 22 });
    let t = Terminal::with_screen(80, 1);
    assert_eq!(t.size().height, 0);
}

fn editor(text: &str) -> Editor {
    Editor::new(Terminal::with_screen(80, 24), doc(text), false, 0)
}

#[test]
fn typing_moves_cursor() {
    let mut e = editor("");
    assert_eq!(e.process_keypress(Key::Char('中'), 1), Action::Nothing);
    assert_eq!(e.process_keypress(Key::Char('a'), 1), Action::Nothing);
    assert_eq!(lines(&e.document), vec!["中a"]);
    assert_eq!(e.cursor_position, pos(0, 2, 3));
    e.process_keypress(Key::Enter, 1);
    assert_eq!(lines(&e.document), vec!["中a", ""]);
    assert_eq!(e.cursor_position, pos(1, 0, 0));
    e.process_keypress(Key::Backspace, 1);
    assert_eq!(lines(&e.document), vec!["中a"]);
    assert_eq!(e.cursor_position, pos(0, 2, 3));
}

#[test]
fn quit_asks_again_when_dirty() {
    let mut e = editor("x");
    e.process_keypress(Key::Char('y'), 1);
    for left in (1..=QUIT_TIMES).rev() {
        assert_eq!(e.process_keypress(Key::Ctrl('q'), 2), Action::Nothing);
        assert_eq!(e.status_message.text, Status::UnsavedWarning(left));
    }
    assert_eq!(e.process_keypress(Key::Ctrl('q'), 3), Action::Quit);
    assert!(e.should_quit);
}

#[test]
fn save_without_name_prompts() {
    let mut e = editor("x");
    assert_eq!(e.process_keypress(Key::Ctrl('s'), 1), Action::Nothing);
    assert!(matches!(e.prompt.as_ref().map(|p| p.kind), Some(PromptKind::SaveAs)));
    e.process_keypress(Key::Char('f'), 1);
    assert_eq!(e.process_keypress(Key::Enter, 1), Action::Save);
    assert_eq!(e.document.file_name().clone(), Some(chars("f")));
    e.save_finished(true, 2);
    assert_eq!(e.status_message.text, Status::Saved);
    assert!(!e.document.is_dirty());
}

#[test]
fn save_prompt_aborted() {
    let mut e = editor("x");
    e.process_keypress(Key::Ctrl('s'), 1);
    assert_eq!(e.process_keypress(Key::Esc, 1), Action::Nothing);
    assert_eq!(e.status_message.text, Status::SaveAborted);
    assert!(e.prompt.is_none());
    assert!(e.document.file_name().is_none());
    assert!(!e.document.is_dirty());
}

#[test]
fn search_session_moves_and_restores() {
    let mut e = editor("one two\ntwo");
    e.process_keypress(Key::Ctrl('f'), 1);
    e.process_keypress(Key::Char('t'), 1);
    assert_eq!(e.cursor_position, pos(0, 4, 4));
    e.process_keypress(Key::Char('w'), 1);
    assert_eq!(e.cursor_position, pos(1, 0, 0));
    e.process_keypress(Key::Char('o'), 1);
    assert_eq!(e.cursor_position, pos(1, 0, 0));
    e.process_keypress(Key::Down, 1);
    assert_eq!(e.cursor_position, pos(1, 0, 0));
    e.process_keypress(Key::Up, 1);
    assert_eq!(e.cursor_position, pos(0, 4, 4));
    e.process_keypress(Key::Esc, 1);
    assert_eq!(e.cursor_position, pos(0, 0, 0));
    assert!(e.highlighted_word.is_none());
}

#[test]
fn search_session_finds_line_on_next_row() {
    let mut e = editor("hello world\nsecond line");
    e.process_keypress(Key::Ctrl('f'), 1);
    assert_eq!(e.cursor_position, pos(0, 0, 0));
    for c in "line".chars() {
        e.process_keypress(Key::Char(c), 1);
    }
    e.process_keypress(Key::Enter, 1);
    assert_eq!(e.cursor_position, pos(1, 7, 7));
    assert!(e.highlighted_word.is_none());
    assert!(!e.document.is_dirty());
    assert_eq!(lines(&e.document), vec!["hello world", "second line"]);
}

#[test]
fn search_session_without_match_keeps_cursor() {
    let mut e = editor("hello world\nsecond line");
    e.process_keypress(Key::Ctrl('f'), 1);
    for c in "zzz".chars() {
        e.process_keypress(Key::Char(c), 1);
    }
    e.process_keypress(Key::Enter, 1);
    assert_eq!(e.cursor_position, pos(0, 0, 0));
    assert_eq!(lines(&e.document), vec!["hello world", "second line"]);
}

#[test]
fn delete_keeps_cursor() {
    let mut e = editor("ab\ncd");
    e.process_keypress(Key::Right, 1);
    e.process_keypress(Key::Delete, 1);
    assert_eq!(lines(&e.document), vec!["a", "cd"]);
    assert_eq!(e.cursor_position, pos(0, 1, 1));
    e.process_keypress(Key::Delete, 1);
    assert_eq!(lines(&e.document), vec!["acd"]);
    assert_eq!(e.cursor_position, pos(0, 1, 1));
    e.process_keypress(Key::End, 1);
    e.process_keypress(Key::Delete, 1);
    e.process_keypress(Key::Delete, 1);
    assert_eq!(lines(&e.document), vec!["acd"]);
    assert_eq!(e.cursor_position, pos(0, 3, 3));
}

#[test]
fn enter_then_backspace_restores_row_and_cursor() {
    let mut e = editor("a中b\nz");
    e.process_keypress(Key::Right, 1);
    e.process_keypress(Key::Right, 1);
    assert_eq!(e.cursor_position, pos(0, 2, 3));
    e.process_keypress(Key::Enter, 1);
    assert_eq!(lines(&e.document), vec!["a中", "b", "z"]);
    assert_eq!(e.cursor_position, pos(1, 0, 0));
    e.process_keypress(Key::Backspace, 1);
    assert_eq!(lines(&e.document), vec!["a中b", "z"]);
    assert_eq!(e.cursor_position, pos(0, 2, 3));
}

#[test]
fn other_keys_reset_quit_count() {
    let mut e = editor("x");
    e.process_keypress(Key::Char('y'), 1);
    e.process_keypress(Key::Ctrl('q'), 1);
    assert_eq!(e.quit_times, QUIT_TIMES - 1);
    e.process_keypress(Key::Left, 1);
    assert_eq!(e.quit_times, QUIT_TIMES);
    assert_eq!(e.status_message.text, Status::Empty);
    assert!(!e.should_quit);
}
