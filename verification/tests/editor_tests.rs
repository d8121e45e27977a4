use buffers::buffer::Buffer;
use buffers::editor::{Action, BufferEditor, KeyInput};
use buffers::grid::CellGrid;

fn editor_with(text: &str) -> BufferEditor {
    let mut editor = BufferEditor::new(Buffer::new(None));
    for c in text.chars() {
        editor.on_event(KeyInput::Char(c));
    }
    editor
}

fn shown(grid: &CellGrid, x: i32, y: i32) -> Option<char> {
    grid.cells.get(x, y).map(|cell| cell.c)
}

#[test]
fn new_editor_starts_at_the_top() {
    let editor = BufferEditor::new(Buffer::new(Some(String::from("f"))));
    assert_eq!(editor.scroll_offset(), 0);
    assert_eq!(editor.buffer().text(), "");
    assert_eq!(editor.buffer().file(), &Some(String::from("f")));
}

#[test]
fn character_input_appends() {
    let mut editor = editor_with("");
    let update = editor.on_event(KeyInput::Char('q'));
    assert_eq!(update.action, Action::Continue);
    assert_eq!(editor.buffer().text(), "q");
    assert_eq!(shown(&update.cells, 0, 0), Some('q'));
    assert_eq!(shown(&update.cells, 1, 0), None);
}

#[test]
fn enter_appends_a_line_terminator() {
    let mut editor = editor_with("hi");
    let update = editor.on_event(KeyInput::Enter);
    assert_eq!(update.action, Action::Continue);
    assert_eq!(editor.buffer().text(), "hi\n");
    assert_eq!(shown(&update.cells, 2, 0), Some('\n'));
}

#[test]
fn escape_terminates_and_changes_nothing() {
    let mut editor = editor_with("hi");
    let update = editor.on_event(KeyInput::Esc);
    assert_eq!(update.action, Action::Exit);
    assert_eq!(editor.buffer().text(), "hi");
    assert_eq!(editor.scroll_offset(), 0);
}

#[test]
fn backspace_removes_the_last_character() {
    let mut editor = editor_with("hi");
    let update = editor.on_event(KeyInput::Backspace);
    assert_eq!(update.action, Action::Continue);
    assert_eq!(editor.buffer().text(), "h");
    assert_eq!(shown(&update.cells, 0, 0), Some('h'));
    assert_eq!(shown(&update.cells, 1, 0), None);
}

#[test]
fn backspace_on_empty_text_is_a_no_op() {
    let mut editor = editor_with("");
    let update = editor.on_event(KeyInput::Backspace);
    assert_eq!(update.action, Action::Continue);
    assert_eq!(editor.buffer().text(), "");
}

#[test]
fn scroll_up_at_the_top_stays_at_the_top() {
    let mut editor = editor_with("a");
    editor.scroll_up();
    assert_eq!(editor.scroll_offset(), 0);
    editor.on_event(KeyInput::Up);
    assert_eq!(editor.scroll_offset(), 0);
}

#[test]
fn scroll_up_goes_back_one_line() {
    let mut editor = editor_with("a");
    for _ in 0..5 {
        editor.scroll_down();
    }
    editor.scroll_up();
    assert_eq!(editor.scroll_offset(), 4);
    editor.on_event(KeyInput::Up);
    assert_eq!(editor.scroll_offset(), 3);
}

#[test]
fn scroll_down_is_not_bounded_by_the_text() {
    let mut editor = editor_with("one line");
    for _ in 0..100 {
        let update = editor.on_event(KeyInput::Down);
        assert_eq!(update.action, Action::Continue);
    }
    assert_eq!(editor.scroll_offset(), 100);
    assert_eq!(editor.buffer().text(), "one line");
}

#[test]
fn control_s_asks_for_a_save() {
    let mut editor = editor_with("text");
    let update = editor.on_event(KeyInput::Ctrl('s'));
    assert_eq!(update.action, Action::Save);
    assert_eq!(editor.buffer().text(), "text");
    assert_eq!(shown(&update.cells, 3, 0), Some('t'));
}

#[test]
fn control_f_clears_the_line_and_its_terminator() {
    let mut editor = editor_with("ab\ncd");
    let update = editor.on_event(KeyInput::Ctrl('f'));
    assert_eq!(update.action, Action::Continue);
    assert_eq!(editor.buffer().text(), "ab");
    assert_eq!(shown(&update.cells, 1, 0), Some('b'));
    assert_eq!(shown(&update.cells, 2, 0), None);
    assert_eq!(shown(&update.cells, 0, 1), None);
}

#[test]
fn control_f_on_a_single_line_empties_the_text() {
    let mut editor = editor_with("abc");
    editor.on_event(KeyInput::Ctrl('f'));
    assert_eq!(editor.buffer().text(), "");
}

#[test]
fn control_f_after_a_terminator_removes_only_the_terminator() {
    let mut editor = editor_with("ab\n");
    editor.on_event(KeyInput::Ctrl('f'));
    assert_eq!(editor.buffer().text(), "ab");
}

#[test]
fn control_f_on_empty_text_is_a_no_op() {
    let mut editor = editor_with("");
    editor.clear_line();
    assert_eq!(editor.buffer().text(), "");
}

#[test]
fn clear_line_keeps_earlier_lines() {
    let mut editor = editor_with("a\nb\nc");
    editor.clear_line();
    assert_eq!(editor.buffer().text(), "a\nb");
    editor.clear_line();
    assert_eq!(editor.buffer().text(), "a");
    editor.clear_line();
    assert_eq!(editor.buffer().text(), "");
}

#[test]
fn other_control_characters_are_ignored() {
    let mut editor = editor_with("ab");
    let update = editor.on_event(KeyInput::Ctrl('x'));
    assert_eq!(update.action, Action::Continue);
    assert_eq!(editor.buffer().text(), "ab");
    assert_eq!(editor.scroll_offset(), 0);
}

#[test]
fn other_events_are_ignored_but_still_drawn() {
    let mut editor = editor_with("ab");
    let update = editor.on_event(KeyInput::Other);
    assert_eq!(update.action, Action::Continue);
    assert_eq!(editor.buffer().text(), "ab");
    assert_eq!(shown(&update.cells, 0, 0), Some('a'));
    assert_eq!(shown(&update.cells, 1, 0), Some('b'));
}

#[test]
fn hooks_change_nothing() {
    let mut editor = editor_with("ab");
    editor.scroll_down();
    editor.on_start();
    editor.on_tick();
    assert_eq!(editor.buffer().text(), "ab");
    assert_eq!(editor.scroll_offset(), 1);
}

#[test]
fn editing_keeps_the_scroll_offset() {
    let mut editor = editor_with("ab");
    editor.scroll_down();
    editor.on_event(KeyInput::Char('c'));
    editor.on_event(KeyInput::Backspace);
    editor.on_event(KeyInput::Ctrl('f'));
    assert_eq!(editor.scroll_offset(), 1);
}
