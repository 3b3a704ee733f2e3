use revi_core::api::{ContextRhaiApi, KeyMapApi};
use revi_core::bindings::{KeyBindingTable, LookupKind};
use revi_core::buffer::TextBuffer;
use revi_core::command::Command;
use revi_core::context::{Action, EditorContext};
use revi_core::editor::Editor;
use revi_core::keys::Key;
use revi_core::mode::Mode;

fn line_string(b: &TextBuffer, row: usize) -> String {
    b.line_chars(row).into_iter().collect()
}

fn ctx(text: &str) -> EditorContext {
    EditorContext::new("main.txt".to_string(), text, 80, 24)
}

fn focused_line(c: &EditorContext, row: usize) -> String {
    line_string(c.focused_buffer(), row)
}

#[test]
fn buffer_from_text_splits_lines() {
    let b = TextBuffer::from_text("t".to_string(), "abc\nde");
    assert_eq!(b.line_count(), 2);
    assert_eq!(b.line_len(0), 3);
    assert_eq!(b.line_len(1), 2);
    assert_eq!(line_string(&b, 0), "abc");
    assert_eq!(line_string(&b, 1), "de");
}

#[test]
fn buffer_trailing_break_yields_empty_last_line() {
    let b = TextBuffer::from_text("t".to_string(), "abc\n");
    assert_eq!(b.line_count(), 2);
    assert_eq!(b.line_len(1), 0);
}

#[test]
fn cursor_down_clamps_to_short_line() {
    // Buffer ["abc", "de"], cursor at (0, 2): moving down lands at (1, 1)
    // because line 1 keeps only columns 0..=1, while the sticky column
    // stays 2.
    let mut c = ctx("abc\nde");
    c.execute(&Command::CursorRight, 2);
    assert_eq!(c.focused_buffer().get_row(), 0);
    assert_eq!(c.focused_buffer().get_col(), 2);
    c.execute(&Command::CursorDown, 1);
    assert_eq!(c.focused_buffer().get_row(), 1);
    assert_eq!(c.focused_buffer().get_col(), 1);
    assert_eq!(c.focused_buffer().get_sticky(), 2);
}

#[test]
fn sticky_column_restored_across_short_line() {
    let mut c = ctx("abcdef\nab\nabcdef");
    c.execute(&Command::CursorRight, 4);
    c.execute(&Command::CursorDown, 1);
    assert_eq!(c.focused_buffer().get_col(), 1);
    c.execute(&Command::CursorDown, 1);
    assert_eq!(c.focused_buffer().get_col(), 4);
    assert_eq!(c.focused_buffer().get_sticky(), 4);
}

#[test]
fn insert_two_chars_in_empty_buffer() {
    // Empty buffer: InsertChar('x') then InsertChar('y') gives line "xy"
    // and column 2.
    let mut c = ctx("");
    c.execute(&Command::InsertChar('x'), 1);
    c.execute(&Command::InsertChar('y'), 1);
    assert_eq!(focused_line(&c, 0), "xy");
    assert_eq!(c.focused_buffer().get_col(), 2);
}

#[test]
fn newline_splits_line_at_cursor() {
    let mut c = ctx("abcd");
    c.execute(&Command::CursorRight, 2);
    c.execute(&Command::NewLine, 1);
    assert_eq!(c.focused_buffer().line_count(), 2);
    assert_eq!(focused_line(&c, 0), "ab");
    assert_eq!(focused_line(&c, 1), "cd");
    assert_eq!(c.focused_buffer().get_row(), 1);
    assert_eq!(c.focused_buffer().get_col(), 0);
}

#[test]
fn backspace_removes_char_and_joins_lines() {
    let mut c = ctx("ab\ncd");
    c.execute(&Command::CursorDown, 1);
    c.execute(&Command::Backspace, 1);
    assert_eq!(c.focused_buffer().line_count(), 1);
    assert_eq!(focused_line(&c, 0), "abcd");
    assert_eq!(c.focused_buffer().get_row(), 0);
    assert_eq!(c.focused_buffer().get_col(), 2);
}

#[test]
fn backspace_at_buffer_start_is_noop() {
    let mut c = ctx("ab");
    c.execute(&Command::Backspace, 1);
    assert_eq!(focused_line(&c, 0), "ab");
    assert_eq!(c.focused_buffer().get_col(), 0);
}

#[test]
fn delete_char_joins_next_line_at_line_end() {
    let mut c = ctx("ab\ncd");
    c.execute(&Command::End, 1);
    c.execute(&Command::DeleteChar, 1);
    assert_eq!(c.focused_buffer().line_count(), 1);
    assert_eq!(focused_line(&c, 0), "abcd");
}

#[test]
fn delete_char_mid_line() {
    let mut c = ctx("abc");
    c.execute(&Command::CursorRight, 1);
    c.execute(&Command::DeleteChar, 1);
    assert_eq!(focused_line(&c, 0), "ac");
}

#[test]
fn delete_line_then_paste_round_trips_register() {
    // DeleteLine captures the removed text; Paste reinserts it below the
    // cursor, reproducing the deleted line exactly.
    let mut c = ctx("alpha\nbeta\ngamma");
    c.execute(&Command::DeleteLine, 1);
    assert_eq!(c.clipboard_ref().iter().collect::<String>(), "alpha");
    assert_eq!(c.focused_buffer().line_count(), 2);
    assert_eq!(focused_line(&c, 0), "beta");
    c.execute(&Command::Paste, 1);
    assert_eq!(c.focused_buffer().line_count(), 3);
    assert_eq!(c.focused_buffer().get_row(), 1);
    assert_eq!(focused_line(&c, 1), "alpha");
}

#[test]
fn delete_only_line_leaves_one_empty_line() {
    let mut c = ctx("solo");
    c.execute(&Command::DeleteLine, 1);
    assert_eq!(c.focused_buffer().line_count(), 1);
    assert_eq!(c.focused_buffer().line_len(0), 0);
    assert_eq!(c.clipboard_ref().iter().collect::<String>(), "solo");
}

#[test]
fn yank_line_copies_without_deleting() {
    let mut c = ctx("one\ntwo");
    c.execute(&Command::YankLine, 1);
    assert_eq!(c.clipboard_ref().iter().collect::<String>(), "one");
    assert_eq!(c.focused_buffer().line_count(), 2);
}

#[test]
fn paste_back_does_not_move_cursor() {
    let mut c = ctx("one\ntwo");
    c.execute(&Command::YankLine, 1);
    c.execute(&Command::PasteBack, 1);
    assert_eq!(c.focused_buffer().line_count(), 3);
    assert_eq!(c.focused_buffer().get_row(), 0);
    assert_eq!(focused_line(&c, 1), "one");
}

#[test]
fn save_emits_full_content_and_reload_round_trips() {
    // Save hands out exactly the buffer's joined lines; rebuilding a
    // buffer from that text restores the same lines.
    let mut c = ctx("hello\nworld");
    let acts = c.execute(&Command::Save, 1);
    assert_eq!(acts.len(), 1);
    match &acts[0] {
        Action::SaveFile { path, content } => {
            assert_eq!(path, "main.txt");
            assert_eq!(content, "hello\nworld");
            let reloaded = TextBuffer::from_text(path.clone(), content);
            assert_eq!(reloaded.line_count(), 2);
            assert_eq!(line_string(&reloaded, 0), "hello");
            assert_eq!(line_string(&reloaded, 1), "world");
        }
        _ => panic!("expected a save request"),
    }
}

#[test]
fn quit_clears_running_flag() {
    let mut c = ctx("x");
    assert!(c.is_running());
    c.execute(&Command::Quit, 1);
    assert!(!c.is_running());
}

#[test]
fn insert_tab_inserts_width_plus_count_spaces() {
    let mut c = ctx("");
    c.execute(&Command::InsertTab, 1);
    assert_eq!(focused_line(&c, 0), "     ");
    assert_eq!(c.focused_buffer().get_col(), 5);
}

#[test]
fn first_char_in_line_skips_blanks() {
    let mut c = ctx("  x");
    c.execute(&Command::End, 1);
    c.execute(&Command::FirstCharInLine, 1);
    assert_eq!(c.focused_buffer().get_col(), 2);
}

#[test]
fn word_motion_stops_at_class_changes() {
    let mut c = ctx("foo bar");
    c.execute(&Command::MoveForwardByWord, 1);
    assert_eq!(c.focused_buffer().get_col(), 3);
    c.execute(&Command::MoveForwardByWord, 1);
    assert_eq!(c.focused_buffer().get_col(), 4);
    c.execute(&Command::MoveBackwardByWord, 1);
    assert_eq!(c.focused_buffer().get_col(), 3);
    c.execute(&Command::MoveBackwardByWord, 1);
    assert_eq!(c.focused_buffer().get_col(), 0);
}

#[test]
fn word_motion_is_noop_at_line_end() {
    let mut c = ctx("ab");
    c.execute(&Command::End, 1);
    let col = c.focused_buffer().get_col();
    c.execute(&Command::MoveForwardByWord, 1);
    assert_eq!(c.focused_buffer().get_col(), col);
}

#[test]
fn jump_commands_hit_first_and_last_line() {
    let mut c = ctx("a\nb\nc");
    c.execute(&Command::JumpToLastLineBuffer, 1);
    assert_eq!(c.focused_buffer().get_row(), 2);
    c.execute(&Command::JumpToFirstLineBuffer, 1);
    assert_eq!(c.focused_buffer().get_row(), 0);
}

#[test]
fn scroll_clamps_to_viewport_bound() {
    // Four lines in a two-line window: the scroll row may go down to 2
    // (line_count - height) and no further.
    let mut c = EditorContext::new("m".to_string(), "a\nb\nc\nd", 80, 2);
    c.execute(&Command::ScrollDown, 10);
    assert_eq!(c.focused_buffer().get_scroll(), 2);
    c.execute(&Command::ScrollUp, 1);
    assert_eq!(c.focused_buffer().get_scroll(), 1);
    c.execute(&Command::ScrollUp, 10);
    assert_eq!(c.focused_buffer().get_scroll(), 0);
}

#[test]
fn scroll_stays_put_when_everything_is_visible() {
    // Two lines fully visible in a 24-line viewport: scrolling down does
    // not move the window.
    let mut c = ctx("a\nb");
    c.execute(&Command::ScrollDown, 5);
    assert_eq!(c.focused_buffer().get_scroll(), 0);
}

#[test]
fn on_screen_returns_visible_lines() {
    let c = ctx("a\nb\nc");
    let v = c.on_screen(1, 2);
    assert_eq!(v.len(), 2);
    assert_eq!(v[0].iter().collect::<String>(), "a");
    assert_eq!(v[1].iter().collect::<String>(), "b");
}

#[test]
fn command_line_executes_ex_command_and_mode_persists() {
    // EnterCommandMode, typing "q", then ExecuteCommandLine hands "q" (the
    // leading marker stripped) to the ex-command interpreter; the mode
    // returns to Normal only on a later ExitCommandMode.
    let mut c = ctx("text");
    c.execute(&Command::EnterCommandMode, 1);
    assert_eq!(c.get_mode(), Mode::CommandLine);
    assert_eq!(c.get_focused(), 0);
    c.execute(&Command::InsertChar('q'), 1);
    let acts = c.execute(&Command::ExecuteCommandLine, 1);
    assert_eq!(acts.len(), 1);
    match &acts[0] {
        Action::RunCommandLine(line) => {
            assert_eq!(line.iter().collect::<String>(), "q");
        }
        _ => panic!("expected an ex-command hand-off"),
    }
    assert_eq!(c.get_mode(), Mode::CommandLine);
    c.execute(&Command::ExitCommandMode, 1);
    assert_eq!(c.get_mode(), Mode::Normal);
    assert_eq!(c.get_focused(), 1);
}

#[test]
fn command_line_script_marker_forwards_to_host() {
    let mut c = ctx("text");
    c.execute(&Command::EnterCommandMode, 1);
    for ch in "lua print(1)".chars() {
        c.execute(&Command::InsertChar(ch), 1);
    }
    let acts = c.execute(&Command::ExecuteCommandLine, 1);
    assert_eq!(acts.len(), 1);
    match &acts[0] {
        Action::EvalScript(src) => {
            assert_eq!(src.iter().collect::<String>(), "print(1)");
        }
        _ => panic!("expected a script evaluation request"),
    }
}

#[test]
fn command_line_script_marker_without_body_reports_error() {
    let mut c = ctx("text");
    c.execute(&Command::EnterCommandMode, 1);
    for ch in "lua".chars() {
        c.execute(&Command::InsertChar(ch), 1);
    }
    let acts = c.execute(&Command::ExecuteCommandLine, 1);
    assert_eq!(acts.len(), 0);
    assert!(c.status_ref().is_some());
}

#[test]
fn execute_command_line_outside_command_window_is_noop() {
    let mut c = ctx("text");
    let acts = c.execute(&Command::ExecuteCommandLine, 1);
    assert!(acts.is_empty());
}

#[test]
fn close_window_with_no_other_window_is_refused() {
    // Closing when only the command-line pane would remain is refused with
    // a status message; nothing panics and the window stays.
    let mut c = ctx("text");
    let before = c.window_count();
    c.execute(&Command::CloseWindow, 1);
    assert_eq!(c.window_count(), before);
    assert!(c.status_ref().is_some());
    c.execute(&Command::EnterCommandMode, 1);
    c.execute(&Command::CloseWindow, 1);
    assert_eq!(c.window_count(), before);
}

#[test]
fn unbound_stub_commands_do_not_crash() {
    let mut c = ctx("text");
    assert!(c.execute(&Command::JumpListBack, 1).is_empty());
    assert!(c.execute(&Command::JumpListForward, 1).is_empty());
    assert!(c.execute(&Command::Undo, 1).is_empty());
}

#[test]
fn print_sets_status_message() {
    let mut c = ctx("text");
    c.execute(&Command::Print("hi".to_string()), 1);
    assert_eq!(c.status_ref().as_deref(), Some("hi"));
}

#[test]
fn list_buffers_reports_names() {
    let mut c = ctx("text");
    c.execute(&Command::ListBuffers, 1);
    assert_eq!(c.status_ref().as_deref(), Some("main.txt\n"));
}

#[test]
fn chord_count_prefix_multiplies_motion() {
    let mut e = Editor::new("t".to_string(), "a\nb\nc\nd", 80, 24);
    e.bind(Mode::Normal, vec![Key::Char('j')], Command::CursorDown);
    e.handle_key(Key::Char('3'));
    e.handle_key(Key::Char('j'));
    assert_eq!(e.context_ref().focused_buffer().get_row(), 3);
}

#[test]
fn chord_prefix_waits_and_longer_binding_fires() {
    let mut e = Editor::new("t".to_string(), "a\nb", 80, 24);
    e.bind(
        Mode::Normal,
        vec![Key::Char('d'), Key::Char('d')],
        Command::DeleteLine,
    );
    e.handle_key(Key::Char('d'));
    assert_eq!(e.context_ref().focused_buffer().line_count(), 2);
    assert!(!e.parser_ref().pending_is_empty());
    e.handle_key(Key::Char('d'));
    assert_eq!(e.context_ref().focused_buffer().line_count(), 1);
    assert!(e.parser_ref().pending_is_empty());
}

#[test]
fn ambiguous_shorter_binding_waits_for_more_input() {
    let mut e = Editor::new("t".to_string(), "ab", 80, 24);
    e.bind(Mode::Normal, vec![Key::Char('d')], Command::DeleteChar);
    e.bind(
        Mode::Normal,
        vec![Key::Char('d'), Key::Char('d')],
        Command::DeleteLine,
    );
    e.handle_key(Key::Char('d'));
    // The one-key binding matches but a longer one shares the prefix, so
    // nothing fires yet.
    assert_eq!(e.context_ref().focused_buffer().line_len(0), 2);
    e.handle_key(Key::Char('d'));
    assert_eq!(e.context_ref().focused_buffer().line_count(), 1);
    assert_eq!(e.context_ref().focused_buffer().line_len(0), 0);
}

#[test]
fn classification_is_deterministic_for_same_sequence() {
    let mut t = KeyBindingTable::new();
    t.bind(
        Mode::Normal,
        vec![Key::Char('d'), Key::Char('d')],
        Command::DeleteLine,
    );
    let seq = [Key::Char('d')];
    let first = t.classify(Mode::Normal, &seq);
    let second = t.classify(Mode::Normal, &seq);
    assert_eq!(first, second);
    assert_eq!(first, LookupKind::Prefix);
    assert_eq!(t.classify(Mode::Normal, &[Key::Char('x')]), LookupKind::NoMatch);
}

#[test]
fn rebinding_replaces_old_command() {
    let mut e = Editor::new("t".to_string(), "a\nb\nc", 80, 24);
    e.bind(Mode::Normal, vec![Key::Char('g')], Command::CursorDown);
    e.bind(Mode::Normal, vec![Key::Char('g')], Command::JumpToLastLineBuffer);
    e.handle_key(Key::Char('g'));
    assert_eq!(e.context_ref().focused_buffer().get_row(), 2);
}

#[test]
fn escape_cancels_pending_chord_without_firing() {
    // Escape in the middle of chord accumulation grounds the parser and
    // fires nothing, whatever was pending.
    let mut e = Editor::new("t".to_string(), "a\nb", 80, 24);
    e.bind(
        Mode::Normal,
        vec![Key::Char('d'), Key::Char('d')],
        Command::DeleteLine,
    );
    e.handle_key(Key::Char('4'));
    e.handle_key(Key::Char('d'));
    assert!(!e.parser_ref().pending_is_empty());
    e.handle_key(Key::Esc);
    assert!(e.parser_ref().pending_is_empty());
    assert_eq!(e.parser_ref().resolved_count(), 1);
    assert_eq!(e.context_ref().focused_buffer().line_count(), 2);
    e.handle_key(Key::Char('d'));
    e.handle_key(Key::Char('d'));
    assert_eq!(e.context_ref().focused_buffer().line_count(), 1);
}

#[test]
fn escape_leaves_insert_mode() {
    let mut e = Editor::new("t".to_string(), "", 80, 24);
    e.bind(
        Mode::Normal,
        vec![Key::Char('i')],
        Command::ChangeMode(Mode::Insert),
    );
    e.handle_key(Key::Char('i'));
    assert_eq!(e.context_ref().get_mode(), Mode::Insert);
    e.handle_key(Key::Char('h'));
    e.handle_key(Key::Char('i'));
    assert_eq!(line_string(e.context_ref().focused_buffer(), 0), "hi");
    e.handle_key(Key::Esc);
    assert_eq!(e.context_ref().get_mode(), Mode::Normal);
}

#[test]
fn digits_are_literal_in_insert_mode() {
    let mut e = Editor::new("t".to_string(), "", 80, 24);
    e.bind(
        Mode::Normal,
        vec![Key::Char('i')],
        Command::ChangeMode(Mode::Insert),
    );
    e.handle_key(Key::Char('i'));
    e.handle_key(Key::Char('7'));
    assert_eq!(line_string(e.context_ref().focused_buffer(), 0), "7");
}

#[test]
fn next_window_skips_command_pane() {
    let mut c = ctx("text");
    c.execute(&Command::NextWindow, 1);
    assert_eq!(c.get_focused(), 1);
}

#[test]
fn scripting_facade_moves_cursor_and_sets_rows() {
    let e = Editor::new("t".to_string(), "a\nb\nc", 80, 2);
    let mut api = ContextRhaiApi(e);
    api.move_cursor_down();
    assert_eq!(api.0.context_ref().focused_buffer().get_row(), 1);
    api.window_set_cursor_row(99);
    assert_eq!(api.0.context_ref().focused_buffer().get_row(), 2);
    api.window_set_cursor_row(-5);
    assert_eq!(api.0.context_ref().focused_buffer().get_row(), 0);
    api.window_set_scroll_row(5);
    assert_eq!(api.0.context_ref().focused_buffer().get_scroll(), 1);
    api.window_set_scroll_row(-3);
    assert_eq!(api.0.context_ref().focused_buffer().get_scroll(), 0);
}

#[test]
fn scripting_facade_registers_binding_that_invokes_token() {
    let e = Editor::new("t".to_string(), "x", 80, 24);
    let mut api = ContextRhaiApi(e);
    api.keymap_nmap("q", 7);
    let mut e = api.0;
    let acts = e.handle_key(Key::Char('q'));
    assert_eq!(acts.len(), 1);
    match &acts[0] {
        Action::Invoke(tok) => assert_eq!(*tok, 7),
        _ => panic!("expected a host invocation request"),
    }
}

#[test]
fn keymap_facade_binds_combo() {
    let mut km = KeyMapApi(KeyBindingTable::new());
    km.nmap("dd", 3);
    let seq = [Key::Char('d'), Key::Char('d')];
    assert_eq!(km.0.classify(Mode::Normal, &seq), LookupKind::CompleteUnique);
}

#[test]
fn insert_line_and_delete_line_by_index() {
    let mut b = TextBuffer::from_text("t".to_string(), "a\nc");
    let mid: Vec<char> = "b".chars().collect();
    b.insert_line(1, &mid);
    assert_eq!(b.line_count(), 3);
    assert_eq!(line_string(&b, 1), "b");
    let removed = b.delete_line(1);
    assert_eq!(removed.iter().collect::<String>(), "b");
    assert_eq!(b.line_count(), 2);
    assert_eq!(line_string(&b, 0), "a");
    assert_eq!(line_string(&b, 1), "c");
}

#[test]
fn home_and_end_update_sticky() {
    let mut b = TextBuffer::from_text("t".to_string(), "abcd");
    b.end_of_line();
    assert_eq!(b.get_col(), 4);
    assert_eq!(b.get_sticky(), 4);
    b.home();
    assert_eq!(b.get_col(), 0);
    assert_eq!(b.get_sticky(), 0);
}

#[test]
fn insert_text_splits_on_embedded_breaks() {
    let mut b = TextBuffer::from_text("t".to_string(), "AB");
    b.move_right(1);
    let text: Vec<char> = "x\nyz".chars().collect();
    b.insert_text(&text);
    assert_eq!(b.line_count(), 2);
    assert_eq!(line_string(&b, 0), "Ax");
    assert_eq!(line_string(&b, 1), "yzB");
    assert_eq!(b.get_row(), 1);
    assert_eq!(b.get_col(), 2);
}


#[test]
fn add_buffer_extends_the_listing() {
    let mut c = ctx("one");
    c.add_buffer("other.txt".to_string(), "two");
    assert_eq!(c.buffer_count(), 3);
    c.execute(&Command::ListBuffers, 1);
    assert_eq!(c.status_ref().as_deref(), Some("main.txt\nother.txt\n"));
}

#[test]
fn add_window_focuses_it_and_close_window_removes_it() {
    let mut c = ctx("one");
    let bi = c.add_buffer("other.txt".to_string(), "two");
    let wi = c.add_window(bi, 80, 10);
    assert_eq!(c.get_focused(), wi);
    assert_eq!(focused_line(&c, 0), "two");
    c.execute(&Command::NextWindow, 1);
    assert_eq!(c.get_focused(), 1);
    c.execute(&Command::NextWindow, 1);
    assert_eq!(c.get_focused(), wi);
    let before = c.window_count();
    c.execute(&Command::CloseWindow, 1);
    assert_eq!(c.window_count(), before - 1);
    assert_eq!(c.get_focused(), 1);
    assert_eq!(focused_line(&c, 0), "one");
}

#[test]
fn unmapped_chord_reports_status_in_normal_mode() {
    let mut e = Editor::new("t".to_string(), "x", 80, 24);
    let acts = e.handle_key(Key::Char('z'));
    assert!(acts.is_empty());
    assert!(e.parser_ref().pending_is_empty());
    assert_eq!(
        e.context_ref().status_ref().as_deref(),
        Some("unmapped")
    );
}

#[test]
fn screen_cursor_is_relative_to_scroll_window() {
    let mut c = EditorContext::new("m".to_string(), "a\nbb\nccc\ndddd", 80, 2);
    c.execute(&Command::CursorDown, 2);
    c.execute(&Command::ScrollDown, 1);
    let (x, y) = c.screen_cursor();
    assert_eq!(x, 0);
    assert_eq!(y, 1);
}

#[test]
fn save_as_targets_the_given_path() {
    let c = ctx("body");
    match c.save_as("elsewhere.txt".to_string()) {
        Action::SaveFile { path, content } => {
            assert_eq!(path, "elsewhere.txt");
            assert_eq!(content, "body");
        }
        _ => panic!("expected a save request"),
    }
}

#[test]
fn count_digits_accumulate_into_the_multiplier() {
    let mut e = Editor::new("t".to_string(), "a\nb\nc\nd\ne\nf\ng\nh\ni\nj\nk\nl\nm", 80, 24);
    e.bind(Mode::Normal, vec![Key::Char('j')], Command::CursorDown);
    e.handle_key(Key::Char('1'));
    e.handle_key(Key::Char('2'));
    assert_eq!(e.parser_ref().resolved_count(), 12);
    e.handle_key(Key::Char('j'));
    assert_eq!(e.context_ref().focused_buffer().get_row(), 12);
}
