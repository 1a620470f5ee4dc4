//! Commands on the current buffer, searches, rectangles and the mouse.

use taco::commands::basic::{check_editable, keyboard_quit, self_insert};
use taco::commands::editing::{
    delete_backward_char, delete_char, delete_horizontal_space, downcase_word, indent_line, newline, newline_and_indent,
    open_line, transpose_chars, undo_cmd, upcase_word,
};
use taco::commands::files::{
    find_file_path, kill_buffer, save_buffer, save_buffers_kill_terminal, save_done,
    switch_to_buffer_name, FileAt,
};
use taco::commands::movement::{
    backward_word, beginning_of_buffer, end_of_buffer, end_of_line, forward_char, forward_word,
    goto_line, next_line, previous_line, scroll_up_command, word_end_after, word_start_before,
};
use taco::commands::ring::{
    kill_line, kill_region, kill_ring_save, kill_word, set_mark_command, yank, yank_pop,
};
use taco::commands::run::install;
use taco::commands::windows::{delete_window, other_window, split_window_below};
use taco::editor::Editor;
use taco::input::{InputMode, PostAction, Task};
use taco::keys::parse_seq;
use taco::mouse::{click, drag, handle, scroll, MouseEvent, MouseKind};
use taco::rect::apply_string_rectangle;
use taco::search::{
    find_match, isearch_backward, isearch_forward, isearch_key, query_replace_key, repeat_isearch,
    start_query_replace,
};

use taco::buffer::Buffer;

fn editor_with(text: &str) -> Editor {
    let mut ed = Editor::new();
    let (win, buf) = ed.cur();
    buf.insert(0, text);
    win.point = 0;
    ed
}

fn text_of(ed: &Editor) -> String {
    ed.cur_buffer().to_string_lossless()
}

fn point_of(ed: &Editor) -> usize {
    ed.windows.selected_ref().point
}

fn set_point(ed: &mut Editor, p: usize) {
    ed.windows.selected_mut().point = p;
}

#[test]
fn open_line_keeps_point() {
    let mut ed = Editor::new();
    {
        let (win, buf) = ed.cur();
        buf.insert(0, "ab");
        win.point = 1;
    }
    open_line(&mut ed, None);
    assert_eq!(ed.cur_buffer().to_string_lossless(), "a\nb");
    assert_eq!(ed.windows.selected_ref().point, 1);
    open_line(&mut ed, Some(2));
    assert_eq!(ed.cur_buffer().to_string_lossless(), "a\n\n\nb");
    assert_eq!(ed.windows.selected_ref().point, 1);
}

#[test]
fn word_boundaries() {
    let b = Buffer::new(0, "t", "foo bar-baz  qux");
    assert_eq!(word_end_after(&b, 0), 3);
    assert_eq!(word_end_after(&b, 3), 7);
    assert_eq!(word_end_after(&b, 7), 11);
    assert_eq!(word_end_after(&b, 11), 16);
    assert_eq!(word_start_before(&b, 16), 13);
    assert_eq!(word_start_before(&b, 13), 8);
    assert_eq!(word_start_before(&b, 3), 0);
}

#[test]
fn word_boundaries_unicode() {
    let b = Buffer::new(0, "t", "héllo wörld");
    assert_eq!(word_end_after(&b, 0), 5);
    assert_eq!(word_end_after(&b, 5), 11);
}

#[test]
fn lines_keep_the_goal_column() {
    let mut ed = editor_with("long line\nab\nanother one");
    set_point(&mut ed, 6);
    next_line(&mut ed, None);
    assert_eq!(point_of(&ed), 12);
    next_line(&mut ed, None);
    assert_eq!(point_of(&ed), 19);
    previous_line(&mut ed, Some(2));
    assert_eq!(point_of(&ed), 6);
}

#[test]
fn motions_stop_at_the_ends() {
    let mut ed = editor_with("one two");
    forward_char(&mut ed, Some(100));
    assert_eq!(point_of(&ed), 7);
    backward_word(&mut ed, None);
    assert_eq!(point_of(&ed), 4);
    beginning_of_buffer(&mut ed, None);
    forward_word(&mut ed, Some(2));
    assert_eq!(point_of(&ed), 7);
    goto_line(&mut ed, 99);
    assert_eq!(point_of(&ed), 0);
}

#[test]
fn a_screenful_keeps_two_lines() {
    let text: String = (0..60).map(|i| format!("line {i}\n")).collect();
    let mut ed = editor_with(&text);
    ed.term_size = (80, 24);
    scroll_up_command(&mut ed, None);
    assert_eq!(ed.windows.selected_ref().top_line, 20);
}

#[test]
fn case_goes_to_the_end_of_the_word() {
    let mut ed = editor_with("straße Blue");
    upcase_word(&mut ed, None);
    assert_eq!(text_of(&ed), "STRASSE Blue");
    assert_eq!(point_of(&ed), 7);
    downcase_word(&mut ed, None);
    assert_eq!(text_of(&ed), "STRASSE blue");
}

#[test]
fn chars_are_transposed_and_deleted() {
    let mut ed = editor_with("abcd");
    set_point(&mut ed, 2);
    transpose_chars(&mut ed, None);
    assert_eq!(text_of(&ed), "acbd");
    assert_eq!(point_of(&ed), 3);
    delete_char(&mut ed, None);
    delete_backward_char(&mut ed, Some(2));
    assert_eq!(text_of(&ed), "a");
    assert_eq!(point_of(&ed), 1);
}

#[test]
fn white_space_goes_and_comes() {
    let mut ed = editor_with("a   b");
    set_point(&mut ed, 3);
    delete_horizontal_space(&mut ed, None);
    assert_eq!(text_of(&ed), "ab");
    let mut ed = editor_with("  foo");
    end_of_line(&mut ed, None);
    newline_and_indent(&mut ed, None);
    assert_eq!(text_of(&ed), "  foo\n  ");
}

#[test]
fn read_only_buffers_refuse_edits() {
    let mut ed = editor_with("x");
    ed.cur_buffer_mut().read_only = true;
    assert!(!check_editable(&mut ed));
    self_insert(&mut ed, 'y', None);
    assert_eq!(text_of(&ed), "x");
    assert_eq!(ed.echo.as_deref(), Some("Buffer is read-only"));
}

#[test]
fn a_run_of_typing_is_one_undo() {
    let mut ed = editor_with("ab");
    set_point(&mut ed, 1);
    ed.cur_buffer_mut().undo.push_boundary();
    self_insert(&mut ed, 'x', None);
    self_insert(&mut ed, 'y', Some(3));
    self_insert(&mut ed, 'z', None);
    assert_eq!(text_of(&ed), "axyyyzb");
    ed.cur_buffer_mut().undo.push_boundary();
    undo_cmd(&mut ed, None);
    assert_eq!(text_of(&ed), "ab");
    assert_eq!(point_of(&ed), 1);
}

#[test]
fn a_count_of_none_inserts_nothing() {
    let mut ed = Editor::new();
    self_insert(&mut ed, 'x', Some(0));
    assert_eq!(text_of(&ed), "");
    assert_eq!(point_of(&ed), 0);
    newline(&mut ed, Some(0));
    assert_eq!(text_of(&ed), "\n");
    let mut ed = keyed_editor("");
    press_all(&mut ed, "C-u 0 x C-u 2 y");
    assert_eq!(text_of(&ed), "yy");
}

#[test]
fn only_moves_in_a_row_share_a_column() {
    let mut ed = keyed_editor("abcdef\n\nabcdef\nabcdef");
    set_point(&mut ed, 4);
    press_all(&mut ed, "C-n C-n");
    assert_eq!(point_of(&ed), 12);
    set_point(&mut ed, 4);
    press_all(&mut ed, "C-n x C-n");
    assert_eq!(point_of(&ed), 10);
}

#[test]
fn typing_after_a_kill_is_undone_alone() {
    let mut ed = keyed_editor("hello");
    press_all(&mut ed, "C-k a b");
    assert_eq!(text_of(&ed), "ab");
    press_all(&mut ed, "C-/");
    assert_eq!(text_of(&ed), "");
    press_all(&mut ed, "C-/");
    assert_eq!(text_of(&ed), "hello");
}

#[test]
fn indentation_passes_over_blank_lines() {
    let mut ed = editor_with("  x\n   \ny");
    set_point(&mut ed, 8);
    indent_line(&mut ed, None);
    assert_eq!(text_of(&ed), "  x\n   \n  y");
    assert_eq!(point_of(&ed), 10);
}

#[test]
fn the_default_buffer_is_never_the_current_one() {
    let mut ed = Editor::new();
    ed.term_size = (80, 24);
    split_window_below(&mut ed, None);
    switch_to_buffer_name(&mut ed, "a");
    // The upper window shows "a", the lower one *scratch*.
    click(&mut ed, 0, 20);
    assert_eq!(ed.cur_buffer().name, "*scratch*");
    assert_eq!(ed.recency[0], ed.cur_buffer().id);
    switch_to_buffer_name(&mut ed, "");
    assert_eq!(ed.cur_buffer().name, "a");
    switch_to_buffer_name(&mut ed, "");
    assert_eq!(ed.cur_buffer().name, "*scratch*");
    delete_window(&mut ed, None);
    assert_eq!(ed.cur_buffer().name, "a");
    assert_eq!(ed.recency[0], ed.cur_buffer().id);
    switch_to_buffer_name(&mut ed, "");
    assert_eq!(ed.cur_buffer().name, "*scratch*");
}

#[test]
fn mouse_events_that_change_nothing_say_so() {
    let mut ed = editor_with("one\ntwo");
    ed.term_size = (80, 24);
    let wheel = MouseEvent { kind: MouseKind::ScrollUp, column: 0, row: 0 };
    assert!(!handle(&mut ed, wheel));
    assert_eq!(point_of(&ed), 0);
    let down = MouseEvent { kind: MouseKind::ScrollDown, column: 0, row: 0 };
    assert!(handle(&mut ed, down));
    let outside = MouseEvent { kind: MouseKind::ScrollDown, column: 200, row: 0 };
    assert!(!handle(&mut ed, outside));
    // The mode line of the only window.
    let bar = MouseEvent { kind: MouseKind::DownLeft, column: 3, row: 22 };
    assert!(!handle(&mut ed, bar));
    ed.cur_buffer_mut().mark = Some(0);
    assert!(handle(&mut ed, bar));
}

#[test]
fn undo_goes_back_command_by_command() {
    let mut ed = editor_with("");
    ed.cur_buffer_mut().undo.push_boundary();
    self_insert(&mut ed, 'a', Some(3));
    ed.cur_buffer_mut().undo.push_boundary();
    self_insert(&mut ed, 'b', None);
    assert_eq!(text_of(&ed), "aaab");
    undo_cmd(&mut ed, None);
    assert_eq!(text_of(&ed), "aaa");
    assert_eq!(ed.echo.as_deref(), Some("Undo!"));
    undo_cmd(&mut ed, Some(2));
    assert_eq!(text_of(&ed), "");
    assert_eq!(ed.echo.as_deref(), Some("No further undo information"));
}

#[test]
fn kills_come_back() {
    let mut ed = editor_with("one two\nthree");
    kill_word(&mut ed, None);
    assert_eq!(text_of(&ed), " two\nthree");
    yank(&mut ed, None);
    assert_eq!(text_of(&ed), "one two\nthree");
    kill_line(&mut ed, None);
    assert_eq!(text_of(&ed), "one\nthree");
    ed.last_command = Some("kill-line".into());
    kill_line(&mut ed, None);
    assert_eq!(text_of(&ed), "onethree");
    assert_eq!(ed.kill_ring.yank(), Some(" two\n"));
}

#[test]
fn yank_pop_takes_the_kill_before() {
    let mut ed = editor_with("");
    yank_pop(&mut ed, None);
    assert_eq!(ed.echo.as_deref(), Some("Previous command was not a yank"));
    ed.kill_ring.push("old".into());
    ed.kill_ring.push("new".into());
    yank(&mut ed, None);
    ed.last_command = Some("yank".into());
    yank_pop(&mut ed, None);
    assert_eq!(text_of(&ed), "old");
    assert_eq!(ed.last_yank, Some((0, 3)));
}

#[test]
fn regions_are_copied_and_killed() {
    let mut ed = editor_with("hello world");
    set_mark_command(&mut ed, None);
    set_point(&mut ed, 5);
    kill_ring_save(&mut ed, None);
    assert_eq!(ed.kill_ring.yank(), Some("hello"));
    set_mark_command(&mut ed, None);
    set_point(&mut ed, 11);
    kill_region(&mut ed, None);
    assert_eq!(text_of(&ed), "hello");
    assert_eq!(point_of(&ed), 5);
}

#[test]
fn string_rectangle_replaces_columns() {
    let mut ed = Editor::new();
    let id = ed.create_buffer("t", "aaaa\nbbbb\ncccc\n");
    ed.show_buffer(id);
    // Anchor at line 0 col 1, point at line 2 col 3.
    {
        let (win, buf) = ed.cur();
        buf.mark = Some(1);
        buf.mark_active = true;
        win.point = 13; // line 2 (chars 10..14), col 3
    }
    ed.rect_mode = true;
    apply_string_rectangle(&mut ed, "XY");
    assert_eq!(ed.cur_buffer().to_string_lossless(), "aXYa\nbXYb\ncXYc\n");
}

#[test]
fn find_forward_and_backward() {
    let text = "foo bar foo baz foo";
    let re = "foo";
    assert_eq!(find_match(text, re, 0, true), Some((0, 3)));
    assert_eq!(find_match(text, re, 1, true), Some((8, 11)));
    assert_eq!(find_match(text, re, 18, false), Some((16, 19)));
    assert_eq!(find_match(text, re, 16, false), Some((8, 11)));
    assert_eq!(find_match(text, re, 3, false), Some((0, 3)));
    assert_eq!(find_match(text, re, 0, false), None);
}

#[test]
fn unicode_offsets() {
    let text = "héllo wörld wörld";
    let re = "wörld";
    assert_eq!(find_match(text, re, 0, true), Some((6, 11)));
    assert_eq!(find_match(text, re, 7, true), Some((12, 17)));
}

#[test]
fn incremental_search_comes_back_on_quit() {
    let mut ed = editor_with("one two three two");
    isearch_forward(&mut ed, None);
    for c in parse_seq("t w o").unwrap() {
        isearch_key(&mut ed, c);
    }
    assert_eq!(point_of(&ed), 7);
    assert!(matches!(&ed.input, InputMode::ISearch(s) if s.current == Some((4, 7))));
    keyboard_quit(&mut ed, None);
    assert_eq!(point_of(&ed), 0);
    assert!(matches!(ed.input, InputMode::Normal));
    assert_eq!(ed.echo.as_deref(), Some("Quit"));
}

#[test]
fn a_wrapped_search_goes_on_past_its_matches() {
    let mut ed = editor_with("foo bar foo");
    isearch_forward(&mut ed, None);
    for c in parse_seq("f o o").unwrap() {
        isearch_key(&mut ed, c);
    }
    let at = |ed: &Editor| match &ed.input {
        InputMode::ISearch(s) => (s.current, s.failed, s.wrapped),
        _ => panic!("no search"),
    };
    assert_eq!(at(&ed), (Some((0, 3)), false, false));
    repeat_isearch(&mut ed, true);
    assert_eq!(at(&ed), (Some((8, 11)), false, false));
    repeat_isearch(&mut ed, true);
    assert_eq!(at(&ed), (Some((8, 11)), true, false));
    repeat_isearch(&mut ed, true);
    assert_eq!(at(&ed), (Some((0, 3)), false, true));
    repeat_isearch(&mut ed, true);
    assert_eq!(at(&ed), (Some((8, 11)), false, true));
    assert_eq!(point_of(&ed), 11);
}

#[test]
fn a_backward_search_extends_its_match_in_place() {
    let mut ed = editor_with("foo bar foo");
    set_point(&mut ed, 11);
    isearch_backward(&mut ed, None);
    for c in parse_seq("f o o").unwrap() {
        isearch_key(&mut ed, c);
        assert_eq!(point_of(&ed), 8);
    }
    repeat_isearch(&mut ed, false);
    assert_eq!(point_of(&ed), 0);
}

#[test]
fn empty_matches_do_not_loop() {
    let mut ed = editor_with("abc");
    start_query_replace(&mut ed, "x*".into(), "y".into());
    query_replace_key(&mut ed, parse_seq("!").unwrap()[0]);
    assert!(matches!(ed.input, InputMode::Normal));
    assert_eq!(text_of(&ed), "yaybycy");
    assert_eq!(ed.echo.as_deref(), Some("Replaced 4 occurrences"));
    let mut ed = editor_with("ab");
    start_query_replace(&mut ed, "$".into(), "!".into());
    query_replace_key(&mut ed, parse_seq("n").unwrap()[0]);
    assert!(matches!(ed.input, InputMode::Normal));
    assert_eq!(text_of(&ed), "ab");
}

#[test]
fn query_replace_expands_groups() {
    let mut ed = editor_with("ab cb xb");
    start_query_replace(&mut ed, "(.)b".into(), "<$1>".into());
    assert!(matches!(&ed.input, InputMode::QueryReplace(s) if s.current == Some((0, 2))));
    query_replace_key(&mut ed, parse_seq("y").unwrap()[0]);
    query_replace_key(&mut ed, parse_seq("n").unwrap()[0]);
    query_replace_key(&mut ed, parse_seq("!").unwrap()[0]);
    assert_eq!(text_of(&ed), "<a> cb <x>");
    assert!(matches!(ed.input, InputMode::Normal));
}

#[test]
fn bad_patterns_are_reported() {
    let mut ed = editor_with("x");
    start_query_replace(&mut ed, "(".into(), "".into());
    assert!(matches!(ed.input, InputMode::Normal));
    assert!(ed.echo.is_some());
    assert_eq!(find_match("x", "(", 0, true), None);
}

#[test]
fn click_maps_cell_to_point() {
    let mut ed = editor_with("hello\nwor\tld\nlast");
    ed.term_size = (80, 24);
    // Row 1 col 2 -> line 1 char 2 ('r').
    click(&mut ed, 2, 1);
    assert_eq!(ed.windows.selected_ref().point, 8);
    // The tab spans columns 3..8 on line 1: clicking inside it lands on
    // the tab char itself.
    click(&mut ed, 5, 1);
    assert_eq!(ed.windows.selected_ref().point, 9);
    // Past the end of a line clamps to its end.
    click(&mut ed, 70, 0);
    assert_eq!(ed.windows.selected_ref().point, 5);
    // Below the last line clamps to the last line.
    click(&mut ed, 0, 20);
    assert_eq!(ed.windows.selected_ref().point, 13);
}

#[test]
fn click_accounts_for_gutter() {
    let mut ed = editor_with("hello\nworld");
    ed.term_size = (80, 24);
    ed.show_line_numbers = true; // gutter is 3 cells wide (" 1 ")
    click(&mut ed, 3, 0);
    assert_eq!(ed.windows.selected_ref().point, 0);
    click(&mut ed, 5, 0);
    assert_eq!(ed.windows.selected_ref().point, 2);
}

#[test]
fn wheel_scrolls_without_moving_point_until_pushed() {
    let text: String = (0..60).map(|i| format!("line {i}\n")).collect();
    let mut ed = editor_with(&text);
    ed.term_size = (80, 24); // 23 rows of windows, 22 text rows
    scroll(&mut ed, 0, 0, 3);
    let win = ed.windows.selected_ref();
    assert_eq!(win.top_line, 3);
    // Point (line 0) was pushed off the top: clamped to first visible.
    let line_of_point = 3; // "line 3" starts the view
    assert_eq!(line_at(&ed, win.point), line_of_point);
    // Scrolling back up: point stays put once visible.
    scroll(&mut ed, 0, 0, -3);
    let win = ed.windows.selected_ref();
    assert_eq!(win.top_line, 0);
    assert_eq!(line_at(&ed, win.point), 3);
    // Top clamps at 0.
    scroll(&mut ed, 0, 0, -3);
    assert_eq!(ed.windows.selected_ref().top_line, 0);
}

fn line_at(ed: &Editor, point: usize) -> usize {
    ed.cur_buffer().char_to_line(point)
}

#[test]
fn drag_selects_region_from_press_anchor() {
    let mut ed = editor_with("hello\nworld\nlast");
    ed.term_size = (80, 24);
    click(&mut ed, 2, 0); // press at line 0 char 2
    assert_eq!(ed.mouse_drag, Some((ed.windows.selected, 2)));
    assert!(!ed.cur_buffer().mark_active);
    assert!(drag(&mut ed, 3, 1)); // drag to line 1 char 3
    let buf = ed.cur_buffer();
    assert_eq!(buf.mark, Some(2));
    assert!(buf.mark_active);
    assert_eq!(ed.windows.selected_ref().point, 9);
    // Releasing keeps the region but needs no redraw.
    let up = MouseEvent { kind: MouseKind::UpLeft, column: 3, row: 1 };
    assert!(!handle(&mut ed, up));
    assert!(ed.cur_buffer().mark_active);
    assert_eq!(ed.mouse_drag, None);
}

#[test]
fn click_deactivates_existing_region() {
    let mut ed = editor_with("hello\nworld");
    ed.term_size = (80, 24);
    {
        let (win, buf) = ed.cur();
        win.point = 4;
        buf.mark = Some(0);
        buf.mark_active = true;
    }
    click(&mut ed, 1, 1);
    let buf = ed.cur_buffer();
    assert!(!buf.mark_active);
    assert_eq!(buf.mark, None);
    assert_eq!(ed.windows.selected_ref().point, 7);
}

#[test]
fn ignored_events_do_not_request_redraw() {
    let mut ed = editor_with("hello");
    ed.term_size = (80, 24);
    let moved = MouseEvent { kind: MouseKind::Other, column: 1, row: 0 };
    assert!(!handle(&mut ed, moved));
    // A drag with no preceding press changes nothing.
    assert!(!drag(&mut ed, 1, 0));
    // A drag onto the mode line changes nothing.
    click(&mut ed, 1, 0);
    assert!(!drag(&mut ed, 1, 23));
}

fn press_all(ed: &mut Editor, keys: &str) -> PostAction {
    let mut last = PostAction::Nothing;
    for c in parse_seq(keys).unwrap() {
        last = ed.press(c).unwrap();
    }
    last
}

fn keyed_editor(text: &str) -> Editor {
    let mut ed = editor_with(text);
    install(&mut ed);
    for (keys, cmd) in [
        ("C-f", "forward-char"),
        ("C-n", "next-line"),
        ("C-x C-s", "save-buffer"),
        ("M-x", "execute-extended-command"),
        ("C-k", "kill-line"),
        ("C-/", "undo"),
    ] {
        ed.global_map.bind(&parse_seq(keys).unwrap(), cmd);
    }
    ed
}

#[test]
fn keys_run_commands() {
    let mut ed = keyed_editor("hello");
    press_all(&mut ed, "C-f C-u 3 C-f");
    assert_eq!(point_of(&ed), 4);
    press_all(&mut ed, "x RET backspace");
    assert_eq!(text_of(&ed), "hellxo");
    press_all(&mut ed, "C-k C-/");
    assert_eq!(text_of(&ed), "hellxo");
    press_all(&mut ed, "C-x z");
    assert_eq!(ed.echo.as_deref(), Some("C-x z is undefined"));
    press_all(&mut ed, "C-x C-g");
    assert_eq!(ed.echo.as_deref(), Some("Quit"));
    assert!(ed.pending.is_empty());
}

#[test]
fn minibuffer_line_editing() {
    let mut ed = keyed_editor("");
    press_all(&mut ed, "M-x");
    press_all(&mut ed, "y a n k s");
    // C-b back over "s", C-d deletes it; C-a then C-f C-f, C-k kills
    // the tail, leaving "ya".
    press_all(&mut ed, "C-b C-d C-a C-f C-f C-k");
    {
        let InputMode::Prompt(p) = &ed.input else { panic!() };
        assert_eq!(p.input, "ya");
        assert_eq!(p.cursor, 2);
        assert!(p.completions.is_empty(), "no completion UI without a plugin");
    }
    // C-e/C-a position; insertion lands at the cursor.
    press_all(&mut ed, "C-a n o C-e");
    {
        let InputMode::Prompt(p) = &ed.input else { panic!() };
        assert_eq!(p.input, "noya");
        assert_eq!(p.cursor, 4);
    }
    // The C-k'd tail went to the kill ring (C-d deletes silently).
    assert_eq!(ed.kill_ring.yank(), Some("nk"));
    press_all(&mut ed, "C-g");
    assert!(matches!(ed.input, InputMode::Normal));
}

#[test]
fn commands_run_by_name() {
    let mut ed = keyed_editor("abc");
    press_all(&mut ed, "M-x f o r w a r d - c h a r RET");
    assert_eq!(point_of(&ed), 1);
    press_all(&mut ed, "M-x n o - s u c h RET");
    assert_eq!(ed.echo.as_deref(), Some("No such command: no-such"));
}

#[test]
fn a_log_left_behind_stops_only_undo() {
    let undo = parse_seq("C-/").unwrap()[0];
    let mut ed = keyed_editor("hello");
    set_point(&mut ed, 5);
    press_all(&mut ed, "x");
    assert!(ed.can_press(undo));
    ed.cur_buffer_mut().set_text("");
    assert!(!ed.can_press(undo));
    assert!(ed.press(undo).is_none());
    assert!(ed.can_execute("forward-char") && !ed.can_execute("undo"));
    press_all(&mut ed, "C-f y C-g");
    assert_eq!(text_of(&ed), "y");
    // The newest group lies in the text; the one before it does not.
    assert!(ed.can_press(undo));
    press_all(&mut ed, "C-/");
    assert_eq!(text_of(&ed), "");
    assert!(!ed.can_press(undo));
}

#[test]
fn files_are_visited_and_saved() {
    let mut ed = keyed_editor("");
    find_file_path(&mut ed, "/tmp/notes.txt", FileAt::File(Ok("text".into())));
    assert_eq!(ed.cur_buffer().name, "notes.txt");
    assert!(ed.file_visited);
    assert!(matches!(save_buffer(&mut ed, None), PostAction::Nothing));
    assert_eq!(ed.echo.as_deref(), Some("(No changes need to be saved)"));
    press_all(&mut ed, "x");
    match save_buffer(&mut ed, None) {
        PostAction::Outside(Task::Save { path, text }) => {
            assert_eq!(path, "/tmp/notes.txt");
            assert_eq!(text, "xtext");
        }
        other => panic!("{other:?}"),
    }
    save_done(&mut ed, None);
    assert!(!ed.cur_buffer().modified);
    assert_eq!(ed.echo.as_deref(), Some("Wrote /tmp/notes.txt"));
    // The same path again shows the same buffer.
    let n = ed.buffers.len();
    switch_to_buffer_name(&mut ed, "*scratch*");
    find_file_path(&mut ed, "/tmp/notes.txt", FileAt::Missing);
    assert_eq!(ed.buffers.len(), n);
    assert_eq!(ed.cur_buffer().name, "notes.txt");
}

#[test]
fn modified_files_are_asked_about() {
    let mut ed = keyed_editor("");
    find_file_path(&mut ed, "/tmp/a.txt", FileAt::Missing);
    press_all(&mut ed, "x");
    save_buffers_kill_terminal(&mut ed, None);
    assert!(!ed.quit);
    assert!(matches!(ed.input, InputMode::Prompt(_)));
    press_all(&mut ed, "n");
    assert!(!ed.quit);
    kill_buffer(&mut ed, None);
    press_all(&mut ed, "y");
    assert_eq!(ed.cur_buffer().name, "*scratch*");
    save_buffers_kill_terminal(&mut ed, None);
    assert!(ed.quit);
}

#[test]
fn windows_follow_commands() {
    let mut ed = keyed_editor("abc");
    split_window_below(&mut ed, None);
    end_of_buffer(&mut ed, None);
    other_window(&mut ed, None);
    assert_eq!(point_of(&ed), 0);
    delete_window(&mut ed, None);
    assert_eq!(point_of(&ed), 3);
    assert_eq!(ed.windows.leaves().len(), 1);
}
