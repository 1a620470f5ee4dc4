//! Frames, columns and highlights.

use taco::columns::{char_at_display_col, digits, display_col, gutter_width};
use taco::buffer::Buffer;
use taco::commands::ring::set_mark_command;
use taco::editor::Editor;
use taco::faces::FaceColor;
use taco::input::{InputMode, PromptKind};
use taco::render::{draw, draw_line, frame, highlight_ranges, syntax_ranges, DrawOp};
use taco::script::config::set_face_color;
use taco::script::named::buffer_add_face_span;
use taco::script::prompts::minibuffer_show_candidates;
use taco::script::text::set_buffer_string;
use taco::commands::files::switch_to_buffer_name;
use taco::treesit::{pick_node, spans_from, HighlightStep, SyntaxNode, SyntaxState, HIGHLIGHT_NAMES};
use taco::window::{Rect, SplitDir};

fn editor_with(text: &str) -> Editor {
    let mut ed = Editor::new();
    let (win, buf) = ed.cur();
    buf.insert(0, text);
    win.point = 0;
    ed
}

/// What is printed, cell by cell, by row; the last cursor position beside it.
fn screen(ops: &[DrawOp], w: usize, h: usize) -> (Vec<String>, Option<(u16, u16)>) {
    let mut rows = vec![vec![' '; w]; h];
    let (mut x, mut y) = (0usize, 0usize);
    let mut cursor = None;
    for op in ops {
        match op {
            DrawOp::MoveTo(a, b) => {
                x = *a as usize;
                y = *b as usize;
            }
            DrawOp::Print(s) => {
                for c in s.chars() {
                    if y < h && x < w {
                        rows[y][x] = c;
                    }
                    x += 1;
                }
            }
            DrawOp::ShowCursor => cursor = Some((x as u16, y as u16)),
            _ => {}
        }
    }
    (rows.into_iter().map(|r| r.into_iter().collect()).collect(), cursor)
}

#[test]
fn a_frame_shows_text_mode_line_and_echo() {
    let mut ed = editor_with("hello\nworld");
    ed.term_size = (40, 6);
    ed.windows.selected_mut().point = 8;
    ed.message("Hi");
    let ops = draw(&mut ed);
    assert!(matches!(ops[0], DrawOp::HideCursor));
    let (rows, cursor) = screen(&ops, 40, 6);
    assert_eq!(rows[0].trim_end(), "hello");
    assert_eq!(rows[1].trim_end(), "world");
    assert_eq!(rows[2].trim_end(), "");
    assert_eq!(rows[4], "-**- *scratch*   L2 C2  (Fundamental) --");
    assert_eq!(rows[5].trim_end(), "Hi");
    assert_eq!(cursor, Some((2, 1)));
}

#[test]
fn line_numbers_stand_in_a_gutter() {
    let mut ed = editor_with("a\nb");
    ed.term_size = (20, 5);
    ed.show_line_numbers = true;
    let (rows, cursor) = screen(&draw(&mut ed), 20, 5);
    assert_eq!(rows[0].trim_end(), " 1 a");
    assert_eq!(rows[1].trim_end(), " 2 b");
    assert_eq!(rows[2].trim_end(), "");
    assert_eq!(cursor, Some((3, 0)));
}

#[test]
fn split_windows_have_a_divider() {
    let mut ed = editor_with("left");
    ed.term_size = (21, 4);
    ed.windows.split(SplitDir::Right);
    let (rows, _) = screen(&draw(&mut ed), 21, 4);
    assert_eq!(rows[0], "left     │left       ");
    assert_eq!(&rows[2][..9], "-**- *scr");
}

#[test]
fn long_lines_are_cut_and_tabs_expanded() {
    let ed = editor_with("");
    let rect = Rect { x: 1, y: 2, w: 12, h: 3 };
    let mut ops = Vec::new();
    draw_line(&mut ops, &rect, 1, "a\tbcdefgh", &vec![], &vec![], &ed.faces);
    assert!(matches!(ops[0], DrawOp::MoveTo(1, 3)));
    let printed: String = ops
        .iter()
        .filter_map(|op| match op {
            DrawOp::Print(s) => Some(s.as_str()),
            _ => None,
        })
        .collect();
    assert_eq!(printed, "a       bcd$");
    let mut ops = Vec::new();
    draw_line(&mut ops, &rect, 0, "日本", &vec![], &vec![], &ed.faces);
    let printed: String = ops
        .iter()
        .filter_map(|op| match op {
            DrawOp::Print(s) => Some(s.as_str()),
            _ => None,
        })
        .collect();
    assert_eq!(printed, "日本        ");
}

#[test]
fn neighbouring_tokens_keep_their_own_colors() {
    let ed = editor_with("");
    let rect = Rect { x: 0, y: 0, w: 10, h: 2 };
    let mut ops = Vec::new();
    let colors = vec![(0, 1, FaceColor::Red), (1, 2, FaceColor::Blue)];
    draw_line(&mut ops, &rect, 0, "ab", &vec![], &colors, &ed.faces);
    let mut color = None;
    let mut printed = Vec::new();
    for op in &ops {
        match op {
            DrawOp::Foreground(c) => color = Some(*c),
            DrawOp::ResetColors => color = None,
            DrawOp::Print(s) => printed.push((s.clone(), color)),
            _ => {}
        }
    }
    assert_eq!(printed[0], ("a".to_string(), Some(FaceColor::Red)));
    assert_eq!(printed[1], ("b".to_string(), Some(FaceColor::Blue)));
    assert_eq!(printed[2], (" ".repeat(8), None));
}

#[test]
fn highlights_win_over_colors() {
    let ed = editor_with("");
    let rect = Rect { x: 0, y: 0, w: 8, h: 2 };
    let mut ops = Vec::new();
    let colors = vec![(0, 3, FaceColor::Red)];
    draw_line(&mut ops, &rect, 0, "abcd", &vec![(1, 2)], &colors, &ed.faces);
    let shape: Vec<&str> = ops
        .iter()
        .map(|op| match op {
            DrawOp::MoveTo(..) => "move",
            DrawOp::Print(_) => "print",
            DrawOp::Foreground(FaceColor::Red) => "red",
            DrawOp::Reverse => "reverse",
            DrawOp::ResetAttributes => "plain",
            DrawOp::ResetColors => "colorless",
            _ => "other",
        })
        .collect();
    assert_eq!(
        shape,
        vec![
            "move", "plain", "colorless", "red", "print", "plain", "colorless", "reverse", "print",
            "plain", "colorless", "red", "print", "plain", "colorless", "print", "print",
        ]
    );
}

#[test]
fn regions_and_matches_are_highlighted() {
    let mut ed = editor_with("hello\nworld");
    set_mark_command(&mut ed, None);
    assert_eq!(highlight_ranges(&ed, ed.cur_buffer(), 8, 0), vec![(0, 5)]);
    assert_eq!(highlight_ranges(&ed, ed.cur_buffer(), 8, 1), vec![(0, 2)]);
    assert!(highlight_ranges(&ed, ed.cur_buffer(), 8, 7).is_empty());
    ed.rect_mode = true;
    assert_eq!(highlight_ranges(&ed, ed.cur_buffer(), 8, 0), vec![(0, 2)]);
}

#[test]
fn drawing_brings_point_on_screen() {
    let text: String = (0..60).map(|i| format!("line {i}\n")).collect();
    let mut ed = editor_with(&text);
    ed.term_size = (20, 12);
    let p = ed.cur_buffer().line_to_char(40);
    ed.windows.selected_mut().point = p;
    let (rows, cursor) = screen(&draw(&mut ed), 20, 12);
    assert_eq!(ed.windows.selected_ref().top_line, 31);
    assert_eq!(rows[9].trim_end(), "line 40");
    assert_eq!(cursor, Some((0, 9)));
}

#[test]
fn windows_shrink_with_their_buffer() {
    let mut ed = editor_with("a\nb\nc\nd");
    ed.windows.selected_mut().point = 7;
    ed.windows.selected_mut().top_line = 3;
    ed.cur_buffer_mut().set_text("x");
    draw(&mut ed);
    assert_eq!(ed.windows.selected_ref().point, 1);
    assert_eq!(ed.windows.selected_ref().top_line, 0);
}

#[test]
fn candidates_stand_above_the_prompt() {
    let mut ed = editor_with("text");
    ed.term_size = (20, 12);
    ed.prompt(PromptKind::ExecuteCommand, "M-x ");
    let all: Vec<String> = (0..10).map(|i| format!("cand {i}")).collect();
    minibuffer_show_candidates(&mut ed, all, 5);
    assert!(matches!(ed.input, InputMode::Prompt(_)));
    let ops = frame(&ed);
    let (rows, cursor) = screen(&ops, 20, 12);
    // Six rows, the selection in the middle.
    assert_eq!(rows[5].trim_end(), "cand 2");
    assert_eq!(rows[10].trim_end(), "cand 7");
    assert_eq!(rows[11].trim_end(), "M-x");
    assert_eq!(cursor, Some((4, 11)));
    assert_eq!(&rows[4][..5], "-**- ");
    assert_eq!(ops.iter().filter(|op| matches!(op, DrawOp::Reverse)).count(), 2);
}

#[test]
fn columns_count_tabs_and_wide_chars() {
    let b = Buffer::new(0, "t", "a\tb日c\u{0}d");
    assert_eq!(display_col(&b, 2), 8);
    assert_eq!(display_col(&b, 4), 11);
    assert_eq!(display_col(&b, 6), 12);
    assert_eq!(char_at_display_col(&b, 0, 7), 1);
    assert_eq!(char_at_display_col(&b, 0, 10), 3);
    assert_eq!(char_at_display_col(&b, 0, 99), 7);
    assert_eq!(digits(0), 1);
    assert_eq!(digits(1000), 4);
    let mut ed = editor_with("x");
    assert_eq!(gutter_width(&ed, ed.cur_buffer(), &Rect { x: 0, y: 0, w: 80, h: 24 }), 0);
    ed.show_line_numbers = true;
    assert_eq!(gutter_width(&ed, ed.cur_buffer(), &Rect { x: 0, y: 0, w: 80, h: 24 }), 3);
    assert_eq!(gutter_width(&ed, ed.cur_buffer(), &Rect { x: 0, y: 0, w: 4, h: 24 }), 2);
}

#[test]
fn face_spans_render_and_clear() {
    let mut ed = Editor::new();
    set_face_color(&mut ed, "compilation-error", "red");
    switch_to_buffer_name(&mut ed, "*results*");
    set_buffer_string(&mut ed, "foo.c:3:1: error\nok line");
    buffer_add_face_span(&mut ed, "*results*", 0, 7, "compilation-error".to_string());
    {
        let buf = ed.cur_buffer();
        assert_eq!(buf.face_spans, vec![(0, 7, "compilation-error".to_string())]);
        let ranges = syntax_ranges(buf, &ed.faces, 0);
        assert_eq!(ranges.len(), 1);
        assert_eq!((ranges[0].0, ranges[0].1), (0, 7));
        // Line 1 is untouched.
        assert!(syntax_ranges(buf, &ed.faces, 1).is_empty());
    }
    // Regenerating the content invalidates the (static) spans.
    set_buffer_string(&mut ed, "regenerated");
    assert!(ed.cur_buffer().face_spans.is_empty());
}

fn node(kind: &str, start: usize, end: usize) -> SyntaxNode {
    SyntaxNode { kind: kind.to_string(), start, end }
}

#[test]
fn nodes_are_picked_from_the_inside_or_the_outside() {
    let rope = ropey::Rope::from_str("é(a(b))");
    let nodes = vec![node("symbol", 5, 6), node("list", 4, 7), node("list", 2, 8), node("source", 0, 8)];
    let kinds = vec!["list".to_string()];
    assert_eq!(pick_node(&rope, &nodes, &kinds, false), Some((3, 6)));
    assert_eq!(pick_node(&rope, &nodes, &kinds, true), Some((1, 7)));
    assert_eq!(pick_node(&rope, &nodes, &vec!["string".to_string()], false), None);
}

#[test]
fn highlight_names_are_indexed() {
    assert_eq!(HIGHLIGHT_NAMES.len(), 32);
    assert_eq!(HIGHLIGHT_NAMES[14], "keyword");
}

#[test]
fn spans_take_the_innermost_highlight() {
    let rope = ropey::Rope::from_str("é fn x");
    let steps = vec![
        HighlightStep::Source(0, 3),
        HighlightStep::Start(14),
        HighlightStep::Source(3, 5),
        HighlightStep::Start(29),
        HighlightStep::Source(5, 6),
        HighlightStep::End,
        HighlightStep::Source(6, 7),
        HighlightStep::End,
    ];
    let spans = spans_from(&rope, &steps);
    let keyword = "keyword".to_string();
    let variable = "variable".to_string();
    assert_eq!(spans, vec![(2, 4, keyword.clone()), (4, 5, variable), (5, 6, keyword)]);
}

#[test]
fn spans_stop_where_highlighting_failed() {
    let rope = ropey::Rope::from_str("ab");
    let steps = vec![
        HighlightStep::End,
        HighlightStep::Start(3),
        HighlightStep::Source(0, 1),
        HighlightStep::Failed,
        HighlightStep::Source(1, 2),
    ];
    assert_eq!(spans_from(&rope, &steps), vec![(0, 1, "comment".to_string())]);
    let past_the_end = vec![HighlightStep::Start(3), HighlightStep::Source(0, 9)];
    assert!(spans_from(&rope, &past_the_end).is_empty());
}

#[test]
fn no_highlight_state_without_a_configuration() {
    assert!(SyntaxState::with_config("rust", None).is_none());
}

#[test]
fn a_point_beyond_the_window_has_no_cursor() {
    let mut ed = editor_with(&"a".repeat(65600));
    ed.term_size = (80, 24);
    ed.windows.selected_mut().point = 65540;
    assert_eq!(screen(&draw(&mut ed), 80, 24).1, None);
    ed.windows.selected_mut().point = 4;
    assert_eq!(screen(&draw(&mut ed), 80, 24).1, Some((4, 0)));
}
