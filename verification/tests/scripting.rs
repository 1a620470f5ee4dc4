//! What the extension language asks of the editor.

use taco::commands::files::switch_to_buffer_name;
use taco::commands::run::install;
use taco::editor::Editor;
use taco::input::{InputMode, PostAction, PromptKind, Task};
use taco::keyloop::{next_deferred, take_file_visited, DRAIN_LIMIT};
use taco::keymap::Lookup;
use taco::keys::parse_seq;
use taco::native::NativeCmd;
use taco::script::config::{
    bind_in, buffer_local_get, buffer_local_set, call_native, define_command, get_option,
    is_explicit, minibuffer_set_key, register_directory_opener, set_buffer_mode_name,
    set_face_color, set_option, tree_sit_enable, tree_sit_node_range_at_point, use_local_map,
};
use taco::script::help::{
    buffer_list, buffer_local_keys, buffer_names, command_bindings, command_doc, command_names,
    directory_files, window_width,
};
use taco::script::named::{
    buffer_append_in, buffer_clear_face_spans, buffer_local_get_in, buffer_local_set_in,
    buffer_add_face_span, set_buffer_mode_name_in,
};
use taco::script::prompts::{
    delete_minibuffer_contents, minibuffer_completion_kind, minibuffer_contents,
    minibuffer_prompt, minibuffer_show_candidates, minibufferp, read_key_sequence, read_string,
    set_minibuffer_contents, y_or_n_p,
};
use taco::script::records::directory_entries;
use taco::dired::listing::RawEntry;
use taco::script::text::{
    buffer_file_name, buffer_lines, buffer_modified, buffer_string, char_after, char_before,
    current_buffer, deactivate_mark, delete_region, goto_char, goto_line, insert_text,
    line_number, mark, mark_active, point, set_buffer_read_only, set_buffer_string, set_mark,
};
use taco::script::texts::{
    diff_unified, file_name_extension, file_name_only, filter_matching, filter_suffix,
    parent_directory, positions_of_groups, regexp_match, regexp_match_positions, regexp_matches,
    result_string, string_lines, texts_of_groups,
};
use taco::value::SchemeVal;

fn strings(items: &[&str]) -> Vec<String> {
    items.iter().map(|s| s.to_string()).collect()
}

#[test]
fn set_mark_from_scheme() {
    let mut ed = Editor::new();
    ed.cur_buffer_mut().set_text("hello world");
    goto_char(&mut ed, 0);
    set_mark(&mut ed, 5);
    {
        let buf = ed.cur_buffer();
        assert_eq!(buf.mark, Some(5));
        assert!(buf.mark_active);
        assert_eq!(buf.region(0), Some((0, 5)));
    }
    deactivate_mark(&mut ed);
    assert!(!ed.cur_buffer().mark_active);
}

#[test]
fn regexp_capture_primitives() {
    assert_eq!(
        regexp_match("([a-z./]+):([0-9]+)", "src/main.rs:42: error"),
        Some(strings(&["src/main.rs:42", "src/main.rs", "42"]))
    );
    assert_eq!(regexp_match("z", "no match at all"), None);
    // "é" is 1 char / 2 bytes: char-correct offsets put the match at 2..4.
    assert_eq!(regexp_match_positions("[0-9]+", "é 42", 0), Some(vec![Some((2, 4))]));
    // Invalid pattern is #f, not an error (same contract as regexp-match?).
    assert_eq!(regexp_match("(", "x"), None);
}

#[test]
fn groups_that_take_no_part_are_empty() {
    assert_eq!(regexp_match("(a)|(b)", "b"), Some(strings(&["b", "", "b"])));
    assert_eq!(
        regexp_match_positions("(a)|(b)", "éb", -3),
        Some(vec![Some((1, 2)), None, Some((1, 2))])
    );
    assert_eq!(regexp_match_positions("b", "bab", 1), Some(vec![Some((2, 3))]));
    assert_eq!(texts_of_groups("éab", &vec![Some((2, 3)), None]), strings(&["a", ""]));
    assert_eq!(positions_of_groups("éab", &vec![Some((2, 4))]), vec![Some((1, 3))]);
    assert!(regexp_matches("^a.c$", "abc"));
    assert!(!regexp_matches("^a.c$", "abcd"));
    assert!(!regexp_matches("(", "("));
}

#[test]
fn append_to_buffer_follows_tail_point() {
    let mut ed = Editor::new();
    let id = ed.create_buffer("*out*", "abc");
    ed.show_buffer(id);
    ed.windows.selected_mut().point = 3; // at old end: follows
    ed.append_to_buffer(id, "def\n");
    assert_eq!(ed.cur_buffer().to_string_lossless(), "abcdef\n");
    assert_eq!(ed.windows.selected_ref().point, 7);
    assert!(!ed.cur_buffer().modified);

    // Point moved away by the user stays put.
    ed.windows.selected_mut().point = 1;
    ed.append_to_buffer(id, "more");
    assert_eq!(ed.windows.selected_ref().point, 1);

    // Nothing to undo: generated output isn't an edit.
    assert!(ed.cur_buffer_mut().undo_group().is_none());
}

#[test]
fn steel_contract_end_to_end() {
    let mut ed = Editor::new();
    install(&mut ed);
    bind_in(&mut ed, None, "C-x C-f", "find-file");
    bind_in(&mut ed, Some("dired-mode-map".to_string()), "% m", "dired-mark-regexp");
    assert_eq!(
        ed.global_map.lookup(&parse_seq("C-x C-f").unwrap()),
        Lookup::Cmd("find-file".into())
    );
    assert_eq!(
        ed.keymaps.get("dired-mode-map").unwrap().lookup(&parse_seq("% m").unwrap()),
        Lookup::Cmd("dired-mark-regexp".into())
    );

    insert_text(&mut ed, "hello world");
    call_native(&mut ed, NativeCmd::BeginningOfLine);
    call_native(&mut ed, NativeCmd::ForwardWord);
    define_command(
        &mut ed,
        "my-shout".to_string(),
        "Upcase the word after point".to_string(),
        SchemeVal::Ref(7),
    );
    bind_in(&mut ed, None, "C-c s", "my-shout");

    assert_eq!(ed.cur_buffer().to_string_lossless(), "hello world");
    assert_eq!(ed.windows.selected_ref().point, 5);
    assert!(ed.registry.contains_key("my-shout"));

    // Drive the command through the key dispatcher.
    let mut post = PostAction::Nothing;
    for chord in parse_seq("C-c s").unwrap() {
        post = ed.press(chord).unwrap();
    }
    match post {
        PostAction::RunScheme(SchemeVal::Ref(7), args) => {
            assert!(args.is_empty());
            call_native(&mut ed, NativeCmd::UpcaseWord);
        }
        _ => panic!("C-c s did not resolve to the Scheme command"),
    }
    assert_eq!(ed.cur_buffer().to_string_lossless(), "hello WORLD");
}

#[test]
fn text_is_edited_at_positions() {
    let mut ed = Editor::new();
    insert_text(&mut ed, "one two\nthree");
    assert_eq!(point(&ed), 13);
    assert_eq!(line_number(&ed), 2);
    assert_eq!(char_after(&ed), "");
    assert_eq!(char_before(&ed), "e");
    delete_region(&mut ed, 7, 3);
    assert_eq!(buffer_string(&ed), "one\nthree");
    assert_eq!(point(&ed), 9);
    delete_region(&mut ed, -5, 4);
    assert_eq!(buffer_string(&ed), "three");
    goto_char(&mut ed, 2);
    delete_region(&mut ed, 1, 99);
    assert_eq!((buffer_string(&ed).as_str(), point(&ed)), ("t", 1));
    goto_char(&mut ed, -1);
    assert_eq!(char_after(&ed), "t");
    assert_eq!(char_before(&ed), "");
    assert!(buffer_modified(&ed));
    set_buffer_read_only(&mut ed, true);
    insert_text(&mut ed, "x");
    delete_region(&mut ed, 0, 1);
    assert_eq!(buffer_string(&ed), "t");
    assert_eq!(ed.echo.as_deref(), Some("Buffer is read-only"));
    set_buffer_string(&mut ed, "a\nb\n");
    assert_eq!(buffer_lines(&ed), strings(&["a", "b", ""]));
    goto_line(&mut ed, -4);
    assert_eq!(point(&ed), 0);
    goto_line(&mut ed, 2);
    assert_eq!(point(&ed), 2);
    assert_eq!(current_buffer(&ed), "*scratch*");
    assert_eq!(buffer_file_name(&ed), "");
    assert_eq!(mark(&ed), -1);
    assert!(!mark_active(&ed));
    set_mark(&mut ed, 99);
    assert_eq!(mark(&ed), 4);
}

#[test]
fn prompts_are_driven_from_outside() {
    let mut ed = Editor::new();
    install(&mut ed);
    assert!(!minibufferp(&ed));
    assert_eq!(minibuffer_contents(&ed), "");
    read_string(&mut ed, "Name: ", "ab".to_string(), "buffer".to_string(), SchemeVal::Ref(1));
    assert!(minibufferp(&ed));
    assert_eq!(minibuffer_prompt(&ed), "Name: ");
    assert_eq!(minibuffer_contents(&ed), "ab");
    assert_eq!(minibuffer_completion_kind(&ed), "buffer");
    set_minibuffer_contents(&mut ed, "xyz".to_string());
    minibuffer_show_candidates(&mut ed, strings(&["a", "b"]), 9);
    {
        let InputMode::Prompt(p) = &ed.input else { panic!() };
        assert_eq!((p.cursor, p.selected), (3, 1));
    }
    delete_minibuffer_contents(&mut ed);
    assert_eq!(minibuffer_contents(&ed), "");
    set_minibuffer_contents(&mut ed, "done".to_string());
    assert!(ed.press_return());
    assert!(!minibufferp(&ed));
    match next_deferred(&mut ed, 0) {
        Some(PostAction::RunScheme(SchemeVal::Ref(1), args)) => {
            assert!(matches!(&args[0], SchemeVal::Str(s) if s == "done"))
        }
        other => panic!("{other:?}"),
    }
    assert!(next_deferred(&mut ed, 1).is_none());
    y_or_n_p(&mut ed, "Sure? ", SchemeVal::Ref(2));
    match ed.press(parse_seq("y").unwrap()[0]).unwrap() {
        PostAction::RunScheme(SchemeVal::Ref(2), args) => assert!(args.is_empty()),
        other => panic!("{other:?}"),
    }
    ed.prompt(PromptKind::GotoLine, "Goto line: ");
    assert_eq!(minibuffer_completion_kind(&ed), "");
}

#[test]
fn key_sequences_are_read_for_closures() {
    let mut ed = Editor::new();
    install(&mut ed);
    bind_in(&mut ed, None, "C-x C-f", "find-file");
    read_key_sequence(&mut ed, "Key: ", SchemeVal::Ref(3));
    assert_eq!(ed.echo.as_deref(), Some("Key: "));
    for c in parse_seq("C-x C-f").unwrap() {
        ed.press(c).unwrap();
    }
    match next_deferred(&mut ed, 0) {
        Some(PostAction::RunScheme(SchemeVal::Ref(3), args)) => {
            assert!(matches!(&args[0], SchemeVal::Str(s) if s == "C-x C-f"));
            assert!(matches!(&args[1], SchemeVal::Str(s) if s == "find-file"));
        }
        other => panic!("{other:?}"),
    }
}

#[test]
fn the_queue_has_a_limit() {
    let mut ed = Editor::new();
    ed.deferred.push(PostAction::Nothing);
    assert!(next_deferred(&mut ed, DRAIN_LIMIT).is_none());
    assert_eq!(ed.echo.as_deref(), Some("Deferred action limit reached (plugin loop?)"));
    assert_eq!(ed.deferred.len(), 1);
    ed.file_visited = true;
    assert!(take_file_visited(&mut ed));
    assert!(!take_file_visited(&mut ed));
}

#[test]
fn options_and_faces_are_set() {
    let mut ed = Editor::new();
    set_option(&mut ed, "display-line-numbers", &SchemeVal::Int(1));
    assert!(get_option(&ed, "display-line-numbers"));
    set_option(&mut ed, "display-line-numbers", &SchemeVal::Bool(false));
    assert!(!get_option(&ed, "display-line-numbers"));
    set_option(&mut ed, "display-line-numbers", &SchemeVal::Str("on".to_string()));
    assert_eq!(
        ed.echo.as_deref(),
        Some("set-option: display-line-numbers takes a boolean")
    );
    set_option(&mut ed, "tabs", &SchemeVal::Bool(true));
    assert_eq!(ed.echo.as_deref(), Some("set-option: unknown option \"tabs\""));
    assert!(!get_option(&ed, "tabs"));
    set_face_color(&mut ed, "mode-line", "Blue");
    assert_eq!(ed.faces.mode_line, Some(taco::faces::FaceColor::Blue));
    set_face_color(&mut ed, "keyword", "mauve");
    assert_eq!(ed.echo.as_deref(), Some("set-face-color: unknown color \"mauve\""));
    set_face_color(&mut ed, "keyword", "cyan");
    assert_eq!(ed.faces.syntax.get("keyword"), Some(&taco::faces::FaceColor::Cyan));
}

#[test]
fn bad_bindings_are_reported() {
    let mut ed = Editor::new();
    bind_in(&mut ed, None, "C-x bogus", "x");
    assert_eq!(
        ed.echo.as_deref(),
        Some("set-key: cannot parse key sequence \"C-x bogus\"")
    );
    bind_in(&mut ed, None, " ", "x");
    assert_eq!(ed.echo.as_deref(), Some("set-key: empty key sequence \" \""));
    minibuffer_set_key(&mut ed, "C-x C-f", "x");
    assert_eq!(
        ed.echo.as_deref(),
        Some("minibuffer-set-key: only single keys are supported, got \"C-x C-f\"")
    );
    minibuffer_set_key(&mut ed, "bogus", "x");
    assert_eq!(ed.echo.as_deref(), Some("minibuffer-set-key: cannot parse \"bogus\""));
    minibuffer_set_key(&mut ed, "TAB", "complete");
    assert_eq!(
        ed.minibuffer_map.lookup(&parse_seq("TAB").unwrap()),
        Lookup::Cmd("complete".into())
    );
}

#[test]
fn local_maps_win_over_the_global_one() {
    let mut ed = Editor::new();
    install(&mut ed);
    insert_text(&mut ed, "abc");
    goto_char(&mut ed, 0);
    bind_in(&mut ed, None, "C-f", "forward-char");
    bind_in(&mut ed, Some("mine".to_string()), "C-f", "end-of-buffer");
    use_local_map(&mut ed, "mine".to_string());
    set_buffer_mode_name(&mut ed, "Mine".to_string());
    ed.press(parse_seq("C-f").unwrap()[0]).unwrap();
    assert_eq!(point(&ed), 3);
    assert_eq!(ed.cur_buffer().mode_name, "Mine");
    assert_eq!(
        command_bindings(&ed, "end-of-buffer"),
        vec![("C-f".to_string(), "mine".to_string())]
    );
    assert_eq!(
        command_bindings(&ed, "forward-char"),
        vec![("C-f".to_string(), "".to_string())]
    );
}

#[test]
fn variables_belong_to_buffers() {
    let mut ed = Editor::new();
    buffer_local_set(&mut ed, "b".to_string(), SchemeVal::Int(2));
    buffer_local_set(&mut ed, "a".to_string(), SchemeVal::Int(1));
    assert_eq!(buffer_local_keys(&ed), strings(&["a", "b"]));
    assert!(matches!(buffer_local_get(&ed, "a"), SchemeVal::Int(1)));
    assert!(matches!(buffer_local_get(&ed, "c"), SchemeVal::Bool(false)));
    switch_to_buffer_name(&mut ed, "other");
    assert!(matches!(buffer_local_get(&ed, "a"), SchemeVal::Bool(false)));
    assert!(matches!(buffer_local_get_in(&ed, "*scratch*", "a"), SchemeVal::Int(1)));
    assert!(matches!(buffer_local_get_in(&ed, "gone", "a"), SchemeVal::Bool(false)));
    buffer_local_set_in(&mut ed, "*scratch*", "a".to_string(), SchemeVal::Int(9));
    assert!(matches!(buffer_local_get_in(&ed, "*scratch*", "a"), SchemeVal::Int(9)));
    buffer_local_set_in(&mut ed, "gone", "a".to_string(), SchemeVal::Int(9));
    assert_eq!(ed.echo.as_deref(), Some("buffer-local-set-in!: no buffer \"gone\""));
    set_buffer_mode_name_in(&mut ed, "*scratch*", "Notes".to_string());
    switch_to_buffer_name(&mut ed, "*scratch*");
    assert_eq!(ed.cur_buffer().mode_name, "Notes");
}

#[test]
fn other_buffers_are_written_by_name() {
    let mut ed = Editor::new();
    switch_to_buffer_name(&mut ed, "log");
    switch_to_buffer_name(&mut ed, "*scratch*");
    buffer_append_in(&mut ed, "log", "line\n");
    buffer_add_face_span(&mut ed, "log", 0, 99, "string".to_string());
    buffer_add_face_span(&mut ed, "log", 3, 3, "string".to_string());
    switch_to_buffer_name(&mut ed, "log");
    assert_eq!(buffer_string(&ed), "line\n");
    assert_eq!(ed.cur_buffer().face_spans, vec![(0, 5, "string".to_string())]);
    buffer_clear_face_spans(&mut ed, "log");
    assert!(ed.cur_buffer().face_spans.is_empty());
    buffer_append_in(&mut ed, "gone", "x");
    assert_eq!(ed.echo.as_deref(), Some("buffer-append-in!: no buffer \"gone\""));
    buffer_add_face_span(&mut ed, "gone", 0, 1, "x".to_string());
    assert_eq!(ed.echo.as_deref(), Some("buffer-add-face-span!: no buffer \"gone\""));
}

#[test]
fn names_are_offered_for_completion() {
    let mut ed = Editor::new();
    install(&mut ed);
    switch_to_buffer_name(&mut ed, "b");
    switch_to_buffer_name(&mut ed, "a");
    assert_eq!(buffer_list(&ed), strings(&["*scratch*", "b", "a"]));
    assert_eq!(buffer_names(&ed), strings(&["*scratch*", "a", "b"]));
    let commands = command_names(&ed);
    assert!(commands.windows(2).all(|w| w[0] < w[1]));
    assert!(commands.contains(&"kill-line".to_string()));
    assert_eq!(command_doc(&ed, "no-such"), "");
    assert!(!command_doc(&ed, "kill-line").is_empty());
    assert_eq!(
        directory_files(&vec![("b".to_string(), true), ("a".to_string(), false)]),
        strings(&["a", "b/"])
    );
    ed.term_size = (80, 24);
    assert_eq!(window_width(&ed), 80);
    ed.show_line_numbers = true;
    assert_eq!(window_width(&ed), 77);
    assert!(is_explicit("goto-line"));
    assert!(!is_explicit("kill-line"));
}

#[test]
fn candidates_are_filtered() {
    let all = strings(&["mandb(8)", "man(1)", "woman(3)", "ls(1)"]);
    assert_eq!(filter_matching(all, "man"), strings(&["mandb(8)", "man(1)", "woman(3)"]));
    assert_eq!(filter_matching(strings(&["a", "b"]), ""), strings(&["a", "b"]));
    assert_eq!(
        filter_suffix(strings(&["a(1)", "b(3)", "c(1)"]), "(1)"),
        strings(&["a(1)", "c(1)"])
    );
    assert_eq!(string_lines("a\r\nb\n"), strings(&["a", "b"]));
}

#[test]
fn paths_are_taken_apart() {
    assert_eq!(parent_directory("/a/b.tar.gz"), "/a");
    assert_eq!(parent_directory("/"), "");
    assert_eq!(file_name_only("/a/b.tar.gz"), "b.tar.gz");
    assert_eq!(file_name_only("/a/.."), "");
    assert_eq!(file_name_extension("/a/b.tar.gz"), "gz");
    assert_eq!(file_name_extension("/a/b"), "");
    assert_eq!(result_string(None), "");
    assert_eq!(result_string(Some("denied".to_string())), "denied");
    let mut ed = Editor::new();
    ed.home = Some("/home/me".to_string());
    ed.cwd = "/work".to_string();
    assert_eq!(ed.resolve_path("~/x"), "/home/me/x");
    assert_eq!(ed.resolve_path("x"), "/work/x");
    assert_eq!(ed.resolve_path("/x"), "/x");
    let diff = diff_unified("a", "one\n", "b", "two\n");
    assert!(diff.starts_with("--- a\n+++ b\n"));
    assert!(diff.contains("-one\n+two\n"));
}

#[test]
fn directories_go_to_their_opener() {
    let mut ed = Editor::new();
    register_directory_opener(&mut ed, SchemeVal::Ref(4));
    taco::commands::files::find_file_path(&mut ed, "/tmp", taco::commands::files::FileAt::Directory);
    match next_deferred(&mut ed, 0) {
        Some(PostAction::RunScheme(SchemeVal::Ref(4), args)) => {
            assert!(matches!(&args[0], SchemeVal::Str(s) if s == "/tmp"))
        }
        other => panic!("{other:?}"),
    }
}

#[test]
fn entries_become_lists() {
    let raw = |name: &str, is_dir: bool| RawEntry {
        name: name.to_string(),
        path: format!("/d/{name}"),
        is_dir,
        mode: 0o100600,
        nlink: 2,
        uid: 1,
        gid: 2,
        size: 3,
        mtime: 0,
    };
    let users = vec![(1, "me".to_string())];
    let items = vec![raw(".hidden", false), raw("seen", false)];
    let some = directory_entries(&Some(raw("..", true)), &items, false, &users, &vec![]);
    assert_eq!(some.len(), 2);
    let shown: Vec<String> = some[1].iter().map(|v| format!("{v:?}")).collect();
    assert_eq!(
        shown,
        strings(&[
            "Str(\"/d/seen\")",
            "Str(\"seen\")",
            "Bool(false)",
            "Str(\"-rw-------\")",
            "Int(2)",
            "Str(\"me\")",
            "Str(\"2\")",
            "Int(3)",
            "Str(\"Jan  1 00:00\")",
        ])
    );
    assert_eq!(directory_entries(&None, &items, true, &users, &vec![]).len(), 2);
}

#[test]
fn highlighting_needs_a_grammar() {
    let mut ed = Editor::new();
    let said = tree_sit_enable(&mut ed, "rust");
    assert_eq!(
        said,
        "tree-sit-enable: \"rust\" is not installed (call tree-sit-install-language-grammar first)"
    );
    assert_eq!(ed.echo.as_deref(), Some(said.as_str()));
    assert_eq!(tree_sit_node_range_at_point(&ed, &vec![], false), vec![-1, -1]);
}

#[test]
fn commands_are_left_to_the_caller() {
    let mut ed = Editor::new();
    install(&mut ed);
    ed.cwd = "/work".to_string();
    ed.prompt(PromptKind::FindFile, "Find file: ");
    set_minibuffer_contents(&mut ed, "notes".to_string());
    assert!(ed.press_return());
    match next_deferred(&mut ed, 0) {
        Some(PostAction::Outside(Task::Visit(p))) => assert_eq!(p, "/work/notes"),
        other => panic!("{other:?}"),
    }
}
