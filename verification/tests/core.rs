//! Buffers, undo, keys, keymaps, the kill ring and the window tree.

use taco::assoc::Assoc;
use taco::buffer::Buffer;
use taco::bytes::{byte_to_char, bytes_of, char_to_byte};
use taco::faces::FaceColor;
use taco::keyloop::{prompt_hook, take_key};
use taco::keymap::{Keymap, Lookup};
use taco::keys::{
    format_seq, normalize, parse_chord, parse_seq, Chord, Key, KeyCode, KeyEvent,
};
use taco::killring::{KillRing, MAX_ENTRIES};
use taco::native::{natives, NativeCmd};
use taco::order::sort_names;
use taco::strings::{
    decimal_string, join_with, parse_usize, split_lines, split_whitespace, trim,
};
use taco::window::{Rect, SplitDir, WindowTree};

#[test]
fn undo_roundtrip() {
    let mut b = Buffer::new(0, "t", "hello world");
    b.undo.push_boundary();
    b.insert(5, ", brave");
    assert_eq!(b.to_string_lossless(), "hello, brave world");
    b.undo.push_boundary();
    b.remove(0, 5);
    assert_eq!(b.to_string_lossless(), ", brave world");
    let p = b.undo_group().unwrap();
    assert_eq!(b.to_string_lossless(), "hello, brave world");
    assert_eq!(p, 5);
    b.undo_group().unwrap();
    assert_eq!(b.to_string_lossless(), "hello world");
    assert!(b.undo_group().is_none());
}

#[test]
fn line_bounds() {
    let b = Buffer::new(0, "t", "one\ntwo\nthree");
    assert_eq!(b.line_start(5), 4);
    assert_eq!(b.line_end(5), 7);
    assert_eq!(b.line_end(12), 13);
}

#[test]
fn line_breaks_of_every_sort() {
    let b = Buffer::new(0, "t", "a\r\nb\rc\u{2028}d\u{85}e\u{0b}f");
    assert_eq!(b.len_lines(), 6);
    assert_eq!(b.char_to_line(0), 0);
    assert_eq!(b.char_to_line(2), 0);
    assert_eq!(b.char_to_line(3), 1);
    assert_eq!(b.line_to_char(2), 5);
    assert_eq!(b.line_to_char(99), 11);
    // Only the newline itself is left out of the end of a line.
    assert_eq!(b.line_end(0), 2);
}

#[test]
fn buffers_clamp_positions() {
    let mut b = Buffer::new(0, "t", "abc");
    b.insert(99, "def");
    assert_eq!(b.to_string_lossless(), "abcdef");
    assert_eq!(b.remove(4, 99), "ef");
    assert_eq!(b.remove(2, 2), "");
    assert_eq!(b.to_string_lossless(), "abcd");
    assert!(b.modified);
}

#[test]
fn generated_text_is_no_edit() {
    let mut b = Buffer::new(0, "t", "abc");
    assert_eq!(b.append_generated("de"), (3, 5));
    assert!(!b.modified);
    assert!(b.undo_group().is_none());
    b.insert(0, "x");
    b.set_text("fresh");
    assert_eq!(b.to_string_lossless(), "fresh");
    assert!(!b.modified);
}

#[test]
fn undo_logs_know_whether_they_fit() {
    let mut b = Buffer::new(0, "t", "hello world");
    b.insert(11, "!");
    assert!(b.undo.can_undo(12, 1));
    assert!(b.undo.can_undo(12, 5));
    b.set_text("");
    assert!(!b.undo.can_undo(0, 1));
    assert!(b.undo.can_undo(0, 0));
}

#[test]
fn region_is_ordered() {
    let mut b = Buffer::new(0, "t", "hello");
    assert_eq!(b.region(3), None);
    b.mark = Some(4);
    assert_eq!(b.region(1), None);
    b.mark_active = true;
    assert_eq!(b.region(1), Some((1, 4)));
    assert_eq!(b.region(5), Some((4, 5)));
}

#[test]
fn trie_walk() {
    let mut km = Keymap::default();
    km.bind(&parse_seq("C-x C-f").unwrap(), "find-file");
    km.bind(&parse_seq("C-x C-s").unwrap(), "save-buffer");
    km.bind(&parse_seq("C-x r t").unwrap(), "string-rectangle");
    km.bind(&parse_seq("C-f").unwrap(), "forward-char");

    assert_eq!(km.lookup(&parse_seq("C-x").unwrap()), Lookup::Pending);
    assert_eq!(
        km.lookup(&parse_seq("C-x C-f").unwrap()),
        Lookup::Cmd("find-file".into())
    );
    assert_eq!(km.lookup(&parse_seq("C-x r").unwrap()), Lookup::Pending);
    assert_eq!(
        km.lookup(&parse_seq("C-x r t").unwrap()),
        Lookup::Cmd("string-rectangle".into())
    );
    assert_eq!(km.lookup(&parse_seq("C-x z").unwrap()), Lookup::Unbound);
    assert_eq!(
        km.lookup(&parse_seq("C-f").unwrap()),
        Lookup::Cmd("forward-char".into())
    );
}

#[test]
fn rebinding_prefix_over_cmd() {
    let mut km = Keymap::default();
    km.bind(&parse_seq("C-c").unwrap(), "old");
    km.bind(&parse_seq("C-c f d").unwrap(), "dired-open-dir");
    assert_eq!(
        km.lookup(&parse_seq("C-c f d").unwrap()),
        Lookup::Cmd("dired-open-dir".into())
    );
}

#[test]
fn bindings_are_listed() {
    let mut km = Keymap::default();
    km.bind(&parse_seq("C-x k").unwrap(), "kill-buffer");
    km.bind(&parse_seq("C-k").unwrap(), "kill-line");
    km.bind(&parse_seq("M-k").unwrap(), "kill-line");
    let mut keys = km.bindings_of("kill-line");
    keys.sort();
    assert_eq!(keys, vec!["C-k".to_string(), "M-k".to_string()]);
    assert_eq!(km.bindings_of("kill-buffer"), vec!["C-x k".to_string()]);
    assert!(km.bindings_of("yank").is_empty());
}

#[test]
fn parses_chorded_sequences() {
    assert_eq!(
        parse_seq("C-x C-f").unwrap(),
        vec![
            Chord { ctrl: true, meta: false, key: Key::Char('x') },
            Chord { ctrl: true, meta: false, key: Key::Char('f') },
        ]
    );
    assert_eq!(
        parse_seq("M-<").unwrap(),
        vec![Chord { ctrl: false, meta: true, key: Key::Char('<') }]
    );
    assert_eq!(
        parse_seq("% m").unwrap(),
        vec![Chord::plain(Key::Char('%')), Chord::plain(Key::Char('m'))]
    );
    assert_eq!(
        parse_seq("C-x SPC").unwrap(),
        vec![
            Chord { ctrl: true, meta: false, key: Key::Char('x') },
            Chord::plain(Key::Space),
        ]
    );
    assert_eq!(
        parse_seq("M-backspace").unwrap(),
        vec![Chord { ctrl: false, meta: true, key: Key::Backspace }]
    );
    assert_eq!(
        parse_seq("C-M-x").unwrap(),
        vec![Chord { ctrl: true, meta: true, key: Key::Char('x') }]
    );
}

#[test]
fn refuses_what_is_no_chord() {
    assert!(parse_chord("xy").is_none());
    assert!(parse_seq("C-x nonsense").is_none());
    assert_eq!(parse_seq("  ").unwrap(), vec![]);
}

#[test]
fn roundtrips_display() {
    for s in ["C-x C-f", "M-<", "C-c p D", "% m", "C-x SPC", "M-backspace"] {
        let seq = parse_seq(s).unwrap();
        assert_eq!(format_seq(&seq), s.replace("spacebar", "SPC"));
    }
}

fn key(code: KeyCode, ctrl: bool) -> KeyEvent {
    KeyEvent { code, ctrl, alt: false, release: false }
}

#[test]
fn normalizes_legacy_aliases() {
    let ev = key(KeyCode::Char('_'), true);
    assert_eq!(
        normalize(&ev, false).unwrap(),
        Chord { ctrl: true, meta: false, key: Key::Char('/') }
    );
    let ev = key(KeyCode::Char('@'), true);
    assert_eq!(
        normalize(&ev, false).unwrap(),
        Chord { ctrl: true, meta: false, key: Key::Space }
    );
    let ev = key(KeyCode::Char('f'), false);
    assert_eq!(
        normalize(&ev, true).unwrap(),
        Chord { ctrl: false, meta: true, key: Key::Char('f') }
    );
}

#[test]
fn escape_is_a_meta_prefix() {
    assert_eq!(take_key(false, &key(KeyCode::Esc, false)), (true, None));
    assert_eq!(
        take_key(true, &key(KeyCode::Char('x'), false)),
        (false, Some(Chord { ctrl: false, meta: true, key: Key::Char('x') }))
    );
    let up = KeyEvent { release: true, ..key(KeyCode::Char('x'), false) };
    assert_eq!(take_key(true, &up), (true, None));
    assert_eq!(take_key(true, &key(KeyCode::Other, false)), (false, None));
}

#[test]
fn prompts_fire_their_hooks() {
    assert_eq!(prompt_hook(false, true), Some("minibuffer-setup-hook"));
    assert_eq!(prompt_hook(true, true), Some("post-command-hook"));
    assert_eq!(prompt_hook(true, false), Some("minibuffer-exit-hook"));
    assert_eq!(prompt_hook(false, false), None);
}

#[test]
fn yank_and_rotate() {
    let mut kr = KillRing::default();
    kr.push("one".into());
    kr.push("two".into());
    kr.push("three".into());
    assert_eq!(kr.yank(), Some("three"));
    assert_eq!(kr.yank_pop(), Some("two"));
    assert_eq!(kr.yank_pop(), Some("one"));
    assert_eq!(kr.yank_pop(), Some("three"));
    kr.push("four".into());
    assert_eq!(kr.yank(), Some("four"));
}

#[test]
fn append_prepend() {
    let mut kr = KillRing::default();
    kr.push("bar".into());
    kr.append("baz");
    kr.prepend("foo");
    assert_eq!(kr.yank(), Some("foobarbaz"));
}

#[test]
fn the_ring_forgets_the_oldest() {
    let mut kr = KillRing::default();
    assert_eq!(kr.yank(), None);
    assert_eq!(kr.yank_pop(), None);
    for i in 0..MAX_ENTRIES + 1 {
        kr.push(format!("{i}"));
    }
    // A full turn comes back to the newest; the oldest left is the second.
    for _ in 0..MAX_ENTRIES - 1 {
        kr.yank_pop();
    }
    assert_eq!(kr.yank(), Some("1"));
    assert_eq!(kr.yank_pop(), Some("60"));
    assert!(kr.next_fits(0));
    assert!(!kr.next_fits(usize::MAX));
}

#[test]
fn split_delete_cycle() {
    let mut t = WindowTree::new(0);
    t.split(SplitDir::Below);
    t.split(SplitDir::Right);
    assert_eq!(t.leaves().len(), 3);
    t.select_next();
    let second = t.selected;
    assert!(t.delete(second));
    assert_eq!(t.leaves().len(), 2);
    t.delete_others();
    assert_eq!(t.leaves().len(), 1);
    assert!(!t.delete(t.selected));
}

#[test]
fn layout_partitions_area() {
    let mut t = WindowTree::new(0);
    t.split(SplitDir::Below);
    let area = Rect { x: 0, y: 0, w: 80, h: 24 };
    let rects = t.layout(area);
    assert_eq!(rects.len(), 2);
    assert_eq!(rects[0].1.h + rects[1].1.h, 24);
}

#[test]
fn side_by_side_windows_leave_a_divider() {
    let mut t = WindowTree::new(0);
    t.split(SplitDir::Right);
    let rects = t.layout(Rect { x: 0, y: 0, w: 80, h: 24 });
    assert_eq!(rects[0].1, Rect { x: 0, y: 0, w: 39, h: 24 });
    assert_eq!(rects[1].1, Rect { x: 40, y: 0, w: 40, h: 24 });
}

#[test]
fn all_windows_can_be_changed() {
    let mut t = WindowTree::new(7);
    t.split(SplitDir::Below);
    for (i, w) in t.windows_mut().into_iter().enumerate() {
        assert_eq!(w.buffer, 7);
        w.point = i + 1;
    }
    let ids = t.leaves();
    assert_eq!(t.find(ids[0]).unwrap().point, 1);
    assert_eq!(t.find(ids[1]).unwrap().point, 2);
    assert!(t.find(99).is_none());
}

#[test]
fn deleting_a_twin_undoes_the_split() {
    let mut t = WindowTree::new(0);
    t.split(SplitDir::Right);
    let ids = t.leaves();
    assert_eq!(t.selected, ids[0]);
    assert!(t.delete(ids[1]));
    assert_eq!(t.leaves(), vec![ids[0]]);
    assert_eq!(t.selected, ids[0]);
}

#[test]
fn native_commands_have_names() {
    let all = natives();
    assert_eq!(NativeCmd::ForwardChar.name(), "forward-char");
    assert!(all.iter().all(|c| !c.name().is_empty() && !c.doc().is_empty()));
    for (i, c) in all.iter().enumerate() {
        assert!(all[..i].iter().all(|d| d.name() != c.name()));
    }
}

#[test]
fn colors_are_named_in_any_case() {
    assert_eq!(FaceColor::parse("Red"), Some(FaceColor::Red));
    assert_eq!(FaceColor::parse("MAGENTA"), Some(FaceColor::Magenta));
    assert_eq!(FaceColor::parse("mauve"), None);
}

#[test]
fn tables_keep_one_value_for_a_key() {
    let mut t: Assoc<FaceColor> = Assoc::new();
    t.insert("a".into(), FaceColor::Red);
    t.insert("b".into(), FaceColor::Blue);
    t.insert("a".into(), FaceColor::Green);
    assert_eq!(t.get("a"), Some(&FaceColor::Green));
    assert_eq!(t.get("b"), Some(&FaceColor::Blue));
    assert!(!t.contains_key("c"));
}

#[test]
fn bytes_and_chars_agree() {
    let s = "héllo 日本";
    assert_eq!(bytes_of(s), s.len());
    for i in 0..9 {
        assert_eq!(byte_to_char(s, char_to_byte(s, i)), i.min(8));
    }
    assert_eq!(char_to_byte(s, 2), 3);
    assert_eq!(char_to_byte(s, 99), s.len());
}

#[test]
fn strings_are_taken_apart() {
    assert_eq!(trim(" \t a b \n"), "a b");
    assert_eq!(split_whitespace("  a  bc\td "), vec!["a", "bc", "d"]);
    assert_eq!(split_lines("a\r\nb\n\nc"), vec!["a", "b", "", "c"]);
    assert_eq!(parse_usize("+042"), Some(42));
    assert_eq!(parse_usize("4x"), None);
    assert_eq!(parse_usize("99999999999999999999999"), None);
    assert_eq!(decimal_string(1200), "1200");
    assert_eq!(join_with(&vec!["a".to_string(), "b".to_string()], "; "), "a; b");
}

#[test]
fn names_are_sorted_like_strings() {
    let mut names: Vec<String> =
        ["b", "a", "B", "ab", "é", "z", "a"].iter().map(|s| s.to_string()).collect();
    let mine = sort_names(&names);
    names.sort();
    assert_eq!(mine, names);
}

#[test]
fn the_empty_sequence_waits_only_where_something_is_bound() {
    let mut km = Keymap::default();
    assert_eq!(km.lookup(&[]), Lookup::Unbound);
    km.bind(&parse_seq("C-x C-f").unwrap(), "find-file");
    assert_eq!(km.lookup(&[]), Lookup::Pending);
    assert_eq!(km.lookup(&parse_seq("C-x").unwrap()), Lookup::Pending);
}

#[test]
fn rotation_takes_the_next_older_kill() {
    let mut kr = KillRing::default();
    for s in ["a", "b", "c"] {
        kr.push(s.into());
    }
    let seen: Vec<String> = (0..6).map(|_| kr.yank_pop().unwrap().to_string()).collect();
    assert_eq!(seen, ["b", "a", "c", "b", "a", "c"]);
}
