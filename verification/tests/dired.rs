//! Directory listings, file operations and bulk renaming.

use taco::archive::packed_file;
use taco::buffer::Mode;
use taco::calendar::{civil_from_days, mtime_string, time_string};
use taco::commands::files::{find_file_path, FileAt};
use taco::dired::files::{
    compress_cmd, compress_done, compressed_name, delete_done, diff_read, do_delete_cmd, paths_deleted,
    do_flagged_delete_cmd, kill_all_cmd, mark_regexp, mkdir, rename_done, run_shell, shell_done,
    toggle_hidden_cmd, ShellOutput,
};
use taco::dired::listing::{id_names, list_entries, listing_text, mode_string, RawEntry};
use taco::dired::ops::{
    find_file_cmd, flag_deletion_cmd, jump_cmd, mark_cmd, open_dired, project_root_cmd,
    project_root_found, refresh, shows_hidden, unmark_all_cmd, up_directory_cmd,
};
use taco::dired::state::Entry;
use taco::dired::wgrep::{wgrep_abort_cmd, wgrep_commit_cmd, wgrep_commit_done, wgrep_mode_cmd};
use taco::editor::Editor;
use taco::input::{InputMode, PostAction, Task};

use std::io::Read;

fn raw(dir: &str, name: &str, is_dir: bool, size: u64) -> RawEntry {
    RawEntry {
        name: name.to_string(),
        path: format!("{dir}/{name}"),
        is_dir,
        mode: if is_dir { 0o040755 } else { 0o100644 },
        nlink: 1,
        uid: 0,
        gid: 7,
        size,
        mtime: 1783848600,
    }
}

fn parent(path: &str) -> Option<RawEntry> {
    Some(RawEntry { path: path.to_string(), ..raw("", "..", true, 4096) })
}

fn users() -> Vec<(u32, String)> {
    id_names(&vec!["root:x:0:0:root:/root:/bin/sh".to_string(), "junk".to_string()])
}

fn listing(dir: &str, names: &[(&str, bool, u64)], hidden: bool) -> Vec<Entry> {
    let items: Vec<RawEntry> = names.iter().map(|(n, d, s)| raw(dir, n, *d, *s)).collect();
    let up = dir.rsplit_once('/').map(|(a, _)| a.to_string()).unwrap_or_default();
    list_entries(&items, &parent(&up), &users(), &vec![], hidden)
}

fn opened(names: &[(&str, bool, u64)]) -> Editor {
    let mut ed = Editor::new();
    open_dired(&mut ed, "/work/dir", Ok(listing("/work/dir", names, false)), None);
    ed
}

fn state(ed: &Editor) -> &taco::dired::state::DiredState {
    match &ed.cur_buffer().mode {
        Mode::Dired(s) => s,
        Mode::Fundamental => panic!("not a dired buffer"),
    }
}

fn go_to_line(ed: &mut Editor, line: usize) {
    let start = ed.cur_buffer().line_to_char(line);
    ed.windows.selected_mut().point = start;
}

#[test]
fn mtime_formatting() {
    // 2026-07-12 09:30:00 UTC
    assert_eq!(mtime_string(1783848600), "Jul 12 09:30");
    assert_eq!(civil_from_days(0), (1970, 1, 1));
    assert_eq!(civil_from_days(19723), (2024, 1, 1));
}

#[test]
fn dates_before_the_epoch() {
    assert_eq!(civil_from_days(-1), (1969, 12, 31));
    assert_eq!(civil_from_days(11016), (2000, 2, 29));
    assert_eq!(mtime_string(-1), "Dec 31 23:59");
    assert_eq!(time_string(0), "Thu Jan  1 00:00:00 1970");
    assert_eq!(time_string(1783946096), "Mon Jul 13 12:34:56 2026");
}

#[test]
fn mode_string_shapes() {
    assert_eq!(mode_string(0o100644, false), "-rw-r--r--");
    assert_eq!(mode_string(0o040755, true), "drwxr-xr-x");
    assert_eq!(mode_string(0o120777, false), "lrwxrwxrwx");
}

#[test]
fn mode_string_types() {
    assert_eq!(mode_string(0, true), "d---------");
    assert_eq!(mode_string(0o140000, false), "s---------");
    assert_eq!(mode_string(0o060000, false), "b---------");
    assert_eq!(mode_string(0o020000, false), "c---------");
    assert_eq!(mode_string(0o010000, false), "p---------");
}

#[test]
fn listing_is_ls_la_shaped() {
    let ed = opened(&[("file.txt", false, 5), ("sub", true, 4096), (".git", true, 0)]);
    let s = state(&ed);
    // ".." heads the list; directories before files after it.
    assert_eq!(s.entries[0].name, "..");
    assert_eq!(s.entries[1].name, "sub");
    assert_eq!(s.entries[2].name, "file.txt");
    assert_eq!(s.entries[2].size, 5);

    let text = ed.cur_buffer().to_string_lossless();
    let lines: Vec<&str> = text.lines().collect();
    // Header, then one line per entry; metadata columns then the name
    // exactly at name_col.
    assert_eq!(lines.len(), 1 + s.entries.len());
    assert_eq!(lines[0], "  /work/dir:");
    let sub_line = lines[2];
    assert!(sub_line[2..].starts_with('d'), "mode string: {sub_line}");
    assert!(sub_line.contains("rwx") || sub_line.contains("r-x"));
    let name_at: String = sub_line.chars().skip(s.name_col).collect();
    assert_eq!(name_at, "sub");
    // Known ids have names, others are numbers.
    assert_eq!(lines[3], "  -rw-r--r-- 1 root 7    5 Jul 12 09:30 file.txt");
}

#[test]
fn entries_are_sorted_whatever_their_case() {
    let all = listing("/d", &[("b", false, 1), ("A", false, 1), ("Z", true, 1), ("c", true, 1)], false);
    let names: Vec<&str> = all.iter().map(|e| e.name.as_str()).collect();
    assert_eq!(names, vec!["..", "c", "Z", "A", "b"]);
    let (text, col) = listing_text("/d", &all);
    assert_eq!(text.lines().nth(4).unwrap().chars().skip(col).collect::<String>(), "A");
}

#[test]
fn dotdot_visits_parent_and_refuses_operations() {
    let mut ed = opened(&[("file.txt", false, 5)]);
    // Point on the ".." line (line 1).
    go_to_line(&mut ed, 1);

    // Marking and deleting the parent entry are refused.
    mark_cmd(&mut ed, None);
    assert_eq!(state(&ed).entries[0].mark, ' ');
    do_delete_cmd(&mut ed, None);
    assert!(matches!(ed.input, InputMode::Normal));

    // RET on ".." lands in the parent directory listing.
    match find_file_cmd(&mut ed, None) {
        PostAction::Outside(Task::OpenDired { dir, .. }) => assert_eq!(dir, "/work"),
        other => panic!("{other:?}"),
    }
}

#[test]
fn jump_places_point_on_current_file() {
    let mut ed = Editor::new();
    find_file_path(&mut ed, "/work/dir/file.txt", FileAt::File(Ok("hello".into())));
    match jump_cmd(&ed, None) {
        PostAction::Outside(Task::OpenDired { dir, goto }) => {
            assert_eq!(dir, "/work/dir");
            let all = listing(&dir, &[("file.txt", false, 5), ("sub", true, 0)], false);
            open_dired(&mut ed, &dir, Ok(all), goto);
        }
        other => panic!("{other:?}"),
    }
    let line = ed.cur_buffer().char_to_line(ed.windows.selected_ref().point);
    assert_eq!(state(&ed).entries[line - 1].name, "file.txt");
}

#[test]
fn marks_come_and_go() {
    let mut ed = opened(&[("a.txt", false, 1), ("b.txt", false, 1), ("c.rs", false, 1)]);
    go_to_line(&mut ed, 2);
    mark_cmd(&mut ed, None);
    flag_deletion_cmd(&mut ed, None);
    assert_eq!(state(&ed).entries[1].mark, '*');
    assert_eq!(state(&ed).entries[2].mark, 'D');
    assert!(ed.cur_buffer().to_string_lossless().contains("\n* -rw"));
    unmark_all_cmd(&mut ed, None);
    assert!(state(&ed).entries.iter().all(|e| e.mark == ' '));
    mark_regexp(&mut ed, r"\.txt$");
    let marked: Vec<&str> =
        state(&ed).entries.iter().filter(|e| e.mark == '*').map(|e| e.name.as_str()).collect();
    assert_eq!(marked, vec!["a.txt", "b.txt"]);
    mark_regexp(&mut ed, "(");
    assert!(ed.echo.is_some());
}

#[test]
fn flagged_files_are_deleted_after_a_question() {
    let mut ed = opened(&[("a.txt", false, 1)]);
    do_flagged_delete_cmd(&mut ed, None);
    assert!(matches!(ed.input, InputMode::Normal));
    go_to_line(&mut ed, 2);
    flag_deletion_cmd(&mut ed, None);
    do_flagged_delete_cmd(&mut ed, None);
    assert!(matches!(ed.input, InputMode::Prompt(_)));
    match ed.press(taco::keys::parse_seq("y").unwrap()[0]).unwrap() {
        PostAction::Outside(Task::Delete(paths)) => assert_eq!(paths, vec!["/work/dir/a.txt"]),
        other => panic!("{other:?}"),
    }
    match delete_done(1, &vec![]) {
        PostAction::Outside(Task::Refresh(m)) => {
            assert_eq!(m.as_deref(), Some("Deleted 1 file(s)"))
        }
        other => panic!("{other:?}"),
    }
    let paths = vec!["x".to_string(), "z".to_string(), "y".to_string()];
    match paths_deleted(&paths, &vec![Some("no".into()), None, Some("gone".into())]) {
        PostAction::Outside(Task::Refresh(m)) => assert_eq!(m.as_deref(), Some("x: no; y: gone")),
        other => panic!("{other:?}"),
    }
    match delete_done(0, &vec!["x: no".into(), "y: no".into()]) {
        PostAction::Outside(Task::Refresh(m)) => assert_eq!(m.as_deref(), Some("x: no; y: no")),
        other => panic!("{other:?}"),
    }
}

#[test]
fn listings_are_read_again() {
    let mut ed = opened(&[("a.txt", false, 1), ("b.txt", false, 1)]);
    go_to_line(&mut ed, 3);
    mark_cmd(&mut ed, None);
    refresh(&mut ed, Ok(listing("/work/dir", &[("b.txt", false, 2), ("c.txt", false, 1)], false)));
    let s = state(&ed);
    assert_eq!(s.entries.len(), 3);
    assert_eq!((s.entries[1].name.as_str(), s.entries[1].mark), ("b.txt", '*'));
    assert!(ed.cur_buffer().read_only);
    assert!(!shows_hidden(&ed, "/work/dir"));
    toggle_hidden_cmd(&mut ed, None);
    assert!(shows_hidden(&ed, "/work/dir"));
    assert!(!shows_hidden(&ed, "/elsewhere"));
}

#[test]
fn directories_that_cannot_be_read_are_reported() {
    let mut ed = Editor::new();
    open_dired(&mut ed, "/nowhere", Err("no such directory".into()), None);
    assert_eq!(ed.cur_buffer().name, "*scratch*");
    assert!(ed.echo.as_deref().unwrap().contains("no such directory"));
}

#[test]
fn projects_are_found_by_their_repository() {
    let mut ed = opened(&[]);
    let dirs = match project_root_cmd(&ed, None) {
        PostAction::Outside(Task::FindProject(dirs)) => dirs,
        other => panic!("{other:?}"),
    };
    assert_eq!(dirs, vec!["/work/dir", "/work", "/"]);
    match project_root_found(&mut ed, &dirs, &vec![false, true, false]) {
        PostAction::Outside(Task::OpenDired { dir, .. }) => assert_eq!(dir, "/work"),
        other => panic!("{other:?}"),
    }
    assert!(matches!(
        project_root_found(&mut ed, &dirs, &vec![false, false, false]),
        PostAction::Nothing
    ));
    match up_directory_cmd(&mut ed, None) {
        PostAction::Outside(Task::OpenDired { dir, .. }) => assert_eq!(dir, "/work"),
        other => panic!("{other:?}"),
    }
}

#[test]
fn operations_report_how_they_went() {
    let mut ed = opened(&[("a.txt", false, 1)]);
    rename_done(&mut ed, "/x", Some("denied".into()));
    assert_eq!(ed.echo.as_deref(), Some("Rename failed: denied"));
    match rename_done(&mut ed, "/x", None) {
        PostAction::Outside(Task::Refresh(m)) => assert_eq!(m.as_deref(), Some("Renamed to /x")),
        other => panic!("{other:?}"),
    }
    match mkdir(&ed, "new") {
        PostAction::Outside(Task::MakeDir(p)) => assert_eq!(p, "/work/dir/new"),
        other => panic!("{other:?}"),
    }
    go_to_line(&mut ed, 2);
    match compress_cmd(&mut ed, None) {
        PostAction::Outside(Task::Compress { path, is_dir }) => {
            assert_eq!(path, "/work/dir/a.txt");
            assert!(!is_dir);
        }
        other => panic!("{other:?}"),
    }
    assert_eq!(compressed_name("/d", true), "/d.tar.gz");
    compress_done(&mut ed, "/d.tar.gz", Some("full".into()));
    assert_eq!(ed.echo.as_deref(), Some("Compress failed: full"));
}

#[test]
fn packed_files_unpack() {
    let data: Vec<u8> = (0..5000u32).map(|i| (i % 251) as u8).collect();
    let (name, packed) = packed_file("/work/a.bin", false, &data);
    assert_eq!(name, "/work/a.bin.gz");
    assert_eq!(&packed[..2], &[0x1f, 0x8b]);
    let mut back = Vec::new();
    flate2::read::GzDecoder::new(&packed[..]).read_to_end(&mut back).unwrap();
    assert_eq!(back, data);
}

#[test]
fn differences_are_shown() {
    let mut ed = opened(&[("a.txt", false, 1)]);
    diff_read(&mut ed, "a", "b", Ok(("one\ntwo\n".into(), "one\nthree\n".into())));
    assert_eq!(ed.cur_buffer().name, "*diff*");
    let text = ed.cur_buffer().to_string_lossless();
    assert!(text.starts_with("--- b\n+++ a\n"), "{text}");
    assert!(text.contains("-two\n+three\n"), "{text}");
    diff_read(&mut ed, "a", "b", Ok(("x".into(), "x".into())));
    assert_eq!(ed.cur_buffer().to_string_lossless(), "(no differences)");
    diff_read(&mut ed, "a", "b", Err("unreadable".into()));
    assert!(ed.echo.as_deref().unwrap().contains("unreadable"));
}

#[test]
fn shell_commands_run_on_files() {
    let mut ed = opened(&[("it's.txt", false, 1)]);
    go_to_line(&mut ed, 2);
    let line = match run_shell(&mut ed, "wc -c") {
        PostAction::Outside(Task::Shell(line)) => line,
        other => panic!("{other:?}"),
    };
    assert_eq!(line, r"wc -c '/work/dir/it'\''s.txt'");
    let raw = ShellOutput::from_bytes(&vec![b'a', 0xff], &vec![0xc3, 0xa9], "ok".into());
    assert_eq!((raw.stdout.as_str(), raw.stderr.as_str()), ("a\u{fffd}", "é"));
    let out = ShellOutput { stdout: "1 file\n".into(), stderr: "".into(), status: "exit status: 0".into() };
    shell_done(&mut ed, &line, Ok(out));
    assert_eq!(ed.cur_buffer().name, "*Shell Command Output*");
    assert_eq!(ed.cur_buffer().to_string_lossless(), "1 file\n");
    shell_done(&mut ed, &line, Err("no shell".into()));
    assert_eq!(ed.echo.as_deref(), Some("Shell command failed: no shell"));
}

#[test]
fn dired_buffers_are_killed_together() {
    let mut ed = opened(&[("a.txt", false, 1)]);
    open_dired(&mut ed, "/other", Ok(listing("/other", &[], false)), None);
    kill_all_cmd(&mut ed, None);
    assert_eq!(ed.buffers.len(), 1);
    assert_eq!(ed.cur_buffer().name, "*scratch*");
    assert_eq!(ed.echo.as_deref(), Some("Killed 2 dired buffers"));
}

fn edit_text(ed: &mut Editor, from: &str, to: &str) {
    let buf = ed.cur_buffer_mut();
    let text = buf.to_string_lossless().replace(from, to);
    buf.rope = ropey::Rope::from_str(&text);
}

#[test]
fn wgrep_renames_edited_lines() {
    let mut ed = opened(&[("alpha.txt", false, 1), ("beta.txt", false, 1)]);
    wgrep_mode_cmd(&mut ed, None);
    assert!(!ed.cur_buffer().read_only);

    // Edit "alpha.txt" to "gamma.txt" in the listing text.
    edit_text(&mut ed, "alpha.txt", "gamma.txt");
    let pairs = match wgrep_commit_cmd(&mut ed, None) {
        PostAction::Outside(Task::RenameAll(pairs)) => pairs,
        other => panic!("{other:?}"),
    };
    assert_eq!(
        pairs,
        vec![("/work/dir/alpha.txt".to_string(), "/work/dir/gamma.txt".to_string())]
    );
    assert!(ed.cur_buffer().read_only);
    match wgrep_commit_done(&pairs, &vec![None]) {
        PostAction::Outside(Task::Refresh(m)) => assert_eq!(m.as_deref(), Some("Applied 1 rename")),
        other => panic!("{other:?}"),
    }
    match wgrep_commit_done(&pairs, &vec![Some("denied".into())]) {
        PostAction::Outside(Task::Refresh(m)) => {
            assert_eq!(m.as_deref(), Some("0 renamed; failed: alpha.txt: denied"))
        }
        other => panic!("{other:?}"),
    }
}

#[test]
fn wgrep_abort_restores_listing() {
    let mut ed = opened(&[("keep.txt", false, 1)]);
    wgrep_mode_cmd(&mut ed, None);
    edit_text(&mut ed, "keep.txt", "lost.txt");
    let message = match wgrep_abort_cmd(&mut ed, None) {
        PostAction::Outside(Task::Refresh(m)) => m,
        other => panic!("{other:?}"),
    };
    assert_eq!(message.as_deref(), Some("Changes aborted"));
    refresh(&mut ed, Ok(listing("/work/dir", &[("keep.txt", false, 1)], false)));
    let buf = ed.cur_buffer();
    assert!(buf.read_only);
    assert!(buf.to_string_lossless().contains("keep.txt"));
    wgrep_commit_cmd(&mut ed, None);
    assert_eq!(ed.echo.as_deref(), Some("Not in wgrep mode (C-c C-e first)"));
}
