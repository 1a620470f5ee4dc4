//! Background processes and the text of their pipes.

use taco::editor::Editor;
use taco::input::PostAction;
use taco::keyloop::next_deferred;
use taco::process::{
    callback, no_process, process_buffer, process_closed, process_dir, process_exited, process_reaped,
    process_failed, process_kill, process_live, process_output, process_started,
};
use taco::stream::Carry;
use taco::value::SchemeVal;

#[test]
fn code_points_survive_read_boundaries() {
    let text = "aé日本🦀z";
    for size in 1..7 {
        let mut carry = Carry::new();
        let mut got = String::new();
        for chunk in text.as_bytes().chunks(size) {
            if let Some(s) = carry.feed(chunk) {
                got.push_str(&s);
            }
        }
        assert!(carry.finish().is_none());
        assert_eq!(got, text, "chunks of {size}");
    }
}

#[test]
fn bytes_that_are_no_text_are_not_held_forever() {
    let mut carry = Carry::new();
    assert_eq!(carry.feed(&[0xff, 0xfe]), None);
    assert_eq!(carry.feed(&[0xff, 0xff]).as_deref(), Some("\u{fffd}\u{fffd}\u{fffd}\u{fffd}"));
    assert_eq!(carry.feed(b"ok\xe6\x97").as_deref(), Some("ok"));
    assert_eq!(carry.finish().as_deref(), Some("\u{fffd}"));
}

fn started(ed: &mut Editor) -> u64 {
    let buffer = process_buffer(ed, "*out*");
    process_started(ed, "job", buffer, SchemeVal::Ref(1), SchemeVal::Ref(2))
}

#[test]
fn output_goes_to_the_buffer_and_the_closure() {
    let mut ed = Editor::new();
    let id = started(&mut ed);
    assert!(process_live(&ed, id as isize));
    assert!(process_output(&mut ed, id, "a\nb\n", false));
    assert!(!process_output(&mut ed, id, "", true));
    assert!(process_closed(&ed, id));
    match next_deferred(&mut ed, 0) {
        Some(PostAction::RunScheme(SchemeVal::Ref(1), args)) => {
            assert!(matches!(&args[0], SchemeVal::Str(s) if s == "a\nb\n"));
            assert!(matches!(args[1], SchemeVal::Int(0)));
            assert!(matches!(args[2], SchemeVal::Int(4)));
        }
        other => panic!("{other:?}"),
    }
    process_exited(&mut ed, id, 3);
    assert!(!process_live(&ed, id as isize));
    match next_deferred(&mut ed, 0) {
        Some(PostAction::RunScheme(SchemeVal::Ref(2), args)) => {
            assert!(matches!(args[0], SchemeVal::Int(3)))
        }
        other => panic!("{other:?}"),
    }
    let out = ed.buffer_by_name("*out*").unwrap();
    let i = ed.buffer_index(out).unwrap();
    assert_eq!(ed.buffers[i].to_string_lossless(), "a\nb\n");
}

#[test]
fn an_end_without_a_code_is_told_as_minus_one() {
    for (code, told) in [(Some(3), 3), (Some(0), 0), (None, -1)] {
        let mut ed = Editor::new();
        let id = started(&mut ed);
        assert!(process_reaped(&mut ed, id, code));
        assert!(!process_live(&ed, id as isize));
        match next_deferred(&mut ed, 0) {
            Some(PostAction::RunScheme(SchemeVal::Ref(2), args)) => {
                assert!(matches!(args[0], SchemeVal::Int(c) if c == told))
            }
            other => panic!("{other:?}"),
        }
    }
}

#[test]
fn killed_processes_write_no_more() {
    let mut ed = Editor::new();
    let id = started(&mut ed);
    assert_eq!(process_kill(&mut ed, id as isize), Some(id));
    assert!(!process_output(&mut ed, id, "late", false));
    assert!(next_deferred(&mut ed, 0).is_none());
    assert_eq!(process_kill(&mut ed, -7), None);
    assert_eq!(no_process(-7), "process-kill: no process -7");
    assert_eq!(no_process(12), "process-kill: no process 12");
}

#[test]
fn processes_start_where_asked() {
    let mut ed = Editor::new();
    ed.cwd = "/work".to_string();
    assert_eq!(process_dir(&ed, ""), "/work");
    assert_eq!(process_dir(&ed, "/tmp"), "/tmp");
    let a = process_buffer(&mut ed, "*out*");
    assert_eq!(process_buffer(&mut ed, "*out*"), a);
    process_failed(&mut ed, "no shell");
    assert_eq!(ed.echo.as_deref(), Some("start-process: no shell"));
    assert!(callback(SchemeVal::Bool(false)).is_none());
    assert!(callback(SchemeVal::Bool(true)).is_some());
    let first = started(&mut ed);
    assert_eq!(started(&mut ed), first + 1);
    assert!(!process_closed(&ed, 99));
}
