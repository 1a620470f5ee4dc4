//! Background processes: what is known of them, and what their output and exit
//! do to the editor. Pipes and children stay with the caller.

use crate::buffer::BufferId;
use crate::buffers::{buffer_named, created};
use crate::editor::{
    buf_index, has_buffer, lemma_wf_same, said, wf, Editor, EditorModel, ProcessHandle,
    ProcessModel,
};
use crate::input::{ActionModel, PostAction};
use crate::layout::output_added;
use crate::lines::max;
use crate::paths::dir_of;
use crate::script::text::{int_of, to_int};
use crate::strings::{cat2, cat3, copy, decimal, decimal_u64};
use crate::value::{copy_opt_val, opt_val, vals, SchemeVal, ValModel};
use vstd::prelude::*;

verus! {

/// The closure that a value stands for: none for false.
pub open spec fn closure_of(v: ValModel) -> Option<ValModel> {
    match v {
        ValModel::Bool(b) => if b {
            Some(v)
        } else {
            None
        },
        _ => Some(v),
    }
}

/// The closure that a value stands for.
pub fn callback(v: SchemeVal) -> (r: Option<SchemeVal>)
    ensures
        opt_val(r) == closure_of(v@),
{
    match v {
        SchemeVal::Bool(false) => None,
        f => Some(f),
    }
}

/// The index of the process with this id at or after `i`, or the number of
/// processes.
pub open spec fn process_from(s: Seq<ProcessModel>, id: int, i: int) -> int
    decreases s.len() - i,
{
    if 0 <= i < s.len() && s[i].id != id {
        process_from(s, id, i + 1)
    } else {
        i
    }
}

/// The index of the process with this id.
pub open spec fn process_at(e: EditorModel, id: int) -> int {
    process_from(e.processes, id, 0)
}

/// Whether a process is known.
pub open spec fn is_process(e: EditorModel, id: int) -> bool {
    process_at(e, id) < e.processes.len()
}

fn find_process(ed: &Editor, id: u64) -> (r: Option<usize>)
    ensures
        match r {
            Some(i) => i < ed.processes@.len() && i == process_at(ed@, id as int),
            None => !is_process(ed@, id as int),
        },
{
    let mut i: usize = 0;
    while i < ed.processes.len()
        invariant
            i <= ed.processes@.len(),
            process_at(ed@, id as int) == process_from(ed@.processes, id as int, i as int),
        decreases ed.processes@.len() - i,
    {
        assert(ed@.processes[i as int] == ed.processes@[i as int]@);
        if ed.processes[i].id == id {
            return Some(i);
        }
        i = i + 1;
    }
    None
}

// ---- starting --------------------------------------------------------------

/// The editor with a buffer of a name, made if it is new, and that buffer's id.
pub open spec fn buffer_for(e: EditorModel, name: Seq<char>) -> (EditorModel, usize) {
    match buffer_named(e.buffers, name) {
        Some(id) => (e, id),
        None => (created(e, name, ""@), e.next_buffer_id),
    }
}

/// The buffer that a process writes to, made if it is new; it is not shown.
pub fn process_buffer(ed: &mut Editor, name: &str) -> (id: BufferId)
    requires
        wf(old(ed)@),
        old(ed)@.next_buffer_id < usize::MAX,
    ensures
        (final(ed)@, id) == buffer_for(old(ed)@, name@),
        wf(final(ed)@),
{
    match ed.buffer_by_name(name) {
        Some(id) => id,
        None => ed.create_buffer(name, ""),
    }
}

/// The directory that a process runs in: the given one, or the one that
/// relative prompts start from.
pub fn process_dir(ed: &Editor, cwd: &str) -> (s: String)
    requires
        wf(ed@),
    ensures
        s@ == if cwd@.len() == 0 {
            dir_of(ed@)
        } else {
            cwd@
        },
{
    if cwd.unicode_len() == 0 {
        ed.default_dir()
    } else {
        copy(cwd)
    }
}

/// A process as it is noted.
pub open spec fn started(
    id: u64,
    name: Seq<char>,
    buffer: usize,
    on_output: ValModel,
    on_exit: ValModel,
) -> ProcessModel {
    ProcessModel {
        id,
        name,
        buffer,
        on_output: closure_of(on_output),
        on_exit: closure_of(on_exit),
        streams_closed: false,
        discard_output: false,
    }
}

/// The editor with a process more, under the next id.
pub open spec fn with_process(e: EditorModel, p: ProcessModel) -> EditorModel {
    EditorModel {
        processes: e.processes.push(p),
        next_process_id: (e.next_process_id + 1) as u64,
        ..e
    }
}

/// Note a process that was started; its id.
pub fn process_started(
    ed: &mut Editor,
    name: &str,
    buffer: BufferId,
    on_output: SchemeVal,
    on_exit: SchemeVal,
) -> (id: u64)
    requires
        wf(old(ed)@),
        old(ed)@.next_process_id < u64::MAX,
    ensures
        id == old(ed)@.next_process_id,
        final(ed)@ == with_process(
            old(ed)@,
            started(id, name@, buffer, on_output@, on_exit@),
        ),
        wf(final(ed)@),
{
    let ghost e = ed@;
    let ghost out = on_output@;
    let ghost ex = on_exit@;
    let id: u64 = ed.alloc_process_id();
    let handle = ProcessHandle {
        id,
        name: copy(name),
        buffer,
        on_output: callback(on_output),
        on_exit: callback(on_exit),
        streams_closed: false,
        discard_output: false,
    };
    let ghost h = handle@;
    assert(h == started(id, name@, buffer, out, ex));
    ed.processes.push(handle);
    proof {
        assert(ed@.processes =~= e.processes.push(h));
        assert(ed@ =~= with_process(e, h));
        lemma_wf_same(e, ed@);
    }
    id
}

/// Say that a process could not be started.
pub fn process_failed(ed: &mut Editor, error: &str)
    requires
        wf(old(ed)@),
    ensures
        final(ed)@ == said(old(ed)@, "start-process: "@ + error@),
        wf(final(ed)@),
{
    ed.message(cat2("start-process: ", error).as_str());
}

// ---- asking and killing ----------------------------------------------------

/// The id that a number stands for.
pub open spec fn id_of(n: int) -> int {
    max(n, 0)
}

/// Whether a process is live.
pub fn process_live(ed: &Editor, n: isize) -> (b: bool)
    ensures
        b == is_process(ed@, id_of(n as int)),
{
    let id: u64 = if n < 0 {
        0
    } else {
        n as u64
    };
    find_process(ed, id).is_some()
}

/// The processes with one of them replaced.
pub open spec fn with_process_at(e: EditorModel, i: int, p: ProcessModel) -> EditorModel {
    EditorModel { processes: e.processes.update(i, p), ..e }
}

/// The editor with the output that a process still sends to be dropped.
pub open spec fn kill_noted(e: EditorModel, id: int) -> EditorModel {
    let i = process_at(e, id);
    if i < e.processes.len() {
        with_process_at(e, i, ProcessModel { discard_output: true, ..e.processes[i] })
    } else {
        e
    }
}

/// Note that a process is to be killed: what it still sends is dropped. The id
/// of the process to kill, if it is known.
pub fn process_kill(ed: &mut Editor, n: isize) -> (r: Option<u64>)
    requires
        wf(old(ed)@),
    ensures
        final(ed)@ == kill_noted(old(ed)@, id_of(n as int)),
        match r {
            Some(id) => id == id_of(n as int) && is_process(old(ed)@, id as int),
            None => !is_process(old(ed)@, id_of(n as int)),
        },
        wf(final(ed)@),
{
    let ghost e = ed@;
    let id: u64 = if n < 0 {
        0
    } else {
        n as u64
    };
    match find_process(ed, id) {
        Some(i) => {
            assert(e.processes[i as int] == ed.processes@[i as int]@);
            let p = &mut ed.processes[i];
            p.discard_output = true;
            proof {
                assert(ed@ =~= kill_noted(e, id as int));
                lemma_wf_same(e, ed@);
            }
            Some(id)
        },
        None => None,
    }
}

/// A number written out.
pub open spec fn signed(n: int) -> Seq<char> {
    if n < 0 {
        "-"@ + decimal((-n) as nat)
    } else {
        decimal(n as nat)
    }
}

/// What is said of a process that is not known.
pub fn no_process(n: isize) -> (s: String)
    ensures
        s@ == "process-kill: no process "@ + signed(n as int),
{
    let s = if n < 0 {
        let d = decimal_u64((-(n as i128)) as u64);
        cat3("process-kill: no process ", "-", d.as_str())
    } else {
        let d = decimal_u64(n as u64);
        cat2("process-kill: no process ", d.as_str())
    };
    assert(s@ =~= "process-kill: no process "@ + signed(n as int));
    s
}

// ---- output and exit -------------------------------------------------------

/// The editor after a process sent some output: dropped if the process was
/// killed, else added to its buffer, and the closure for output queued with the
/// text and the range it went to. Also noted is whether the pipes were closed.
pub open spec fn output_taken(
    e: EditorModel,
    i: int,
    chunk: Seq<char>,
    closed: bool,
) -> EditorModel {
    let p = e.processes[i];
    let e1 = if closed {
        with_process_at(e, i, ProcessModel { streams_closed: true, ..p })
    } else {
        e
    };
    if p.discard_output || chunk.len() == 0 {
        e1
    } else {
        let e2 = output_added(e1, p.buffer, chunk);
        match p.on_output {
            Some(f) => {
                let (start, end) = output_range(e, p.buffer, chunk);
                EditorModel {
                    deferred: e2.deferred.push(
                        ActionModel::RunScheme(
                            f,
                            seq![
                                ValModel::Str(chunk),
                                ValModel::Int(int_of(start)),
                                ValModel::Int(int_of(end)),
                            ],
                        ),
                    ),
                    ..e2
                }
            },
            None => e2,
        }
    }
}

/// Where output goes in a buffer: at its end; nowhere if there is no such
/// buffer.
pub open spec fn output_range(e: EditorModel, id: usize, text: Seq<char>) -> (int, int) {
    if has_buffer(e.buffers, id) {
        let n = e.buffers[buf_index(e.buffers, id)].text.len() as int;
        (n, n + text.len())
    } else {
        (0, 0)
    }
}

fn queue_output(ed: &mut Editor, f: SchemeVal, chunk: &str, start: usize, end: usize)
    requires
        wf(old(ed)@),
    ensures
        final(ed)@ == (EditorModel {
            deferred: old(ed)@.deferred.push(
                ActionModel::RunScheme(
                    f@,
                    seq![
                        ValModel::Str(chunk@),
                        ValModel::Int(int_of(start as int)),
                        ValModel::Int(int_of(end as int)),
                    ],
                ),
            ),
            ..old(ed)@
        }),
        wf(final(ed)@),
{
    let ghost e = ed@;
    let mut args: Vec<SchemeVal> = Vec::new();
    args.push(SchemeVal::Str(copy(chunk)));
    args.push(SchemeVal::Int(to_int(start)));
    args.push(SchemeVal::Int(to_int(end)));
    assert(vals(args@) =~= seq![
        ValModel::Str(chunk@),
        ValModel::Int(int_of(start as int)),
        ValModel::Int(int_of(end as int)),
    ]);
    let action = PostAction::RunScheme(f, args);
    let ghost a = action@;
    ed.deferred.push(action);
    proof {
        assert(ed@.deferred =~= e.deferred.push(a));
        lemma_wf_same(e, ed@);
    }
}

/// Take in what a process sent since the last time, and whether its pipes were
/// closed. Whether that is worth a redraw.
pub fn process_output(ed: &mut Editor, id: u64, chunk: &str, closed: bool) -> (happened: bool)
    requires
        wf(old(ed)@),
        is_process(old(ed)@, id as int),
    ensures
        final(ed)@ == output_taken(old(ed)@, process_at(old(ed)@, id as int), chunk@, closed),
        happened == (chunk@.len() > 0 && !old(ed)@.processes[process_at(
            old(ed)@,
            id as int,
        )].discard_output),
        wf(final(ed)@),
{
    let ghost e = ed@;
    let i: usize = find_process(ed, id).unwrap();
    assert(e.processes[i as int] == ed.processes@[i as int]@);
    if closed {
        let p = &mut ed.processes[i];
        p.streams_closed = true;
        proof {
            assert(ed@ =~= with_process_at(
                e,
                i as int,
                ProcessModel { streams_closed: true, ..e.processes[i as int] },
            ));
            lemma_wf_same(e, ed@);
        }
    }
    let ghost e1 = ed@;
    assert(ed.processes@[i as int]@.on_output == e.processes[i as int].on_output);
    if ed.processes[i].discard_output || chunk.unicode_len() == 0 {
        return false;
    }
    let buffer: BufferId = ed.processes[i].buffer;
    let on_output = copy_opt_val(&ed.processes[i].on_output);
    let (start, end) = ed.append_to_buffer(buffer, chunk);
    assert(ed@ == output_added(e1, buffer, chunk@));
    if let Some(f) = on_output {
        queue_output(ed, f, chunk, start, end);
    }
    true
}

/// Whether both pipes of a process were closed, so that its exit can be asked
/// for.
pub fn process_closed(ed: &Editor, id: u64) -> (b: bool)
    ensures
        b == (is_process(ed@, id as int) && ed@.processes[process_at(
            ed@,
            id as int,
        )].streams_closed),
{
    match find_process(ed, id) {
        Some(i) => {
            assert(ed@.processes[i as int] == ed.processes@[i as int]@);
            ed.processes[i].streams_closed
        },
        None => false,
    }
}

/// The editor after a process exited: it is forgotten, and its closure for the
/// exit queued with the exit code.
pub open spec fn process_gone(e: EditorModel, i: int, code: int) -> EditorModel {
    let e1 = EditorModel { processes: e.processes.remove(i), ..e };
    match e.processes[i].on_exit {
        Some(f) => EditorModel {
            deferred: e.deferred.push(ActionModel::RunScheme(f, seq![ValModel::Int(code)])),
            ..e1
        },
        None => e1,
    }
}

/// The exit code that is told of a process: -1 for one that ended without a
/// code, by a signal, or whose end could not be learned.
pub open spec fn told_code(code: Option<i32>) -> int {
    match code {
        Some(c) => c as int,
        None => -1,
    }
}

/// Take in that a process ended, with its exit code if it has one: it is
/// forgotten, and its closure for the exit queued. That is always worth a redraw.
pub fn process_reaped(ed: &mut Editor, id: u64, code: Option<i32>) -> (happened: bool)
    requires
        wf(old(ed)@),
        is_process(old(ed)@, id as int),
    ensures
        final(ed)@ == process_gone(old(ed)@, process_at(old(ed)@, id as int), told_code(code)),
        happened,
        wf(final(ed)@),
{
    let told: i32 = match code {
        Some(c) => c,
        None => -1,
    };
    process_exited(ed, id, told);
    true
}

/// Forget a process that exited, and queue its closure for the exit.
pub fn process_exited(ed: &mut Editor, id: u64, code: i32)
    requires
        wf(old(ed)@),
        is_process(old(ed)@, id as int),
    ensures
        final(ed)@ == process_gone(old(ed)@, process_at(old(ed)@, id as int), code as int),
        wf(final(ed)@),
{
    let ghost e = ed@;
    let i: usize = find_process(ed, id).unwrap();
    assert(e.processes[i as int] == ed.processes@[i as int]@);
    let handle = ed.processes.remove(i);
    assert(ed@.processes =~= e.processes.remove(i as int));
    if let Some(f) = handle.on_exit {
        let mut args: Vec<SchemeVal> = Vec::new();
        args.push(SchemeVal::Int(code as isize));
        assert(vals(args@) =~= seq![ValModel::Int(code as int)]);
        let action = PostAction::RunScheme(f, args);
        let ghost a = action@;
        ed.deferred.push(action);
        assert(ed@.deferred =~= e.deferred.push(a));
    }
    proof {
        assert(ed@ =~= process_gone(e, i as int, code as int));
        lemma_wf_same(e, ed@);
    }
}

} // verus!
