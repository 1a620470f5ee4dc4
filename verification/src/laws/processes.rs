//! What background processes do to the editor.

use crate::editor::{buf_index, lemma_buf_index, wf, EditorModel, ProcessModel};
use crate::input::ActionModel;
use crate::layout::output_added;
use crate::process::{
    is_process, kill_noted, output_taken, process_at, process_from, process_gone, started,
    told_code, with_process, with_process_at,
};
use crate::value::ValModel;
use vstd::prelude::*;

verus! {

/// Whether `i` is the one process with an id.
pub open spec fn the_process(e: EditorModel, id: int, i: int) -> bool {
    &&& 0 <= i < e.processes.len()
    &&& e.processes[i].id == id
    &&& forall|j: int|
        0 <= j < e.processes.len() && j != i ==> (#[trigger] e.processes[j]).id != id
}

proof fn lemma_from(s: Seq<ProcessModel>, id: int, k: int)
    requires
        0 <= k <= s.len(),
    ensures
        k <= process_from(s, id, k) <= s.len(),
        process_from(s, id, k) < s.len() ==> s[process_from(s, id, k)].id == id,
        forall|j: int| k <= j < process_from(s, id, k) ==> (#[trigger] s[j]).id != id,
    decreases s.len() - k,
{
    if k < s.len() && s[k].id != id {
        lemma_from(s, id, k + 1);
    }
}

proof fn lemma_the(e: EditorModel, id: int, i: int)
    requires
        the_process(e, id, i),
    ensures
        process_at(e, id) == i,
        is_process(e, id),
{
    lemma_from(e.processes, id, 0);
    if process_at(e, id) > i {
        assert(e.processes[i].id != id);
    }
    if process_at(e, id) < i {
        assert(e.processes[process_at(e, id)].id != id);
    }
}

/// Whether the text of one buffer ends in a new piece, its text before being what
/// stands in front of it, and no other buffer has changed.
pub open spec fn text_added(e: EditorModel, r: EditorModel, id: usize, x: Seq<char>) -> bool {
    &&& r.buffers.len() == e.buffers.len()
    &&& forall|k: int|
        0 <= k < e.buffers.len() ==> {
            if e.buffers[k].id == id {
                (#[trigger] r.buffers[k]).text == e.buffers[k].text + x && r.buffers[k].id == id
            } else {
                r.buffers[k] == e.buffers[k]
            }
        }
}

proof fn lemma_added(e: EditorModel, id: usize, x: Seq<char>)
    requires
        wf(e),
        x.len() > 0,
    ensures
        text_added(e, output_added(e, id, x), id, x),
        output_added(e, id, x).deferred == e.deferred,
        output_added(e, id, x).processes == e.processes,
{
    reveal(wf);
    lemma_buf_index(e.buffers, id);
    let i = buf_index(e.buffers, id);
    assert forall|k: int| 0 <= k < e.buffers.len() && e.buffers[k].id == id implies k == i by {
        let s = crate::editor::buf_ids(e.buffers);
        assert(s[k] == id);
        assert(s.contains(id));
        assert(s[i] == id);
    }
}

/// What a process sends goes to the end of its buffer and of no other, and its
/// closure for output, if it has one, is called once, with that text and the range
/// that it now stands in; the other processes stay as they are.
pub proof fn law_output_taken(e: EditorModel, id: u64, i: int, x: Seq<char>, closed: bool)
    requires
        wf(e),
        the_process(e, id as int, i),
        x.len() > 0,
        !e.processes[i].discard_output,
    ensures
        ({
            let r = output_taken(e, process_at(e, id as int), x, closed);
            let p = e.processes[i];
            let q = r.processes[i];
            &&& text_added(e, r, p.buffer, x)
            &&& match p.on_output {
                Some(f) => forall|k: int|
                    0 <= k < e.buffers.len() && (#[trigger] e.buffers[k]).id == p.buffer
                        && e.buffers[k].text.len() + x.len() <= isize::MAX ==> r.deferred
                        == e.deferred.push(
                        ActionModel::RunScheme(
                            f,
                            seq![
                                ValModel::Str(x),
                                ValModel::Int(e.buffers[k].text.len() as int),
                                ValModel::Int(r.buffers[k].text.len() as int),
                            ],
                        ),
                    ),
                None => r.deferred == e.deferred,
            }
            &&& r.processes == e.processes.update(i, q)
            &&& q == ProcessModel { streams_closed: p.streams_closed || closed, ..p }
        }),
{
    lemma_the(e, id as int, i);
    let p = e.processes[i];
    let e1 = if closed {
        with_process_at(e, i, ProcessModel { streams_closed: true, ..p })
    } else {
        e
    };
    crate::editor::lemma_wf_same(e, e1);
    lemma_added(e1, p.buffer, x);
    lemma_buf_index(e.buffers, p.buffer);
    let r = output_taken(e, i, x, closed);
    assert(e.processes =~= e.processes.update(i, p));
    assert forall|k: int| 0 <= k < e.buffers.len() && (#[trigger] e.buffers[k]).id
        == p.buffer implies k == buf_index(e.buffers, p.buffer) by {
        reveal(wf);
        let s = crate::editor::buf_ids(e.buffers);
        assert(s[k] == p.buffer);
        assert(s.contains(p.buffer));
        assert(s[buf_index(e.buffers, p.buffer)] == p.buffer);
    }
    assert(text_added(e, r, p.buffer, x));
}

/// A killed process is still known, and what it sends from there on goes nowhere and
/// is told to nobody; the other processes stay as they are.
pub proof fn law_killed_is_silent(e: EditorModel, id: u64, i: int, x: Seq<char>, closed: bool)
    requires
        wf(e),
        the_process(e, id as int, i),
    ensures
        ({
            let m = kill_noted(e, id as int);
            let r = output_taken(m, process_at(m, id as int), x, closed);
            &&& is_process(m, id as int)
            &&& r.buffers == e.buffers
            &&& r.windows == e.windows
            &&& r.deferred == e.deferred
            &&& r.processes.len() == e.processes.len()
            &&& forall|j: int|
                0 <= j < e.processes.len() && j != i ==> #[trigger] r.processes[j]
                    == e.processes[j]
        }),
{
    lemma_the(e, id as int, i);
    let m = kill_noted(e, id as int);
    assert(the_process(m, id as int, i));
    lemma_the(m, id as int, i);
}

/// A process that ended is forgotten and the others stay, in their order; its closure
/// for the exit, if it has one, is called once, with the exit code, or with -1 where
/// there is none. No text changes.
pub proof fn law_ended_is_forgotten(e: EditorModel, id: u64, i: int, code: Option<i32>)
    requires
        wf(e),
        the_process(e, id as int, i),
    ensures
        ({
            let r = process_gone(e, process_at(e, id as int), told_code(code));
            let told = match code {
                Some(c) => c as int,
                None => -1,
            };
            &&& !is_process(r, id as int)
            &&& r.processes == e.processes.subrange(0, i) + e.processes.subrange(
                i + 1,
                e.processes.len() as int,
            )
            &&& r.buffers == e.buffers
            &&& match e.processes[i].on_exit {
                Some(f) => r.deferred == e.deferred.push(
                    ActionModel::RunScheme(f, seq![ValModel::Int(told)]),
                ),
                None => r.deferred == e.deferred,
            }
        }),
{
    lemma_the(e, id as int, i);
    let r = process_gone(e, i, told_code(code));
    let s = e.processes;
    assert(r.processes =~= s.subrange(0, i) + s.subrange(i + 1, s.len() as int));
    lemma_from(r.processes, id as int, 0);
    let k = process_at(r, id as int);
    if k < r.processes.len() {
        assert(r.processes[k] == if k < i {
            s[k]
        } else {
            s[k + 1]
        });
    }
}

/// A process that was started is known under an id of its own, with its name and its
/// buffer, and is neither killed nor closed; a closure that is false is none. The
/// next one gets another id.
pub proof fn law_started_is_known(
    e: EditorModel,
    name: Seq<char>,
    buffer: usize,
    on_output: ValModel,
    on_exit: ValModel,
)
    requires
        wf(e),
        e.next_process_id < u64::MAX,
        forall|j: int|
            0 <= j < e.processes.len() ==> (#[trigger] e.processes[j]).id < e.next_process_id,
    ensures
        ({
            let id = e.next_process_id;
            let r = with_process(e, started(id, name, buffer, on_output, on_exit));
            let p = r.processes[process_at(r, id as int)];
            &&& !is_process(e, id as int)
            &&& is_process(r, id as int)
            &&& p.name == name
            &&& p.buffer == buffer
            &&& !p.discard_output
            &&& !p.streams_closed
            &&& p.on_output == (if on_output == ValModel::Bool(false) {
                None
            } else {
                Some(on_output)
            })
            &&& p.on_exit == (if on_exit == ValModel::Bool(false) {
                None
            } else {
                Some(on_exit)
            })
            &&& r.next_process_id > id
            &&& forall|j: int|
                0 <= j < r.processes.len() ==> (#[trigger] r.processes[j]).id < r.next_process_id
            &&& forall|j: int|
                0 <= j < e.processes.len() ==> #[trigger] r.processes[j] == e.processes[j]
        }),
{
    let id = e.next_process_id;
    let r = with_process(e, started(id, name, buffer, on_output, on_exit));
    lemma_from(e.processes, id as int, 0);
    assert(the_process(r, id as int, e.processes.len() as int));
    lemma_the(r, id as int, e.processes.len() as int);
}

} // verus!
