//! The decisions of the main loop: which chord a key event is, which hooks a
//! key fires, and what was queued meanwhile.

use crate::editor::{lemma_wf_same, said, wf, Editor, EditorModel};
use crate::input::{ActionModel, PostAction};
use crate::keys::{event_chord, normalize, Chord, KeyCode, KeyEvent};
use vstd::prelude::*;

verus! {

/// How many queued actions are run in a row: more are taken for a loop of the
/// extension language.
pub const DRAIN_LIMIT: usize = 100;

/// Whether the next key is a Meta key, and the chord that a key event is, when
/// the key before was a bare ESC or not. ESC acts as a Meta prefix; releases
/// change nothing.
pub open spec fn key_taken(esc_meta: bool, k: KeyEvent) -> (bool, Option<Chord>) {
    if k.release {
        (esc_meta, None)
    } else if k.code == KeyCode::Esc {
        (true, None)
    } else {
        (false, event_chord(k, esc_meta))
    }
}

/// Take in a key event: whether the next key is a Meta key, and the chord to be
/// handled, if there is one.
pub fn take_key(esc_meta: bool, k: &KeyEvent) -> (r: (bool, Option<Chord>))
    ensures
        r == key_taken(esc_meta, *k),
{
    if k.release {
        (esc_meta, None)
    } else if k.code == KeyCode::Esc {
        (true, None)
    } else {
        (false, normalize(k, esc_meta))
    }
}

/// The hook that a key fires, by whether a prompt was up before and is after.
pub open spec fn hook_of(before: bool, after: bool) -> Option<Seq<char>> {
    if !before && after {
        Some("minibuffer-setup-hook"@)
    } else if before && after {
        Some("post-command-hook"@)
    } else if before && !after {
        Some("minibuffer-exit-hook"@)
    } else {
        None
    }
}

/// The hook that a key fires.
pub fn prompt_hook(before: bool, after: bool) -> (r: Option<&'static str>)
    ensures
        match r {
            Some(s) => hook_of(before, after) == Some(s@),
            None => hook_of(before, after) is None,
        },
{
    if !before && after {
        Some("minibuffer-setup-hook")
    } else if before && after {
        Some("post-command-hook")
    } else if before && !after {
        Some("minibuffer-exit-hook")
    } else {
        None
    }
}

/// The editor without the note that a file was visited.
pub open spec fn visit_taken(e: EditorModel) -> EditorModel {
    EditorModel { file_visited: false, ..e }
}

/// Whether a file was visited since the last time.
pub fn take_file_visited(ed: &mut Editor) -> (b: bool)
    requires
        wf(old(ed)@),
    ensures
        b == old(ed)@.file_visited,
        final(ed)@ == visit_taken(old(ed)@),
        wf(final(ed)@),
{
    let ghost e = ed@;
    let b = ed.file_visited;
    ed.file_visited = false;
    proof {
        lemma_wf_same(e, ed@);
    }
    b
}

/// The editor and the action to run next, after `done` actions of the queue
/// were run: the oldest of the queue. Past the limit no more are run, and that
/// is said.
pub open spec fn drained(e: EditorModel, done: int) -> (EditorModel, Option<ActionModel>) {
    if done >= DRAIN_LIMIT {
        (said(e, "Deferred action limit reached (plugin loop?)"@), None)
    } else if e.deferred.len() == 0 {
        (e, None)
    } else {
        (EditorModel { deferred: e.deferred.drop_first(), ..e }, Some(e.deferred[0]))
    }
}

/// An action, if there is one.
pub open spec fn opt_action(a: Option<PostAction>) -> Option<ActionModel> {
    match a {
        Some(x) => Some(x@),
        None => None,
    }
}

/// The action to run next, after `done` actions of the queue were run.
pub fn next_deferred(ed: &mut Editor, done: usize) -> (r: Option<PostAction>)
    requires
        wf(old(ed)@),
    ensures
        (final(ed)@, opt_action(r)) == drained(old(ed)@, done as int),
        wf(final(ed)@),
{
    let ghost e = ed@;
    if done >= DRAIN_LIMIT {
        ed.message("Deferred action limit reached (plugin loop?)");
        return None;
    }
    if ed.deferred.len() == 0 {
        return None;
    }
    let a = ed.deferred.remove(0);
    proof {
        assert(ed@.deferred =~= e.deferred.drop_first());
        assert(ed@ =~= drained(e, done as int).0);
        lemma_wf_same(e, ed@);
    }
    Some(a)
}

} // verus!
