//! Whether a key can be handled: tests that callers can make before they hand
//! one in.

use crate::assoc::lookup;
use crate::buffer::{undone, BufferModel};
use crate::buffers::has_ids;
use crate::commands::basic::{count, times};
use crate::commands::editing::{can_undo_times, has_undo, one_undone};
use crate::commands::ring::{region_in_text, yank_pop_ok};
use crate::commands::run::native_ok;
use crate::dispatch::{
    boundary_set, chord_handled, chord_ok, command_begun, ctrl_g, digit_of, execute_ok,
    handle_chord, keys_cleared, resolve,
};
use crate::editor::{
    at_point, cur_buf, cur_point, lemma_cur, lemma_put, lemma_wf_same, lemma_with_buf, put, wf,
    CommandFn, Editor, EditorModel, FnModel,
};
use crate::input::{prefix_value, InputMode, PostAction, PromptKind};
use crate::keymap::Lookup;
use crate::keys::{Chord, Key};
use crate::lines::clip;
use crate::minibuffer::{prompt_closed, submit_ok};
use crate::native::NativeCmd;
use crate::script::prompts::{exit_minibuffer, exited};
use crate::strings::trim;
use crate::undo::{
    bounded, groups_fit, lemma_bounded_fit, lemma_replayed_len, newest_group, reverted_point,
};
use vstd::prelude::*;

verus! {

/// Whether a native command can be run after an undo boundary, by what the
/// editor holds before it.
pub open spec fn runs(e: EditorModel, c: NativeCmd, n: Option<u32>) -> bool {
    &&& has_ids(e)
    &&& match c {
        NativeCmd::Undo => cur_buf(e).read_only || groups_fit(
            cur_buf(e).text.len() as int,
            cur_buf(e).undo,
            times(n),
        ),
        NativeCmd::KillRingSave => region_in_text(e),
        NativeCmd::YankPop => yank_pop_ok(e),
        _ => true,
    }
}

/// Groups can be undone in the editor where they fit the text.
proof fn lemma_undo_times(e: EditorModel, n: int)
    requires
        wf(e),
    ensures
        can_undo_times(e, n) == groups_fit(cur_buf(e).text.len() as int, cur_buf(e).undo, n),
    decreases n,
{
    if n > 0 {
        let b = cur_buf(e);
        let group = newest_group(b.undo);
        if has_undo(e) && crate::undo::replayable(b.text.len() as int, group) {
            lemma_replayed_len(b.text, group);
            let to = reverted_point(group.last());
            let w = at_point(e, clip(undone(b).text, to->0));
            lemma_put(e, w, undone(b));
            let e1 = one_undone(e);
            lemma_wf_same(put(e, w, undone(b)), e1);
            assert(cur_buf(e1) == undone(b));
            lemma_undo_times(e1, n - 1);
        }
    }
}

/// What is asked of the editor after a boundary can be told before it.
proof fn lemma_runs(e: EditorModel, c: NativeCmd, n: Option<u32>)
    requires
        wf(e),
    ensures
        native_ok(boundary_set(e), c, n) == runs(e, c, n),
{
    let b = cur_buf(e);
    let b1 = BufferModel { undo: bounded(b.undo), ..b };
    lemma_with_buf(e, b1);
    lemma_cur(e);
    let e1 = boundary_set(e);
    assert(cur_buf(e1) == b1);
    assert(cur_point(e1) == cur_point(e));
    lemma_undo_times(e1, times(n));
    lemma_bounded_fit(b.text.len() as int, b.undo, times(n));
}

/// What a command can be run in does not rest on the keys and modes.
proof fn lemma_same_runs(a: EditorModel, b: EditorModel)
    requires
        wf(a),
        b.buffers == a.buffers,
        b.windows == a.windows,
        b.recency == a.recency,
        b.next_buffer_id == a.next_buffer_id,
        b.next_process_id == a.next_process_id,
        b.last_yank == a.last_yank,
        b.kill_ring == a.kill_ring,
    ensures
        wf(b),
        forall|c: NativeCmd, n: Option<u32>| #[trigger] runs(b, c, n) == runs(a, c, n),
        forall|name: Seq<char>|
            b.registry == a.registry && b.prefix == a.prefix ==> #[trigger] execute_ok(b, name)
                == execute_ok(a, name),
{
    lemma_wf_same(a, b);
    assert(cur_buf(b) == cur_buf(a));
    assert(cur_point(b) == cur_point(a));
    assert forall|name: Seq<char>| b.registry == a.registry && b.prefix == a.prefix implies
        #[trigger] execute_ok(b, name) == execute_ok(a, name) by {
        lemma_execute(a, name);
        lemma_execute(b, name);
    }
}

proof fn lemma_execute(e: EditorModel, name: Seq<char>)
    requires
        wf(e),
    ensures
        execute_ok(e, name) == match lookup(e.registry, name) {
            Some(cmd) => match cmd.f {
                FnModel::Native(c) => runs(e, c, prefix_value(e.prefix)),
                FnModel::Scheme(_) => true,
            },
            None => true,
        },
{
    let e1 = command_begun(e, name);
    lemma_wf_same(e, e1);
    assert(cur_buf(e1) == cur_buf(e));
    assert(cur_point(e1) == cur_point(e));
    if let Some(cmd) = lookup(e.registry, name) {
        if let FnModel::Native(c) = cmd.f {
            lemma_runs(e1, c, prefix_value(e.prefix));
        }
    }
}

impl Editor {
    /// Whether buffers, windows and processes can still be numbered.
    pub fn has_free_ids(&self) -> (b: bool)
        ensures
            b == has_ids(self@),
    {
        self.next_buffer_id < usize::MAX && self.windows.next_id < usize::MAX
            && self.next_process_id < u64::MAX
    }

    /// Whether a native command can be run after an undo boundary.
    pub fn can_run(&self, c: NativeCmd, n: Option<u32>) -> (b: bool)
        requires
            wf(self@),
        ensures
            b == native_ok(boundary_set(self@), c, n),
    {
        proof {
            lemma_runs(self@, c, n);
            lemma_cur(self@);
        }
        if !self.has_free_ids() {
            return false;
        }
        let buf = self.cur_buffer();
        let len: usize = buf.len_chars();
        match c {
            NativeCmd::Undo => buf.read_only || buf.undo.can_undo(len, count(n)),
            NativeCmd::KillRingSave => {
                let raw: usize = self.windows.selected_ref().point;
                let point: usize = if raw < len {
                    raw
                } else {
                    len
                };
                match buf.region(point) {
                    Some((_start, end)) => end <= len,
                    None => true,
                }
            },
            NativeCmd::YankPop => match self.last_yank {
                Some((start, _end)) => self.kill_ring.next_fits(start),
                None => true,
            },
            _ => true,
        }
    }

    /// Whether a command can be run by name.
    pub fn can_execute(&self, name: &str) -> (b: bool)
        requires
            wf(self@),
        ensures
            b == execute_ok(self@, name@),
    {
        proof {
            lemma_execute(self@, name@);
        }
        match self.registry.get(name) {
            Some(cmd) => match &cmd.f {
                CommandFn::Native(c) => {
                    let n: Option<u32> = self.prefix_num();
                    proof {
                        lemma_runs(self@, *c, n);
                    }
                    self.can_run(*c, n)
                },
                CommandFn::Scheme(_) => true,
            },
            None => true,
        }
    }

    /// Whether the prompt, if one is up, can be submitted.
    pub fn can_submit(&self) -> (b: bool)
        requires
            wf(self@),
        ensures
            b == submit_ok(self@),
    {
        proof {
            lemma_same_runs(self@, prompt_closed(self@));
        }
        match &self.input {
            InputMode::Prompt(p) => match &p.kind {
                PromptKind::YesNo(_) => true,
                PromptKind::ExecuteCommand => {
                    let name = trim(p.input.as_str());
                    self.has_free_ids() && (name.as_str().is_empty() || self.can_execute(
                        name.as_str(),
                    ))
                },
                _ => self.has_free_ids(),
            },
            _ => true,
        }
    }

    fn can_prompt_key(&self, chord: Chord) -> (b: bool)
        requires
            wf(self@),
        ensures
            b == crate::minibuffer::prompt_key_ok(self@, chord),
    {
        match &self.input {
            InputMode::Prompt(p) => match &p.kind {
                PromptKind::YesNo(_) => self.has_free_ids(),
                _ => {
                    let one = [chord];
                    assert(one@ =~= seq![chord]);
                    match self.minibuffer_map.lookup(&one) {
                        Lookup::Cmd(name) => self.can_execute(name.as_str()),
                        _ => chord != (Chord { ctrl: false, meta: false, key: Key::Enter })
                            || self.can_submit(),
                    }
                },
            },
            _ => true,
        }
    }

    fn can_key(&self, chord: Chord) -> (b: bool)
        requires
            wf(self@),
            self@.input is Normal,
        ensures
            b == chord_ok(self@, chord) || chord == ctrl_g(),
    {
        let ghost e = EditorModel { echo: None, ..self@ };
        proof {
            lemma_same_runs(self@, e);
            lemma_same_runs(self@, keys_cleared(e));
            lemma_cur(self@);
        }
        if (self.pending.len() == 0 && chord == (Chord {
            ctrl: true,
            meta: false,
            key: Key::Char('u'),
        })) || digit_of(self, chord).is_some() {
            return true;
        }
        let mut seq: Vec<Chord> = crate::dispatch::copy_chords(&self.pending);
        seq.push(chord);
        assert(seq@ == e.pending.push(chord));
        match resolve(self, seq.as_slice()) {
            Lookup::Pending => true,
            Lookup::Cmd(name) => self.can_execute(name.as_str()),
            Lookup::Unbound => {
                let plain = seq.len() == 1 && !chord.ctrl && !chord.meta;
                proof {
                    if seq@.len() == 1 {
                        assert(seq@ =~= seq![chord]);
                    }
                    assert(seq![chord][0] == chord);
                }
                if plain && chord.key == Key::Enter {
                    self.can_execute("newline")
                } else if plain && chord.key == Key::Backspace {
                    self.can_execute("delete-backward-char")
                } else {
                    true
                }
            },
        }
    }

    /// Whether a chord can be handled.
    pub fn can_press(&self, chord: Chord) -> (b: bool)
        requires
            wf(self@),
        ensures
            b == chord_ok(self@, chord),
    {
        let ghost e = EditorModel { echo: None, ..self@ };
        proof {
            lemma_same_runs(self@, e);
            lemma_same_runs(self@, prompt_closed(e));
            lemma_same_runs(self@, prompt_closed(self@));
        }
        if chord == (Chord { ctrl: true, meta: false, key: Key::Char('g') }) {
            return true;
        }
        match &self.input {
            InputMode::Prompt(_) => self.can_prompt_key(chord),
            InputMode::Normal => self.can_key(chord),
            _ => true,
        }
    }

    /// Handle a chord if it can be handled; else nothing happens, and there is no
    /// answer.
    pub fn press(&mut self, chord: Chord) -> (r: Option<PostAction>)
        requires
            wf(old(self)@),
        ensures
            r is Some <==> chord_ok(old(self)@, chord),
            match r {
                Some(a) => (final(self)@, a@) == chord_handled(old(self)@, chord),
                None => final(self)@ == old(self)@,
            },
            wf(final(self)@),
    {
        if !self.can_press(chord) {
            return None;
        }
        Some(handle_chord(self, chord))
    }

    /// Submit the prompt from inside the extension language if it can be
    /// submitted; else nothing happens. Whether it was submitted.
    pub fn press_return(&mut self) -> (done: bool)
        requires
            wf(old(self)@),
        ensures
            done == submit_ok(old(self)@),
            final(self)@ == if done {
                exited(old(self)@)
            } else {
                old(self)@
            },
            wf(final(self)@),
    {
        if !self.can_submit() {
            return false;
        }
        exit_minibuffer(self);
        true
    }
}

} // verus!
