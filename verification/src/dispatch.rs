//! Key event dispatcher. Chords accumulate in the editor's pending keys and
//! walk a prefix tree (keymap). Lookup order: active input mode (minibuffer /
//! isearch / query-replace / describe-key) -> buffer-local map (dired, wgrep,
//! or a named map) -> global map -> self-insert fallback.

use crate::assoc::lookup;
use crate::buffer::{
    edited_all, inserted, law_undo_restores, undone, BufferModel, Mode, ModeModel,
};
use crate::commands::basic::{keyboard_quit, quit_all, self_insert, times, typed};
use crate::commands::editing::{can_undo_times, one_undone, undo_done, undo_ok, undone_times};
use crate::commands::run::{native_done, native_ok, run_native};
use crate::editor::{
    at_point, cur_buf, cur_index, cur_point, cur_win, lemma_cur, lemma_put, lemma_wf_same, lemma_with_buf,
    moved, said, wf, with_buf, CommandFn, Editor, EditorModel, FnModel,
};
use crate::input::{
    prefix_value, ActionModel, InputMode, InputModel, PostAction, PrefixArg,
};
use crate::keymap::{Lookup, Meaning};
use crate::keys::{format_seq, inserts, seq_text, Chord, Key};
use crate::lines::clip;
use crate::minibuffer::{handle_key, prompt_key, prompt_key_ok};
use crate::native::NativeCmd;
use crate::search::{isearch_key, query_replace_key, replace_key, search_key};
use crate::strings::{
    cat2, cat3, copy, decimal, decimal_u64, is_digit, opt_view, repeated, same,
};
use crate::undo::{
    all_in_text, bounded, changed_all, lemma_bounded_group, lemma_newest_nonempty,
    newest_group, recorded, reverted_point, Change,
};
use crate::value::{copy_opt_val, opt_val, vals, SchemeVal, ValModel};
use vstd::prelude::*;

verus! {

// ---- keymaps of the current buffer -----------------------------------------

/// The buffer-local keymap that applies: that of dired or of its name editing
/// in a dired buffer, else the one that the buffer names.
pub open spec fn local_keys(e: EditorModel) -> Option<Map<Seq<Chord>, Meaning>> {
    let b = cur_buf(e);
    match b.mode {
        ModeModel::Dired(d) => Some(
            if d.wgrep is Some {
                e.wgrep_map
            } else {
                e.dired_map
            },
        ),
        ModeModel::Fundamental => match b.local_map {
            Some(name) => lookup(e.keymaps, name),
            None => None,
        },
    }
}

/// What a key sequence means in the current buffer: the local map first, the
/// global map for what it leaves unbound.
pub open spec fn key_meaning(e: EditorModel, s: Seq<Chord>) -> Meaning {
    match local_keys(e) {
        Some(m) => match m[s] {
            Meaning::Unbound => e.global_map[s],
            hit => hit,
        },
        None => e.global_map[s],
    }
}

pub(crate) fn resolve(ed: &Editor, seq: &[Chord]) -> (r: Lookup)
    requires
        wf(ed@),
    ensures
        r@ == key_meaning(ed@, seq@),
{
    let buf = ed.cur_buffer();
    let local = match &buf.mode {
        Mode::Dired(d) => Some(
            if d.wgrep.is_some() {
                &ed.wgrep_map
            } else {
                &ed.dired_map
            },
        ),
        Mode::Fundamental => match &buf.local_map {
            Some(name) => ed.keymaps.get(name.as_str()),
            None => None,
        },
    };
    if let Some(map) = local {
        match map.lookup(seq) {
            Lookup::Unbound => {},
            hit => {
                return hit;
            },
        }
    }
    ed.global_map.lookup(seq)
}

// ---- commands --------------------------------------------------------------

/// The editor as a command starts: its name noted, the prefix argument used
/// up, and the goal column forgotten unless the command moves by lines.
pub open spec fn command_begun(e: EditorModel, name: Seq<char>) -> EditorModel {
    EditorModel {
        prefix: PrefixArg::Unset,
        this_command: Some(name),
        goal_col: if name == "next-line"@ || name == "previous-line"@ {
            e.goal_col
        } else {
            None
        },
        ..e
    }
}

/// The editor with an undo boundary in the current buffer.
pub open spec fn boundary_set(e: EditorModel) -> EditorModel {
    with_buf(e, BufferModel { undo: bounded(cur_buf(e).undo), ..cur_buf(e) })
}

/// The editor with the command that ran noted as the last one.
pub open spec fn command_ended(e: EditorModel) -> EditorModel {
    EditorModel { last_command: e.this_command, this_command: None, ..e }
}

/// The editor after a command is run by name, and what is left to do.
pub open spec fn executed(e: EditorModel, name: Seq<char>) -> (EditorModel, ActionModel) {
    let e1 = command_begun(e, name);
    match lookup(e.registry, name) {
        None => (said(e1, "Unknown command: "@ + name), ActionModel::Nothing),
        Some(cmd) => match cmd.f {
            FnModel::Native(c) => {
                let (e2, a) = native_done(boundary_set(e1), c, prefix_value(e.prefix));
                (command_ended(e2), a)
            },
            FnModel::Scheme(f) => (
                command_ended(boundary_set(e1)),
                ActionModel::RunScheme(f, Seq::empty()),
            ),
        },
    }
}

/// Whether a command can be run by name.
pub open spec fn execute_ok(e: EditorModel, name: Seq<char>) -> bool {
    match lookup(e.registry, name) {
        Some(cmd) => match cmd.f {
            FnModel::Native(c) => native_ok(
                boundary_set(command_begun(e, name)),
                c,
                prefix_value(e.prefix),
            ),
            FnModel::Scheme(f) => true,
        },
        None => true,
    }
}

/// Run a command by name. Native commands run immediately; commands of the
/// extension language are returned for the caller to run.
pub fn execute_command(ed: &mut Editor, name: &str) -> (r: PostAction)
    requires
        wf(old(ed)@),
        execute_ok(old(ed)@, name@),
    ensures
        (final(ed)@, r@) == executed(old(ed)@, name@),
        wf(final(ed)@),
{
    let ghost e = ed@;
    let prefix: Option<u32> = ed.prefix_num();
    ed.prefix = PrefixArg::Unset;
    ed.this_command = Some(copy(name));
    // Consecutive C-n/C-p share a goal column; anything else clears it.
    if !same(name, "next-line") && !same(name, "previous-line") {
        ed.goal_col = None;
    }
    let ghost e1 = ed@;
    proof {
        assert(e1 =~= command_begun(e, name@));
        lemma_wf_same(e, e1);
    }
    // Copy the callable out so no registry borrow outlives the command.
    let native: Option<NativeCmd>;
    let scheme: Option<SchemeVal>;
    match ed.registry.get(name) {
        None => {
            ed.message(cat2("Unknown command: ", name).as_str());
            return PostAction::Nothing;
        },
        Some(cmd) => match &cmd.f {
            CommandFn::Native(c) => {
                native = Some(*c);
                scheme = None;
            },
            CommandFn::Scheme(f) => {
                native = None;
                scheme = Some(f.copy());
            },
        },
    }
    let buf = ed.cur_buffer_mut();
    buf.undo.push_boundary();
    assert(ed@ == boundary_set(e1));
    let action = match native {
        Some(c) => run_native(ed, c, prefix),
        None => match scheme {
            Some(f) => {
                let args: Vec<SchemeVal> = Vec::new();
                assert(vals(args@) =~= Seq::<ValModel>::empty());
                PostAction::RunScheme(f, args)
            },
            None => PostAction::Nothing,
        },
    };
    let ghost e2 = ed@;
    ed.last_command = ed.this_command.take();
    proof {
        assert(ed@ =~= command_ended(e2));
        lemma_wf_same(e2, ed@);
    }
    action
}

// ---- describing keys -------------------------------------------------------

/// The editor with the answer to a described key sequence: an echo, or a call
/// of the closure that asked.
pub open spec fn key_described(
    e: EditorModel,
    s: Seq<Chord>,
    name: Option<Seq<char>>,
    on_done: Option<ValModel>,
) -> EditorModel {
    let e1 = EditorModel { input: InputModel::Normal, ..e };
    match on_done {
        Some(f) => EditorModel {
            deferred: e.deferred.push(
                ActionModel::RunScheme(
                    f,
                    seq![
                        ValModel::Str(seq_text(s)),
                        ValModel::Str(
                            match name {
                                Some(n) => n,
                                None => Seq::empty(),
                            },
                        ),
                    ],
                ),
            ),
            ..e1
        },
        None => match name {
            Some(n) => said(e1, seq_text(s) + " runs the command "@ + n),
            None => said(e1, seq_text(s) + " is undefined"@),
        },
    }
}

/// The editor after a key while a key sequence is collected.
pub open spec fn describe_step(e: EditorModel, c: Chord) -> EditorModel {
    match e.input {
        InputModel::DescribeKey { seq, prompt, on_done } => {
            let s = seq.push(c);
            match key_meaning(e, s) {
                Meaning::Pending => said(
                    EditorModel { input: InputModel::DescribeKey { seq: s, prompt, on_done }, ..e },
                    prompt + seq_text(s) + "-"@,
                ),
                Meaning::Cmd(name) => key_described(e, s, Some(name), on_done),
                Meaning::Unbound => key_described(e, s, None, on_done),
            }
        },
        _ => e,
    }
}

fn answer_key(ed: &mut Editor, seq: &Vec<Chord>, name: Option<String>, on_done: Option<SchemeVal>)
    requires
        wf(old(ed)@),
    ensures
        final(ed)@ == key_described(old(ed)@, seq@, opt_view(name), opt_val(on_done)),
        wf(final(ed)@),
{
    let ghost e = ed@;
    let ghost nm = opt_view(name);
    let text = format_seq(seq.as_slice());
    ed.input = InputMode::Normal;
    let ghost e1 = ed@;
    proof {
        lemma_wf_same(e, e1);
    }
    match on_done {
        Some(f) => {
            let ghost want = seq![
                ValModel::Str(seq_text(seq@)),
                ValModel::Str(
                    match nm {
                        Some(n) => n,
                        None => Seq::empty(),
                    },
                ),
            ];
            let ghost fm = f@;
            let mut args: Vec<SchemeVal> = Vec::new();
            args.push(SchemeVal::Str(text));
            args.push(
                SchemeVal::Str(
                    match name {
                        Some(n) => n,
                        None => {
                            let s = String::new();
                            assert(s@ =~= Seq::<char>::empty());
                            s
                        },
                    },
                ),
            );
            assert(vals(args@) =~= want);
            ed.deferred.push(PostAction::RunScheme(f, args));
            proof {
                let got = ActionModel::RunScheme(fm, want);
                assert(ed@.deferred =~= e.deferred.push(got));
                assert(key_described(e, seq@, nm, Some(fm)).deferred == e.deferred.push(got));
                assert(ed@ =~= key_described(e, seq@, nm, Some(fm)));
                lemma_wf_same(e1, ed@);
            }
        },
        None => match name {
            Some(n) => ed.message(cat3(text.as_str(), " runs the command ", n.as_str()).as_str()),
            None => ed.message(cat2(text.as_str(), " is undefined").as_str()),
        },
    }
}

pub(crate) fn copy_chords(s: &Vec<Chord>) -> (r: Vec<Chord>)
    ensures
        r@ == s@,
{
    let mut r: Vec<Chord> = Vec::new();
    for i in 0..s.len()
        invariant
            r@ == s@.take(i as int),
    {
        r.push(s[i]);
    }
    r
}

/// C-h k: accumulate chords until they resolve (or dead-end) in the maps.
pub fn describe_key_chord(ed: &mut Editor, chord: Chord)
    requires
        wf(old(ed)@),
    ensures
        final(ed)@ == describe_step(old(ed)@, chord),
        wf(final(ed)@),
{
    let ghost e = ed@;
    let seq: Vec<Chord>;
    let prompt: String;
    let on_done: Option<SchemeVal>;
    match &ed.input {
        InputMode::DescribeKey { seq: s, prompt: p, on_done: f } => {
            let mut t = copy_chords(s);
            t.push(chord);
            seq = t;
            prompt = copy(p.as_str());
            on_done = copy_opt_val(f);
        },
        _ => {
            return ;
        },
    }
    match resolve(ed, seq.as_slice()) {
        Lookup::Pending => {
            let msg = cat3(prompt.as_str(), format_seq(seq.as_slice()).as_str(), "-");
            ed.input = InputMode::DescribeKey { seq, prompt, on_done };
            proof {
                lemma_wf_same(e, ed@);
            }
            ed.message(msg.as_str());
        },
        Lookup::Cmd(name) => answer_key(ed, &seq, Some(name), on_done),
        Lookup::Unbound => answer_key(ed, &seq, None, on_done),
    }
}

// ---- chords ----------------------------------------------------------------

/// The chord of C-g.
pub open spec fn ctrl_g() -> Chord {
    Chord { ctrl: true, meta: false, key: Key::Char('g') }
}

/// The chord of C-u.
pub open spec fn ctrl_u() -> Chord {
    Chord { ctrl: true, meta: false, key: Key::Char('u') }
}

/// The digit that a chord adds to a prefix argument, where one is begun and no
/// key is pending.
pub open spec fn prefix_digit(e: EditorModel, c: Chord) -> Option<int> {
    if e.pending.len() == 0 && e.prefix != PrefixArg::Unset {
        match inserts(c) {
            Some(ch) => if is_digit(ch) {
                Some((ch as int) - 48)
            } else {
                None
            },
            None => None,
        }
    } else {
        None
    }
}

/// A prefix argument with one digit more, at most the largest number.
pub open spec fn with_digit(p: PrefixArg, d: int) -> int {
    let n = match p {
        PrefixArg::Num(k) => 10 * k + d,
        _ => d,
    };
    if n <= u32::MAX {
        n
    } else {
        u32::MAX as int
    }
}

/// The editor after a chord that no input mode takes: it starts or goes on
/// with a prefix argument, or it extends the pending keys, which then wait for
/// more, run a command, insert themselves, or mean nothing.
pub open spec fn key_pressed(e: EditorModel, c: Chord) -> (EditorModel, ActionModel) {
    if e.pending.len() == 0 && c == ctrl_u() {
        (said(EditorModel { prefix: PrefixArg::Universal, ..e }, "C-u-"@), ActionModel::Nothing)
    } else if prefix_digit(e, c) is Some {
        let n = with_digit(e.prefix, prefix_digit(e, c)->0);
        (
            said(
                EditorModel { prefix: PrefixArg::Num(n as u32), ..e },
                "C-u "@ + decimal(n as nat) + "-"@,
            ),
            ActionModel::Nothing,
        )
    } else {
        let s = e.pending.push(c);
        match key_meaning(e, s) {
            Meaning::Pending => (
                said(EditorModel { pending: s, ..e }, seq_text(s) + "-"@),
                ActionModel::Nothing,
            ),
            Meaning::Cmd(name) => executed(keys_cleared(e), name),
            Meaning::Unbound => unbound_pressed(keys_cleared(e), s),
        }
    }
}

/// The editor with no keys pending.
pub open spec fn keys_cleared(e: EditorModel) -> EditorModel {
    EditorModel { pending: Seq::empty(), ..e }
}

/// Whether the last command was a key that inserted itself.
pub open spec fn in_typing(e: EditorModel) -> bool {
    e.last_command == Some("self-insert"@)
}

/// The editor after a key inserts text: a run of such keys starts with an undo
/// boundary, and ends a run of moves by lines.
pub open spec fn key_typed(e: EditorModel, text: Seq<char>) -> EditorModel {
    let e1 = EditorModel { prefix: PrefixArg::Unset, goal_col: None, ..e };
    EditorModel {
        last_command: Some("self-insert"@),
        ..typed(
            if in_typing(e) {
                e1
            } else {
                boundary_set(e1)
            },
            text,
        )
    }
}

/// The editor after an unbound key sequence: a single printable key inserts
/// itself, RET and backspace have editing defaults, anything else is
/// undefined.
pub open spec fn unbound_pressed(e: EditorModel, s: Seq<Chord>) -> (EditorModel, ActionModel) {
    if s.len() == 1 && inserts(s[0]) is Some {
        (
            key_typed(e, repeated(inserts(s[0])->0, times(prefix_value(e.prefix)) as nat)),
            ActionModel::Nothing,
        )
    } else if s.len() == 1 && s[0] == (Chord { ctrl: false, meta: false, key: Key::Enter }) {
        executed(e, "newline"@)
    } else if s.len() == 1 && s[0] == (Chord { ctrl: false, meta: false, key: Key::Backspace }) {
        executed(e, "delete-backward-char"@)
    } else {
        (
            said(
                EditorModel { prefix: PrefixArg::Unset, ..e },
                seq_text(s) + " is undefined"@,
            ),
            ActionModel::Nothing,
        )
    }
}

/// The editor after a chord, and what is left to do. C-g cancels everything,
/// everywhere; active input modes take keys before any keymap.
pub open spec fn chord_handled(e0: EditorModel, c: Chord) -> (EditorModel, ActionModel) {
    let e = EditorModel { echo: None, ..e0 };
    if c == ctrl_g() {
        (quit_all(e), ActionModel::Nothing)
    } else {
        match e.input {
            InputModel::Prompt(_) => prompt_key(e, c),
            InputModel::ISearch(_) => (search_key(e, c), ActionModel::Nothing),
            InputModel::QueryReplace(_) => (replace_key(e, c), ActionModel::Nothing),
            InputModel::DescribeKey { seq, prompt, on_done } => (
                describe_step(e, c),
                ActionModel::Nothing,
            ),
            InputModel::Normal => key_pressed(e, c),
        }
    }
}

/// Whether an unbound key sequence can be handled: the editing default of its
/// key, if it has one, can be run.
pub open spec fn unbound_ok(e: EditorModel, s: Seq<Chord>) -> bool {
    &&& s == seq![Chord { ctrl: false, meta: false, key: Key::Enter }] ==> execute_ok(
        e,
        "newline"@,
    )
    &&& s == seq![Chord { ctrl: false, meta: false, key: Key::Backspace }] ==> execute_ok(
        e,
        "delete-backward-char"@,
    )
}

/// Whether a chord can be handled: the command that it runs, if it runs one,
/// can be run.
pub open spec fn chord_ok(e0: EditorModel, c: Chord) -> bool {
    let e = EditorModel { echo: None, ..e0 };
    if c == ctrl_g() {
        true
    } else {
        match e.input {
            InputModel::Prompt(_) => prompt_key_ok(e, c),
            InputModel::Normal => if (e.pending.len() == 0 && c == ctrl_u()) || prefix_digit(
                e,
                c,
            ) is Some {
                true
            } else {
                let s = e.pending.push(c);
                match key_meaning(e, s) {
                    Meaning::Pending => true,
                    Meaning::Cmd(name) => execute_ok(keys_cleared(e), name),
                    Meaning::Unbound => unbound_ok(keys_cleared(e), s),
                }
            },
            _ => true,
        }
    }
}

fn press_unbound(ed: &mut Editor, seq: &Vec<Chord>) -> (r: PostAction)
    requires
        wf(old(ed)@),
        unbound_ok(old(ed)@, seq@),
    ensures
        (final(ed)@, r@) == unbound_pressed(old(ed)@, seq@),
        wf(final(ed)@),
{
    let ghost e = ed@;
    // Self-insert fallback for single unmodified printable chars.
    if seq.len() == 1 {
        if let Some(c) = seq[0].self_insert_char() {
            let n: Option<u32> = ed.prefix_num();
            ed.prefix = PrefixArg::Unset;
            ed.goal_col = None;
            proof {
                lemma_wf_same(e, ed@);
            }
            let typing = match &ed.last_command {
                Some(name) => same(name.as_str(), "self-insert"),
                None => false,
            };
            if !typing {
                // A run of typing is one undo group.
                let buf = ed.cur_buffer_mut();
                buf.undo.push_boundary();
            }
            self_insert(ed, c, n);
            let ghost e1 = ed@;
            ed.last_command = Some(copy("self-insert"));
            proof {
                lemma_wf_same(e1, ed@);
            }
            return PostAction::Nothing;
        }
        // RET / backspace fall back to editing defaults.
        assert(seq@ =~= seq![seq@[0]]);
        if seq[0] == (Chord { ctrl: false, meta: false, key: Key::Enter }) {
            return execute_command(ed, "newline");
        }
        if seq[0] == (Chord { ctrl: false, meta: false, key: Key::Backspace }) {
            return execute_command(ed, "delete-backward-char");
        }
    }
    ed.prefix = PrefixArg::Unset;
    proof {
        lemma_wf_same(e, ed@);
    }
    ed.message(cat2(format_seq(seq.as_slice()).as_str(), " is undefined").as_str());
    PostAction::Nothing
}

pub(crate) fn digit_of(ed: &Editor, chord: Chord) -> (r: Option<u32>)
    ensures
        match r {
            Some(d) => prefix_digit(ed@, chord) == Some(d as int) && d < 10,
            None => prefix_digit(ed@, chord) is None,
        },
{
    if ed.pending.len() > 0 || ed.prefix == PrefixArg::Unset {
        return None;
    }
    match chord.self_insert_char() {
        Some(c) => {
            if '0' <= c && c <= '9' {
                Some(c as u32 - 48)
            } else {
                None
            }
        },
        None => None,
    }
}

/// Handle one normalized chord. Returns the action the caller must perform
/// afterwards.
pub fn handle_chord(ed: &mut Editor, chord: Chord) -> (r: PostAction)
    requires
        wf(old(ed)@),
        chord_ok(old(ed)@, chord),
    ensures
        (final(ed)@, r@) == chord_handled(old(ed)@, chord),
        wf(final(ed)@),
{
    ed.echo = None;
    let ghost e = ed@;
    proof {
        lemma_wf_same(old(ed)@, e);
    }
    // C-g cancels everything, everywhere.
    if chord == (Chord { ctrl: true, meta: false, key: Key::Char('g') }) {
        keyboard_quit(ed, None);
        return PostAction::Nothing;
    }
    // Active input modes swallow keys before any keymap.
    match &ed.input {
        InputMode::Prompt(_) => {
            return handle_key(ed, chord);
        },
        InputMode::ISearch(_) => {
            isearch_key(ed, chord);
            return PostAction::Nothing;
        },
        InputMode::QueryReplace(_) => {
            query_replace_key(ed, chord);
            return PostAction::Nothing;
        },
        InputMode::DescribeKey { .. } => {
            describe_key_chord(ed, chord);
            return PostAction::Nothing;
        },
        InputMode::Normal => {},
    }
    // Universal argument: C-u starts it, digits extend it.
    if ed.pending.len() == 0 && chord == (Chord {
        ctrl: true,
        meta: false,
        key: Key::Char('u'),
    }) {
        ed.prefix = PrefixArg::Universal;
        proof {
            lemma_wf_same(e, ed@);
        }
        ed.message("C-u-");
        return PostAction::Nothing;
    }
    if let Some(d) = digit_of(ed, chord) {
        let now: u64 = match ed.prefix {
            PrefixArg::Num(n) => n as u64,
            _ => 0,
        };
        let next: u64 = 10 * now + d as u64;
        let next: u32 = if next <= u32::MAX as u64 {
            next as u32
        } else {
            u32::MAX
        };
        ed.prefix = PrefixArg::Num(next);
        proof {
            lemma_wf_same(e, ed@);
        }
        ed.message(cat3("C-u ", decimal_u64(next as u64).as_str(), "-").as_str());
        return PostAction::Nothing;
    }
    let mut seq = copy_chords(&ed.pending);
    seq.push(chord);
    match resolve(ed, seq.as_slice()) {
        Lookup::Pending => {
            let msg = cat2(format_seq(seq.as_slice()).as_str(), "-");
            ed.pending = seq;
            proof {
                lemma_wf_same(e, ed@);
            }
            ed.message(msg.as_str());
            PostAction::Nothing
        },
        Lookup::Cmd(name) => {
            ed.pending = Vec::new();
            proof {
                assert(ed@ =~= keys_cleared(e));
                lemma_wf_same(e, ed@);
            }
            execute_command(ed, name.as_str())
        },
        Lookup::Unbound => {
            ed.pending = Vec::new();
            proof {
                assert(ed@ =~= keys_cleared(e));
                lemma_wf_same(e, ed@);
            }
            press_unbound(ed, &seq)
        },
    }
}

// ---- laws ------------------------------------------------------------------

/// C-g cancels everything, everywhere: whatever was going on, no input mode, no
/// key sequence and no prefix argument is left, nothing is left to do, and the
/// buffers keep their texts.
pub proof fn law_quit_everywhere(e: EditorModel)
    requires
        wf(e),
    ensures
        ({
            let (r, a) = chord_handled(e, ctrl_g());
            &&& chord_ok(e, ctrl_g())
            &&& r.input is Normal
            &&& r.pending.len() == 0
            &&& r.prefix == PrefixArg::Unset
            &&& !r.rect_mode
            &&& !cur_buf(r).mark_active
            &&& r.echo == Some("Quit"@)
            &&& a is Nothing
            &&& r.buffers.len() == e.buffers.len()
            &&& forall|i: int|
                0 <= i < e.buffers.len() ==> (#[trigger] r.buffers[i]).text == e.buffers[i].text
        }),
{
    let e0 = EditorModel { echo: None, ..e };
    lemma_wf_same(e, e0);
    lemma_quit(e0);
}

proof fn lemma_quit(e: EditorModel)
    requires
        wf(e),
    ensures
        ({
            let r = quit_all(e);
            &&& wf(r)
            &&& cur_buf(r) == (BufferModel { mark_active: false, ..cur_buf(e) })
            &&& match e.input {
                InputModel::ISearch(s) => cur_win(r).point == clip(
                    cur_buf(e).text,
                    s.origin as int,
                ),
                _ => cur_win(r) == cur_win(e),
            }
            &&& r.buffers == e.buffers.update(
                cur_index(e),
                BufferModel { mark_active: false, ..cur_buf(e) },
            )
            &&& 0 <= cur_index(e) < e.buffers.len()
        }),
{
    let b = cur_buf(e);
    let b1 = BufferModel { mark_active: false, ..b };
    lemma_cur(e);
    let e1 = match e.input {
        InputModel::ISearch(s) => {
            let w = at_point(e, clip(b.text, s.origin as int));
            lemma_put(e, w, b);
            moved(e, clip(b.text, s.origin as int))
        },
        _ => e,
    };
    lemma_with_buf(e1, b1);
    lemma_wf_same(with_buf(e1, b1), quit_all(e));
    assert(e1.buffers =~= e.buffers);
    assert(cur_index(e1) == cur_index(e));
}

/// C-g in an incremental search goes back to where the search began.
pub proof fn law_quit_search_returns(e: EditorModel)
    requires
        wf(e),
        e.input is ISearch,
    ensures
        match e.input {
            InputModel::ISearch(s) => cur_win(chord_handled(e, ctrl_g()).0).point == clip(
                cur_buf(e).text,
                s.origin as int,
            ),
            _ => false,
        },
{
    let e0 = EditorModel { echo: None, ..e };
    lemma_wf_same(e, e0);
    lemma_quit(e0);
}

/// The editor after keys insert several texts, one after the other.
pub open spec fn keys_typed(e: EditorModel, texts: Seq<Seq<char>>) -> EditorModel
    decreases texts.len(),
{
    if texts.len() == 0 {
        e
    } else {
        key_typed(keys_typed(e, texts.drop_last()), texts.last())
    }
}

spec fn typed_changes(e: EditorModel, texts: Seq<Seq<char>>) -> Seq<Change>
    decreases texts.len(),
{
    if texts.len() == 0 {
        Seq::empty()
    } else {
        typed_changes(e, texts.drop_last()).push(
            Change::Insert {
                at: cur_point(keys_typed(e, texts.drop_last())),
                text: texts.last(),
            },
        )
    }
}

/// What a run of typing does to the buffer, which starts with a boundary.
proof fn lemma_keys_typed(e: EditorModel, texts: Seq<Seq<char>>)
    requires
        wf(e),
        !cur_buf(e).read_only,
        !in_typing(e),
        forall|i: int| 0 <= i < texts.len() ==> (#[trigger] texts[i]).len() > 0,
    ensures
        wf(keys_typed(e, texts)),
        texts.len() > 0 ==> in_typing(keys_typed(e, texts)) && cur_buf(keys_typed(e, texts))
            == edited_all(
            BufferModel { undo: bounded(cur_buf(e).undo), ..cur_buf(e) },
            typed_changes(e, texts),
        ),
        cur_buf(keys_typed(e, texts)).text == changed_all(
            cur_buf(e).text,
            typed_changes(e, texts),
        ),
        !cur_buf(keys_typed(e, texts)).read_only,
        cur_buf(keys_typed(e, texts)).id == cur_buf(e).id,
        typed_changes(e, texts).len() == texts.len(),
        all_in_text(cur_buf(e).text, typed_changes(e, texts)),
    decreases texts.len(),
{
    if texts.len() > 0 {
        let before = texts.drop_last();
        assert forall|i: int| 0 <= i < before.len() implies (#[trigger] before[i]).len() > 0 by {
            assert(before[i] == texts[i]);
        }
        lemma_keys_typed(e, before);
        let f = keys_typed(e, before);
        let text = texts.last();
        assert(text == texts[texts.len() - 1]);
        let f1 = EditorModel { prefix: PrefixArg::Unset, goal_col: None, ..f };
        lemma_wf_same(f, f1);
        lemma_with_buf(f1, BufferModel { undo: bounded(cur_buf(f1).undo), ..cur_buf(f1) });
        let f2 = if in_typing(f) {
            f1
        } else {
            boundary_set(f1)
        };
        let p = cur_point(f2);
        assert(p == cur_point(f));
        let b = inserted(cur_buf(f2), p, text);
        lemma_put(f2, at_point(f2, p + text.len()), b);
        lemma_wf_same(typed(f2, text), keys_typed(e, texts));
        assert(cur_buf(keys_typed(e, texts)) == b);
        assert(typed_changes(e, texts).drop_last() =~= typed_changes(e, before));
    }
}

/// A run of typing is taken back by one undo: wherever a run of keys that insert
/// themselves begins, the undo command can be run after it, and gives back the
/// text from before the run.
pub proof fn law_typing_undone(e: EditorModel, texts: Seq<Seq<char>>)
    requires
        wf(e),
        !cur_buf(e).read_only,
        !in_typing(e),
        texts.len() > 0,
        forall|i: int| 0 <= i < texts.len() ==> (#[trigger] texts[i]).len() > 0,
    ensures
        ({
            let run = boundary_set(keys_typed(e, texts));
            &&& wf(run)
            &&& undo_ok(run, None)
            &&& cur_buf(undo_done(run, None)).text == cur_buf(e).text
        }),
{
    let b = cur_buf(e);
    let b0 = BufferModel { undo: bounded(b.undo), ..b };
    lemma_keys_typed(e, texts);
    let cs = typed_changes(e, texts);
    let end = keys_typed(e, texts);
    let b1 = cur_buf(end);
    law_undo_restores(b, cs);
    assert(b1 == edited_all(b0, cs));
    assert(b1.undo.last() == recorded(edited_all(b0, cs.drop_last()).text, cs.last()));
    lemma_bounded_group(b1.undo);
    let b2 = BufferModel { undo: bounded(b1.undo), ..b1 };
    lemma_with_buf(end, b2);
    let run = boundary_set(end);
    assert(newest_group(b2.undo) == newest_group(b1.undo));
    assert(newest_group(b1.undo).len() > 0) by {
        lemma_newest_nonempty(b1.undo);
    }
    assert(undone(b2).text == b.text);
    let to = reverted_point(newest_group(b2.undo).last());
    let point = clip(undone(b2).text, to->0);
    lemma_put(run, at_point(run, point), undone(b2));
    assert(undone_times(one_undone(run), 0) == one_undone(run));
    assert(can_undo_times(one_undone(run), 0));
}

} // verus!
