//! The minibuffer: line-editing prompts in the echo area. Keys route through
//! the minibuffer keymap first (single chords), then fall back to the built-in
//! line editing below.

use crate::buffer::BufferModel;
use crate::buffers::{buffer_removed, has_ids};
use crate::commands::files::{
    save_begun, save_buffer, switch_to_buffer_name, switched, visit_name,
};
use crate::commands::movement::{at_line, goto_line};
use crate::dired::files::{
    copy_to, diff_against, mark_regexp, mkdir, regexp_marked, rename_to, run_shell, shell_line,
    shell_targets,
};
use crate::dired::ops::{listing_at, opens};
use crate::dispatch::{execute_command, execute_ok, executed};
use crate::editor::{cur_buf, lemma_wf_same, said, wf, with_buf, Editor, EditorModel};
use crate::input::{
    ActionModel, InputMode, InputModel, KindModel, PostAction, Prompt, PromptKind, PromptModel,
    Task, TaskModel, YesNoAction, YesNoModel,
};
use crate::keymap::{Lookup, Meaning};
use crate::keys::{inserts, Chord, Key};
use crate::killring::pushed;
use crate::layout::asked;
use crate::lines::{clip, min, minus};
use crate::paths::resolved;
use crate::rect::{apply_string_rectangle, rect_replaced};
use crate::search::{at_most_max, replace_started, start_query_replace};
use crate::strings::{
    cat2, cat3, copy, from_chars, parse_decimal, parse_usize, to_chars, trim, trimmed,
};
use crate::value::{vals, SchemeVal, ValModel};
use vstd::prelude::*;

verus! {

/// The completion domain of a prompt; none if it is not completable.
pub open spec fn completion_of(kind: KindModel) -> Option<Seq<char>> {
    match kind {
        KindModel::ExecuteCommand | KindModel::DescribeFunction => Some("command"@),
        KindModel::SwitchBuffer => Some("buffer"@),
        KindModel::FindFile | KindModel::SaveFileAs => Some("file"@),
        KindModel::Generic { on_submit, completion } => completion,
        _ => None,
    }
}

/// Completion domain of a prompt. None means the prompt is not completable.
pub fn completion_kind(kind: &PromptKind) -> (r: Option<&str>)
    ensures
        match r {
            Some(s) => completion_of(kind@) == Some(s@),
            None => completion_of(kind@) is None,
        },
{
    match kind {
        PromptKind::ExecuteCommand | PromptKind::DescribeFunction => Some("command"),
        PromptKind::SwitchBuffer => Some("buffer"),
        PromptKind::FindFile | PromptKind::SaveFileAs => Some("file"),
        PromptKind::Generic { completion, .. } => match completion {
            Some(c) => Some(c.as_str()),
            None => None,
        },
        _ => None,
    }
}

// ---- line editing ----------------------------------------------------------

/// `s` without the char at `at`, if there is one.
pub open spec fn char_removed(s: Seq<char>, at: int) -> Seq<char> {
    if 0 <= at < s.len() {
        s.take(at) + s.skip(at + 1)
    } else {
        s
    }
}

/// `s` with `c` put in at `at`, or at its end.
pub open spec fn char_inserted(s: Seq<char>, at: int, c: char) -> Seq<char> {
    s.take(clip(s, at)) + seq![c] + s.skip(clip(s, at))
}

/// A string without the char at `at`, if there is one.
pub fn remove_char(s: &str, at: usize) -> (r: String)
    ensures
        r@ == char_removed(s@, at as int),
{
    let v = to_chars(s);
    if at < v.len() {
        let mut r = from_chars(&v, 0, at);
        let rest = from_chars(&v, at + 1, v.len());
        r.push_str(rest.as_str());
        assert(r@ =~= char_removed(s@, at as int));
        r
    } else {
        copy(s)
    }
}

/// A string with a char put in at `at`, or at its end.
pub fn insert_char(s: &str, at: usize, c: char) -> (r: String)
    ensures
        r@ == char_inserted(s@, at as int, c),
{
    let v = to_chars(s);
    let at: usize = if at <= v.len() {
        at
    } else {
        v.len()
    };
    let mut r = from_chars(&v, 0, at);
    r.push(c);
    let rest = from_chars(&v, at, v.len());
    r.push_str(rest.as_str());
    assert(r@ =~= char_inserted(s@, at as int, c));
    r
}

/// A chord of Ctrl and a char.
pub open spec fn ctrl(c: char) -> Chord {
    Chord { ctrl: true, meta: false, key: Key::Char(c) }
}

fn is_ctrl(chord: Chord, c: char) -> (b: bool)
    ensures
        b == (chord == ctrl(c)),
{
    chord == (Chord { ctrl: true, meta: false, key: Key::Char(c) })
}

/// The prompt after a line-editing key, without what the kill ring gets.
pub open spec fn line_edited(p: PromptModel, c: Chord) -> PromptModel {
    let n = p.input.len() as int;
    if c == (Chord { ctrl: false, meta: false, key: Key::Backspace }) {
        if p.cursor > 0 {
            PromptModel {
                cursor: p.cursor - 1,
                input: char_removed(p.input, p.cursor - 1),
                ..p
            }
        } else {
            p
        }
    } else if c == ctrl('b') {
        PromptModel { cursor: minus(p.cursor, 1), ..p }
    } else if c == ctrl('f') {
        PromptModel { cursor: min(p.cursor + 1, n), ..p }
    } else if c == ctrl('a') {
        PromptModel { cursor: 0, ..p }
    } else if c == ctrl('e') {
        PromptModel { cursor: n, ..p }
    } else if c == ctrl('d') {
        PromptModel { input: char_removed(p.input, p.cursor), ..p }
    } else if c == ctrl('k') {
        PromptModel { input: p.input.take(clip(p.input, p.cursor)), ..p }
    } else {
        match inserts(c) {
            Some(ch) => PromptModel {
                input: char_inserted(p.input, p.cursor, ch),
                cursor: at_most_max(p.cursor + 1),
                ..p
            },
            None => p,
        }
    }
}

/// The editor after a line-editing key in a prompt; C-k kills the rest of the
/// input.
pub open spec fn prompt_edited(e: EditorModel, p: PromptModel, c: Chord) -> EditorModel {
    EditorModel {
        input: InputModel::Prompt(line_edited(p, c)),
        kill_ring: if c == ctrl('k') {
            pushed(e.kill_ring, p.input.skip(clip(p.input, p.cursor)))
        } else {
            e.kill_ring
        },
        ..e
    }
}

fn edit_line(ed: &mut Editor, chord: Chord)
    requires
        wf(old(ed)@),
        old(ed)@.input is Prompt,
    ensures
        final(ed)@ == prompt_edited(old(ed)@, old(ed)@.input->Prompt_0, chord),
        wf(final(ed)@),
{
    let ghost e = ed@;
    let mut killed: Option<String> = None;
    if let InputMode::Prompt(p) = &mut ed.input {
        let n: usize = p.input.as_str().unicode_len();
        if chord == (Chord { ctrl: false, meta: false, key: Key::Backspace }) {
            if p.cursor > 0 {
                p.cursor = p.cursor - 1;
                let s = remove_char(p.input.as_str(), p.cursor);
                p.input = s;
            }
        } else if is_ctrl(chord, 'b') {
            if p.cursor > 0 {
                p.cursor = p.cursor - 1;
            }
        } else if is_ctrl(chord, 'f') {
            p.cursor = if p.cursor < n {
                p.cursor + 1
            } else {
                n
            };
        } else if is_ctrl(chord, 'a') {
            p.cursor = 0;
        } else if is_ctrl(chord, 'e') {
            p.cursor = n;
        } else if is_ctrl(chord, 'd') {
            let s = remove_char(p.input.as_str(), p.cursor);
            p.input = s;
        } else if is_ctrl(chord, 'k') {
            let v = to_chars(p.input.as_str());
            let cut: usize = if p.cursor <= n {
                p.cursor
            } else {
                n
            };
            let rest = from_chars(&v, cut, n);
            let keep = from_chars(&v, 0, cut);
            assert(rest@ =~= p@.input.skip(clip(p@.input, p@.cursor)));
            assert(keep@ =~= p@.input.take(clip(p@.input, p@.cursor)));
            killed = Some(rest);
            p.input = keep;
        } else if let Some(c) = chord.self_insert_char() {
            let s = insert_char(p.input.as_str(), p.cursor, c);
            p.input = s;
            if p.cursor < usize::MAX {
                p.cursor = p.cursor + 1;
            }
        }
        assert(p@ == line_edited(e.input->Prompt_0, chord));
    }
    if let Some(text) = killed {
        ed.kill_ring.push(text);
    }
    proof {
        lemma_wf_same(e, ed@);
        assert(ed@ =~= prompt_edited(e, e.input->Prompt_0, chord));
    }
}

// ---- submitting ------------------------------------------------------------

/// The editor after a prompt is answered with yes, and what is left to do.
pub open spec fn yes_done(e: EditorModel, a: YesNoModel) -> (EditorModel, ActionModel) {
    match a {
        YesNoModel::QuitModified => (EditorModel { quit: true, ..e }, ActionModel::Nothing),
        YesNoModel::KillModifiedBuffer(id) => (buffer_removed(e, id), ActionModel::Nothing),
        YesNoModel::DiredDelete(paths) => (e, ActionModel::Outside(TaskModel::Delete(paths))),
        YesNoModel::Generic(f) => (e, ActionModel::RunScheme(f, Seq::empty())),
    }
}

fn perform_yes(ed: &mut Editor, action: YesNoAction) -> (r: PostAction)
    requires
        wf(old(ed)@),
        old(ed)@.next_buffer_id < usize::MAX,
    ensures
        (final(ed)@, r@) == yes_done(old(ed)@, action@),
        wf(final(ed)@),
{
    match action {
        YesNoAction::QuitModified => {
            ed.quit = true;
            proof {
                lemma_wf_same(old(ed)@, ed@);
            }
            PostAction::Nothing
        },
        YesNoAction::KillModifiedBuffer(id) => {
            ed.remove_buffer(id);
            PostAction::Nothing
        },
        YesNoAction::DiredDelete(paths) => PostAction::Outside(Task::Delete(paths)),
        YesNoAction::Generic(f) => {
            let args: Vec<SchemeVal> = Vec::new();
            assert(vals(args@) =~= Seq::<ValModel>::empty());
            PostAction::RunScheme(f, args)
        },
    }
}

/// The editor with the current buffer named after a path and visiting it.
pub open spec fn saved_as(e: EditorModel, path: Seq<char>) -> EditorModel {
    with_buf(
        e,
        BufferModel { path: Some(path), name: visit_name(path), ..cur_buf(e) },
    )
}

/// The editor after a prompt of some kind is submitted with some input, and
/// what is left to do.
pub open spec fn completed(e: EditorModel, kind: KindModel, input: Seq<char>) -> (
    EditorModel,
    ActionModel,
) {
    match kind {
        KindModel::ExecuteCommand => {
            let name = trimmed(input);
            if name.len() == 0 {
                (e, ActionModel::Nothing)
            } else if crate::assoc::lookup(e.registry, name) is Some {
                executed(e, name)
            } else {
                (said(e, "No such command: "@ + name), ActionModel::Nothing)
            }
        },
        KindModel::FindFile => (
            e,
            ActionModel::Outside(TaskModel::Visit(resolved(e, input))),
        ),
        KindModel::SaveFileAs => save_begun(saved_as(e, resolved(e, input))),
        KindModel::SwitchBuffer => (switched(e, input), ActionModel::Nothing),
        KindModel::GotoLine => match parse_decimal(trimmed(input)) {
            Some(n) => (at_line(e, n as int), ActionModel::Nothing),
            None => (said(e, "Not a line number: "@ + input), ActionModel::Nothing),
        },
        KindModel::QueryReplaceFrom => if input.len() == 0 {
            (said(e, "Empty regexp"@), ActionModel::Nothing)
        } else {
            (
                asked(
                    e,
                    KindModel::QueryReplaceTo { from: input },
                    "Query replace regexp "@ + input + " with: "@,
                    Seq::empty(),
                ),
                ActionModel::Nothing,
            )
        },
        KindModel::QueryReplaceTo { from } => (
            replace_started(e, from, input),
            ActionModel::Nothing,
        ),
        KindModel::RectInsert => (rect_replaced(e, input), ActionModel::Nothing),
        KindModel::DescribeFunction => {
            let name = trimmed(input);
            match crate::assoc::lookup(e.registry, name) {
                Some(c) => (said(e, name + ": "@ + c.doc), ActionModel::Nothing),
                None => (said(e, "No such function: "@ + name), ActionModel::Nothing),
            }
        },
        KindModel::DiredOpenDir => (e, opens(resolved(e, input), None)),
        KindModel::DiredMarkRegex => (regexp_marked(e, input), ActionModel::Nothing),
        KindModel::DiredRename { from } => (
            e,
            ActionModel::Outside(TaskModel::Rename { from, to: resolved(e, input) }),
        ),
        KindModel::DiredCopy { from } => (
            e,
            ActionModel::Outside(TaskModel::Copy { from, to: resolved(e, input) }),
        ),
        KindModel::DiredMkdir => (
            e,
            ActionModel::Outside(TaskModel::MakeDir(resolved(e, input))),
        ),
        KindModel::DiredDiff { from } => (
            e,
            ActionModel::Outside(TaskModel::Diff { from, other: resolved(e, input) }),
        ),
        KindModel::DiredShell => shell_begun(e, input),
        KindModel::YesNo(_) => (e, ActionModel::Nothing),
        KindModel::Generic { on_submit, completion } => (
            e,
            ActionModel::RunScheme(on_submit, seq![ValModel::Str(input)]),
        ),
    }
}

/// The editor after a shell command is entered, and the command to run.
pub open spec fn shell_begun(e: EditorModel, cmd: Seq<char>) -> (EditorModel, ActionModel) {
    match listing_at(e) {
        Some(_) => if shell_targets(e).len() == 0 {
            (said(e, "No files to operate on"@), ActionModel::Nothing)
        } else {
            (
                e,
                ActionModel::Outside(TaskModel::Shell(shell_line(cmd, shell_targets(e)))),
            )
        },
        None => (e, ActionModel::Nothing),
    }
}

/// Whether a prompt can be submitted: ids are left to be given out, and the
/// command that it runs, if it runs one, can be run.
pub open spec fn complete_ok(e: EditorModel, kind: KindModel, input: Seq<char>) -> bool {
    &&& has_ids(e)
    &&& kind is ExecuteCommand && trimmed(input).len() > 0 ==> execute_ok(e, trimmed(input))
}

fn complete(ed: &mut Editor, kind: PromptKind, input: String) -> (r: PostAction)
    requires
        wf(old(ed)@),
        complete_ok(old(ed)@, kind@, input@),
    ensures
        (final(ed)@, r@) == completed(old(ed)@, kind@, input@),
        wf(final(ed)@),
{
    let ghost e = ed@;
    match kind {
        PromptKind::ExecuteCommand => {
            let name = trim(input.as_str());
            if name.as_str().is_empty() {
                return PostAction::Nothing;
            }
            if ed.registry.contains_key(name.as_str()) {
                return execute_command(ed, name.as_str());
            }
            ed.message(cat2("No such command: ", name.as_str()).as_str());
        },
        PromptKind::FindFile => {
            return PostAction::Outside(Task::Visit(ed.resolve_path(input.as_str())));
        },
        PromptKind::SaveFileAs => {
            let path = ed.resolve_path(input.as_str());
            let name = crate::commands::files::name_for_path(path.as_str());
            let ghost p = path@;
            let buf = ed.cur_buffer_mut();
            buf.path = Some(path);
            buf.name = name;
            assert(ed@ == saved_as(e, p));
            return save_buffer(ed, None);
        },
        PromptKind::SwitchBuffer => switch_to_buffer_name(ed, input.as_str()),
        PromptKind::GotoLine => {
            match parse_usize(trim(input.as_str()).as_str()) {
                Some(n) => goto_line(ed, n),
                None => ed.message(cat2("Not a line number: ", input.as_str()).as_str()),
            }
        },
        PromptKind::QueryReplaceFrom => {
            if input.as_str().is_empty() {
                ed.message("Empty regexp");
                return PostAction::Nothing;
            }
            let prompt = cat3("Query replace regexp ", input.as_str(), " with: ");
            ed.prompt(PromptKind::QueryReplaceTo { from: input }, prompt.as_str());
        },
        PromptKind::QueryReplaceTo { from } => {
            start_query_replace(ed, from, input);
        },
        PromptKind::RectInsert => apply_string_rectangle(ed, input.as_str()),
        PromptKind::DescribeFunction => {
            let name = trim(input.as_str());
            let msg = match ed.registry.get(name.as_str()) {
                Some(cmd) => cat3(name.as_str(), ": ", cmd.doc.as_str()),
                None => cat2("No such function: ", name.as_str()),
            };
            ed.message(msg.as_str());
        },
        PromptKind::DiredOpenDir => {
            let dir = ed.resolve_path(input.as_str());
            return PostAction::Outside(Task::OpenDired { dir, goto: None });
        },
        PromptKind::DiredMarkRegex => mark_regexp(ed, input.as_str()),
        PromptKind::DiredRename { from } => {
            return rename_to(ed, from, input.as_str());
        },
        PromptKind::DiredCopy { from } => {
            return copy_to(ed, from, input.as_str());
        },
        PromptKind::DiredMkdir => {
            return mkdir(ed, input.as_str());
        },
        PromptKind::DiredDiff { from } => {
            return diff_against(ed, from, input.as_str());
        },
        PromptKind::DiredShell => {
            return run_shell(ed, input.as_str());
        },
        PromptKind::YesNo(_) => {},
        PromptKind::Generic { on_submit, .. } => {
            let mut args: Vec<SchemeVal> = Vec::new();
            let ghost text = input@;
            args.push(SchemeVal::Str(input));
            assert(vals(args@) =~= seq![ValModel::Str(text)]);
            return PostAction::RunScheme(on_submit, args);
        },
    }
    PostAction::Nothing
}

/// The editor with no prompt up any more.
pub open spec fn prompt_closed(e: EditorModel) -> EditorModel {
    EditorModel { input: InputModel::Normal, ..e }
}

/// The editor after the prompt is submitted, and what is left to do. Yes/no
/// prompts cannot be submitted.
pub open spec fn submitted(e: EditorModel) -> (EditorModel, ActionModel) {
    match e.input {
        InputModel::Prompt(p) => if p.kind is YesNo {
            (e, ActionModel::Nothing)
        } else {
            completed(prompt_closed(e), p.kind, p.input)
        },
        _ => (e, ActionModel::Nothing),
    }
}

/// Whether the prompt can be submitted.
pub open spec fn submit_ok(e: EditorModel) -> bool {
    match e.input {
        InputModel::Prompt(p) => p.kind is YesNo || complete_ok(prompt_closed(e), p.kind, p.input),
        _ => true,
    }
}

/// Submit the prompt with its current input, as RET does. YesNo prompts only
/// answer to their single keypress and cannot be submitted this way.
pub fn submit(ed: &mut Editor) -> (r: PostAction)
    requires
        wf(old(ed)@),
        submit_ok(old(ed)@),
    ensures
        (final(ed)@, r@) == submitted(old(ed)@),
        wf(final(ed)@),
{
    let ghost e = ed@;
    match &ed.input {
        InputMode::Prompt(p) => {
            if let PromptKind::YesNo(_) = &p.kind {
                return PostAction::Nothing;
            }
        },
        _ => {
            return PostAction::Nothing;
        },
    }
    let mut mode = InputMode::Normal;
    std::mem::swap(&mut mode, &mut ed.input);
    proof {
        assert(ed@ =~= prompt_closed(e));
        lemma_wf_same(e, ed@);
    }
    match mode {
        InputMode::Prompt(p) => complete(ed, p.kind, p.input),
        _ => PostAction::Nothing,
    }
}

// ---- keys ------------------------------------------------------------------

/// The editor after a key at a yes/no prompt, and what is left to do.
pub open spec fn yes_no_key(e: EditorModel, a: YesNoModel, c: Chord) -> (EditorModel, ActionModel) {
    if inserts(c) == Some('y') {
        yes_done(prompt_closed(e), a)
    } else if inserts(c) == Some('n') {
        (said(prompt_closed(e), "Cancelled"@), ActionModel::Nothing)
    } else {
        (said(e, "Please answer y or n"@), ActionModel::Nothing)
    }
}

/// The editor after a key at a prompt, and what is left to do: a yes/no prompt
/// takes its answer; else the minibuffer keymap comes first, then submitting,
/// then line editing.
pub open spec fn prompt_key(e: EditorModel, c: Chord) -> (EditorModel, ActionModel) {
    match e.input {
        InputModel::Prompt(p) => match p.kind {
            KindModel::YesNo(a) => yes_no_key(e, a, c),
            _ => match e.minibuffer_map[seq![c]] {
                Meaning::Cmd(name) => executed(e, name),
                _ => if c == (Chord { ctrl: false, meta: false, key: Key::Enter }) {
                    submitted(e)
                } else {
                    (prompt_edited(e, p, c), ActionModel::Nothing)
                },
            },
        },
        _ => (e, ActionModel::Nothing),
    }
}

/// Whether a key at a prompt can be handled.
pub open spec fn prompt_key_ok(e: EditorModel, c: Chord) -> bool {
    match e.input {
        InputModel::Prompt(p) => match p.kind {
            KindModel::YesNo(a) => has_ids(e),
            _ => match e.minibuffer_map[seq![c]] {
                Meaning::Cmd(name) => execute_ok(e, name),
                _ => c == (Chord { ctrl: false, meta: false, key: Key::Enter }) ==> submit_ok(e),
            },
        },
        _ => true,
    }
}

/// Handle a key while a prompt is up.
pub fn handle_key(ed: &mut Editor, chord: Chord) -> (r: PostAction)
    requires
        wf(old(ed)@),
        prompt_key_ok(old(ed)@, chord),
    ensures
        (final(ed)@, r@) == prompt_key(old(ed)@, chord),
        wf(final(ed)@),
{
    let ghost e = ed@;
    let action: Option<YesNoAction> = match &ed.input {
        InputMode::Prompt(p) => match &p.kind {
            PromptKind::YesNo(a) => Some(a.copy()),
            _ => None,
        },
        _ => {
            return PostAction::Nothing;
        },
    };
    // Yes/no confirmations act on a single keypress.
    if let Some(a) = action {
        match chord.self_insert_char() {
            Some('y') => {
                ed.input = InputMode::Normal;
                proof {
                    lemma_wf_same(e, ed@);
                }
                return perform_yes(ed, a);
            },
            Some('n') => {
                ed.input = InputMode::Normal;
                proof {
                    lemma_wf_same(e, ed@);
                }
                ed.message("Cancelled");
            },
            _ => ed.message("Please answer y or n"),
        }
        return PostAction::Nothing;
    }
    // Plugin bindings take precedence over the built-in editing (this is how a
    // completion UI claims C-n/C-p/RET/TAB while a prompt is active).
    let mut one: Vec<Chord> = Vec::new();
    one.push(chord);
    assert(one@ =~= seq![chord]);
    if let Lookup::Cmd(name) = ed.minibuffer_map.lookup(one.as_slice()) {
        return execute_command(ed, name.as_str());
    }
    if chord == (Chord { ctrl: false, meta: false, key: Key::Enter }) {
        return submit(ed);
    }
    edit_line(ed, chord);
    PostAction::Nothing
}

} // verus!
