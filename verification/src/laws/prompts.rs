//! What keys do while a prompt is up, and what prompts are for.

use crate::assoc::lookup;
use crate::commands::run::native_done;
use crate::dispatch::{chord_handled, executed};
use crate::editor::{cur_buf, EditorModel};
use crate::input::{ActionModel, InputModel, KindModel, PromptModel, TaskModel};
use crate::keys::{inserts, Chord, Key};
use crate::killring::{law_yank_takes_kill, yanked};
use crate::laws::frame::enter;
use crate::laws::table::{
    lemma_dired_open_commands, lemma_file_commands, lemma_help_commands, lemma_search_commands,
};
use crate::minibuffer::{completed, completion_of, ctrl};
use crate::native::NativeCmd;
use crate::paths::{dir_of, resolved};
use crate::script::prompts::{candidates_set, exited, input_set};
use crate::strings::trimmed;
use crate::value::ValModel;
use vstd::prelude::*;

verus! {

/// Whether a prompt that takes text is up, with its cursor in the text, and a key
/// is not bound for prompts.
pub open spec fn edits_line(e: EditorModel, p: PromptModel, c: Chord) -> bool {
    &&& e.input == InputModel::Prompt(p)
    &&& !(p.kind is YesNo)
    &&& 0 <= p.cursor <= p.input.len() < usize::MAX
    &&& !(e.minibuffer_map[seq![c]] is Cmd)
}

/// Whether only the text of the prompt and its cursor changed.
pub open spec fn line_is(
    e: EditorModel,
    r: EditorModel,
    p: PromptModel,
    input: Seq<char>,
    cursor: int,
) -> bool {
    r == (EditorModel {
        input: InputModel::Prompt(PromptModel { input, cursor, ..p }),
        echo: None,
        ..e
    })
}

/// At a prompt a printable key puts its char in at the cursor, which goes behind
/// it.
pub proof fn law_prompt_inserts(e: EditorModel, p: PromptModel, c: Chord)
    requires
        edits_line(e, p, c),
        inserts(c) is Some,
    ensures
        line_is(
            e,
            chord_handled(e, c).0,
            p,
            p.input.insert(p.cursor, inserts(c)->0),
            p.cursor + 1,
        ),
        chord_handled(e, c).1 is Nothing,
{
    let r = chord_handled(e, c).0;
    assert((r.input->Prompt_0).input =~= p.input.insert(p.cursor, inserts(c)->0));
}

/// At a prompt backspace takes out the char before the cursor and C-d the one at
/// it; C-b, C-f, C-a and C-e move the cursor by one char or to the ends, never out
/// of the text; C-k takes out the rest of the text, which becomes the newest kill.
pub proof fn law_prompt_edits(e: EditorModel, p: PromptModel)
    requires
        edits_line(e, p, Chord { ctrl: false, meta: false, key: Key::Backspace }),
        edits_line(e, p, ctrl('b')),
        edits_line(e, p, ctrl('f')),
        edits_line(e, p, ctrl('a')),
        edits_line(e, p, ctrl('e')),
        edits_line(e, p, ctrl('d')),
        edits_line(e, p, ctrl('k')),
    ensures
        ({
            let n = p.input.len() as int;
            let k = p.cursor;
            let b = chord_handled(e, Chord { ctrl: false, meta: false, key: Key::Backspace }).0;
            let d = chord_handled(e, ctrl('d')).0;
            let rest = chord_handled(e, ctrl('k')).0;
            &&& k > 0 ==> line_is(e, b, p, p.input.remove(k - 1), k - 1)
            &&& k == 0 ==> line_is(e, b, p, p.input, 0)
            &&& k < n ==> line_is(e, d, p, p.input.remove(k), k)
            &&& k == n ==> line_is(e, d, p, p.input, k)
            &&& line_is(
                e,
                chord_handled(e, ctrl('b')).0,
                p,
                p.input,
                if k > 0 {
                    k - 1
                } else {
                    0
                },
            )
            &&& line_is(
                e,
                chord_handled(e, ctrl('f')).0,
                p,
                p.input,
                if k < n {
                    k + 1
                } else {
                    n
                },
            )
            &&& line_is(e, chord_handled(e, ctrl('a')).0, p, p.input, 0)
            &&& line_is(e, chord_handled(e, ctrl('e')).0, p, p.input, n)
            &&& line_is(
                EditorModel { kill_ring: rest.kill_ring, ..e },
                rest,
                p,
                p.input.take(k),
                k,
            )
            &&& k < n ==> yanked(rest.kill_ring) == Some(p.input.skip(k))
            &&& k == n ==> rest.kill_ring == e.kill_ring
        }),
{
    let n = p.input.len() as int;
    let k = p.cursor;
    let b = chord_handled(e, Chord { ctrl: false, meta: false, key: Key::Backspace }).0;
    let d = chord_handled(e, ctrl('d')).0;
    let rest = chord_handled(e, ctrl('k')).0;
    if k > 0 {
        assert((b.input->Prompt_0).input =~= p.input.remove(k - 1));
    }
    if k < n {
        assert((d.input->Prompt_0).input =~= p.input.remove(k));
        law_yank_takes_kill(e.kill_ring, p.input.skip(k));
    }
    assert(b == (EditorModel { input: b.input, echo: None, ..e }));
    assert(d == (EditorModel { input: d.input, echo: None, ..e }));
}

/// RET at a prompt takes it down and hands its text on, as it stands, to what the
/// prompt is for.
pub proof fn law_prompt_submits(e: EditorModel, p: PromptModel)
    requires
        edits_line(e, p, enter()),
    ensures
        chord_handled(e, enter()) == completed(
            EditorModel { input: InputModel::Normal, echo: None, ..e },
            p.kind,
            p.input,
        ),
        exited(e) == ({
            let (r, a) = completed(EditorModel { input: InputModel::Normal, ..e }, p.kind, p.input);
            if a is Nothing {
                r
            } else {
                EditorModel { deferred: r.deferred.push(a), ..r }
            }
        }),
{
    assert(crate::minibuffer::prompt_closed(EditorModel { echo: None, ..e }) == (EditorModel {
        input: InputModel::Normal,
        echo: None,
        ..e
    }));
}

/// A yes/no prompt takes only y and n: n takes it down and does nothing else, and
/// any other key but C-g leaves it up.
pub proof fn law_yes_or_no(e: EditorModel, p: PromptModel, c: Chord)
    requires
        e.input == InputModel::Prompt(p),
        p.kind is YesNo,
        inserts(c) != Some('y'),
        c != ctrl('g'),
    ensures
        ({
            let (r, a) = chord_handled(e, c);
            &&& a is Nothing
            &&& r == (EditorModel {
                input: (if inserts(c) == Some('n') {
                    InputModel::Normal
                } else {
                    e.input
                }),
                echo: r.echo,
                ..e
            })
        }),
{
    let r = chord_handled(e, c).0;
    assert(r =~= EditorModel {
        input: (if inserts(c) == Some('n') {
            InputModel::Normal
        } else {
            e.input
        }),
        echo: r.echo,
        ..e
    });
}

/// Whether a command only put up a prompt of a kind, with some text in it and the
/// cursor behind that.
pub open spec fn asks(e: EditorModel, r: EditorModel, kind: KindModel, text: Seq<char>) -> bool {
    match r.input {
        InputModel::Prompt(p) => {
            &&& r == (EditorModel { input: r.input, ..e })
            &&& p.kind == kind
            &&& p.input == text
            &&& p.cursor == text.len()
            &&& p.completions.len() == 0
        },
        _ => false,
    }
}

/// The commands that ask: for a file or a directory, starting from the directory
/// of the buffer, with a `/` at its end; for a buffer, a command, or a regexp,
/// starting from nothing.
pub proof fn law_commands_ask(e: EditorModel, n: Option<u32>)
    requires
        !cur_buf(e).read_only,
    ensures
        ({
            let dir = dir_of(e);
            let start = if dir.len() > 0 && dir.last() == '/' {
                dir
            } else {
                dir + seq!['/']
            };
            &&& asks(e, native_done(e, NativeCmd::FindFile, n).0, KindModel::FindFile, start)
            &&& asks(e, native_done(e, NativeCmd::DiredOpenDir, n).0, KindModel::DiredOpenDir, start)
            &&& asks(
                e,
                native_done(e, NativeCmd::SwitchToBuffer, n).0,
                KindModel::SwitchBuffer,
                Seq::empty(),
            )
            &&& asks(
                e,
                native_done(e, NativeCmd::ExecuteExtendedCommand, n).0,
                KindModel::ExecuteCommand,
                Seq::empty(),
            )
            &&& asks(
                e,
                native_done(e, NativeCmd::DescribeFunction, n).0,
                KindModel::DescribeFunction,
                Seq::empty(),
            )
            &&& asks(
                e,
                native_done(e, NativeCmd::QueryReplace, n).0,
                KindModel::QueryReplaceFrom,
                Seq::empty(),
            )
        }),
{
    lemma_file_commands(e, n);
    lemma_help_commands(e, n);
    lemma_search_commands(e, n);
    lemma_dired_open_commands(e, n);
    let dir = dir_of(e);
    assert(dir.push('/') =~= dir + seq!['/']);
}

/// What entered text is used for: M-x runs the command of that name, blanks around
/// it aside; a file is visited; a directory is listed; a regexp to be replaced asks
/// for its replacement; a name to be described is looked up; and a prompt of the
/// extension language hands it to its closure.
pub proof fn law_entered_text_used(e: EditorModel, input: Seq<char>, f: ValModel)
    ensures
        ({
            let name = trimmed(input);
            let m = completed(e, KindModel::ExecuteCommand, input);
            let d = completed(e, KindModel::DescribeFunction, input).0;
            let q = completed(e, KindModel::QueryReplaceFrom, input);
            &&& lookup(e.registry, name) is Some && name.len() > 0 ==> m == executed(e, name)
            &&& lookup(e.registry, name) is None || name.len() == 0 ==> m.1 is Nothing && m.0
                == (EditorModel { echo: m.0.echo, ..e })
            &&& completed(e, KindModel::FindFile, input) == (
                e,
                ActionModel::Outside(TaskModel::Visit(resolved(e, input))),
            )
            &&& completed(e, KindModel::DiredOpenDir, input) == (
                e,
                ActionModel::Outside(
                    TaskModel::OpenDired { dir: resolved(e, input), goto: None },
                ),
            )
            &&& input.len() > 0 ==> asks(
                e,
                q.0,
                KindModel::QueryReplaceTo { from: input },
                Seq::empty(),
            )
            &&& d == (EditorModel { echo: d.echo, ..e })
            &&& lookup(e.registry, name) matches Some(c) ==> d.echo == Some(
                name + ": "@ + c.doc,
            )
            &&& completed(e, KindModel::Generic { on_submit: f, completion: None }, input) == (
                e,
                ActionModel::RunScheme(f, seq![ValModel::Str(input)]),
            )
        }),
{
}

/// The extension language reads back the text that it puts in a prompt, with the
/// cursor behind it, and the candidates that it shows, one of them selected.
pub proof fn law_prompt_text_set(
    e: EditorModel,
    p: PromptModel,
    text: Seq<char>,
    list: Seq<Seq<char>>,
    idx: int,
)
    requires
        e.input == InputModel::Prompt(p),
    ensures
        input_set(e, text) == (EditorModel {
            input: InputModel::Prompt(PromptModel { input: text, cursor: text.len() as int, ..p }),
            ..e
        }),
        match candidates_set(e, list, idx).input {
            InputModel::Prompt(q) => {
                &&& q == (PromptModel { completions: list, selected: q.selected, ..p })
                &&& list.len() > 0 ==> 0 <= q.selected < list.len()
                &&& 0 <= idx < list.len() ==> q.selected == idx
            },
            _ => false,
        },
{
}

/// Commands, buffers and files can be completed where they are asked for; a prompt of the
/// extension language completes what it says; nothing else is completed.
pub proof fn law_completed_kinds(kind: KindModel)
    ensures
        match kind {
            KindModel::ExecuteCommand => completion_of(kind) == Some("command"@),
            KindModel::DescribeFunction => completion_of(kind) == Some("command"@),
            KindModel::SwitchBuffer => completion_of(kind) == Some("buffer"@),
            KindModel::FindFile => completion_of(kind) == Some("file"@),
            KindModel::SaveFileAs => completion_of(kind) == Some("file"@),
            KindModel::Generic { on_submit: _, completion } => completion_of(kind) == completion,
            _ => completion_of(kind) is None,
        },
{
}

} // verus!
