//! What keys do outside prompts and searches.

use crate::assoc::lookup;
use crate::commands::run::native_done;
use crate::dispatch::{boundary_set, chord_handled, ctrl_g, ctrl_u, executed, key_meaning};
use crate::editor::{
    cur_buf, cur_index, lemma_cur, lemma_wf_same, lemma_with_buf, wf, EditorModel, FnModel,
};
use crate::input::{prefix_value, ActionModel, InputModel, PrefixArg};
use crate::keymap::Meaning;
use crate::keys::{inserts, seq_text, Chord, Key};
use crate::laws::frame::plain;
use crate::strings::is_digit;
use crate::value::ValModel;
use vstd::prelude::*;

verus! {

/// Whether a key goes to the keymaps: none of the modes takes it, and it is no
/// part of a prefix argument.
pub open spec fn goes_to_maps(e: EditorModel, c: Chord) -> bool {
    &&& e.input is Normal
    &&& c != ctrl_g()
    &&& e.pending.len() > 0 || (c != ctrl_u() && (e.prefix == PrefixArg::Unset || !(inserts(
        c,
    ) matches Some(ch) && is_digit(ch))))
}

/// Keys that begin a bound sequence are collected and echoed, and nothing is run;
/// the key that completes one runs its command; one that leads nowhere drops what
/// was collected.
pub proof fn law_sequences(e: EditorModel, c: Chord)
    requires
        goes_to_maps(e, c),
    ensures
        ({
            let s = e.pending.push(c);
            let (r, a) = chord_handled(e, c);
            match key_meaning(e, s) {
                Meaning::Pending => a is Nothing && r == (EditorModel {
                    pending: s,
                    echo: Some(seq_text(s) + "-"@),
                    ..e
                }),
                Meaning::Cmd(name) => (r, a) == executed(
                    EditorModel { pending: Seq::empty(), echo: None, ..e },
                    name,
                ),
                Meaning::Unbound => s.len() > 1 ==> a is Nothing && r == (EditorModel {
                    pending: Seq::empty(),
                    prefix: PrefixArg::Unset,
                    echo: Some(seq_text(s) + " is undefined"@),
                    ..e
                }),
            }
        }),
{
    let e0 = EditorModel { echo: None, ..e };
    let s = e.pending.push(c);
    assert(key_meaning(e0, s) == key_meaning(e, s));
    let r = chord_handled(e, c).0;
    match key_meaning(e, s) {
        Meaning::Pending => {
            assert(r =~= EditorModel { pending: s, echo: Some(seq_text(s) + "-"@), ..e });
        },
        Meaning::Cmd(name) => {
            assert(crate::dispatch::keys_cleared(e0) =~= EditorModel {
                pending: Seq::empty(),
                echo: None,
                ..e
            });
        },
        Meaning::Unbound => {
            if s.len() > 1 {
                assert(r =~= EditorModel {
                    pending: Seq::empty(),
                    prefix: PrefixArg::Unset,
                    echo: Some(seq_text(s) + " is undefined"@),
                    ..e
                });
            }
        },
    }
}

/// A single key that is not bound: RET runs newline, backspace runs
/// delete-backward-char, and any other one that inserts nothing is told to be
/// undefined.
pub proof fn law_unbound_keys(e: EditorModel, c: Chord)
    requires
        goes_to_maps(e, c),
        e.pending.len() == 0,
        key_meaning(e, seq![c]) is Unbound,
        inserts(c) is None,
    ensures
        ({
            let e1 = EditorModel { pending: Seq::empty(), echo: None, ..e };
            let (r, a) = chord_handled(e, c);
            if c == (Chord { ctrl: false, meta: false, key: Key::Enter }) {
                (r, a) == executed(e1, "newline"@)
            } else if c == (Chord { ctrl: false, meta: false, key: Key::Backspace }) {
                (r, a) == executed(e1, "delete-backward-char"@)
            } else {
                a is Nothing && r == (EditorModel { prefix: PrefixArg::Unset, echo: r.echo, ..e1 })
            }
        }),
{
    let e0 = EditorModel { echo: None, ..e };
    assert(e.pending.push(c) =~= seq![c]);
    assert(key_meaning(e0, seq![c]) == key_meaning(e, seq![c]));
    let e1 = EditorModel { pending: Seq::empty(), echo: None, ..e };
    assert(crate::dispatch::keys_cleared(e0) =~= e1);
}

/// C-u starts a prefix argument, and digits after it make up its number, as far as
/// it can be counted; a bare C-u stands for 4. Neither runs anything.
pub proof fn law_prefix_argument(e: EditorModel, d: u32)
    requires
        e.input is Normal,
        e.pending.len() == 0,
        d < 10,
    ensures
        ({
            let (u, ua) = chord_handled(e, ctrl_u());
            let c = plain(((d + 48) as u8) as char);
            let (r, a) = chord_handled(e, c);
            &&& ua is Nothing
            &&& u == (EditorModel { prefix: PrefixArg::Universal, echo: u.echo, ..e })
            &&& prefix_value(PrefixArg::Universal) == Some(4u32)
            &&& prefix_value(PrefixArg::Unset) is None
            &&& e.prefix != PrefixArg::Unset ==> {
                let n = match e.prefix {
                    PrefixArg::Num(k) => 10 * k + d,
                    _ => d as int,
                };
                let m = if n <= u32::MAX {
                    n
                } else {
                    u32::MAX as int
                };
                &&& a is Nothing
                &&& r == (EditorModel { prefix: PrefixArg::Num(m as u32), echo: r.echo, ..e })
                &&& prefix_value(r.prefix) == Some(m as u32)
            }
        }),
{
    let u = chord_handled(e, ctrl_u()).0;
    assert(u =~= EditorModel { prefix: PrefixArg::Universal, echo: u.echo, ..e });
    let ch = ((d + 48) as u8) as char;
    assert(is_digit(ch));
    assert(ch as int - 48 == d);
    assert(ch != 'g' && ch != 'u');
    let r = chord_handled(e, plain(ch)).0;
    assert(r =~= EditorModel {
        prefix: r.prefix,
        echo: r.echo,
        ..e
    } || e.prefix == PrefixArg::Unset);
}

/// Running a command by name uses the prefix argument up, starts an undo group in
/// the current buffer, notes the name for the next command, and forgets the goal
/// column unless the command moves by lines. A name that is not known is told and
/// runs nothing; a command of the extension language is handed out.
pub proof fn law_command_runs(e: EditorModel, name: Seq<char>)
    requires
        wf(e),
    ensures
        ({
            let (r, a) = executed(e, name);
            match lookup(e.registry, name) {
                None => {
                    &&& a is Nothing
                    &&& r.buffers == e.buffers
                    &&& r.windows == e.windows
                    &&& r.echo == Some("Unknown command: "@ + name)
                },
                Some(cmd) => match cmd.f {
                    FnModel::Scheme(f) => {
                        &&& a == ActionModel::RunScheme(f, Seq::empty())
                        &&& r.last_command == Some(name)
                        &&& r.prefix == PrefixArg::Unset
                        &&& r.windows == e.windows
                        &&& cur_buf(r).text == cur_buf(e).text
                    },
                    FnModel::Native(c) => exists|m: EditorModel|
                        {
                            let (x, xa) = native_done(m, c, prefix_value(e.prefix));
                            &&& a == xa
                            &&& r == (EditorModel {
                                last_command: x.this_command,
                                this_command: None,
                                ..x
                            })
                            &&& #[trigger] starts_command(e, m, name)
                        },
                },
            }
        }),
{
    let e1 = crate::dispatch::command_begun(e, name);
    lemma_wf_same(e, e1);
    lemma_cur(e1);
    let b = crate::buffer::BufferModel {
        undo: crate::undo::bounded(cur_buf(e1).undo),
        ..cur_buf(e1)
    };
    lemma_with_buf(e1, b);
    if let Some(cmd) = lookup(e.registry, name) {
        if let FnModel::Native(c) = cmd.f {
            let m = boundary_set(e1);
            assert(starts_command(e, m, name));
        }
    }
}

/// Whether an editor is another one as a command starts.
pub open spec fn starts_command(e: EditorModel, m: EditorModel, name: Seq<char>) -> bool {
    &&& m == (EditorModel {
        prefix: PrefixArg::Unset,
        this_command: Some(name),
        goal_col: m.goal_col,
        buffers: m.buffers,
        ..e
    })
    &&& m.goal_col == if name == "next-line"@ || name == "previous-line"@ {
        e.goal_col
    } else {
        None
    }
    &&& cur_buf(m) == (crate::buffer::BufferModel { undo: cur_buf(m).undo, ..cur_buf(e) })
    &&& cur_buf(m).undo.len() == 0 || cur_buf(m).undo.last() is Boundary
    &&& forall|i: int|
        0 <= i < e.buffers.len() && i != cur_index(e) ==> #[trigger] m.buffers[i] == e.buffers[i]
}

/// Describing a key runs nothing: its keys are collected while they begin a bound
/// sequence, and then the name of the command is told, or handed to the closure
/// that asked.
pub proof fn law_describes_keys(e: EditorModel, c: Chord)
    requires
        e.input is DescribeKey,
        c != ctrl_g(),
    ensures
        ({
            let (r, a) = chord_handled(e, c);
            let s = (e.input->DescribeKey_seq).push(c);
            let on_done = e.input->DescribeKey_on_done;
            &&& a is Nothing
            &&& r.buffers == e.buffers
            &&& r.windows == e.windows
            &&& key_meaning(e, s) is Pending ==> r.input == (InputModel::DescribeKey {
                seq: s,
                prompt: e.input->DescribeKey_prompt,
                on_done,
            })
            &&& !(key_meaning(e, s) is Pending) ==> {
                let name = match key_meaning(e, s) {
                    Meaning::Cmd(n) => n,
                    _ => Seq::empty(),
                };
                &&& r.input is Normal
                &&& on_done matches Some(f) ==> r.deferred == e.deferred.push(
                    ActionModel::RunScheme(f, seq![ValModel::Str(seq_text(s)), ValModel::Str(name)]),
                )
                &&& on_done is None ==> r.deferred == e.deferred && r.echo == Some(
                    match key_meaning(e, s) {
                        Meaning::Cmd(n) => seq_text(s) + " runs the command "@ + n,
                        _ => seq_text(s) + " is undefined"@,
                    },
                )
            }
        }),
{
    let e0 = EditorModel { echo: None, ..e };
    let s = (e.input->DescribeKey_seq).push(c);
    assert(key_meaning(e0, s) == key_meaning(e, s));
    let r = chord_handled(e, c).0;
    let name = match key_meaning(e, s) {
        Meaning::Cmd(n) => n,
        _ => Seq::empty(),
    };
    if !(key_meaning(e, s) is Pending) {
        if let Some(f) = e.input->DescribeKey_on_done {
            let args = seq![ValModel::Str(seq_text(s)), ValModel::Str(name)];
            let last = r.deferred.last();
            assert(last matches ActionModel::RunScheme(g, v) && g == f && v =~= args);
            assert(r.deferred =~= e.deferred.push(ActionModel::RunScheme(f, args)));
        }
    }
}

} // verus!
