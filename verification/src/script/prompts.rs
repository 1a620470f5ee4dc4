//! The minibuffer: prompts, their contents and their candidates.

use crate::editor::{lemma_wf_same, said, wf, Editor, EditorModel};
use crate::input::{
    InputMode, InputModel, KindModel, PostAction, Prompt, PromptKind, PromptModel, YesNoAction,
    YesNoModel,
};
use crate::keys::Chord;
use crate::layout::asked;
use crate::lines::{max, min, minus};
use crate::minibuffer::{completion_kind, completion_of, submit, submit_ok, submitted};
use crate::script::text::position_of;
use crate::strings::{copy, no_text, views};
use crate::value::{SchemeVal, ValModel};
use vstd::prelude::*;

verus! {

/// Whether a prompt is up.
pub open spec fn at_prompt(e: EditorModel) -> bool {
    e.input is Prompt
}

/// Whether a prompt is up.
pub fn minibufferp(ed: &Editor) -> (b: bool)
    ensures
        b == at_prompt(ed@),
{
    match &ed.input {
        InputMode::Prompt(_) => true,
        _ => false,
    }
}

/// The text of the prompt; empty without one.
pub open spec fn prompt_text(e: EditorModel) -> Seq<char> {
    match e.input {
        InputModel::Prompt(p) => p.prompt,
        _ => Seq::empty(),
    }
}

/// What was entered at the prompt; empty without one.
pub open spec fn prompt_input(e: EditorModel) -> Seq<char> {
    match e.input {
        InputModel::Prompt(p) => p.input,
        _ => Seq::empty(),
    }
}

/// The completion domain of the prompt; empty without one.
pub open spec fn prompt_domain(e: EditorModel) -> Seq<char> {
    match e.input {
        InputModel::Prompt(p) => match completion_of(p.kind) {
            Some(s) => s,
            None => ""@,
        },
        _ => Seq::empty(),
    }
}

/// The text of the prompt.
pub fn minibuffer_prompt(ed: &Editor) -> (s: String)
    ensures
        s@ == prompt_text(ed@),
{
    match &ed.input {
        InputMode::Prompt(p) => copy(p.prompt.as_str()),
        _ => no_text(),
    }
}

/// What was entered at the prompt.
pub fn minibuffer_contents(ed: &Editor) -> (s: String)
    ensures
        s@ == prompt_input(ed@),
{
    match &ed.input {
        InputMode::Prompt(p) => copy(p.input.as_str()),
        _ => no_text(),
    }
}

/// The completion domain of the prompt.
pub fn minibuffer_completion_kind(ed: &Editor) -> (s: String)
    ensures
        s@ == prompt_domain(ed@),
{
    match &ed.input {
        InputMode::Prompt(p) => match completion_kind(&p.kind) {
            Some(s) => copy(s),
            None => copy(""),
        },
        _ => no_text(),
    }
}

/// The editor with other contents at its prompt, if there is one, and the
/// cursor at their end.
pub open spec fn input_set(e: EditorModel, text: Seq<char>) -> EditorModel {
    match e.input {
        InputModel::Prompt(p) => EditorModel {
            input: InputModel::Prompt(
                PromptModel { input: text, cursor: text.len() as int, ..p },
            ),
            ..e
        },
        _ => e,
    }
}

/// Replace what was entered at the prompt.
pub fn set_minibuffer_contents(ed: &mut Editor, s: String)
    requires
        wf(old(ed)@),
    ensures
        final(ed)@ == input_set(old(ed)@, s@),
        wf(final(ed)@),
{
    let ghost e = ed@;
    let ghost text = s@;
    if let InputMode::Prompt(p) = &mut ed.input {
        p.cursor = s.as_str().unicode_len();
        p.input = s;
    }
    proof {
        assert(ed@ =~= input_set(e, text));
        lemma_wf_same(e, ed@);
    }
}

/// Take out what was entered at the prompt.
pub fn delete_minibuffer_contents(ed: &mut Editor)
    requires
        wf(old(ed)@),
    ensures
        final(ed)@ == input_set(old(ed)@, Seq::empty()),
        wf(final(ed)@),
{
    set_minibuffer_contents(ed, no_text());
}

/// The editor after the prompt is submitted from inside the extension language:
/// what is left to do waits for the main loop.
pub open spec fn exited(e: EditorModel) -> EditorModel {
    let (e1, a) = submitted(e);
    if a is Nothing {
        e1
    } else {
        EditorModel { deferred: e1.deferred.push(a), ..e1 }
    }
}

/// Submit the prompt as RET would. What is left to do is queued, since the
/// extension language cannot call itself from here.
pub fn exit_minibuffer(ed: &mut Editor)
    requires
        wf(old(ed)@),
        submit_ok(old(ed)@),
    ensures
        final(ed)@ == exited(old(ed)@),
        wf(final(ed)@),
{
    let ghost e = ed@;
    let action = submit(ed);
    let ghost e1 = ed@;
    let ghost a = action@;
    match action {
        PostAction::Nothing => {},
        other => {
            ed.deferred.push(other);
            proof {
                assert(ed@.deferred =~= e1.deferred.push(a));
                assert(ed@ =~= EditorModel { deferred: e1.deferred.push(a), ..e1 });
                lemma_wf_same(e1, ed@);
            }
        },
    }
}

/// The editor with a candidate list at its prompt, if there is one.
pub open spec fn candidates_set(e: EditorModel, list: Seq<Seq<char>>, idx: int) -> EditorModel {
    match e.input {
        InputModel::Prompt(p) => EditorModel {
            input: InputModel::Prompt(
                PromptModel {
                    completions: list,
                    selected: min(max(idx, 0), minus(list.len() as int, 1)),
                    ..p
                },
            ),
            ..e
        },
        _ => e,
    }
}

/// Show candidates above the prompt, one of them selected.
pub fn minibuffer_show_candidates(ed: &mut Editor, list: Vec<String>, idx: isize)
    requires
        wf(old(ed)@),
    ensures
        final(ed)@ == candidates_set(old(ed)@, views(list@), idx as int),
        wf(final(ed)@),
{
    let ghost e = ed@;
    let ghost all = views(list@);
    if let InputMode::Prompt(p) = &mut ed.input {
        let last: usize = if list.len() == 0 {
            0
        } else {
            list.len() - 1
        };
        p.selected = position_of(idx, last);
        p.completions = list;
    }
    proof {
        assert(ed@ =~= candidates_set(e, all, idx as int));
        lemma_wf_same(e, ed@);
    }
}

/// The completion domain that a name stands for; none for an empty one.
pub open spec fn domain_of(name: Seq<char>) -> Option<Seq<char>> {
    if name.len() == 0 {
        None
    } else {
        Some(name)
    }
}

/// Ask for a string, with some input to start with; the closure gets it.
pub fn read_string(
    ed: &mut Editor,
    prompt: &str,
    initial: String,
    completion: String,
    on_submit: SchemeVal,
)
    requires
        wf(old(ed)@),
    ensures
        final(ed)@ == asked(
            old(ed)@,
            KindModel::Generic { on_submit: on_submit@, completion: domain_of(completion@) },
            prompt@,
            initial@,
        ),
        wf(final(ed)@),
{
    let domain = if completion.as_str().unicode_len() == 0 {
        None
    } else {
        Some(completion)
    };
    ed.prompt_prefilled(PromptKind::Generic { on_submit, completion: domain }, prompt, initial);
}

/// Ask a yes/no question; the closure is called on yes.
pub fn y_or_n_p(ed: &mut Editor, prompt: &str, on_yes: SchemeVal)
    requires
        wf(old(ed)@),
    ensures
        final(ed)@ == asked(
            old(ed)@,
            KindModel::YesNo(YesNoModel::Generic(on_yes@)),
            prompt@,
            Seq::empty(),
        ),
        wf(final(ed)@),
{
    ed.prompt(PromptKind::YesNo(YesNoAction::Generic(on_yes)), prompt);
}

/// The editor collecting a key sequence.
pub open spec fn key_asked(e: EditorModel, prompt: Seq<char>, f: ValModel) -> EditorModel {
    EditorModel {
        input: InputModel::DescribeKey { seq: Seq::empty(), prompt, on_done: Some(f) },
        ..said(e, prompt)
    }
}

/// Read one full key sequence: the closure gets the formatted sequence and the
/// name of the command that it resolves to.
pub fn read_key_sequence(ed: &mut Editor, prompt: &str, f: SchemeVal)
    requires
        wf(old(ed)@),
    ensures
        final(ed)@ == key_asked(old(ed)@, prompt@, f@),
        wf(final(ed)@),
{
    let ghost e = ed@;
    let ghost g = f@;
    ed.message(prompt);
    let seq: Vec<Chord> = Vec::new();
    assert(seq@ =~= Seq::<Chord>::empty());
    ed.input = InputMode::DescribeKey { seq, prompt: copy(prompt), on_done: Some(f) };
    proof {
        assert(ed@ =~= key_asked(e, prompt@, g));
        lemma_wf_same(e, ed@);
    }
}

} // verus!
