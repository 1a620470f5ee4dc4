//! C-h k / C-h f / M-x.

use crate::editor::{lemma_wf_same, said, wf, Editor, EditorModel};
use crate::input::{InputMode, InputModel, KindModel, PromptKind};
use crate::layout::asked;
use crate::strings::copy;
use vstd::prelude::*;

verus! {

/// The editor waiting for a key sequence to describe.
pub open spec fn key_asked(e: EditorModel) -> EditorModel {
    said(
        EditorModel {
            input: InputModel::DescribeKey {
                seq: Seq::empty(),
                prompt: "Describe key: "@,
                on_done: None,
            },
            ..e
        },
        "Describe key: "@,
    )
}

pub fn describe_key(ed: &mut Editor, _n: Option<u32>)
    requires
        wf(old(ed)@),
    ensures
        final(ed)@ == key_asked(old(ed)@),
        wf(final(ed)@),
{
    ed.input = InputMode::DescribeKey {
        seq: Vec::new(),
        prompt: copy("Describe key: "),
        on_done: None,
    };
    ed.message("Describe key: ");
    proof {
        assert(ed@ =~= key_asked(old(ed)@));
        lemma_wf_same(old(ed)@, ed@);
    }
}

pub fn describe_function(ed: &mut Editor, _n: Option<u32>)
    requires
        wf(old(ed)@),
    ensures
        final(ed)@ == asked(
            old(ed)@,
            KindModel::DescribeFunction,
            "Describe function: "@,
            Seq::empty(),
        ),
        wf(final(ed)@),
{
    ed.prompt(PromptKind::DescribeFunction, "Describe function: ");
}

pub fn execute_extended_command(ed: &mut Editor, _n: Option<u32>)
    requires
        wf(old(ed)@),
    ensures
        final(ed)@ == asked(old(ed)@, KindModel::ExecuteCommand, "M-x "@, Seq::empty()),
        wf(final(ed)@),
{
    ed.prompt(PromptKind::ExecuteCommand, "M-x ");
}

} // verus!
