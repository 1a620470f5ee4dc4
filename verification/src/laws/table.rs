//! The table of native commands, command by command.

use crate::commands::basic::{quit_all, times, typed};
use crate::commands::editing::{
    blanks_deleted, deleted_backward, deleted_forward, line_indented, line_opened, lowercased,
    newline_indented, rest_of_word, transposed, undo_done, uppercased, word_replaced,
};
use crate::commands::files::{exit_begun, kill_begun, save_begun, switch_prompt};
use crate::commands::help::key_asked;
use crate::commands::movement::{
    centered, char_backward, char_forward, line_asked, line_down, line_up, screen_backward,
    screen_forward, word_backward, word_forward,
};
use crate::commands::ring::{
    line_killed, mark_set, region_killed, region_saved, word_killed, word_killed_back, yank_done,
    yank_popped,
};
use crate::commands::run::{
    compress_begun, copy_asked, delete_asked, entry_found, entry_found_beside, hidden_toggled,
    in_listing, native_done, parent_found, rename_asked, revert_begun,
};
use crate::commands::windows::{other_selected, window_deleted, window_split, with_windows};
use crate::dired::files::{diff_asked, dired_killed, flagged_asked};
use crate::dired::ops::{
    entries_changed, entry_marked, listing_at, opens, project_dirs, unmarked, visited_name,
};
use crate::dired::wgrep::{wgrep_aborted, wgrep_begun, wgrep_committed};
use crate::editor::{cur_buf, cur_point, moved, said, EditorModel};
use crate::input::{ActionModel, KindModel, TaskModel};
use crate::layout::asked;
use crate::lines::{end_at, max, start_at};
use crate::native::NativeCmd;
use crate::paths::{as_prefill, dir_of};
use crate::rect::{rect_asked, rect_started};
use crate::search::{replace_asked, search_started};
use crate::strings::repeated;
use crate::window::{sole_tree, SplitDir};
use vstd::prelude::*;

verus! {

/// What some native commands do.
pub proof fn lemma_motion_commands(e: EditorModel, n: Option<u32>)
    ensures
        native_done(e, NativeCmd::ForwardChar, n) == (char_forward(e, n), ActionModel::Nothing),
        native_done(e, NativeCmd::BackwardChar, n) == (char_backward(e, n), ActionModel::Nothing),
        native_done(e, NativeCmd::NextLine, n) == (line_down(e, n), ActionModel::Nothing),
        native_done(e, NativeCmd::PreviousLine, n) == (line_up(e, n), ActionModel::Nothing),
        native_done(e, NativeCmd::ForwardWord, n) == (word_forward(e, n), ActionModel::Nothing),
        native_done(e, NativeCmd::BackwardWord, n) == (word_backward(e, n), ActionModel::Nothing),
{
    reveal(native_done);
}

/// What some native commands do.
pub proof fn lemma_motion_far_commands(e: EditorModel, n: Option<u32>)
    ensures
        native_done(e, NativeCmd::BeginningOfLine, n) == (
            moved(e, start_at(cur_buf(e).text, cur_point(e))),
            ActionModel::Nothing,
        ),
        native_done(e, NativeCmd::EndOfLine, n) == (
            moved(e, end_at(cur_buf(e).text, cur_point(e))),
            ActionModel::Nothing,
        ),
        native_done(e, NativeCmd::BeginningOfBuffer, n) == (moved(e, 0), ActionModel::Nothing),
        native_done(e, NativeCmd::EndOfBuffer, n) == (
            moved(e, cur_buf(e).text.len() as int),
            ActionModel::Nothing,
        ),
        native_done(e, NativeCmd::GotoLine, n) == (line_asked(e, n), ActionModel::Nothing),
{
    reveal(native_done);
}

/// What some native commands do.
pub proof fn lemma_scroll_commands(e: EditorModel, n: Option<u32>)
    ensures
        native_done(e, NativeCmd::ScrollUpCommand, n) == (screen_forward(e), ActionModel::Nothing),
        native_done(e, NativeCmd::ScrollDownCommand, n) == (
            screen_backward(e),
            ActionModel::Nothing,
        ),
        native_done(e, NativeCmd::Recenter, n) == (centered(e), ActionModel::Nothing),
{
    reveal(native_done);
}

/// What some native commands do.
pub proof fn lemma_kill_commands(e: EditorModel, n: Option<u32>)
    ensures
        native_done(e, NativeCmd::BackwardKillWord, n) == (
            word_killed_back(e, n),
            ActionModel::Nothing,
        ),
        native_done(e, NativeCmd::KillWord, n) == (word_killed(e, n), ActionModel::Nothing),
        native_done(e, NativeCmd::KillLine, n) == (line_killed(e), ActionModel::Nothing),
        native_done(e, NativeCmd::KillRegion, n) == (region_killed(e), ActionModel::Nothing),
        native_done(e, NativeCmd::KillRingSave, n) == (region_saved(e), ActionModel::Nothing),
{
    reveal(native_done);
}

/// What some native commands do.
pub proof fn lemma_yank_commands(e: EditorModel, n: Option<u32>)
    ensures
        native_done(e, NativeCmd::Yank, n) == (yank_done(e), ActionModel::Nothing),
        native_done(e, NativeCmd::YankPop, n) == (yank_popped(e), ActionModel::Nothing),
        native_done(e, NativeCmd::Undo, n) == (undo_done(e, n), ActionModel::Nothing),
{
    reveal(native_done);
}

/// What some native commands do.
pub proof fn lemma_edit_commands(e: EditorModel, n: Option<u32>)
    ensures
        native_done(e, NativeCmd::IndentLine, n) == (line_indented(e), ActionModel::Nothing),
        native_done(e, NativeCmd::Newline, n) == (
            typed(e, repeated('\n', max(times(n), 1) as nat)),
            ActionModel::Nothing,
        ),
        native_done(e, NativeCmd::OpenLine, n) == (line_opened(e, n), ActionModel::Nothing),
        native_done(e, NativeCmd::NewlineAndIndent, n) == (
            newline_indented(e),
            ActionModel::Nothing,
        ),
        native_done(e, NativeCmd::DeleteHorizontalSpace, n) == (
            blanks_deleted(e),
            ActionModel::Nothing,
        ),
{
    reveal(native_done);
}

/// What some native commands do.
pub proof fn lemma_delete_commands(e: EditorModel, n: Option<u32>)
    ensures
        native_done(e, NativeCmd::DeleteChar, n) == (deleted_forward(e, n), ActionModel::Nothing),
        native_done(e, NativeCmd::DeleteBackwardChar, n) == (
            deleted_backward(e, n),
            ActionModel::Nothing,
        ),
        native_done(e, NativeCmd::TransposeChars, n) == (transposed(e), ActionModel::Nothing),
        native_done(e, NativeCmd::UpcaseWord, n) == (
            word_replaced(e, uppercased(rest_of_word(e))),
            ActionModel::Nothing,
        ),
        native_done(e, NativeCmd::DowncaseWord, n) == (
            word_replaced(e, lowercased(rest_of_word(e))),
            ActionModel::Nothing,
        ),
{
    reveal(native_done);
}

/// What some native commands do.
pub proof fn lemma_window_commands(e: EditorModel, n: Option<u32>)
    ensures
        native_done(e, NativeCmd::OtherWindow, n) == (other_selected(e, n), ActionModel::Nothing),
        native_done(e, NativeCmd::DeleteOtherWindows, n) == (
            with_windows(e, sole_tree(e.windows)),
            ActionModel::Nothing,
        ),
        native_done(e, NativeCmd::SplitWindowBelow, n) == (
            window_split(e, SplitDir::Below),
            ActionModel::Nothing,
        ),
        native_done(e, NativeCmd::SplitWindowRight, n) == (
            window_split(e, SplitDir::Right),
            ActionModel::Nothing,
        ),
        native_done(e, NativeCmd::DeleteWindow, n) == (window_deleted(e), ActionModel::Nothing),
{
    reveal(native_done);
}

/// What some native commands do.
pub proof fn lemma_search_commands(e: EditorModel, n: Option<u32>)
    ensures
        native_done(e, NativeCmd::IsearchForward, n) == (
            search_started(e, true),
            ActionModel::Nothing,
        ),
        native_done(e, NativeCmd::IsearchBackward, n) == (
            search_started(e, false),
            ActionModel::Nothing,
        ),
        native_done(e, NativeCmd::QueryReplace, n) == (replace_asked(e), ActionModel::Nothing),
        native_done(e, NativeCmd::RectangleMarkMode, n) == (rect_started(e), ActionModel::Nothing),
        native_done(e, NativeCmd::StringRectangle, n) == (rect_asked(e), ActionModel::Nothing),
        native_done(e, NativeCmd::SetMarkCommand, n) == (mark_set(e), ActionModel::Nothing),
{
    reveal(native_done);
}

/// What some native commands do.
pub proof fn lemma_file_commands(e: EditorModel, n: Option<u32>)
    ensures
        native_done(e, NativeCmd::SaveBuffersKillTerminal, n) == (
            exit_begun(e),
            ActionModel::Nothing,
        ),
        native_done(e, NativeCmd::KeyboardQuit, n) == (quit_all(e), ActionModel::Nothing),
        native_done(e, NativeCmd::SaveBuffer, n) == save_begun(e),
        native_done(e, NativeCmd::SwitchToBuffer, n) == (
            asked(e, KindModel::SwitchBuffer, switch_prompt(e), Seq::empty()),
            ActionModel::Nothing,
        ),
        native_done(e, NativeCmd::KillBuffer, n) == (kill_begun(e), ActionModel::Nothing),
        native_done(e, NativeCmd::FindFile, n) == (
            asked(e, KindModel::FindFile, "Find file: "@, as_prefill(dir_of(e))),
            ActionModel::Nothing,
        ),
{
    reveal(native_done);
}

/// What some native commands do.
pub proof fn lemma_help_commands(e: EditorModel, n: Option<u32>)
    ensures
        native_done(e, NativeCmd::ExecuteExtendedCommand, n) == (
            asked(e, KindModel::ExecuteCommand, "M-x "@, Seq::empty()),
            ActionModel::Nothing,
        ),
        native_done(e, NativeCmd::DescribeKey, n) == (key_asked(e), ActionModel::Nothing),
        native_done(e, NativeCmd::DescribeFunction, n) == (
            asked(e, KindModel::DescribeFunction, "Describe function: "@, Seq::empty()),
            ActionModel::Nothing,
        ),
{
    reveal(native_done);
}

/// What some native commands do.
pub proof fn lemma_dired_open_commands(e: EditorModel, n: Option<u32>)
    ensures
        native_done(e, NativeCmd::DiredOpenDir, n) == (
            asked(e, KindModel::DiredOpenDir, "Dired (directory): "@, as_prefill(dir_of(e))),
            ActionModel::Nothing,
        ),
        native_done(e, NativeCmd::DiredCurrent, n) == (e, opens(dir_of(e), None)),
        native_done(e, NativeCmd::DiredJump, n) == (e, opens(dir_of(e), visited_name(e))),
        native_done(e, NativeCmd::DiredProjectRoot, n) == (
            e,
            ActionModel::Outside(TaskModel::FindProject(project_dirs(e))),
        ),
{
    reveal(native_done);
}

/// What some native commands do.
pub proof fn lemma_dired_visit_commands(e: EditorModel, n: Option<u32>)
    ensures
        native_done(e, NativeCmd::DiredFindFile, n) == entry_found(e),
        native_done(e, NativeCmd::DiredFindFileOtherWindow, n) == entry_found_beside(e),
        native_done(e, NativeCmd::DiredUpDirectory, n) == parent_found(e),
{
    reveal(native_done);
}

/// What some native commands do.
pub proof fn lemma_dired_mark_commands(e: EditorModel, n: Option<u32>)
    ensures
        native_done(e, NativeCmd::DiredMark, n) == (entry_marked(e, '*'), ActionModel::Nothing),
        native_done(e, NativeCmd::DiredMarkRegexp, n) == (
            in_listing(
                e,
                asked(e, KindModel::DiredMarkRegex, "Mark files (regexp): "@, Seq::empty()),
            ),
            ActionModel::Nothing,
        ),
        native_done(e, NativeCmd::DiredFlagDeletion, n) == (
            entry_marked(e, 'D'),
            ActionModel::Nothing,
        ),
        native_done(e, NativeCmd::DiredUnmark, n) == (entry_marked(e, ' '), ActionModel::Nothing),
        native_done(e, NativeCmd::DiredUnmarkAll, n) == (
            in_listing(
                e,
                said(entries_changed(e, unmarked(listing_at(e)->0.entries)), "All marks removed"@),
            ),
            ActionModel::Nothing,
        ),
{
    reveal(native_done);
}

/// What some native commands do.
pub proof fn lemma_dired_delete_commands(e: EditorModel, n: Option<u32>)
    ensures
        native_done(e, NativeCmd::DiredShellCommand, n) == (
            in_listing(
                e,
                asked(e, KindModel::DiredShell, "! on marked files (shell command): "@, Seq::empty()),
            ),
            ActionModel::Nothing,
        ),
        native_done(e, NativeCmd::DiredDoFlaggedDelete, n) == (
            flagged_asked(e),
            ActionModel::Nothing,
        ),
        native_done(e, NativeCmd::DiredDoDelete, n) == (delete_asked(e), ActionModel::Nothing),
        native_done(e, NativeCmd::DiredKillAll, n) == (dired_killed(e), ActionModel::Nothing),
{
    reveal(native_done);
}

/// What some native commands do.
pub proof fn lemma_dired_files_commands(e: EditorModel, n: Option<u32>)
    ensures
        native_done(e, NativeCmd::DiredDoRename, n) == (rename_asked(e), ActionModel::Nothing),
        native_done(e, NativeCmd::DiredDoCopy, n) == (copy_asked(e), ActionModel::Nothing),
        native_done(e, NativeCmd::DiredCreateDirectory, n) == (
            asked(e, KindModel::DiredMkdir, "Create directory: "@, Seq::empty()),
            ActionModel::Nothing,
        ),
        native_done(e, NativeCmd::DiredDiff, n) == (diff_asked(e), ActionModel::Nothing),
        native_done(e, NativeCmd::DiredCompress, n) == compress_begun(e),
{
    reveal(native_done);
}

/// What some native commands do.
pub proof fn lemma_dired_listing_commands(e: EditorModel, n: Option<u32>)
    ensures
        native_done(e, NativeCmd::DiredRevert, n) == revert_begun(e),
        native_done(e, NativeCmd::DiredToggleHidden, n) == hidden_toggled(e),
        native_done(e, NativeCmd::WgrepMode, n) == (wgrep_begun(e), ActionModel::Nothing),
        native_done(e, NativeCmd::WgrepCommit, n) == wgrep_committed(e),
        native_done(e, NativeCmd::WgrepAbort, n) == wgrep_aborted(e),
{
    reveal(native_done);
}

} // verus!
