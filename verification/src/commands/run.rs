//! Running native commands.

use crate::buffers::has_ids;
use crate::commands::basic::{quit_all, times, typed};
use crate::commands::editing::{
    blanks_deleted, deleted_backward, deleted_forward, line_indented, line_opened, lowercased,
    newline_indented, rest_of_word, transposed, undo_done, undo_ok, uppercased, word_replaced,
};
use crate::commands::files::{exit_begun, kill_begun, save_begun, switch_prompt};
use crate::commands::help::key_asked;
use crate::commands::movement::{
    centered, char_backward, char_forward, line_asked, line_down, line_up, screen_backward,
    screen_forward, word_backward, word_forward,
};
use crate::commands::ring::{
    line_killed, mark_set, region_in_text, region_killed, region_saved, word_killed,
    word_killed_back, yank_done, yank_pop_ok, yank_popped,
};
use crate::commands::windows::{other_selected, window_deleted, window_split, with_windows};
use crate::commands::{basic, editing, files, help, movement, ring, windows};
use crate::dired::files::{
    diff_asked, dired_killed, entry_asked, flagged_asked, refreshes,
};
use crate::dired::ops::{
    entries_changed, entry_here, entry_marked, is_parent, listing_as, listing_at, no_file,
    not_dired, opens, other_window_made, parent_refused, project_dirs, unmarked, visit_entry,
    visited_name,
};
use crate::dired::state::{DiredModel, EntryModel};
use crate::dired::wgrep::{wgrep_aborted, wgrep_begun, wgrep_committed};
use crate::dired::{files as dfiles, ops, wgrep};
use crate::editor::{
    cur_buf, cur_point, lemma_wf_same, moved, said, wf, with_buf, Command, CommandFn, CommandModel,
    Editor, EditorModel, FnModel,
};
use crate::input::{ActionModel, KindModel, PostAction, TaskModel, YesNoModel};
use crate::layout::asked;
use crate::lines::{end_at, max, start_at};
use crate::native::{all_natives, doc_of, name_of, natives, NativeCmd};
use crate::paths::{as_prefill, dir_of, parent_of};
use crate::rect;
use crate::rect::{rect_asked, rect_started};
use crate::search;
use crate::search::{replace_asked, search_started};
use crate::strings::{copy, repeated};
use crate::window::{sole_tree, SplitDir};
use vstd::prelude::*;

verus! {

/// `then` in a dired buffer, else the message that this is none.
pub open spec fn in_listing(e: EditorModel, done: EditorModel) -> EditorModel {
    match listing_at(e) {
        Some(_) => done,
        None => not_dired(e),
    }
}

/// Visiting the entry at point.
pub open spec fn entry_found(e: EditorModel) -> (EditorModel, ActionModel) {
    match entry_here(e) {
        Some(x) => (e, visit_entry(x)),
        None => (no_file(e), ActionModel::Nothing),
    }
}

/// Visiting the entry at point in another window.
pub open spec fn entry_found_beside(e: EditorModel) -> (EditorModel, ActionModel) {
    match entry_here(e) {
        Some(x) => (other_window_made(e), visit_entry(x)),
        None => (no_file(e), ActionModel::Nothing),
    }
}

/// Opening the parent of the listed directory.
pub open spec fn parent_found(e: EditorModel) -> (EditorModel, ActionModel) {
    match listing_at(e) {
        Some(d) => match parent_of(d.dir) {
            Some(p) => (e, opens(p, None)),
            None => (said(e, "At filesystem root"@), ActionModel::Nothing),
        },
        None => (not_dired(e), ActionModel::Nothing),
    }
}

/// Asking whether to delete the entry at point.
pub open spec fn delete_asked(e: EditorModel) -> EditorModel {
    entry_asked(
        e,
        |x: EntryModel| KindModel::YesNo(YesNoModel::DiredDelete(seq![x.path])),
        "Delete "@,
        "? (y or n) "@,
        false,
    )
}

/// Asking for the new name of the entry at point.
pub open spec fn rename_asked(e: EditorModel) -> EditorModel {
    entry_asked(
        e,
        |x: EntryModel| KindModel::DiredRename { from: x.path },
        "Rename "@,
        " to: "@,
        true,
    )
}

/// Asking where to copy the entry at point.
pub open spec fn copy_asked(e: EditorModel) -> EditorModel {
    entry_asked(
        e,
        |x: EntryModel| KindModel::DiredCopy { from: x.path },
        "Copy "@,
        " to: "@,
        false,
    )
}

/// Compressing the entry at point.
pub open spec fn compress_begun(e: EditorModel) -> (EditorModel, ActionModel) {
    match entry_here(e) {
        Some(x) => if is_parent(x) {
            (parent_refused(e), ActionModel::Nothing)
        } else {
            (
                e,
                ActionModel::Outside(TaskModel::Compress { path: x.path, is_dir: x.is_dir }),
            )
        },
        None => (no_file(e), ActionModel::Nothing),
    }
}

/// Listing the directory again.
pub open spec fn revert_begun(e: EditorModel) -> (EditorModel, ActionModel) {
    match listing_at(e) {
        Some(_) => (e, refreshes("Directory re-read"@)),
        None => (not_dired(e), ActionModel::Nothing),
    }
}

/// Showing hidden files, or no longer.
pub open spec fn hidden_toggled(e: EditorModel) -> (EditorModel, ActionModel) {
    match listing_at(e) {
        Some(d) => (
            with_buf(
                e,
                listing_as(cur_buf(e), DiredModel { show_hidden: !d.show_hidden, ..d }),
            ),
            refreshes(
                if d.show_hidden {
                    "Hiding hidden files"@
                } else {
                    "Showing hidden files"@
                },
            ),
        ),
        None => (not_dired(e), ActionModel::Nothing),
    }
}

/// The editor after a native command, and what is left to do.
#[verifier::opaque]
pub open spec fn native_done(e: EditorModel, c: NativeCmd, n: Option<u32>) -> (
    EditorModel,
    ActionModel,
) {
    match c {
        NativeCmd::SaveBuffersKillTerminal => (exit_begun(e), ActionModel::Nothing),
        NativeCmd::KeyboardQuit => (quit_all(e), ActionModel::Nothing),
        NativeCmd::SaveBuffer => save_begun(e),
        NativeCmd::SwitchToBuffer => (asked(e, KindModel::SwitchBuffer, switch_prompt(e), Seq::empty()), ActionModel::Nothing),
        NativeCmd::KillBuffer => (kill_begun(e), ActionModel::Nothing),
        NativeCmd::FindFile => (asked(e, KindModel::FindFile, "Find file: "@, as_prefill(dir_of(e))), ActionModel::Nothing),
        NativeCmd::Undo => (undo_done(e, n), ActionModel::Nothing),
        NativeCmd::ForwardChar => (char_forward(e, n), ActionModel::Nothing),
        NativeCmd::BackwardChar => (char_backward(e, n), ActionModel::Nothing),
        NativeCmd::NextLine => (line_down(e, n), ActionModel::Nothing),
        NativeCmd::PreviousLine => (line_up(e, n), ActionModel::Nothing),
        NativeCmd::ForwardWord => (word_forward(e, n), ActionModel::Nothing),
        NativeCmd::BackwardWord => (word_backward(e, n), ActionModel::Nothing),
        NativeCmd::BeginningOfLine => (moved(e, start_at(cur_buf(e).text, cur_point(e))), ActionModel::Nothing),
        NativeCmd::EndOfLine => (moved(e, end_at(cur_buf(e).text, cur_point(e))), ActionModel::Nothing),
        NativeCmd::BeginningOfBuffer => (moved(e, 0), ActionModel::Nothing),
        NativeCmd::EndOfBuffer => (moved(e, cur_buf(e).text.len() as int), ActionModel::Nothing),
        NativeCmd::ScrollUpCommand => (screen_forward(e), ActionModel::Nothing),
        NativeCmd::ScrollDownCommand => (screen_backward(e), ActionModel::Nothing),
        NativeCmd::Recenter => (centered(e), ActionModel::Nothing),
        NativeCmd::GotoLine => (line_asked(e, n), ActionModel::Nothing),
        NativeCmd::IsearchForward => (search_started(e, true), ActionModel::Nothing),
        NativeCmd::IsearchBackward => (search_started(e, false), ActionModel::Nothing),
        NativeCmd::QueryReplace => (replace_asked(e), ActionModel::Nothing),
        NativeCmd::IndentLine => (line_indented(e), ActionModel::Nothing),
        NativeCmd::Newline => (typed(e, repeated('\n', max(times(n), 1) as nat)), ActionModel::Nothing),
        NativeCmd::OpenLine => (line_opened(e, n), ActionModel::Nothing),
        NativeCmd::NewlineAndIndent => (newline_indented(e), ActionModel::Nothing),
        NativeCmd::DeleteHorizontalSpace => (blanks_deleted(e), ActionModel::Nothing),
        NativeCmd::DeleteChar => (deleted_forward(e, n), ActionModel::Nothing),
        NativeCmd::DeleteBackwardChar => (deleted_backward(e, n), ActionModel::Nothing),
        NativeCmd::BackwardKillWord => (word_killed_back(e, n), ActionModel::Nothing),
        NativeCmd::RectangleMarkMode => (rect_started(e), ActionModel::Nothing),
        NativeCmd::StringRectangle => (rect_asked(e), ActionModel::Nothing),
        NativeCmd::SetMarkCommand => (mark_set(e), ActionModel::Nothing),
        NativeCmd::KillRingSave => (region_saved(e), ActionModel::Nothing),
        NativeCmd::KillRegion => (region_killed(e), ActionModel::Nothing),
        NativeCmd::Yank => (yank_done(e), ActionModel::Nothing),
        NativeCmd::YankPop => (yank_popped(e), ActionModel::Nothing),
        NativeCmd::KillWord => (word_killed(e, n), ActionModel::Nothing),
        NativeCmd::KillLine => (line_killed(e), ActionModel::Nothing),
        NativeCmd::TransposeChars => (transposed(e), ActionModel::Nothing),
        NativeCmd::UpcaseWord => (word_replaced(e, uppercased(rest_of_word(e))), ActionModel::Nothing),
        NativeCmd::DowncaseWord => (word_replaced(e, lowercased(rest_of_word(e))), ActionModel::Nothing),
        NativeCmd::OtherWindow => (other_selected(e, n), ActionModel::Nothing),
        NativeCmd::DeleteOtherWindows => (with_windows(e, sole_tree(e.windows)), ActionModel::Nothing),
        NativeCmd::SplitWindowBelow => (window_split(e, SplitDir::Below), ActionModel::Nothing),
        NativeCmd::SplitWindowRight => (window_split(e, SplitDir::Right), ActionModel::Nothing),
        NativeCmd::DeleteWindow => (window_deleted(e), ActionModel::Nothing),
        NativeCmd::ExecuteExtendedCommand => (asked(e, KindModel::ExecuteCommand, "M-x "@, Seq::empty()), ActionModel::Nothing),
        NativeCmd::DescribeKey => (key_asked(e), ActionModel::Nothing),
        NativeCmd::DescribeFunction => (asked(e, KindModel::DescribeFunction, "Describe function: "@, Seq::empty()), ActionModel::Nothing),
        NativeCmd::DiredOpenDir => (asked(e, KindModel::DiredOpenDir, "Dired (directory): "@, as_prefill(dir_of(e))), ActionModel::Nothing),
        NativeCmd::DiredCurrent => (e, opens(dir_of(e), None)),
        NativeCmd::DiredJump => (e, opens(dir_of(e), visited_name(e))),
        NativeCmd::DiredProjectRoot => (e, ActionModel::Outside(TaskModel::FindProject(project_dirs(e)))),
        NativeCmd::DiredFindFile => entry_found(e),
        NativeCmd::DiredFindFileOtherWindow => entry_found_beside(e),
        NativeCmd::DiredUpDirectory => parent_found(e),
        NativeCmd::DiredMark => (entry_marked(e, '*'), ActionModel::Nothing),
        NativeCmd::DiredMarkRegexp => (in_listing(e, asked(e, KindModel::DiredMarkRegex, "Mark files (regexp): "@, Seq::empty())), ActionModel::Nothing),
        NativeCmd::DiredShellCommand => (in_listing(e, asked(e, KindModel::DiredShell, "! on marked files (shell command): "@, Seq::empty())), ActionModel::Nothing),
        NativeCmd::DiredFlagDeletion => (entry_marked(e, 'D'), ActionModel::Nothing),
        NativeCmd::DiredDoFlaggedDelete => (flagged_asked(e), ActionModel::Nothing),
        NativeCmd::DiredUnmark => (entry_marked(e, ' '), ActionModel::Nothing),
        NativeCmd::DiredUnmarkAll => (in_listing(e, said(entries_changed(e, unmarked(listing_at(e)->0.entries)), "All marks removed"@)), ActionModel::Nothing),
        NativeCmd::DiredDoDelete => (delete_asked(e), ActionModel::Nothing),
        NativeCmd::DiredDoRename => (rename_asked(e), ActionModel::Nothing),
        NativeCmd::DiredDoCopy => (copy_asked(e), ActionModel::Nothing),
        NativeCmd::DiredCreateDirectory => (asked(e, KindModel::DiredMkdir, "Create directory: "@, Seq::empty()), ActionModel::Nothing),
        NativeCmd::DiredDiff => (diff_asked(e), ActionModel::Nothing),
        NativeCmd::DiredCompress => compress_begun(e),
        NativeCmd::DiredRevert => revert_begun(e),
        NativeCmd::DiredToggleHidden => hidden_toggled(e),
        NativeCmd::DiredKillAll => (dired_killed(e), ActionModel::Nothing),
        NativeCmd::WgrepMode => (wgrep_begun(e), ActionModel::Nothing),
        NativeCmd::WgrepCommit => wgrep_committed(e),
        NativeCmd::WgrepAbort => wgrep_aborted(e),
    }
}

/// Whether a native command can be run: ids are left to be given out, and what
/// the command works on lies in the text.
pub open spec fn native_ok(e: EditorModel, c: NativeCmd, n: Option<u32>) -> bool {
    &&& has_ids(e)
    &&& match c {
        NativeCmd::Undo => undo_ok(e, n),
        NativeCmd::KillRingSave => region_in_text(e),
        NativeCmd::YankPop => yank_pop_ok(e),
        _ => true,
    }
}

/// Run a native command.
pub fn run_native(ed: &mut Editor, c: NativeCmd, n: Option<u32>) -> (r: PostAction)
    requires
        wf(old(ed)@),
        native_ok(old(ed)@, c, n),
    ensures
        (final(ed)@, r@) == native_done(old(ed)@, c, n),
        wf(final(ed)@),
{
    proof {
        reveal(native_done);
    }
    match c {
        NativeCmd::SaveBuffersKillTerminal => {
            files::save_buffers_kill_terminal(ed, n);
            PostAction::Nothing
        },
        NativeCmd::KeyboardQuit => {
            basic::keyboard_quit(ed, n);
            PostAction::Nothing
        },
        NativeCmd::SaveBuffer => files::save_buffer(ed, n),
        NativeCmd::SwitchToBuffer => {
            files::switch_to_buffer(ed, n);
            PostAction::Nothing
        },
        NativeCmd::KillBuffer => {
            files::kill_buffer(ed, n);
            PostAction::Nothing
        },
        NativeCmd::FindFile => {
            files::find_file(ed, n);
            PostAction::Nothing
        },
        NativeCmd::Undo => {
            editing::undo_cmd(ed, n);
            PostAction::Nothing
        },
        NativeCmd::ForwardChar => {
            movement::forward_char(ed, n);
            PostAction::Nothing
        },
        NativeCmd::BackwardChar => {
            movement::backward_char(ed, n);
            PostAction::Nothing
        },
        NativeCmd::NextLine => {
            movement::next_line(ed, n);
            PostAction::Nothing
        },
        NativeCmd::PreviousLine => {
            movement::previous_line(ed, n);
            PostAction::Nothing
        },
        NativeCmd::ForwardWord => {
            movement::forward_word(ed, n);
            PostAction::Nothing
        },
        NativeCmd::BackwardWord => {
            movement::backward_word(ed, n);
            PostAction::Nothing
        },
        NativeCmd::BeginningOfLine => {
            movement::beginning_of_line(ed, n);
            PostAction::Nothing
        },
        NativeCmd::EndOfLine => {
            movement::end_of_line(ed, n);
            PostAction::Nothing
        },
        NativeCmd::BeginningOfBuffer => {
            movement::beginning_of_buffer(ed, n);
            PostAction::Nothing
        },
        NativeCmd::EndOfBuffer => {
            movement::end_of_buffer(ed, n);
            PostAction::Nothing
        },
        NativeCmd::ScrollUpCommand => {
            movement::scroll_up_command(ed, n);
            PostAction::Nothing
        },
        NativeCmd::ScrollDownCommand => {
            movement::scroll_down_command(ed, n);
            PostAction::Nothing
        },
        NativeCmd::Recenter => {
            movement::recenter(ed, n);
            PostAction::Nothing
        },
        NativeCmd::GotoLine => {
            movement::goto_line_cmd(ed, n);
            PostAction::Nothing
        },
        NativeCmd::IsearchForward => {
            search::isearch_forward(ed, n);
            PostAction::Nothing
        },
        NativeCmd::IsearchBackward => {
            search::isearch_backward(ed, n);
            PostAction::Nothing
        },
        NativeCmd::QueryReplace => {
            search::query_replace(ed, n);
            PostAction::Nothing
        },
        NativeCmd::IndentLine => {
            editing::indent_line(ed, n);
            PostAction::Nothing
        },
        NativeCmd::Newline => {
            editing::newline(ed, n);
            PostAction::Nothing
        },
        NativeCmd::OpenLine => {
            editing::open_line(ed, n);
            PostAction::Nothing
        },
        NativeCmd::NewlineAndIndent => {
            editing::newline_and_indent(ed, n);
            PostAction::Nothing
        },
        NativeCmd::DeleteHorizontalSpace => {
            editing::delete_horizontal_space(ed, n);
            PostAction::Nothing
        },
        NativeCmd::DeleteChar => {
            editing::delete_char(ed, n);
            PostAction::Nothing
        },
        NativeCmd::DeleteBackwardChar => {
            editing::delete_backward_char(ed, n);
            PostAction::Nothing
        },
        NativeCmd::BackwardKillWord => {
            ring::backward_kill_word(ed, n);
            PostAction::Nothing
        },
        NativeCmd::RectangleMarkMode => {
            rect::rectangle_mark_mode(ed, n);
            PostAction::Nothing
        },
        NativeCmd::StringRectangle => {
            rect::string_rectangle_cmd(ed, n);
            PostAction::Nothing
        },
        NativeCmd::SetMarkCommand => {
            ring::set_mark_command(ed, n);
            PostAction::Nothing
        },
        NativeCmd::KillRingSave => {
            ring::kill_ring_save(ed, n);
            PostAction::Nothing
        },
        NativeCmd::KillRegion => {
            ring::kill_region(ed, n);
            PostAction::Nothing
        },
        NativeCmd::Yank => {
            ring::yank(ed, n);
            PostAction::Nothing
        },
        NativeCmd::YankPop => {
            ring::yank_pop(ed, n);
            PostAction::Nothing
        },
        NativeCmd::KillWord => {
            ring::kill_word(ed, n);
            PostAction::Nothing
        },
        NativeCmd::KillLine => {
            ring::kill_line(ed, n);
            PostAction::Nothing
        },
        NativeCmd::TransposeChars => {
            editing::transpose_chars(ed, n);
            PostAction::Nothing
        },
        NativeCmd::UpcaseWord => {
            editing::upcase_word(ed, n);
            PostAction::Nothing
        },
        NativeCmd::DowncaseWord => {
            editing::downcase_word(ed, n);
            PostAction::Nothing
        },
        NativeCmd::OtherWindow => {
            windows::other_window(ed, n);
            PostAction::Nothing
        },
        NativeCmd::DeleteOtherWindows => {
            windows::delete_other_windows(ed, n);
            PostAction::Nothing
        },
        NativeCmd::SplitWindowBelow => {
            windows::split_window_below(ed, n);
            PostAction::Nothing
        },
        NativeCmd::SplitWindowRight => {
            windows::split_window_right(ed, n);
            PostAction::Nothing
        },
        NativeCmd::DeleteWindow => {
            windows::delete_window(ed, n);
            PostAction::Nothing
        },
        NativeCmd::ExecuteExtendedCommand => {
            help::execute_extended_command(ed, n);
            PostAction::Nothing
        },
        NativeCmd::DescribeKey => {
            help::describe_key(ed, n);
            PostAction::Nothing
        },
        NativeCmd::DescribeFunction => {
            help::describe_function(ed, n);
            PostAction::Nothing
        },
        NativeCmd::DiredOpenDir => {
            ops::open_dir_cmd(ed, n);
            PostAction::Nothing
        },
        NativeCmd::DiredCurrent => ops::current_cmd(ed, n),
        NativeCmd::DiredJump => ops::jump_cmd(ed, n),
        NativeCmd::DiredProjectRoot => ops::project_root_cmd(ed, n),
        NativeCmd::DiredFindFile => ops::find_file_cmd(ed, n),
        NativeCmd::DiredFindFileOtherWindow => ops::find_file_other_window_cmd(ed, n),
        NativeCmd::DiredUpDirectory => ops::up_directory_cmd(ed, n),
        NativeCmd::DiredMark => {
            ops::mark_cmd(ed, n);
            PostAction::Nothing
        },
        NativeCmd::DiredMarkRegexp => {
            dfiles::mark_regexp_cmd(ed, n);
            PostAction::Nothing
        },
        NativeCmd::DiredShellCommand => {
            dfiles::shell_command_cmd(ed, n);
            PostAction::Nothing
        },
        NativeCmd::DiredFlagDeletion => {
            ops::flag_deletion_cmd(ed, n);
            PostAction::Nothing
        },
        NativeCmd::DiredDoFlaggedDelete => {
            dfiles::do_flagged_delete_cmd(ed, n);
            PostAction::Nothing
        },
        NativeCmd::DiredUnmark => {
            ops::unmark_cmd(ed, n);
            PostAction::Nothing
        },
        NativeCmd::DiredUnmarkAll => {
            ops::unmark_all_cmd(ed, n);
            PostAction::Nothing
        },
        NativeCmd::DiredDoDelete => {
            dfiles::do_delete_cmd(ed, n);
            PostAction::Nothing
        },
        NativeCmd::DiredDoRename => {
            dfiles::do_rename_cmd(ed, n);
            PostAction::Nothing
        },
        NativeCmd::DiredDoCopy => {
            dfiles::do_copy_cmd(ed, n);
            PostAction::Nothing
        },
        NativeCmd::DiredCreateDirectory => {
            dfiles::create_directory_cmd(ed, n);
            PostAction::Nothing
        },
        NativeCmd::DiredDiff => {
            dfiles::diff_cmd(ed, n);
            PostAction::Nothing
        },
        NativeCmd::DiredCompress => dfiles::compress_cmd(ed, n),
        NativeCmd::DiredRevert => dfiles::revert_cmd(ed, n),
        NativeCmd::DiredToggleHidden => dfiles::toggle_hidden_cmd(ed, n),
        NativeCmd::DiredKillAll => {
            dfiles::kill_all_cmd(ed, n);
            PostAction::Nothing
        },
        NativeCmd::WgrepMode => {
            wgrep::wgrep_mode_cmd(ed, n);
            PostAction::Nothing
        },
        NativeCmd::WgrepCommit => wgrep::wgrep_commit_cmd(ed, n),
        NativeCmd::WgrepAbort => wgrep::wgrep_abort_cmd(ed, n),
    }
}

/// A native command as the registry holds it.
pub open spec fn native_entry(c: NativeCmd) -> CommandModel {
    CommandModel { doc: doc_of(c), f: FnModel::Native(c) }
}

/// The registry with the first `n` native commands installed.
pub open spec fn installed(
    r: Seq<(Seq<char>, CommandModel)>,
    n: int,
) -> Seq<(Seq<char>, CommandModel)>
    decreases n,
{
    if n <= 0 {
        r
    } else {
        crate::assoc::with_key(
            installed(r, n - 1),
            name_of(all_natives()[n - 1]),
            native_entry(all_natives()[n - 1]),
        )
    }
}

/// Install every native command into the editor's registry.
pub fn install(ed: &mut Editor)
    requires
        wf(old(ed)@),
    ensures
        final(ed)@ == (EditorModel {
            registry: installed(old(ed)@.registry, all_natives().len() as int),
            ..old(ed)@
        }),
        wf(final(ed)@),
{
    let all = natives();
    for i in 0..all.len()
        invariant
            all@ == all_natives(),
            ed@ == (EditorModel { registry: installed(old(ed)@.registry, i as int), ..old(ed)@ }),
            wf(ed@),
    {
        let c = all[i];
        let ghost before = ed@;
        ed.registry.insert(
            copy(c.name()),
            Command { doc: copy(c.doc()), f: CommandFn::Native(c) },
        );
        proof {
            assert(ed@.registry == installed(old(ed)@.registry, i + 1));
            lemma_wf_same(before, ed@);
        }
    }
}

// ---- laws ------------------------------------------------------------------

/// Every native command that was installed is found by its name, whatever the
/// registry held before.
pub proof fn law_installed_found(r: Seq<(Seq<char>, CommandModel)>, n: int, i: int)
    requires
        0 <= i < n <= all_natives().len(),
    ensures
        crate::assoc::lookup(installed(r, n), name_of(all_natives()[i])) == Some(
            native_entry(all_natives()[i]),
        ),
    decreases n,
{
    let c = all_natives()[i];
    let d = all_natives()[n - 1];
    crate::assoc::law_with_key(installed(r, n - 1), name_of(d), native_entry(d), name_of(c));
    if c != d {
        crate::native::law_names_distinct(c, d);
        law_installed_found(r, n - 1, i);
    }
}

} // verus!
