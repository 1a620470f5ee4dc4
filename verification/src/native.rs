//! The native commands: what they are called and what they are for.

use vstd::prelude::*;

verus! {

/// A command implemented in the native core.
#[derive(Debug, Clone, Copy, PartialEq, Eq, Structural)]
pub enum NativeCmd {
    SaveBuffersKillTerminal,
    KeyboardQuit,
    SaveBuffer,
    SwitchToBuffer,
    KillBuffer,
    FindFile,
    Undo,
    ForwardChar,
    BackwardChar,
    NextLine,
    PreviousLine,
    ForwardWord,
    BackwardWord,
    BeginningOfLine,
    EndOfLine,
    BeginningOfBuffer,
    EndOfBuffer,
    ScrollUpCommand,
    ScrollDownCommand,
    Recenter,
    GotoLine,
    IsearchForward,
    IsearchBackward,
    QueryReplace,
    IndentLine,
    Newline,
    OpenLine,
    NewlineAndIndent,
    DeleteHorizontalSpace,
    DeleteChar,
    DeleteBackwardChar,
    BackwardKillWord,
    RectangleMarkMode,
    StringRectangle,
    SetMarkCommand,
    KillRingSave,
    KillRegion,
    Yank,
    YankPop,
    KillWord,
    KillLine,
    TransposeChars,
    UpcaseWord,
    DowncaseWord,
    OtherWindow,
    DeleteOtherWindows,
    SplitWindowBelow,
    SplitWindowRight,
    DeleteWindow,
    ExecuteExtendedCommand,
    DescribeKey,
    DescribeFunction,
    DiredOpenDir,
    DiredCurrent,
    DiredJump,
    DiredProjectRoot,
    DiredFindFile,
    DiredFindFileOtherWindow,
    DiredUpDirectory,
    DiredMark,
    DiredMarkRegexp,
    DiredShellCommand,
    DiredFlagDeletion,
    DiredDoFlaggedDelete,
    DiredUnmark,
    DiredUnmarkAll,
    DiredDoDelete,
    DiredDoRename,
    DiredDoCopy,
    DiredCreateDirectory,
    DiredDiff,
    DiredCompress,
    DiredRevert,
    DiredToggleHidden,
    DiredKillAll,
    WgrepMode,
    WgrepCommit,
    WgrepAbort,
}

/// The name of a command.
pub open spec fn name_of(c: NativeCmd) -> Seq<char> {
    match c {
        NativeCmd::SaveBuffersKillTerminal => "save-buffers-kill-terminal"@,
        NativeCmd::KeyboardQuit => "keyboard-quit"@,
        NativeCmd::SaveBuffer => "save-buffer"@,
        NativeCmd::SwitchToBuffer => "switch-to-buffer"@,
        NativeCmd::KillBuffer => "kill-buffer"@,
        NativeCmd::FindFile => "find-file"@,
        NativeCmd::Undo => "undo"@,
        NativeCmd::ForwardChar => "forward-char"@,
        NativeCmd::BackwardChar => "backward-char"@,
        NativeCmd::NextLine => "next-line"@,
        NativeCmd::PreviousLine => "previous-line"@,
        NativeCmd::ForwardWord => "forward-word"@,
        NativeCmd::BackwardWord => "backward-word"@,
        NativeCmd::BeginningOfLine => "beginning-of-line"@,
        NativeCmd::EndOfLine => "end-of-line"@,
        NativeCmd::BeginningOfBuffer => "beginning-of-buffer"@,
        NativeCmd::EndOfBuffer => "end-of-buffer"@,
        NativeCmd::ScrollUpCommand => "scroll-up-command"@,
        NativeCmd::ScrollDownCommand => "scroll-down-command"@,
        NativeCmd::Recenter => "recenter"@,
        NativeCmd::GotoLine => "goto-line"@,
        NativeCmd::IsearchForward => "isearch-forward"@,
        NativeCmd::IsearchBackward => "isearch-backward"@,
        NativeCmd::QueryReplace => "query-replace"@,
        NativeCmd::IndentLine => "indent-line"@,
        NativeCmd::Newline => "newline"@,
        NativeCmd::OpenLine => "open-line"@,
        NativeCmd::NewlineAndIndent => "newline-and-indent"@,
        NativeCmd::DeleteHorizontalSpace => "delete-horizontal-space"@,
        NativeCmd::DeleteChar => "delete-char"@,
        NativeCmd::DeleteBackwardChar => "delete-backward-char"@,
        NativeCmd::BackwardKillWord => "backward-kill-word"@,
        NativeCmd::RectangleMarkMode => "rectangle-mark-mode"@,
        NativeCmd::StringRectangle => "string-rectangle"@,
        NativeCmd::SetMarkCommand => "set-mark-command"@,
        NativeCmd::KillRingSave => "kill-ring-save"@,
        NativeCmd::KillRegion => "kill-region"@,
        NativeCmd::Yank => "yank"@,
        NativeCmd::YankPop => "yank-pop"@,
        NativeCmd::KillWord => "kill-word"@,
        NativeCmd::KillLine => "kill-line"@,
        NativeCmd::TransposeChars => "transpose-chars"@,
        NativeCmd::UpcaseWord => "upcase-word"@,
        NativeCmd::DowncaseWord => "downcase-word"@,
        NativeCmd::OtherWindow => "other-window"@,
        NativeCmd::DeleteOtherWindows => "delete-other-windows"@,
        NativeCmd::SplitWindowBelow => "split-window-below"@,
        NativeCmd::SplitWindowRight => "split-window-right"@,
        NativeCmd::DeleteWindow => "delete-window"@,
        NativeCmd::ExecuteExtendedCommand => "execute-extended-command"@,
        NativeCmd::DescribeKey => "describe-key"@,
        NativeCmd::DescribeFunction => "describe-function"@,
        NativeCmd::DiredOpenDir => "dired-open-dir"@,
        NativeCmd::DiredCurrent => "dired-current"@,
        NativeCmd::DiredJump => "dired-jump"@,
        NativeCmd::DiredProjectRoot => "dired-project-root"@,
        NativeCmd::DiredFindFile => "dired-find-file"@,
        NativeCmd::DiredFindFileOtherWindow => "dired-find-file-other-window"@,
        NativeCmd::DiredUpDirectory => "dired-up-directory"@,
        NativeCmd::DiredMark => "dired-mark"@,
        NativeCmd::DiredMarkRegexp => "dired-mark-regexp"@,
        NativeCmd::DiredShellCommand => "dired-shell-command"@,
        NativeCmd::DiredFlagDeletion => "dired-flag-deletion"@,
        NativeCmd::DiredDoFlaggedDelete => "dired-do-flagged-delete"@,
        NativeCmd::DiredUnmark => "dired-unmark"@,
        NativeCmd::DiredUnmarkAll => "dired-unmark-all"@,
        NativeCmd::DiredDoDelete => "dired-do-delete"@,
        NativeCmd::DiredDoRename => "dired-do-rename"@,
        NativeCmd::DiredDoCopy => "dired-do-copy"@,
        NativeCmd::DiredCreateDirectory => "dired-create-directory"@,
        NativeCmd::DiredDiff => "dired-diff"@,
        NativeCmd::DiredCompress => "dired-compress"@,
        NativeCmd::DiredRevert => "dired-revert"@,
        NativeCmd::DiredToggleHidden => "dired-toggle-hidden"@,
        NativeCmd::DiredKillAll => "dired-kill-all"@,
        NativeCmd::WgrepMode => "wgrep-mode"@,
        NativeCmd::WgrepCommit => "wgrep-commit"@,
        NativeCmd::WgrepAbort => "wgrep-abort"@,
    }
}

/// The documentation of a command.
pub open spec fn doc_of(c: NativeCmd) -> Seq<char> {
    match c {
        NativeCmd::SaveBuffersKillTerminal => "Quit the editor, confirming if modified buffers exist."@,
        NativeCmd::KeyboardQuit => "Cancel the in-progress key sequence, prompt, search or region."@,
        NativeCmd::SaveBuffer => "Save the current buffer to its file (prompts for a name if it has none)."@,
        NativeCmd::SwitchToBuffer => "Prompt for a buffer name and switch to it (creates it if new)."@,
        NativeCmd::KillBuffer => "Kill the current buffer."@,
        NativeCmd::FindFile => "Prompt for a file and visit it (directories open in dired)."@,
        NativeCmd::Undo => "Undo the last change in the current buffer."@,
        NativeCmd::ForwardChar => "Move point forward one character."@,
        NativeCmd::BackwardChar => "Move point backward one character."@,
        NativeCmd::NextLine => "Move point to the next line, keeping the goal column."@,
        NativeCmd::PreviousLine => "Move point to the previous line, keeping the goal column."@,
        NativeCmd::ForwardWord => "Move point forward one word."@,
        NativeCmd::BackwardWord => "Move point backward one word."@,
        NativeCmd::BeginningOfLine => "Move point to the beginning of the current line."@,
        NativeCmd::EndOfLine => "Move point to the end of the current line."@,
        NativeCmd::BeginningOfBuffer => "Move point to the beginning of the buffer."@,
        NativeCmd::EndOfBuffer => "Move point to the end of the buffer."@,
        NativeCmd::ScrollUpCommand => "Scroll one screen forward."@,
        NativeCmd::ScrollDownCommand => "Scroll one screen backward."@,
        NativeCmd::Recenter => "Center the screen on the line containing point."@,
        NativeCmd::GotoLine => "Prompt for a line number and move point there."@,
        NativeCmd::IsearchForward => "Incremental regexp search forward (C-s again for next match)."@,
        NativeCmd::IsearchBackward => "Incremental regexp search backward."@,
        NativeCmd::QueryReplace => "Interactively replace regexp matches (y/n/!/q)."@,
        NativeCmd::IndentLine => "Indent the current line (relative to the previous line)."@,
        NativeCmd::Newline => "Insert a newline at point."@,
        NativeCmd::OpenLine => "Insert a newline after point without moving the cursor."@,
        NativeCmd::NewlineAndIndent => "Insert a newline, then indent the new line."@,
        NativeCmd::DeleteHorizontalSpace => "Delete all spaces and tabs around point."@,
        NativeCmd::DeleteChar => "Delete the character after point."@,
        NativeCmd::DeleteBackwardChar => "Delete the character before point."@,
        NativeCmd::BackwardKillWord => "Kill the word before point."@,
        NativeCmd::RectangleMarkMode => "Enter rectangle mode; movement extends the rectangle."@,
        NativeCmd::StringRectangle => "Prompt for text and insert it into each line of the rectangle."@,
        NativeCmd::SetMarkCommand => "Set the mark at point to start a region."@,
        NativeCmd::KillRingSave => "Copy the region to the kill ring."@,
        NativeCmd::KillRegion => "Kill (cut) the region."@,
        NativeCmd::Yank => "Yank (paste) the most recent kill."@,
        NativeCmd::YankPop => "Replace the just-yanked text with the previous kill."@,
        NativeCmd::KillWord => "Kill the word starting at point."@,
        NativeCmd::KillLine => "Kill from point to the end of the line."@,
        NativeCmd::TransposeChars => "Swap the two characters around point."@,
        NativeCmd::UpcaseWord => "Uppercase from point to the end of the word."@,
        NativeCmd::DowncaseWord => "Lowercase from point to the end of the word."@,
        NativeCmd::OtherWindow => "Select the next window."@,
        NativeCmd::DeleteOtherWindows => "Delete all windows except the selected one."@,
        NativeCmd::SplitWindowBelow => "Split the selected window above and below."@,
        NativeCmd::SplitWindowRight => "Split the selected window side by side."@,
        NativeCmd::DeleteWindow => "Delete the selected window."@,
        NativeCmd::ExecuteExtendedCommand => "Prompt for a command name and run it."@,
        NativeCmd::DescribeKey => "Read a key sequence and describe the command it runs."@,
        NativeCmd::DescribeFunction => "Prompt for a command name and show its documentation."@,
        NativeCmd::DiredOpenDir => "Prompt for a directory and open it in dired."@,
        NativeCmd::DiredCurrent => "Open the current buffer's directory in dired."@,
        NativeCmd::DiredJump => "Open dired at the current file's directory, cursor on that file."@,
        NativeCmd::DiredProjectRoot => "Open the project root (nearest ancestor with .git) in dired."@,
        NativeCmd::DiredFindFile => "Visit the file or directory at point."@,
        NativeCmd::DiredFindFileOtherWindow => "Visit the file or directory at point in another window."@,
        NativeCmd::DiredUpDirectory => "Open the parent directory."@,
        NativeCmd::DiredMark => "Mark the file at point."@,
        NativeCmd::DiredMarkRegexp => "Prompt for a regexp and mark all matching files."@,
        NativeCmd::DiredShellCommand => "Run a shell command on the marked files (or the file at point)."@,
        NativeCmd::DiredFlagDeletion => "Flag the file at point for deletion."@,
        NativeCmd::DiredDoFlaggedDelete => "Delete the files flagged with D."@,
        NativeCmd::DiredUnmark => "Unmark the file at point."@,
        NativeCmd::DiredUnmarkAll => "Unmark all files."@,
        NativeCmd::DiredDoDelete => "Delete the file at point."@,
        NativeCmd::DiredDoRename => "Rename the file at point."@,
        NativeCmd::DiredDoCopy => "Copy the file at point."@,
        NativeCmd::DiredCreateDirectory => "Prompt for a name and create a directory."@,
        NativeCmd::DiredDiff => "Diff the file at point against another file."@,
        NativeCmd::DiredCompress => "Compress the file (gz) or directory (tar.gz) at point."@,
        NativeCmd::DiredRevert => "Refresh the dired listing."@,
        NativeCmd::DiredToggleHidden => "Toggle showing hidden files."@,
        NativeCmd::DiredKillAll => "Kill all dired buffers."@,
        NativeCmd::WgrepMode => "Make the dired buffer writable to edit file names as plain text."@,
        NativeCmd::WgrepCommit => "Apply the edited file names (renames files on disk)."@,
        NativeCmd::WgrepAbort => "Abort wgrep editing and restore the listing."@,
    }
}

impl NativeCmd {
    /// The name of the command.
    pub fn name(self) -> (s: &'static str)
        ensures
            s@ == name_of(self),
    {
        match self {
            NativeCmd::SaveBuffersKillTerminal => "save-buffers-kill-terminal",
            NativeCmd::KeyboardQuit => "keyboard-quit",
            NativeCmd::SaveBuffer => "save-buffer",
            NativeCmd::SwitchToBuffer => "switch-to-buffer",
            NativeCmd::KillBuffer => "kill-buffer",
            NativeCmd::FindFile => "find-file",
            NativeCmd::Undo => "undo",
            NativeCmd::ForwardChar => "forward-char",
            NativeCmd::BackwardChar => "backward-char",
            NativeCmd::NextLine => "next-line",
            NativeCmd::PreviousLine => "previous-line",
            NativeCmd::ForwardWord => "forward-word",
            NativeCmd::BackwardWord => "backward-word",
            NativeCmd::BeginningOfLine => "beginning-of-line",
            NativeCmd::EndOfLine => "end-of-line",
            NativeCmd::BeginningOfBuffer => "beginning-of-buffer",
            NativeCmd::EndOfBuffer => "end-of-buffer",
            NativeCmd::ScrollUpCommand => "scroll-up-command",
            NativeCmd::ScrollDownCommand => "scroll-down-command",
            NativeCmd::Recenter => "recenter",
            NativeCmd::GotoLine => "goto-line",
            NativeCmd::IsearchForward => "isearch-forward",
            NativeCmd::IsearchBackward => "isearch-backward",
            NativeCmd::QueryReplace => "query-replace",
            NativeCmd::IndentLine => "indent-line",
            NativeCmd::Newline => "newline",
            NativeCmd::OpenLine => "open-line",
            NativeCmd::NewlineAndIndent => "newline-and-indent",
            NativeCmd::DeleteHorizontalSpace => "delete-horizontal-space",
            NativeCmd::DeleteChar => "delete-char",
            NativeCmd::DeleteBackwardChar => "delete-backward-char",
            NativeCmd::BackwardKillWord => "backward-kill-word",
            NativeCmd::RectangleMarkMode => "rectangle-mark-mode",
            NativeCmd::StringRectangle => "string-rectangle",
            NativeCmd::SetMarkCommand => "set-mark-command",
            NativeCmd::KillRingSave => "kill-ring-save",
            NativeCmd::KillRegion => "kill-region",
            NativeCmd::Yank => "yank",
            NativeCmd::YankPop => "yank-pop",
            NativeCmd::KillWord => "kill-word",
            NativeCmd::KillLine => "kill-line",
            NativeCmd::TransposeChars => "transpose-chars",
            NativeCmd::UpcaseWord => "upcase-word",
            NativeCmd::DowncaseWord => "downcase-word",
            NativeCmd::OtherWindow => "other-window",
            NativeCmd::DeleteOtherWindows => "delete-other-windows",
            NativeCmd::SplitWindowBelow => "split-window-below",
            NativeCmd::SplitWindowRight => "split-window-right",
            NativeCmd::DeleteWindow => "delete-window",
            NativeCmd::ExecuteExtendedCommand => "execute-extended-command",
            NativeCmd::DescribeKey => "describe-key",
            NativeCmd::DescribeFunction => "describe-function",
            NativeCmd::DiredOpenDir => "dired-open-dir",
            NativeCmd::DiredCurrent => "dired-current",
            NativeCmd::DiredJump => "dired-jump",
            NativeCmd::DiredProjectRoot => "dired-project-root",
            NativeCmd::DiredFindFile => "dired-find-file",
            NativeCmd::DiredFindFileOtherWindow => "dired-find-file-other-window",
            NativeCmd::DiredUpDirectory => "dired-up-directory",
            NativeCmd::DiredMark => "dired-mark",
            NativeCmd::DiredMarkRegexp => "dired-mark-regexp",
            NativeCmd::DiredShellCommand => "dired-shell-command",
            NativeCmd::DiredFlagDeletion => "dired-flag-deletion",
            NativeCmd::DiredDoFlaggedDelete => "dired-do-flagged-delete",
            NativeCmd::DiredUnmark => "dired-unmark",
            NativeCmd::DiredUnmarkAll => "dired-unmark-all",
            NativeCmd::DiredDoDelete => "dired-do-delete",
            NativeCmd::DiredDoRename => "dired-do-rename",
            NativeCmd::DiredDoCopy => "dired-do-copy",
            NativeCmd::DiredCreateDirectory => "dired-create-directory",
            NativeCmd::DiredDiff => "dired-diff",
            NativeCmd::DiredCompress => "dired-compress",
            NativeCmd::DiredRevert => "dired-revert",
            NativeCmd::DiredToggleHidden => "dired-toggle-hidden",
            NativeCmd::DiredKillAll => "dired-kill-all",
            NativeCmd::WgrepMode => "wgrep-mode",
            NativeCmd::WgrepCommit => "wgrep-commit",
            NativeCmd::WgrepAbort => "wgrep-abort",
        }
    }

    /// The documentation of the command.
    pub fn doc(self) -> (s: &'static str)
        ensures
            s@ == doc_of(self),
    {
        match self {
            NativeCmd::SaveBuffersKillTerminal => "Quit the editor, confirming if modified buffers exist.",
            NativeCmd::KeyboardQuit => "Cancel the in-progress key sequence, prompt, search or region.",
            NativeCmd::SaveBuffer => "Save the current buffer to its file (prompts for a name if it has none).",
            NativeCmd::SwitchToBuffer => "Prompt for a buffer name and switch to it (creates it if new).",
            NativeCmd::KillBuffer => "Kill the current buffer.",
            NativeCmd::FindFile => "Prompt for a file and visit it (directories open in dired).",
            NativeCmd::Undo => "Undo the last change in the current buffer.",
            NativeCmd::ForwardChar => "Move point forward one character.",
            NativeCmd::BackwardChar => "Move point backward one character.",
            NativeCmd::NextLine => "Move point to the next line, keeping the goal column.",
            NativeCmd::PreviousLine => "Move point to the previous line, keeping the goal column.",
            NativeCmd::ForwardWord => "Move point forward one word.",
            NativeCmd::BackwardWord => "Move point backward one word.",
            NativeCmd::BeginningOfLine => "Move point to the beginning of the current line.",
            NativeCmd::EndOfLine => "Move point to the end of the current line.",
            NativeCmd::BeginningOfBuffer => "Move point to the beginning of the buffer.",
            NativeCmd::EndOfBuffer => "Move point to the end of the buffer.",
            NativeCmd::ScrollUpCommand => "Scroll one screen forward.",
            NativeCmd::ScrollDownCommand => "Scroll one screen backward.",
            NativeCmd::Recenter => "Center the screen on the line containing point.",
            NativeCmd::GotoLine => "Prompt for a line number and move point there.",
            NativeCmd::IsearchForward => "Incremental regexp search forward (C-s again for next match).",
            NativeCmd::IsearchBackward => "Incremental regexp search backward.",
            NativeCmd::QueryReplace => "Interactively replace regexp matches (y/n/!/q).",
            NativeCmd::IndentLine => "Indent the current line (relative to the previous line).",
            NativeCmd::Newline => "Insert a newline at point.",
            NativeCmd::OpenLine => "Insert a newline after point without moving the cursor.",
            NativeCmd::NewlineAndIndent => "Insert a newline, then indent the new line.",
            NativeCmd::DeleteHorizontalSpace => "Delete all spaces and tabs around point.",
            NativeCmd::DeleteChar => "Delete the character after point.",
            NativeCmd::DeleteBackwardChar => "Delete the character before point.",
            NativeCmd::BackwardKillWord => "Kill the word before point.",
            NativeCmd::RectangleMarkMode => "Enter rectangle mode; movement extends the rectangle.",
            NativeCmd::StringRectangle => "Prompt for text and insert it into each line of the rectangle.",
            NativeCmd::SetMarkCommand => "Set the mark at point to start a region.",
            NativeCmd::KillRingSave => "Copy the region to the kill ring.",
            NativeCmd::KillRegion => "Kill (cut) the region.",
            NativeCmd::Yank => "Yank (paste) the most recent kill.",
            NativeCmd::YankPop => "Replace the just-yanked text with the previous kill.",
            NativeCmd::KillWord => "Kill the word starting at point.",
            NativeCmd::KillLine => "Kill from point to the end of the line.",
            NativeCmd::TransposeChars => "Swap the two characters around point.",
            NativeCmd::UpcaseWord => "Uppercase from point to the end of the word.",
            NativeCmd::DowncaseWord => "Lowercase from point to the end of the word.",
            NativeCmd::OtherWindow => "Select the next window.",
            NativeCmd::DeleteOtherWindows => "Delete all windows except the selected one.",
            NativeCmd::SplitWindowBelow => "Split the selected window above and below.",
            NativeCmd::SplitWindowRight => "Split the selected window side by side.",
            NativeCmd::DeleteWindow => "Delete the selected window.",
            NativeCmd::ExecuteExtendedCommand => "Prompt for a command name and run it.",
            NativeCmd::DescribeKey => "Read a key sequence and describe the command it runs.",
            NativeCmd::DescribeFunction => "Prompt for a command name and show its documentation.",
            NativeCmd::DiredOpenDir => "Prompt for a directory and open it in dired.",
            NativeCmd::DiredCurrent => "Open the current buffer's directory in dired.",
            NativeCmd::DiredJump => "Open dired at the current file's directory, cursor on that file.",
            NativeCmd::DiredProjectRoot => "Open the project root (nearest ancestor with .git) in dired.",
            NativeCmd::DiredFindFile => "Visit the file or directory at point.",
            NativeCmd::DiredFindFileOtherWindow => "Visit the file or directory at point in another window.",
            NativeCmd::DiredUpDirectory => "Open the parent directory.",
            NativeCmd::DiredMark => "Mark the file at point.",
            NativeCmd::DiredMarkRegexp => "Prompt for a regexp and mark all matching files.",
            NativeCmd::DiredShellCommand => "Run a shell command on the marked files (or the file at point).",
            NativeCmd::DiredFlagDeletion => "Flag the file at point for deletion.",
            NativeCmd::DiredDoFlaggedDelete => "Delete the files flagged with D.",
            NativeCmd::DiredUnmark => "Unmark the file at point.",
            NativeCmd::DiredUnmarkAll => "Unmark all files.",
            NativeCmd::DiredDoDelete => "Delete the file at point.",
            NativeCmd::DiredDoRename => "Rename the file at point.",
            NativeCmd::DiredDoCopy => "Copy the file at point.",
            NativeCmd::DiredCreateDirectory => "Prompt for a name and create a directory.",
            NativeCmd::DiredDiff => "Diff the file at point against another file.",
            NativeCmd::DiredCompress => "Compress the file (gz) or directory (tar.gz) at point.",
            NativeCmd::DiredRevert => "Refresh the dired listing.",
            NativeCmd::DiredToggleHidden => "Toggle showing hidden files.",
            NativeCmd::DiredKillAll => "Kill all dired buffers.",
            NativeCmd::WgrepMode => "Make the dired buffer writable to edit file names as plain text.",
            NativeCmd::WgrepCommit => "Apply the edited file names (renames files on disk).",
            NativeCmd::WgrepAbort => "Abort wgrep editing and restore the listing.",
        }
    }
}

/// The native commands in the order in which they are installed.
pub open spec fn all_natives() -> Seq<NativeCmd> {
    seq![
        NativeCmd::SaveBuffersKillTerminal,
        NativeCmd::KeyboardQuit,
        NativeCmd::SaveBuffer,
        NativeCmd::SwitchToBuffer,
        NativeCmd::KillBuffer,
        NativeCmd::FindFile,
        NativeCmd::Undo,
        NativeCmd::ForwardChar,
        NativeCmd::BackwardChar,
        NativeCmd::NextLine,
        NativeCmd::PreviousLine,
        NativeCmd::ForwardWord,
        NativeCmd::BackwardWord,
        NativeCmd::BeginningOfLine,
        NativeCmd::EndOfLine,
        NativeCmd::BeginningOfBuffer,
        NativeCmd::EndOfBuffer,
        NativeCmd::ScrollUpCommand,
        NativeCmd::ScrollDownCommand,
        NativeCmd::Recenter,
        NativeCmd::GotoLine,
        NativeCmd::IsearchForward,
        NativeCmd::IsearchBackward,
        NativeCmd::QueryReplace,
        NativeCmd::IndentLine,
        NativeCmd::Newline,
        NativeCmd::OpenLine,
        NativeCmd::NewlineAndIndent,
        NativeCmd::DeleteHorizontalSpace,
        NativeCmd::DeleteChar,
        NativeCmd::DeleteBackwardChar,
        NativeCmd::BackwardKillWord,
        NativeCmd::RectangleMarkMode,
        NativeCmd::StringRectangle,
        NativeCmd::SetMarkCommand,
        NativeCmd::KillRingSave,
        NativeCmd::KillRegion,
        NativeCmd::Yank,
        NativeCmd::YankPop,
        NativeCmd::KillWord,
        NativeCmd::KillLine,
        NativeCmd::TransposeChars,
        NativeCmd::UpcaseWord,
        NativeCmd::DowncaseWord,
        NativeCmd::OtherWindow,
        NativeCmd::DeleteOtherWindows,
        NativeCmd::SplitWindowBelow,
        NativeCmd::SplitWindowRight,
        NativeCmd::DeleteWindow,
        NativeCmd::ExecuteExtendedCommand,
        NativeCmd::DescribeKey,
        NativeCmd::DescribeFunction,
        NativeCmd::DiredOpenDir,
        NativeCmd::DiredCurrent,
        NativeCmd::DiredJump,
        NativeCmd::DiredProjectRoot,
        NativeCmd::DiredFindFile,
        NativeCmd::DiredFindFileOtherWindow,
        NativeCmd::DiredUpDirectory,
        NativeCmd::DiredMark,
        NativeCmd::DiredMarkRegexp,
        NativeCmd::DiredShellCommand,
        NativeCmd::DiredFlagDeletion,
        NativeCmd::DiredDoFlaggedDelete,
        NativeCmd::DiredUnmark,
        NativeCmd::DiredUnmarkAll,
        NativeCmd::DiredDoDelete,
        NativeCmd::DiredDoRename,
        NativeCmd::DiredDoCopy,
        NativeCmd::DiredCreateDirectory,
        NativeCmd::DiredDiff,
        NativeCmd::DiredCompress,
        NativeCmd::DiredRevert,
        NativeCmd::DiredToggleHidden,
        NativeCmd::DiredKillAll,
        NativeCmd::WgrepMode,
        NativeCmd::WgrepCommit,
        NativeCmd::WgrepAbort,
    ]
}

/// The native commands in the order in which they are installed.
pub fn natives() -> (v: Vec<NativeCmd>)
    ensures
        v@ == all_natives(),
{
    let v: Vec<NativeCmd> = vec![
        NativeCmd::SaveBuffersKillTerminal,
        NativeCmd::KeyboardQuit,
        NativeCmd::SaveBuffer,
        NativeCmd::SwitchToBuffer,
        NativeCmd::KillBuffer,
        NativeCmd::FindFile,
        NativeCmd::Undo,
        NativeCmd::ForwardChar,
        NativeCmd::BackwardChar,
        NativeCmd::NextLine,
        NativeCmd::PreviousLine,
        NativeCmd::ForwardWord,
        NativeCmd::BackwardWord,
        NativeCmd::BeginningOfLine,
        NativeCmd::EndOfLine,
        NativeCmd::BeginningOfBuffer,
        NativeCmd::EndOfBuffer,
        NativeCmd::ScrollUpCommand,
        NativeCmd::ScrollDownCommand,
        NativeCmd::Recenter,
        NativeCmd::GotoLine,
        NativeCmd::IsearchForward,
        NativeCmd::IsearchBackward,
        NativeCmd::QueryReplace,
        NativeCmd::IndentLine,
        NativeCmd::Newline,
        NativeCmd::OpenLine,
        NativeCmd::NewlineAndIndent,
        NativeCmd::DeleteHorizontalSpace,
        NativeCmd::DeleteChar,
        NativeCmd::DeleteBackwardChar,
        NativeCmd::BackwardKillWord,
        NativeCmd::RectangleMarkMode,
        NativeCmd::StringRectangle,
        NativeCmd::SetMarkCommand,
        NativeCmd::KillRingSave,
        NativeCmd::KillRegion,
        NativeCmd::Yank,
        NativeCmd::YankPop,
        NativeCmd::KillWord,
        NativeCmd::KillLine,
        NativeCmd::TransposeChars,
        NativeCmd::UpcaseWord,
        NativeCmd::DowncaseWord,
        NativeCmd::OtherWindow,
        NativeCmd::DeleteOtherWindows,
        NativeCmd::SplitWindowBelow,
        NativeCmd::SplitWindowRight,
        NativeCmd::DeleteWindow,
        NativeCmd::ExecuteExtendedCommand,
        NativeCmd::DescribeKey,
        NativeCmd::DescribeFunction,
        NativeCmd::DiredOpenDir,
        NativeCmd::DiredCurrent,
        NativeCmd::DiredJump,
        NativeCmd::DiredProjectRoot,
        NativeCmd::DiredFindFile,
        NativeCmd::DiredFindFileOtherWindow,
        NativeCmd::DiredUpDirectory,
        NativeCmd::DiredMark,
        NativeCmd::DiredMarkRegexp,
        NativeCmd::DiredShellCommand,
        NativeCmd::DiredFlagDeletion,
        NativeCmd::DiredDoFlaggedDelete,
        NativeCmd::DiredUnmark,
        NativeCmd::DiredUnmarkAll,
        NativeCmd::DiredDoDelete,
        NativeCmd::DiredDoRename,
        NativeCmd::DiredDoCopy,
        NativeCmd::DiredCreateDirectory,
        NativeCmd::DiredDiff,
        NativeCmd::DiredCompress,
        NativeCmd::DiredRevert,
        NativeCmd::DiredToggleHidden,
        NativeCmd::DiredKillAll,
        NativeCmd::WgrepMode,
        NativeCmd::WgrepCommit,
        NativeCmd::WgrepAbort,
    ];
    assert(v@ =~= all_natives());
    v
}

// ---- laws ------------------------------------------------------------------

/// No two native commands have the same name.
#[verifier::rlimit(50)]
#[verifier::spinoff_prover]
pub proof fn law_names_distinct(c: NativeCmd, d: NativeCmd)
    requires
        c != d,
    ensures
        name_of(c) != name_of(d),
{
    // Names of the same length differ in one of these chars.
    reveal_strlit("save-buffers-kill-terminal");
    reveal_strlit("keyboard-quit");
    reveal_strlit("save-buffer");
    reveal_strlit("switch-to-buffer");
    reveal_strlit("kill-buffer");
    reveal_strlit("find-file");
    reveal_strlit("undo");
    reveal_strlit("forward-char");
    reveal_strlit("backward-char");
    reveal_strlit("next-line");
    reveal_strlit("previous-line");
    reveal_strlit("forward-word");
    reveal_strlit("backward-word");
    reveal_strlit("beginning-of-line");
    reveal_strlit("end-of-line");
    reveal_strlit("beginning-of-buffer");
    reveal_strlit("end-of-buffer");
    reveal_strlit("scroll-up-command");
    reveal_strlit("scroll-down-command");
    reveal_strlit("recenter");
    reveal_strlit("goto-line");
    reveal_strlit("isearch-forward");
    reveal_strlit("isearch-backward");
    reveal_strlit("query-replace");
    reveal_strlit("indent-line");
    reveal_strlit("newline");
    reveal_strlit("open-line");
    reveal_strlit("newline-and-indent");
    reveal_strlit("delete-horizontal-space");
    reveal_strlit("delete-char");
    reveal_strlit("delete-backward-char");
    reveal_strlit("backward-kill-word");
    reveal_strlit("rectangle-mark-mode");
    reveal_strlit("string-rectangle");
    reveal_strlit("set-mark-command");
    reveal_strlit("kill-ring-save");
    reveal_strlit("kill-region");
    reveal_strlit("yank");
    reveal_strlit("yank-pop");
    reveal_strlit("kill-word");
    reveal_strlit("kill-line");
    reveal_strlit("transpose-chars");
    reveal_strlit("upcase-word");
    reveal_strlit("downcase-word");
    reveal_strlit("other-window");
    reveal_strlit("delete-other-windows");
    reveal_strlit("split-window-below");
    reveal_strlit("split-window-right");
    reveal_strlit("delete-window");
    reveal_strlit("execute-extended-command");
    reveal_strlit("describe-key");
    reveal_strlit("describe-function");
    reveal_strlit("dired-open-dir");
    reveal_strlit("dired-current");
    reveal_strlit("dired-jump");
    reveal_strlit("dired-project-root");
    reveal_strlit("dired-find-file");
    reveal_strlit("dired-find-file-other-window");
    reveal_strlit("dired-up-directory");
    reveal_strlit("dired-mark");
    reveal_strlit("dired-mark-regexp");
    reveal_strlit("dired-shell-command");
    reveal_strlit("dired-flag-deletion");
    reveal_strlit("dired-do-flagged-delete");
    reveal_strlit("dired-unmark");
    reveal_strlit("dired-unmark-all");
    reveal_strlit("dired-do-delete");
    reveal_strlit("dired-do-rename");
    reveal_strlit("dired-do-copy");
    reveal_strlit("dired-create-directory");
    reveal_strlit("dired-diff");
    reveal_strlit("dired-compress");
    reveal_strlit("dired-revert");
    reveal_strlit("dired-toggle-hidden");
    reveal_strlit("dired-kill-all");
    reveal_strlit("wgrep-mode");
    reveal_strlit("wgrep-commit");
    reveal_strlit("wgrep-abort");
    assert("save-buffers-kill-terminal"@.len() == 26);
    assert("keyboard-quit"@.len() == 13 && "keyboard-quit"@[11] == 'i' && "keyboard-quit"@[0] == 'k');
    assert("save-buffer"@.len() == 11 && "save-buffer"@[0] == 's' && "save-buffer"@[5] == 'b');
    assert("switch-to-buffer"@.len() == 16 && "switch-to-buffer"@[1] == 'w');
    assert("kill-buffer"@.len() == 11 && "kill-buffer"@[0] == 'k' && "kill-buffer"@[5] == 'b');
    assert("find-file"@.len() == 9 && "find-file"@[0] == 'f' && "find-file"@[5] == 'f');
    assert("undo"@.len() == 4 && "undo"@[0] == 'u');
    assert("forward-char"@.len() == 12 && "forward-char"@[9] == 'h');
    assert("backward-char"@.len() == 13 && "backward-char"@[11] == 'a' && "backward-char"@[0] == 'b');
    assert("next-line"@.len() == 9 && "next-line"@[0] == 'n' && "next-line"@[5] == 'l');
    assert("previous-line"@.len() == 13 && "previous-line"@[11] == 'n' && "previous-line"@[0] == 'p');
    assert("forward-word"@.len() == 12 && "forward-word"@[9] == 'o');
    assert("backward-word"@.len() == 13 && "backward-word"@[11] == 'r' && "backward-word"@[0] == 'b');
    assert("beginning-of-line"@.len() == 17 && "beginning-of-line"@[3] == 'i');
    assert("end-of-line"@.len() == 11 && "end-of-line"@[0] == 'e' && "end-of-line"@[5] == 'f');
    assert("beginning-of-buffer"@.len() == 19 && "beginning-of-buffer"@[6] == 'i');
    assert("end-of-buffer"@.len() == 13 && "end-of-buffer"@[11] == 'e' && "end-of-buffer"@[0] == 'e');
    assert("scroll-up-command"@.len() == 17 && "scroll-up-command"@[3] == 'o');
    assert("scroll-down-command"@.len() == 19 && "scroll-down-command"@[6] == '-');
    assert("recenter"@.len() == 8 && "recenter"@[0] == 'r');
    assert("goto-line"@.len() == 9 && "goto-line"@[0] == 'g' && "goto-line"@[5] == 'l');
    assert("isearch-forward"@.len() == 15 && "isearch-forward"@[11] == 'w');
    assert("isearch-backward"@.len() == 16 && "isearch-backward"@[1] == 's');
    assert("query-replace"@.len() == 13 && "query-replace"@[11] == 'c' && "query-replace"@[0] == 'q');
    assert("indent-line"@.len() == 11 && "indent-line"@[0] == 'i' && "indent-line"@[5] == 't');
    assert("newline"@.len() == 7);
    assert("open-line"@.len() == 9 && "open-line"@[0] == 'o' && "open-line"@[5] == 'l');
    assert("newline-and-indent"@.len() == 18 && "newline-and-indent"@[14] == 'd');
    assert("delete-horizontal-space"@.len() == 23 && "delete-horizontal-space"@[1] == 'e');
    assert("delete-char"@.len() == 11 && "delete-char"@[0] == 'd' && "delete-char"@[5] == 'e');
    assert("delete-backward-char"@.len() == 20 && "delete-backward-char"@[7] == 'b');
    assert("backward-kill-word"@.len() == 18 && "backward-kill-word"@[14] == 'w');
    assert("rectangle-mark-mode"@.len() == 19 && "rectangle-mark-mode"@[6] == 'g');
    assert("string-rectangle"@.len() == 16 && "string-rectangle"@[1] == 't');
    assert("set-mark-command"@.len() == 16 && "set-mark-command"@[1] == 'e');
    assert("kill-ring-save"@.len() == 14 && "kill-ring-save"@[6] == 'i');
    assert("kill-region"@.len() == 11 && "kill-region"@[0] == 'k' && "kill-region"@[5] == 'r');
    assert("yank"@.len() == 4 && "yank"@[0] == 'y');
    assert("yank-pop"@.len() == 8 && "yank-pop"@[0] == 'y');
    assert("kill-word"@.len() == 9 && "kill-word"@[0] == 'k' && "kill-word"@[5] == 'w');
    assert("kill-line"@.len() == 9 && "kill-line"@[0] == 'k' && "kill-line"@[5] == 'l');
    assert("transpose-chars"@.len() == 15 && "transpose-chars"@[11] == 'h');
    assert("upcase-word"@.len() == 11 && "upcase-word"@[0] == 'u' && "upcase-word"@[5] == 'e');
    assert("downcase-word"@.len() == 13 && "downcase-word"@[11] == 'r' && "downcase-word"@[0] == 'd');
    assert("other-window"@.len() == 12 && "other-window"@[9] == 'd');
    assert("delete-other-windows"@.len() == 20 && "delete-other-windows"@[7] == 'o');
    assert("split-window-below"@.len() == 18 && "split-window-below"@[14] == 'e');
    assert("split-window-right"@.len() == 18 && "split-window-right"@[14] == 'i');
    assert("delete-window"@.len() == 13 && "delete-window"@[11] == 'o' && "delete-window"@[0] == 'd');
    assert("execute-extended-command"@.len() == 24);
    assert("describe-key"@.len() == 12 && "describe-key"@[9] == 'k');
    assert("describe-function"@.len() == 17 && "describe-function"@[3] == 'c');
    assert("dired-open-dir"@.len() == 14 && "dired-open-dir"@[6] == 'o');
    assert("dired-current"@.len() == 13 && "dired-current"@[11] == 'n' && "dired-current"@[0] == 'd');
    assert("dired-jump"@.len() == 10 && "dired-jump"@[7] == 'u');
    assert("dired-project-root"@.len() == 18 && "dired-project-root"@[14] == 'r');
    assert("dired-find-file"@.len() == 15 && "dired-find-file"@[11] == 'f');
    assert("dired-find-file-other-window"@.len() == 28);
    assert("dired-up-directory"@.len() == 18 && "dired-up-directory"@[14] == 't');
    assert("dired-mark"@.len() == 10 && "dired-mark"@[7] == 'a');
    assert("dired-mark-regexp"@.len() == 17 && "dired-mark-regexp"@[3] == 'e');
    assert("dired-shell-command"@.len() == 19 && "dired-shell-command"@[6] == 's');
    assert("dired-flag-deletion"@.len() == 19 && "dired-flag-deletion"@[6] == 'f');
    assert("dired-do-flagged-delete"@.len() == 23 && "dired-do-flagged-delete"@[1] == 'i');
    assert("dired-unmark"@.len() == 12 && "dired-unmark"@[9] == 'a');
    assert("dired-unmark-all"@.len() == 16 && "dired-unmark-all"@[1] == 'i');
    assert("dired-do-delete"@.len() == 15 && "dired-do-delete"@[11] == 'l');
    assert("dired-do-rename"@.len() == 15 && "dired-do-rename"@[11] == 'n');
    assert("dired-do-copy"@.len() == 13 && "dired-do-copy"@[11] == 'p' && "dired-do-copy"@[0] == 'd');
    assert("dired-create-directory"@.len() == 22);
    assert("dired-diff"@.len() == 10 && "dired-diff"@[7] == 'i');
    assert("dired-compress"@.len() == 14 && "dired-compress"@[6] == 'c');
    assert("dired-revert"@.len() == 12 && "dired-revert"@[9] == 'e');
    assert("dired-toggle-hidden"@.len() == 19 && "dired-toggle-hidden"@[6] == 't');
    assert("dired-kill-all"@.len() == 14 && "dired-kill-all"@[6] == 'k');
    assert("wgrep-mode"@.len() == 10 && "wgrep-mode"@[7] == 'o');
    assert("wgrep-commit"@.len() == 12 && "wgrep-commit"@[9] == 'm');
    assert("wgrep-abort"@.len() == 11 && "wgrep-abort"@[0] == 'w' && "wgrep-abort"@[5] == '-');
}

} // verus!
