//! Input modes (prompts, searches, key descriptions) and what is left for the
//! caller to do after a key.

use crate::buffer::BufferId;
use crate::keys::Chord;
use crate::strings::{copy, copy_all, opt_view, views};
use crate::value::{opt_val, vals, SchemeVal, ValModel};
use vstd::prelude::*;

verus! {

// ---- work for the caller ---------------------------------------------------

/// Work on files, directories and programs. The caller does it and hands the
/// outcome to the function named with each task.
#[derive(Debug)]
pub enum Task {
    /// Read what is at a path, then `commands::files::find_file_path`.
    Visit(String),
    /// Write a text to a file, then `commands::files::save_done`.
    Save { path: String, text: String },
    /// List a directory, then `dired::ops::open_dired`.
    OpenDired { dir: String, goto: Option<String> },
    /// Look which of these directories hold `.git`, then
    /// `dired::ops::project_root_found`.
    FindProject(Vec<String>),
    /// List the current dired directory again, then `dired::ops::refresh`; the
    /// message is shown after that.
    Refresh(Option<String>),
    /// Delete these paths, then `dired::files::delete_done`.
    Delete(Vec<String>),
    /// Rename a path, then `dired::files::rename_done`.
    Rename { from: String, to: String },
    /// Copy a path, then `dired::files::copy_done`.
    Copy { from: String, to: String },
    /// Make a directory, then `dired::files::mkdir_done`.
    MakeDir(String),
    /// Read the two files, then `dired::files::diff_read`.
    Diff { from: String, other: String },
    /// Compress a path, then `dired::files::compress_done`.
    Compress { path: String, is_dir: bool },
    /// Run a shell command, then `dired::files::shell_done`.
    Shell(String),
    /// Rename each pair, then `dired::wgrep::wgrep_commit_done`.
    RenameAll(Vec<(String, String)>),
}

/// What a task is.
pub enum TaskModel {
    Visit(Seq<char>),
    Save { path: Seq<char>, text: Seq<char> },
    OpenDired { dir: Seq<char>, goto: Option<Seq<char>> },
    FindProject(Seq<Seq<char>>),
    Refresh(Option<Seq<char>>),
    Delete(Seq<Seq<char>>),
    Rename { from: Seq<char>, to: Seq<char> },
    Copy { from: Seq<char>, to: Seq<char> },
    MakeDir(Seq<char>),
    Diff { from: Seq<char>, other: Seq<char> },
    Compress { path: Seq<char>, is_dir: bool },
    Shell(Seq<char>),
    RenameAll(Seq<(Seq<char>, Seq<char>)>),
}

/// Pairs of strings.
pub open spec fn string_pairs(s: Seq<(String, String)>) -> Seq<(Seq<char>, Seq<char>)> {
    Seq::new(s.len(), |i: int| (s[i].0@, s[i].1@))
}

impl View for Task {
    type V = TaskModel;

    open spec fn view(&self) -> TaskModel {
        match self {
            Task::Visit(p) => TaskModel::Visit(p@),
            Task::Save { path, text } => TaskModel::Save { path: path@, text: text@ },
            Task::OpenDired { dir, goto } => TaskModel::OpenDired {
                dir: dir@,
                goto: opt_view(*goto),
            },
            Task::FindProject(ds) => TaskModel::FindProject(views(ds@)),
            Task::Refresh(m) => TaskModel::Refresh(opt_view(*m)),
            Task::Delete(ps) => TaskModel::Delete(views(ps@)),
            Task::Rename { from, to } => TaskModel::Rename { from: from@, to: to@ },
            Task::Copy { from, to } => TaskModel::Copy { from: from@, to: to@ },
            Task::MakeDir(d) => TaskModel::MakeDir(d@),
            Task::Diff { from, other } => TaskModel::Diff { from: from@, other: other@ },
            Task::Compress { path, is_dir } => TaskModel::Compress { path: path@, is_dir: *is_dir },
            Task::Shell(c) => TaskModel::Shell(c@),
            Task::RenameAll(ps) => TaskModel::RenameAll(string_pairs(ps@)),
        }
    }
}

/// What the key loop must do after dispatch returned: closures of the
/// extension language, and work outside the editor, are run by the caller.
#[derive(Debug)]
pub enum PostAction {
    Nothing,
    RunScheme(SchemeVal, Vec<SchemeVal>),
    Outside(Task),
}

/// What is to be done.
pub enum ActionModel {
    Nothing,
    RunScheme(ValModel, Seq<ValModel>),
    Outside(TaskModel),
}

impl View for PostAction {
    type V = ActionModel;

    open spec fn view(&self) -> ActionModel {
        match self {
            PostAction::Nothing => ActionModel::Nothing,
            PostAction::RunScheme(f, args) => ActionModel::RunScheme(f@, vals(args@)),
            PostAction::Outside(t) => ActionModel::Outside(t@),
        }
    }
}

// ---- prompts ---------------------------------------------------------------

/// What a yes/no prompt does on yes.
#[derive(Debug)]
pub enum YesNoAction {
    QuitModified,
    KillModifiedBuffer(BufferId),
    DiredDelete(Vec<String>),
    /// Call a closure of the extension language without arguments.
    Generic(SchemeVal),
}

/// What a yes/no prompt does on yes.
pub enum YesNoModel {
    QuitModified,
    KillModifiedBuffer(usize),
    DiredDelete(Seq<Seq<char>>),
    Generic(ValModel),
}

impl View for YesNoAction {
    type V = YesNoModel;

    open spec fn view(&self) -> YesNoModel {
        match self {
            YesNoAction::QuitModified => YesNoModel::QuitModified,
            YesNoAction::KillModifiedBuffer(id) => YesNoModel::KillModifiedBuffer(*id),
            YesNoAction::DiredDelete(ps) => YesNoModel::DiredDelete(views(ps@)),
            YesNoAction::Generic(f) => YesNoModel::Generic(f@),
        }
    }
}

impl YesNoAction {
    /// A copy of the action.
    pub fn copy(&self) -> (r: Self)
        ensures
            r@ == self@,
    {
        match self {
            YesNoAction::QuitModified => YesNoAction::QuitModified,
            YesNoAction::KillModifiedBuffer(id) => YesNoAction::KillModifiedBuffer(*id),
            YesNoAction::DiredDelete(ps) => YesNoAction::DiredDelete(copy_all(ps)),
            YesNoAction::Generic(f) => YesNoAction::Generic(f.copy()),
        }
    }
}

/// What a prompt is for.
#[derive(Debug)]
pub enum PromptKind {
    FindFile,
    SaveFileAs,
    SwitchBuffer,
    /// M-x: run any command in the registry by name.
    ExecuteCommand,
    GotoLine,
    QueryReplaceFrom,
    QueryReplaceTo { from: String },
    RectInsert,
    DescribeFunction,
    DiredOpenDir,
    DiredMarkRegex,
    DiredRename { from: String },
    DiredCopy { from: String },
    DiredMkdir,
    DiredDiff { from: String },
    DiredShell,
    YesNo(YesNoAction),
    /// Call a closure of the extension language with the entered string.
    /// `completion` is "file", "buffer", "command" or none.
    Generic { on_submit: SchemeVal, completion: Option<String> },
}

/// What a prompt is for.
pub enum KindModel {
    FindFile,
    SaveFileAs,
    SwitchBuffer,
    ExecuteCommand,
    GotoLine,
    QueryReplaceFrom,
    QueryReplaceTo { from: Seq<char> },
    RectInsert,
    DescribeFunction,
    DiredOpenDir,
    DiredMarkRegex,
    DiredRename { from: Seq<char> },
    DiredCopy { from: Seq<char> },
    DiredMkdir,
    DiredDiff { from: Seq<char> },
    DiredShell,
    YesNo(YesNoModel),
    Generic { on_submit: ValModel, completion: Option<Seq<char>> },
}

impl View for PromptKind {
    type V = KindModel;

    open spec fn view(&self) -> KindModel {
        match self {
            PromptKind::FindFile => KindModel::FindFile,
            PromptKind::SaveFileAs => KindModel::SaveFileAs,
            PromptKind::SwitchBuffer => KindModel::SwitchBuffer,
            PromptKind::ExecuteCommand => KindModel::ExecuteCommand,
            PromptKind::GotoLine => KindModel::GotoLine,
            PromptKind::QueryReplaceFrom => KindModel::QueryReplaceFrom,
            PromptKind::QueryReplaceTo { from } => KindModel::QueryReplaceTo { from: from@ },
            PromptKind::RectInsert => KindModel::RectInsert,
            PromptKind::DescribeFunction => KindModel::DescribeFunction,
            PromptKind::DiredOpenDir => KindModel::DiredOpenDir,
            PromptKind::DiredMarkRegex => KindModel::DiredMarkRegex,
            PromptKind::DiredRename { from } => KindModel::DiredRename { from: from@ },
            PromptKind::DiredCopy { from } => KindModel::DiredCopy { from: from@ },
            PromptKind::DiredMkdir => KindModel::DiredMkdir,
            PromptKind::DiredDiff { from } => KindModel::DiredDiff { from: from@ },
            PromptKind::DiredShell => KindModel::DiredShell,
            PromptKind::YesNo(a) => KindModel::YesNo(a@),
            PromptKind::Generic { on_submit, completion } => KindModel::Generic {
                on_submit: on_submit@,
                completion: opt_view(*completion),
            },
        }
    }
}

#[derive(Debug)]
pub struct Prompt {
    pub kind: PromptKind,
    pub prompt: String,
    pub input: String,
    /// Editing position within `input`, in chars.
    pub cursor: usize,
    /// Candidate list shown vertically above the echo line. Empty = no list.
    pub completions: Vec<String>,
    pub selected: usize,
}

/// What a prompt holds.
#[verifier::ext_equal]
pub struct PromptModel {
    pub kind: KindModel,
    pub prompt: Seq<char>,
    pub input: Seq<char>,
    pub cursor: int,
    pub completions: Seq<Seq<char>>,
    pub selected: int,
}

impl View for Prompt {
    type V = PromptModel;

    open spec fn view(&self) -> PromptModel {
        PromptModel {
            kind: self.kind@,
            prompt: self.prompt@,
            input: self.input@,
            cursor: self.cursor as int,
            completions: views(self.completions@),
            selected: self.selected as int,
        }
    }
}

// ---- searches --------------------------------------------------------------

#[derive(Debug)]
pub struct IsearchState {
    pub query: String,
    pub forward: bool,
    /// Point when the search began (C-g returns here).
    pub origin: usize,
    pub current: Option<(usize, usize)>,
    pub wrapped: bool,
    pub failed: bool,
}

/// What an incremental search holds.
#[verifier::ext_equal]
pub struct IsearchModel {
    pub query: Seq<char>,
    pub forward: bool,
    pub origin: usize,
    pub current: Option<(usize, usize)>,
    pub wrapped: bool,
    pub failed: bool,
}

impl View for IsearchState {
    type V = IsearchModel;

    open spec fn view(&self) -> IsearchModel {
        IsearchModel {
            query: self.query@,
            forward: self.forward,
            origin: self.origin,
            current: self.current,
            wrapped: self.wrapped,
            failed: self.failed,
        }
    }
}

#[derive(Debug)]
pub struct QueryReplaceState {
    pub regex: String,
    pub replacement: String,
    pub current: Option<(usize, usize)>,
    pub count: usize,
}

/// What a query-replace holds.
#[verifier::ext_equal]
pub struct ReplaceModel {
    pub regex: Seq<char>,
    pub replacement: Seq<char>,
    pub current: Option<(usize, usize)>,
    pub count: int,
}

impl View for QueryReplaceState {
    type V = ReplaceModel;

    open spec fn view(&self) -> ReplaceModel {
        ReplaceModel {
            regex: self.regex@,
            replacement: self.replacement@,
            current: self.current,
            count: self.count as int,
        }
    }
}

// ---- input modes -----------------------------------------------------------

#[derive(Debug)]
pub enum InputMode {
    Normal,
    Prompt(Prompt),
    ISearch(IsearchState),
    QueryReplace(QueryReplaceState),
    /// Collecting a key sequence (C-h c/k). `prompt` is echoed while
    /// collecting. With `on_done`, that closure gets the formatted sequence
    /// and the resolved command name ("" if undefined); without, the native
    /// brief echo answers.
    DescribeKey { seq: Vec<Chord>, prompt: String, on_done: Option<SchemeVal> },
}

/// What an input mode holds.
pub enum InputModel {
    Normal,
    Prompt(PromptModel),
    ISearch(IsearchModel),
    QueryReplace(ReplaceModel),
    DescribeKey { seq: Seq<Chord>, prompt: Seq<char>, on_done: Option<ValModel> },
}

impl View for InputMode {
    type V = InputModel;

    open spec fn view(&self) -> InputModel {
        match self {
            InputMode::Normal => InputModel::Normal,
            InputMode::Prompt(p) => InputModel::Prompt(p@),
            InputMode::ISearch(s) => InputModel::ISearch(s@),
            InputMode::QueryReplace(s) => InputModel::QueryReplace(s@),
            InputMode::DescribeKey { seq, prompt, on_done } => InputModel::DescribeKey {
                seq: seq@,
                prompt: prompt@,
                on_done: opt_val(*on_done),
            },
        }
    }
}

/// C-u state machine.
#[derive(Debug, Clone, Copy, PartialEq, Eq, Structural)]
pub enum PrefixArg {
    Unset,
    /// C-u pressed, no digits yet (bare C-u = 4, per Emacs).
    Universal,
    Num(u32),
}

/// The number that a prefix argument stands for.
pub open spec fn prefix_value(p: PrefixArg) -> Option<u32> {
    match p {
        PrefixArg::Unset => None,
        PrefixArg::Universal => Some(4),
        PrefixArg::Num(n) => Some(n),
    }
}

} // verus!
