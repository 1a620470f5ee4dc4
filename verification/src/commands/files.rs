//! File and buffer lifecycle commands.

use crate::buffer::{fresh, Buffer, BufferId, BufferModel};
use crate::buffers::{
    buffer_named, buffer_removed, buffer_visiting, created, lemma_found, lemma_with_buffer, shown,
    with_buffer,
};
use crate::editor::{
    buf_index, cur_buf, cur_win, has_buffer, lemma_buf_index, lemma_cur, lemma_wf_same, said, wf, with_buf, Editor, EditorModel,
};
use crate::input::{
    ActionModel, KindModel, PostAction, PromptKind, Task, TaskModel, YesNoAction, YesNoModel,
};
use crate::layout::asked;
use crate::paths::{as_prefill, dir_of, file_name_of, path_file_name};
use crate::strings::{cat2, cat3, cat4, copy, copy_opt, opt_view, trim, trimmed};
use crate::value::{vals, SchemeVal, ValModel};
use vstd::prelude::*;

verus! {

/// What is at a path.
#[derive(Debug)]
pub enum FileAt {
    Directory,
    /// A file, with its text or why it could not be read.
    File(Result<String, String>),
    Missing,
}

/// What is at a path.
pub enum FileModel {
    Directory,
    Text(Seq<char>),
    Unreadable(Seq<char>),
    Missing,
}

impl View for FileAt {
    type V = FileModel;

    open spec fn view(&self) -> FileModel {
        match self {
            FileAt::Directory => FileModel::Directory,
            FileAt::File(Ok(t)) => FileModel::Text(t@),
            FileAt::File(Err(m)) => FileModel::Unreadable(m@),
            FileAt::Missing => FileModel::Missing,
        }
    }
}

/// C-x C-f: prompt for a file.
pub fn find_file(ed: &mut Editor, _n: Option<u32>)
    requires
        wf(old(ed)@),
    ensures
        final(ed)@ == asked(
            old(ed)@,
            KindModel::FindFile,
            "Find file: "@,
            as_prefill(dir_of(old(ed)@)),
        ),
        wf(final(ed)@),
{
    let prefill = ed.prefill();
    ed.prompt_prefilled(PromptKind::FindFile, "Find file: ", prefill);
}

/// The name of the buffer that visits a path: its file name, or the path where
/// it has none.
pub open spec fn visit_name(path: Seq<char>) -> Seq<char> {
    match file_name_of(path) {
        Some(n) => n,
        None => path,
    }
}

/// The name of the buffer that visits a path.
pub fn name_for_path(path: &str) -> (r: String)
    ensures
        r@ == visit_name(path@),
{
    match path_file_name(path) {
        Some(n) => n,
        None => copy(path),
    }
}

/// A buffer that visits a file.
pub open spec fn visiting(id: usize, path: Seq<char>, text: Seq<char>) -> BufferModel {
    BufferModel { path: Some(path), ..fresh(id, visit_name(path), text) }
}

impl Buffer {
    /// A buffer that visits `path`, whose text was read; a new file has none.
    pub fn from_file(id: BufferId, path: &str, text: &str) -> (b: Self)
        ensures
            b@ == visiting(id, path@, text@),
    {
        let name = name_for_path(path);
        let mut b = Buffer::new(id, name.as_str(), text);
        b.path = Some(copy(path));
        b
    }
}

/// The editor after a path is visited: a directory goes to its opener, a file
/// that is visited already is shown, any other file is read into a buffer.
pub open spec fn visited(e: EditorModel, path: Seq<char>, at: FileModel) -> EditorModel {
    match at {
        FileModel::Directory => match e.directory_opener {
            Some(f) => EditorModel {
                deferred: e.deferred.push(ActionModel::RunScheme(f, seq![ValModel::Str(path)])),
                ..e
            },
            None => said(e, "No directory opener registered (dired.scm not loaded?)"@),
        },
        _ => match buffer_visiting(e.buffers, path) {
            Some(id) => EditorModel { file_visited: true, ..shown(e, id) },
            None => match at {
                FileModel::Text(text) => EditorModel {
                    file_visited: true,
                    ..shown(
                        with_buffer(e, visiting(e.next_buffer_id, path, text)),
                        e.next_buffer_id,
                    )
                },
                FileModel::Unreadable(msg) => said(
                    EditorModel { next_buffer_id: (e.next_buffer_id + 1) as usize, ..e },
                    "reading "@ + path + ": "@ + msg,
                ),
                _ => said(
                    EditorModel {
                        file_visited: true,
                        ..shown(
                            with_buffer(e, visiting(e.next_buffer_id, path, ""@)),
                            e.next_buffer_id,
                        )
                    },
                    "(New file)"@,
                ),
            },
        },
    }
}

proof fn lemma_wf_more_ids(e: EditorModel)
    requires
        wf(e),
        e.next_buffer_id < usize::MAX,
    ensures
        wf(EditorModel { next_buffer_id: (e.next_buffer_id + 1) as usize, ..e }),
{
    reveal(wf);
}

impl Editor {
    /// Add a buffer that visits a file whose text was read, and show it.
    pub fn add_buffer(&mut self, path: &str, text: &str) -> (id: BufferId)
        requires
            wf(old(self)@),
            old(self)@.next_buffer_id < usize::MAX,
        ensures
            id == old(self)@.next_buffer_id,
            final(self)@ == with_buffer(old(self)@, visiting(id, path@, text@)),
            wf(final(self)@),
            has_buffer(final(self)@.buffers, id),
    {
        let id: BufferId = self.next_buffer_id;
        self.next_buffer_id = id + 1;
        self.buffers.push(Buffer::from_file(id, path, text));
        self.recency.push(id);
        proof {
            assert(self@ =~= with_buffer(old(self)@, visiting(id, path@, text@)));
            lemma_with_buffer(old(self)@, visiting(id, path@, text@));
        }
        id
    }
}

fn note_visit(ed: &mut Editor)
    requires
        wf(old(ed)@),
    ensures
        final(ed)@ == (EditorModel { file_visited: true, ..old(ed)@ }),
        wf(final(ed)@),
{
    ed.file_visited = true;
    proof {
        lemma_wf_same(old(ed)@, ed@);
    }
}

/// Visit `path`, at which `at` was found. Directories hand off to whatever
/// mode registered itself as the directory opener; that call is queued.
pub fn find_file_path(ed: &mut Editor, path: &str, at: FileAt)
    requires
        wf(old(ed)@),
        old(ed)@.next_buffer_id < usize::MAX,
    ensures
        final(ed)@ == visited(old(ed)@, path@, at@),
        wf(final(ed)@),
{
    let ghost e = ed@;
    if let FileAt::Directory = at {
        match &ed.directory_opener {
            Some(f) => {
                let g = f.copy();
                let mut args: Vec<SchemeVal> = Vec::new();
                args.push(SchemeVal::Str(copy(path)));
                assert(vals(args@) =~= seq![ValModel::Str(path@)]);
                ed.deferred.push(PostAction::RunScheme(g, args));
                proof {
                    assert(ed@ =~= visited(e, path@, at@));
                    lemma_wf_same(e, ed@);
                }
            },
            None => ed.message("No directory opener registered (dired.scm not loaded?)"),
        }
        return ;
    }
    proof {
        lemma_found(e.buffers, path@);
    }
    if let Some(id) = ed.buffer_by_path(path) {
        ed.show_buffer(id);
        note_visit(ed);
        return ;
    }
    match at {
        FileAt::File(Ok(text)) => {
            let id: BufferId = ed.add_buffer(path, text.as_str());
            ed.show_buffer(id);
            note_visit(ed);
        },
        FileAt::File(Err(msg)) => {
            ed.next_buffer_id = ed.next_buffer_id + 1;
            proof {
                lemma_wf_more_ids(e);
            }
            ed.message(cat4("reading ", path, ": ", msg.as_str()).as_str());
        },
        _ => {
            let id: BufferId = ed.add_buffer(path, "");
            ed.show_buffer(id);
            note_visit(ed);
            ed.message("(New file)");
        },
    }
}

// ---- saving ----------------------------------------------------------------

/// The editor after save-buffer, and what is left to do: prompt for a name,
/// say that there is nothing to save, or write the file.
pub open spec fn save_begun(e: EditorModel) -> (EditorModel, ActionModel) {
    let b = cur_buf(e);
    match b.path {
        Some(path) => if b.modified {
            (e, ActionModel::Outside(TaskModel::Save { path, text: b.text }))
        } else {
            (said(e, "(No changes need to be saved)"@), ActionModel::Nothing)
        },
        None => (
            asked(e, KindModel::SaveFileAs, "File to save in: "@, as_prefill(dir_of(e))),
            ActionModel::Nothing,
        ),
    }
}

/// Save the current buffer to its file (prompts for a name if it has none).
/// The file is written by the caller, who then calls `save_done`.
pub fn save_buffer(ed: &mut Editor, _n: Option<u32>) -> (r: PostAction)
    requires
        wf(old(ed)@),
    ensures
        (final(ed)@, r@) == save_begun(old(ed)@),
        wf(final(ed)@),
{
    let path = copy_opt(&ed.cur_buffer().path);
    let modified = ed.cur_buffer().modified;
    match path {
        Some(path) => {
            if !modified {
                ed.message("(No changes need to be saved)");
                return PostAction::Nothing;
            }
            let text = ed.cur_buffer().to_string_lossless();
            PostAction::Outside(Task::Save { path, text })
        },
        None => {
            let prefill = ed.prefill();
            ed.prompt_prefilled(PromptKind::SaveFileAs, "File to save in: ", prefill);
            PostAction::Nothing
        },
    }
}

/// The editor after the current buffer was written, or could not be.
pub open spec fn save_ended(e: EditorModel, error: Option<Seq<char>>) -> EditorModel {
    let b = cur_buf(e);
    let path = match b.path {
        Some(p) => p,
        None => Seq::empty(),
    };
    match error {
        Some(msg) => said(e, "writing "@ + path + ": "@ + msg),
        None => said(with_buf(e, BufferModel { modified: false, ..b }), "Wrote "@ + path),
    }
}

/// The current buffer was written to its file, or could not be.
pub fn save_done(ed: &mut Editor, error: Option<String>)
    requires
        wf(old(ed)@),
    ensures
        final(ed)@ == save_ended(old(ed)@, opt_view(error)),
        wf(final(ed)@),
{
    let path = match &ed.cur_buffer().path {
        Some(p) => copy(p.as_str()),
        None => String::new(),
    };
    assert(cur_buf(ed@).path is None ==> path@ =~= Seq::<char>::empty());
    match error {
        Some(msg) => {
            ed.message(cat4("writing ", path.as_str(), ": ", msg.as_str()).as_str());
        },
        None => {
            let buf = ed.cur_buffer_mut();
            buf.modified = false;
            ed.message(cat2("Wrote ", path.as_str()).as_str());
        },
    }
}

// ---- switching and killing -------------------------------------------------

/// The first number of a list, from index `i` on, that is not `x`.
pub open spec fn first_other(s: Seq<usize>, x: usize, i: int) -> Option<usize>
    decreases s.len() - i,
{
    if 0 <= i < s.len() {
        if s[i] != x {
            Some(s[i])
        } else {
            first_other(s, x, i + 1)
        }
    } else {
        None
    }
}

/// The most recent buffer other than the current one.
pub open spec fn recent_other(e: EditorModel) -> Option<usize> {
    first_other(e.recency, cur_win(e).buffer, 0)
}

/// The prompt of switch-to-buffer.
pub open spec fn switch_prompt(e: EditorModel) -> Seq<char> {
    match recent_other(e) {
        Some(id) => "Switch to buffer (default "@ + e.buffers[buf_index(e.buffers, id)].name
            + "): "@,
        None => "Switch to buffer: "@,
    }
}

/// The default of switch-to-buffer is never the current buffer; there is none
/// only where no other buffer is known.
pub proof fn law_default_is_other(e: EditorModel)
    ensures
        match recent_other(e) {
            Some(id) => id != cur_win(e).buffer && e.recency.contains(id),
            None => forall|i: int|
                0 <= i < e.recency.len() ==> #[trigger] e.recency[i] == cur_win(e).buffer,
        },
{
    lemma_first_other(e.recency, cur_win(e).buffer, 0);
}

proof fn lemma_first_other(s: Seq<usize>, x: usize, i: int)
    requires
        0 <= i <= s.len(),
    ensures
        match first_other(s, x, i) {
            Some(y) => y != x && s.contains(y),
            None => forall|k: int| i <= k < s.len() ==> #[trigger] s[k] == x,
        },
    decreases s.len() - i,
{
    if i < s.len() && s[i] == x {
        lemma_first_other(s, x, i + 1);
    }
}

fn find_recent_other(ed: &Editor) -> (r: Option<BufferId>)
    requires
        wf(ed@),
    ensures
        r == recent_other(ed@),
        r matches Some(id) ==> has_buffer(ed@.buffers, id),
{
    proof {
        lemma_cur(ed@);
        reveal(wf);
    }
    let current: BufferId = ed.windows.selected_ref().buffer;
    let mut i: usize = 0;
    while i < ed.recency.len()
        invariant
            i <= ed.recency@.len(),
            current == cur_win(ed@).buffer,
            recent_other(ed@) == first_other(ed.recency@, current, i as int),
            forall|id: usize| #[trigger] ed.recency@.contains(id) <==> has_buffer(ed@.buffers, id),
        decreases ed.recency@.len() - i,
    {
        let id: BufferId = ed.recency[i];
        if id != current {
            assert(ed.recency@.contains(id));
            return Some(id);
        }
        i = i + 1;
    }
    None
}

/// C-x b: prompt for a buffer.
pub fn switch_to_buffer(ed: &mut Editor, _n: Option<u32>)
    requires
        wf(old(ed)@),
    ensures
        final(ed)@ == asked(
            old(ed)@,
            KindModel::SwitchBuffer,
            switch_prompt(old(ed)@),
            Seq::empty(),
        ),
        wf(final(ed)@),
{
    let mut prompt = copy("Switch to buffer: ");
    if let Some(id) = find_recent_other(ed) {
        proof {
            lemma_buf_index(ed@.buffers, id);
        }
        if let Some(i) = ed.buffer_index(id) {
            prompt = cat3("Switch to buffer (default ", ed.buffers[i].name.as_str(), "): ");
        }
    }
    ed.prompt(PromptKind::SwitchBuffer, prompt.as_str());
}

/// The editor after a buffer name is entered: no name takes the most recent
/// other buffer, an unknown name makes a fresh buffer.
pub open spec fn switched(e: EditorModel, input: Seq<char>) -> EditorModel {
    let name = trimmed(input);
    if name.len() == 0 {
        match recent_other(e) {
            Some(id) => shown(e, id),
            None => said(e, "No other buffer"@),
        }
    } else {
        match buffer_named(e.buffers, name) {
            Some(id) => shown(e, id),
            None => shown(created(e, name, ""@), e.next_buffer_id),
        }
    }
}

/// Prompt completion for C-x b: empty input takes the default (most recent
/// other buffer); unknown names create a fresh buffer, like Emacs.
pub fn switch_to_buffer_name(ed: &mut Editor, input: &str)
    requires
        wf(old(ed)@),
        old(ed)@.next_buffer_id < usize::MAX,
    ensures
        final(ed)@ == switched(old(ed)@, input@),
        wf(final(ed)@),
{
    let name = trim(input);
    if name.as_str().is_empty() {
        match find_recent_other(ed) {
            Some(id) => ed.show_buffer(id),
            None => ed.message("No other buffer"),
        }
        return ;
    }
    proof {
        lemma_found(ed@.buffers, name@);
    }
    match ed.buffer_by_name(name.as_str()) {
        Some(id) => ed.show_buffer(id),
        None => {
            proof {
                lemma_with_buffer(ed@, fresh(ed@.next_buffer_id, name@, ""@));
            }
            let id: BufferId = ed.create_buffer(name.as_str(), "");
            ed.show_buffer(id);
        },
    }
}

/// The editor after kill-buffer: a file with changes is asked about first.
pub open spec fn kill_begun(e: EditorModel) -> EditorModel {
    let b = cur_buf(e);
    if b.modified && b.path is Some {
        asked(
            e,
            KindModel::YesNo(YesNoModel::KillModifiedBuffer(b.id)),
            "Buffer "@ + b.name + " modified; kill anyway? (y or n) "@,
            Seq::empty(),
        )
    } else {
        buffer_removed(e, b.id)
    }
}

/// Kill the current buffer.
pub fn kill_buffer(ed: &mut Editor, _n: Option<u32>)
    requires
        wf(old(ed)@),
        old(ed)@.next_buffer_id < usize::MAX,
    ensures
        final(ed)@ == kill_begun(old(ed)@),
        wf(final(ed)@),
{
    let buf = ed.cur_buffer();
    let id: BufferId = buf.id;
    if buf.modified && buf.path.is_some() {
        let prompt = cat3("Buffer ", buf.name.as_str(), " modified; kill anyway? (y or n) ");
        ed.prompt(PromptKind::YesNo(YesNoAction::KillModifiedBuffer(id)), prompt.as_str());
        return ;
    }
    ed.remove_buffer(id);
}

/// Whether some buffer that visits a file has changes.
pub open spec fn any_unsaved(bs: Seq<BufferModel>) -> bool {
    exists|i: int| 0 <= i < bs.len() && (#[trigger] bs[i]).modified && bs[i].path is Some
}

/// The editor after save-buffers-kill-terminal: unsaved files are asked about
/// first.
pub open spec fn exit_begun(e: EditorModel) -> EditorModel {
    if any_unsaved(e.buffers) {
        asked(
            e,
            KindModel::YesNo(YesNoModel::QuitModified),
            "Modified buffers exist; exit anyway? (y or n) "@,
            Seq::empty(),
        )
    } else {
        EditorModel { quit: true, ..e }
    }
}

/// Quit the editor, confirming if modified buffers exist.
pub fn save_buffers_kill_terminal(ed: &mut Editor, _n: Option<u32>)
    requires
        wf(old(ed)@),
    ensures
        final(ed)@ == exit_begun(old(ed)@),
        wf(final(ed)@),
{
    let mut dirty = false;
    let mut i: usize = 0;
    while i < ed.buffers.len()
        invariant
            i <= ed.buffers@.len(),
            ed@ == old(ed)@,
            ed == old(ed),
            dirty == exists|k: int|
                0 <= k < i && (#[trigger] ed@.buffers[k]).modified && ed@.buffers[k].path is Some,
        decreases ed.buffers@.len() - i,
    {
        assert(ed@.buffers[i as int] == ed.buffers@[i as int]@);
        if ed.buffers[i].modified && ed.buffers[i].path.is_some() {
            dirty = true;
        }
        i = i + 1;
    }
    if dirty {
        ed.prompt(
            PromptKind::YesNo(YesNoAction::QuitModified),
            "Modified buffers exist; exit anyway? (y or n) ",
        );
        return ;
    }
    ed.quit = true;
    proof {
        lemma_wf_same(old(ed)@, ed@);
    }
}

} // verus!
