//! Dired commands. Work on files is left to the caller, who hands the outcome
//! back to the functions named `.._done`, `refresh` and `open_dired`.

use crate::buffer::{fresh, Buffer, BufferId, BufferModel, Mode, ModeModel};
use crate::buffers::{lemma_with_buffer, shown, with_buffer};
use crate::commands::movement::{line_down, next_line};
use crate::commands::windows::{lemma_window_next, lemma_window_split, window_next, window_split};
use crate::dired::listing::{listing_of, listing_text, name_column, widths};
use crate::dired::state::{DiredModel, DiredState, Entry, EntryModel};
use crate::editor::{
    buf_ids, clamped, cur_buf, cur_point, edit_cur, lemma_cur, moved, said, wf, with_buf, Editor,
    EditorModel,
};
use crate::input::{ActionModel, KindModel, PostAction, PromptKind, Task, TaskModel};
use crate::layout::asked;
use crate::lines::{clip, line_begin, line_count, line_of, min};
use crate::paths::{as_prefill, dir_of, file_name_of, parent_of, path_file_name, path_parent};
use crate::seqs::models;
use crate::strings::{copy, opt_view, same, views};
use crate::window::{ids, SplitDir};
use ropey::Rope;
use vstd::prelude::*;

verus! {

// ---- the current listing ---------------------------------------------------

/// What the current buffer lists, if it is a dired buffer.
pub open spec fn listing_at(e: EditorModel) -> Option<DiredModel> {
    match cur_buf(e).mode {
        ModeModel::Dired(d) => Some(d),
        ModeModel::Fundamental => None,
    }
}

/// The number of the entry under point, if point is on an entry line.
pub open spec fn entry_number(e: EditorModel) -> Option<int> {
    let line = line_of(cur_buf(e).text, cur_point(e));
    match listing_at(e) {
        Some(d) => if 1 <= line <= d.entries.len() {
            Some(line - 1)
        } else {
            None
        },
        None => None,
    }
}

/// The entry under point.
pub open spec fn entry_here(e: EditorModel) -> Option<EntryModel> {
    match entry_number(e) {
        Some(i) => Some(listing_at(e)->0.entries[i]),
        None => None,
    }
}

/// The current buffer listing something else.
pub open spec fn listing_as(b: BufferModel, d: DiredModel) -> BufferModel {
    BufferModel { mode: ModeModel::Dired(d), ..b }
}

/// The editor with the text of the current dired buffer made anew from its
/// entries, point at the start of its line.
pub open spec fn relisted(e: EditorModel) -> EditorModel {
    let b = cur_buf(e);
    match listing_at(e) {
        Some(d) => {
            let text = listing_of(d.dir, d.entries);
            let line = line_of(b.text, cur_point(e));
            edit_cur(
                e,
                line_begin(text, min(line, line_count(text) - 1)),
                BufferModel {
                    text,
                    modified: false,
                    read_only: true,
                    mode: ModeModel::Dired(
                        DiredModel { name_col: name_column(widths(d.entries)), ..d },
                    ),
                    ..b
                },
            )
        },
        None => clamped(e),
    }
}

/// The mark of the first entry with this name, from index `i` on.
pub open spec fn old_mark(s: Seq<EntryModel>, name: Seq<char>, i: int) -> Option<char>
    decreases s.len() - i,
{
    if 0 <= i < s.len() {
        if s[i].name == name {
            Some(s[i].mark)
        } else {
            old_mark(s, name, i + 1)
        }
    } else {
        None
    }
}

/// An entry with the mark that an entry of the same name had before.
pub open spec fn with_old_mark(x: EntryModel, before: Seq<EntryModel>) -> EntryModel {
    match old_mark(before, x.name, 0) {
        Some(m) => EntryModel { mark: m, ..x },
        None => x,
    }
}

/// The entries with the marks that entries of the same name had before.
pub open spec fn with_old_marks(fresh: Seq<EntryModel>, before: Seq<EntryModel>) -> Seq<EntryModel> {
    Seq::new(fresh.len(), |i: int| with_old_mark(fresh[i], before))
}

/// The outcome of listing a directory.
pub open spec fn listing_model(l: Result<Vec<Entry>, String>) -> Result<
    Seq<EntryModel>,
    Seq<char>,
> {
    match l {
        Ok(v) => Ok(models(v@)),
        Err(m) => Err(m@),
    }
}

/// The editor with the current directory listed again, marks kept by name.
pub open spec fn refreshed(e: EditorModel, l: Result<Seq<EntryModel>, Seq<char>>) -> EditorModel {
    match listing_at(e) {
        Some(d) => match l {
            Ok(entries) => relisted(
                with_buf(
                    e,
                    listing_as(
                        cur_buf(e),
                        DiredModel { entries: with_old_marks(entries, d.entries), ..d },
                    ),
                ),
            ),
            Err(msg) => said(e, msg),
        },
        None => e,
    }
}

fn entry_index(ed: &Editor) -> (r: Option<usize>)
    requires
        wf(ed@),
    ensures
        match r {
            Some(i) => entry_number(ed@) == Some(i as int) && listing_at(ed@) is Some && i
                < listing_at(ed@)->0.entries.len(),
            None => entry_number(ed@) is None,
        },
{
    proof {
        lemma_cur(ed@);
    }
    let point: usize = ed.windows.selected_ref().point;
    let buf = ed.cur_buffer();
    match &buf.mode {
        Mode::Dired(d) => {
            let line: usize = buf.char_to_line(point);
            if line >= 1 && line <= d.entries.len() {
                Some(line - 1)
            } else {
                None
            }
        },
        Mode::Fundamental => None,
    }
}

pub(crate) fn entry_at_point(ed: &Editor) -> (r: Option<Entry>)
    requires
        wf(ed@),
    ensures
        match r {
            Some(e) => entry_here(ed@) == Some(e@),
            None => entry_here(ed@) is None,
        },
{
    match entry_index(ed) {
        Some(i) => match &ed.cur_buffer().mode {
            Mode::Dired(d) => Some(d.entries[i].copy()),
            Mode::Fundamental => None,
        },
        None => None,
    }
}

fn in_dired(ed: &Editor) -> (b: bool)
    requires
        wf(ed@),
    ensures
        b == (listing_at(ed@) is Some),
{
    match &ed.cur_buffer().mode {
        Mode::Dired(_) => true,
        Mode::Fundamental => false,
    }
}

pub(crate) fn regenerate(ed: &mut Editor)
    requires
        wf(old(ed)@),
    ensures
        final(ed)@ == relisted(old(ed)@),
        wf(final(ed)@),
{
    let ghost e = ed@;
    let (win, buf) = ed.cur();
    let ghost b0 = buf@;
    let line: usize = buf.char_to_line(win.point);
    match &mut buf.mode {
        Mode::Dired(d) => {
            let (text, name_col) = listing_text(d.dir.as_str(), &d.entries);
            d.name_col = name_col;
            buf.rope = Rope::from_str(text.as_str());
            buf.modified = false;
            buf.read_only = true;
            win.point = buf.line_to_char(line);
        },
        Mode::Fundamental => {},
    }
}

fn mark_of(s: &Vec<Entry>, name: &str) -> (r: Option<char>)
    ensures
        r == old_mark(models(s@), name@, 0),
{
    let ghost all = models(s@);
    let mut i: usize = 0;
    while i < s.len()
        invariant
            i <= s@.len(),
            all == models(s@),
            old_mark(all, name@, 0) == old_mark(all, name@, i as int),
        decreases s@.len() - i,
    {
        if same(s[i].name.as_str(), name) {
            return Some(s[i].mark);
        }
        i = i + 1;
    }
    None
}

fn keep_marks(v: &mut Vec<Entry>, before: &Vec<Entry>)
    ensures
        models(final(v)@) == with_old_marks(models(old(v)@), models(before@)),
{
    let ghost now = models(v@);
    let ghost was = models(before@);
    let mut i: usize = 0;
    while i < v.len()
        invariant
            i <= v@.len(),
            v@.len() == now.len(),
            was == models(before@),
            forall|k: int| 0 <= k < i ==> (#[trigger] v@[k])@ == with_old_mark(now[k], was),
            forall|k: int| i <= k < now.len() ==> (#[trigger] v@[k])@ == now[k],
        decreases v@.len() - i,
    {
        assert(v@[i as int]@ == now[i as int]);
        if let Some(m) = mark_of(before, v[i].name.as_str()) {
            v[i].mark = m;
        }
        assert(v@[i as int]@ =~= with_old_mark(now[i as int], was));
        i = i + 1;
    }
    assert(models(v@) =~= with_old_marks(now, was));
}

/// Show the current directory again from a new listing, preserving marks by
/// file name.
pub fn refresh(ed: &mut Editor, listing: Result<Vec<Entry>, String>)
    requires
        wf(old(ed)@),
    ensures
        final(ed)@ == refreshed(old(ed)@, listing_model(listing)),
        wf(final(ed)@),
{
    let ghost e = ed@;
    if !in_dired(ed) {
        return ;
    }
    match listing {
        Ok(fresh) => {
            let ghost now = models(fresh@);
            let mut entries = fresh;
            let buf = ed.cur_buffer_mut();
            match &mut buf.mode {
                Mode::Dired(d) => {
                    keep_marks(&mut entries, &d.entries);
                    d.entries = entries;
                },
                Mode::Fundamental => {},
            }
            regenerate(ed);
        },
        Err(msg) => ed.message(msg.as_str()),
    }
}

// ---- opening ---------------------------------------------------------------

/// The index of the first dired buffer at or after `i` that lists `dir`.
pub open spec fn dired_index(bs: Seq<BufferModel>, dir: Seq<char>, i: int) -> int
    decreases bs.len() - i,
{
    if 0 <= i < bs.len() && !lists(bs[i], dir) {
        dired_index(bs, dir, i + 1)
    } else {
        i
    }
}

/// Whether a buffer lists a directory.
pub open spec fn lists(b: BufferModel, dir: Seq<char>) -> bool {
    match b.mode {
        ModeModel::Dired(d) => d.dir == dir,
        ModeModel::Fundamental => false,
    }
}

/// A fresh dired buffer.
pub open spec fn dired_buffer(id: usize, dir: Seq<char>, entries: Seq<EntryModel>) -> BufferModel {
    BufferModel {
        read_only: true,
        mode: ModeModel::Dired(
            DiredModel {
                dir,
                entries,
                show_hidden: false,
                name_col: name_column(widths(entries)),
                wgrep: None,
            },
        ),
        ..fresh(id, dir, listing_of(dir, entries))
    }
}

/// The editor with a directory shown: in the dired buffer that lists it
/// already, brought up to date, else in a fresh one.
pub open spec fn dired_opened(
    e: EditorModel,
    dir: Seq<char>,
    l: Result<Seq<EntryModel>, Seq<char>>,
) -> EditorModel {
    let i = dired_index(e.buffers, dir, 0);
    if i < e.buffers.len() {
        refreshed(shown(e, e.buffers[i].id), l)
    } else {
        match l {
            Ok(entries) => shown(
                with_buffer(e, dired_buffer(e.next_buffer_id, dir, entries)),
                e.next_buffer_id,
            ),
            Err(msg) => said(e, msg),
        }
    }
}

/// The number of the first entry of this name at or after `i`.
pub open spec fn entry_named(s: Seq<EntryModel>, name: Seq<char>, i: int) -> int
    decreases s.len() - i,
{
    if 0 <= i < s.len() && s[i].name != name {
        entry_named(s, name, i + 1)
    } else {
        i
    }
}

/// The editor with point on the name of an entry of the current listing.
pub open spec fn at_entry(e: EditorModel, name: Seq<char>) -> EditorModel {
    let t = cur_buf(e).text;
    match listing_at(e) {
        Some(d) => {
            let i = entry_named(d.entries, name, 0);
            if i < d.entries.len() {
                moved(
                    e,
                    clip(t, line_begin(t, min(i + 1, line_count(t) - 1)) + d.name_col),
                )
            } else {
                e
            }
        },
        None => e,
    }
}

/// The editor with a directory shown, point on an entry where one is named.
pub open spec fn dired_opened_at(
    e: EditorModel,
    dir: Seq<char>,
    l: Result<Seq<EntryModel>, Seq<char>>,
    goto: Option<Seq<char>>,
) -> EditorModel {
    let r = dired_opened(e, dir, l);
    match goto {
        Some(name) => at_entry(r, name),
        None => r,
    }
}

fn find_dired(ed: &Editor, dir: &str) -> (r: Option<usize>)
    ensures
        match r {
            Some(i) => i == dired_index(ed@.buffers, dir@, 0) && i < ed@.buffers.len(),
            None => dired_index(ed@.buffers, dir@, 0) >= ed@.buffers.len(),
        },
{
    let mut i: usize = 0;
    while i < ed.buffers.len()
        invariant
            i <= ed.buffers@.len(),
            dired_index(ed@.buffers, dir@, 0) == dired_index(ed@.buffers, dir@, i as int),
        decreases ed.buffers@.len() - i,
    {
        assert(ed@.buffers[i as int] == ed.buffers@[i as int]@);
        let hit = match &ed.buffers[i].mode {
            Mode::Dired(d) => same(d.dir.as_str(), dir),
            Mode::Fundamental => false,
        };
        if hit {
            return Some(i);
        }
        i = i + 1;
    }
    None
}

/// Whether a listing of `dir` is to show hidden names: as its dired buffer
/// does, and not in a fresh one.
pub fn shows_hidden(ed: &Editor, dir: &str) -> (b: bool)
    ensures
        b == ({
            let i = dired_index(ed@.buffers, dir@, 0);
            i < ed@.buffers.len() && match ed@.buffers[i].mode {
                ModeModel::Dired(d) => d.show_hidden,
                ModeModel::Fundamental => false,
            }
        }),
{
    match find_dired(ed, dir) {
        Some(i) => match &ed.buffers[i].mode {
            Mode::Dired(d) => d.show_hidden,
            Mode::Fundamental => false,
        },
        None => false,
    }
}

fn goto_entry(ed: &mut Editor, name: &str)
    requires
        wf(old(ed)@),
    ensures
        final(ed)@ == at_entry(old(ed)@, name@),
        wf(final(ed)@),
{
    let ghost e = ed@;
    let mut found: Option<(usize, usize)> = None;
    if let Mode::Dired(d) = &ed.cur_buffer().mode {
        let ghost all = models(d.entries@);
        let mut i: usize = 0;
        while i < d.entries.len() && !same(d.entries[i].name.as_str(), name)
            invariant
                i <= d.entries@.len(),
                all == models(d.entries@),
                entry_named(all, name@, 0) == entry_named(all, name@, i as int),
            decreases d.entries@.len() - i,
        {
            i = i + 1;
        }
        if i < d.entries.len() {
            found = Some((i + 1, d.name_col));
        }
    }
    if let Some((line, col)) = found {
        let (win, buf) = ed.cur();
        let start: usize = buf.line_to_char(line);
        let len: usize = buf.len_chars();
        win.point = if col <= len - start {
            start + col
        } else {
            len
        };
    }
}

/// Open (or reuse) a dired buffer for `dir` in the selected window, from a
/// listing of the directory; then go to an entry, where one is named.
pub fn open_dired(
    ed: &mut Editor,
    dir: &str,
    listing: Result<Vec<Entry>, String>,
    goto: Option<String>,
)
    requires
        wf(old(ed)@),
        old(ed)@.next_buffer_id < usize::MAX,
    ensures
        final(ed)@ == dired_opened_at(
            old(ed)@,
            dir@,
            listing_model(listing),
            opt_view(goto),
        ),
        wf(final(ed)@),
{
    let ghost e = ed@;
    match find_dired(ed, dir) {
        Some(i) => {
            let id: BufferId = ed.buffers[i].id;
            proof {
                assert(buf_ids(e.buffers)[i as int] == id);
            }
            ed.show_buffer(id);
            refresh(ed, listing);
        },
        None => {
            match listing {
                Ok(entries) => {
                    let (text, name_col) = listing_text(dir, &entries);
                    let id: BufferId = ed.next_buffer_id;
                    let mut buf = Buffer::new(id, dir, text.as_str());
                    let ghost es = models(entries@);
                    buf.mode = Mode::Dired(
                        DiredState {
                            dir: copy(dir),
                            entries,
                            show_hidden: false,
                            name_col,
                            wgrep: None,
                        },
                    );
                    buf.read_only = true;
                    assert(buf@ =~= dired_buffer(id, dir@, es));
                    ed.next_buffer_id = id + 1;
                    ed.buffers.push(buf);
                    ed.recency.push(id);
                    proof {
                        assert(ed@ =~= with_buffer(e, dired_buffer(id, dir@, es)));
                        lemma_with_buffer(e, dired_buffer(id, dir@, es));
                    }
                    ed.show_buffer(id);
                },
                Err(msg) => ed.message(msg.as_str()),
            }
        },
    }
    if let Some(name) = goto {
        goto_entry(ed, name.as_str());
    }
}

// ---- entry points ----------------------------------------------------------

/// A command that leaves a directory to be listed and opened.
pub open spec fn opens(dir: Seq<char>, goto: Option<Seq<char>>) -> ActionModel {
    ActionModel::Outside(TaskModel::OpenDired { dir, goto })
}

pub fn open_dir_cmd(ed: &mut Editor, _n: Option<u32>)
    requires
        wf(old(ed)@),
    ensures
        final(ed)@ == asked(
            old(ed)@,
            KindModel::DiredOpenDir,
            "Dired (directory): "@,
            as_prefill(dir_of(old(ed)@)),
        ),
        wf(final(ed)@),
{
    let prefill = ed.prefill();
    ed.prompt_prefilled(PromptKind::DiredOpenDir, "Dired (directory): ", prefill);
}

pub fn current_cmd(ed: &Editor, _n: Option<u32>) -> (r: PostAction)
    requires
        wf(ed@),
    ensures
        r@ == opens(dir_of(ed@), None),
{
    PostAction::Outside(Task::OpenDired { dir: ed.default_dir(), goto: None })
}

/// The file name of the file that the current buffer visits.
pub open spec fn visited_name(e: EditorModel) -> Option<Seq<char>> {
    match cur_buf(e).path {
        Some(p) => file_name_of(p),
        None => None,
    }
}

/// C-x C-j: dired on the current buffer's directory, cursor on its file.
pub fn jump_cmd(ed: &Editor, _n: Option<u32>) -> (r: PostAction)
    requires
        wf(ed@),
    ensures
        r@ == opens(dir_of(ed@), visited_name(ed@)),
{
    let goto = match &ed.cur_buffer().path {
        Some(p) => path_file_name(p.as_str()),
        None => None,
    };
    PostAction::Outside(Task::OpenDired { dir: ed.default_dir(), goto })
}

/// A directory and its ancestors, at most `n` of them.
pub open spec fn ancestors(dir: Seq<char>, n: nat) -> Seq<Seq<char>>
    decreases n,
{
    if n == 0 {
        Seq::empty()
    } else {
        match parent_of(dir) {
            Some(p) => seq![dir] + ancestors(p, (n - 1) as nat),
            None => seq![dir],
        }
    }
}

/// The directories in which the project of the current buffer may be rooted,
/// nearest first. A path has no more ancestors than chars, itself not counted.
pub open spec fn project_dirs(e: EditorModel) -> Seq<Seq<char>> {
    ancestors(dir_of(e), dir_of(e).len() + 1)
}

pub fn project_root_cmd(ed: &Editor, _n: Option<u32>) -> (r: PostAction)
    requires
        wf(ed@),
    ensures
        r@ == ActionModel::Outside(TaskModel::FindProject(project_dirs(ed@))),
{
    let mut out: Vec<String> = Vec::new();
    let mut dir = ed.default_dir();
    let ghost all = project_dirs(ed@);
    let mut left: usize = dir.as_str().unicode_len();
    let mut more = true;
    assert(views(out@) + ancestors(dir@, (left + 1) as nat) =~= all);
    while more
        invariant
            more ==> views(out@) + ancestors(dir@, (left + 1) as nat) == all,
            !more ==> views(out@) == all,
        decreases left, more as int,
    {
        let ghost before = views(out@);
        let ghost here = dir@;
        let parent = path_parent(dir.as_str());
        out.push(dir);
        assert(views(out@) =~= before.push(here));
        match parent {
            Some(p) => {
                if left == 0 {
                    more = false;
                    assert(ancestors(p@, 0) =~= Seq::<Seq<char>>::empty());
                    assert(views(out@) =~= before + ancestors(here, 1));
                    dir = p;
                } else {
                    left = left - 1;
                    assert(views(out@) + ancestors(p@, (left + 1) as nat) =~= before + ancestors(
                        here,
                        (left + 2) as nat,
                    ));
                    dir = p;
                }
            },
            None => {
                more = false;
                assert(views(out@) =~= before + ancestors(here, (left + 1) as nat));
                dir = String::new();
            },
        }
    }
    PostAction::Outside(Task::FindProject(out))
}

/// The index of the first `true` at or after `i`.
pub open spec fn first_true(s: Seq<bool>, i: int) -> int
    decreases s.len() - i,
{
    if 0 <= i < s.len() && !s[i] {
        first_true(s, i + 1)
    } else {
        i
    }
}

/// Open the nearest of the directories that hold `.git`, as `exists` tells of
/// each.
pub fn project_root_found(ed: &mut Editor, dirs: &Vec<String>, exists: &Vec<bool>) -> (r: PostAction)
    requires
        wf(old(ed)@),
        dirs@.len() == exists@.len(),
    ensures
        ({
            let i = first_true(exists@, 0);
            if i < exists@.len() {
                final(ed)@ == old(ed)@ && r@ == opens(dirs@[i]@, None)
            } else {
                final(ed)@ == said(
                    old(ed)@,
                    "No project root found (no .git in any ancestor)"@,
                ) && r@ == ActionModel::Nothing
            }
        }),
        wf(final(ed)@),
{
    let mut i: usize = 0;
    while i < exists.len() && !exists[i]
        invariant
            i <= exists@.len(),
            first_true(exists@, 0) == first_true(exists@, i as int),
        decreases exists@.len() - i,
    {
        i = i + 1;
    }
    if i < exists.len() {
        return PostAction::Outside(Task::OpenDired { dir: copy(dirs[i].as_str()), goto: None });
    }
    ed.message("No project root found (no .git in any ancestor)");
    PostAction::Nothing
}

// ---- navigation and marking ------------------------------------------------

/// What visiting an entry leaves to do.
pub open spec fn visit_entry(x: EntryModel) -> ActionModel {
    if x.is_dir {
        opens(x.path, None)
    } else {
        ActionModel::Outside(TaskModel::Visit(x.path))
    }
}

/// The message on a line without an entry.
pub open spec fn no_file(e: EditorModel) -> EditorModel {
    said(e, "No file on this line"@)
}

fn visit_task(x: Entry) -> (r: PostAction)
    ensures
        r@ == visit_entry(x@),
{
    if x.is_dir {
        PostAction::Outside(Task::OpenDired { dir: x.path, goto: None })
    } else {
        PostAction::Outside(Task::Visit(x.path))
    }
}

/// Visit the file or directory at point.
pub fn find_file_cmd(ed: &mut Editor, _n: Option<u32>) -> (r: PostAction)
    requires
        wf(old(ed)@),
    ensures
        match entry_here(old(ed)@) {
            Some(x) => final(ed)@ == old(ed)@ && r@ == visit_entry(x),
            None => final(ed)@ == no_file(old(ed)@) && r@ == ActionModel::Nothing,
        },
        wf(final(ed)@),
{
    match entry_at_point(ed) {
        Some(x) => visit_task(x),
        None => {
            ed.message("No file on this line");
            PostAction::Nothing
        },
    }
}

/// The editor with another window selected: the next one, split off where
/// there is only one.
pub open spec fn other_window_made(e: EditorModel) -> EditorModel {
    window_next(
        if ids(e.windows.root).len() == 1 {
            window_split(e, SplitDir::Below)
        } else {
            e
        },
    )
}

/// Split only if there is a single window, then select the other one.
pub fn other_window_or_split(ed: &mut Editor)
    requires
        wf(old(ed)@),
        old(ed)@.windows.next_id < usize::MAX,
    ensures
        final(ed)@ == other_window_made(old(ed)@),
        wf(final(ed)@),
{
    let ghost e = ed@;
    if ed.windows.leaves().len() == 1 {
        proof {
            lemma_window_split(e, SplitDir::Below);
        }
        ed.windows.split(SplitDir::Below);
        assert(ed@ =~= window_split(e, SplitDir::Below));
    }
    let ghost e1 = ed@;
    proof {
        lemma_window_next(e1);
    }
    ed.windows.select_next();
    assert(ed@ =~= window_next(e1));
}

/// Visit the file or directory at point in another window.
pub fn find_file_other_window_cmd(ed: &mut Editor, _n: Option<u32>) -> (r: PostAction)
    requires
        wf(old(ed)@),
        old(ed)@.windows.next_id < usize::MAX,
    ensures
        match entry_here(old(ed)@) {
            Some(x) => final(ed)@ == other_window_made(old(ed)@) && r@ == visit_entry(x),
            None => final(ed)@ == no_file(old(ed)@) && r@ == ActionModel::Nothing,
        },
        wf(final(ed)@),
{
    match entry_at_point(ed) {
        Some(x) => {
            other_window_or_split(ed);
            visit_task(x)
        },
        None => {
            ed.message("No file on this line");
            PostAction::Nothing
        },
    }
}

/// The message outside dired buffers.
pub open spec fn not_dired(e: EditorModel) -> EditorModel {
    said(e, "Not a dired buffer"@)
}

/// Open the parent directory.
pub fn up_directory_cmd(ed: &mut Editor, _n: Option<u32>) -> (r: PostAction)
    requires
        wf(old(ed)@),
    ensures
        match listing_at(old(ed)@) {
            Some(d) => match parent_of(d.dir) {
                Some(p) => final(ed)@ == old(ed)@ && r@ == opens(p, None),
                None => final(ed)@ == said(old(ed)@, "At filesystem root"@) && r@
                    == ActionModel::Nothing,
            },
            None => final(ed)@ == not_dired(old(ed)@) && r@ == ActionModel::Nothing,
        },
        wf(final(ed)@),
{
    let parent = match &ed.cur_buffer().mode {
        Mode::Dired(d) => path_parent(d.dir.as_str()),
        Mode::Fundamental => {
            ed.message("Not a dired buffer");
            return PostAction::Nothing;
        },
    };
    match parent {
        Some(p) => PostAction::Outside(Task::OpenDired { dir: p, goto: None }),
        None => {
            ed.message("At filesystem root");
            PostAction::Nothing
        },
    }
}

/// Whether an entry is the parent entry, to which no operation applies.
pub open spec fn is_parent(x: EntryModel) -> bool {
    x.name == ".."@
}

/// The message for the parent entry.
pub open spec fn parent_refused(e: EditorModel) -> EditorModel {
    said(e, "Cannot operate on `..'"@)
}

/// The editor with the entry under point marked and point on the next line.
pub open spec fn entry_marked(e: EditorModel, mark: char) -> EditorModel {
    match entry_number(e) {
        Some(i) => {
            let d = listing_at(e)->0;
            if is_parent(d.entries[i]) {
                parent_refused(e)
            } else {
                line_down(
                    relisted(
                        with_buf(
                            e,
                            listing_as(
                                cur_buf(e),
                                DiredModel {
                                    entries: d.entries.update(
                                        i,
                                        EntryModel { mark, ..d.entries[i] },
                                    ),
                                    ..d
                                },
                            ),
                        ),
                    ),
                    None,
                )
            }
        },
        None => no_file(e),
    }
}

fn set_mark_at_point(ed: &mut Editor, mark: char)
    requires
        wf(old(ed)@),
    ensures
        final(ed)@ == entry_marked(old(ed)@, mark),
        wf(final(ed)@),
{
    let ghost e = ed@;
    let i: usize = match entry_index(ed) {
        Some(i) => i,
        None => {
            ed.message("No file on this line");
            return ;
        },
    };
    let parent = match &ed.cur_buffer().mode {
        Mode::Dired(d) => same(d.entries[i].name.as_str(), ".."),
        Mode::Fundamental => false,
    };
    if parent {
        ed.message("Cannot operate on `..'");
        return ;
    }
    let buf = ed.cur_buffer_mut();
    let ghost b0 = buf@;
    match &mut buf.mode {
        Mode::Dired(d) => {
            let ghost before = models(d.entries@);
            d.entries[i].mark = mark;
            assert(models(d.entries@) =~= before.update(
                i as int,
                EntryModel { mark, ..before[i as int] },
            ));
        },
        Mode::Fundamental => {},
    }
    regenerate(ed);
    next_line(ed, None);
}

pub fn mark_cmd(ed: &mut Editor, _n: Option<u32>)
    requires
        wf(old(ed)@),
    ensures
        final(ed)@ == entry_marked(old(ed)@, '*'),
        wf(final(ed)@),
{
    set_mark_at_point(ed, '*');
}

pub fn unmark_cmd(ed: &mut Editor, _n: Option<u32>)
    requires
        wf(old(ed)@),
    ensures
        final(ed)@ == entry_marked(old(ed)@, ' '),
        wf(final(ed)@),
{
    set_mark_at_point(ed, ' ');
}

pub fn flag_deletion_cmd(ed: &mut Editor, _n: Option<u32>)
    requires
        wf(old(ed)@),
    ensures
        final(ed)@ == entry_marked(old(ed)@, 'D'),
        wf(final(ed)@),
{
    set_mark_at_point(ed, 'D');
}

/// The entries that `hits` tells of marked with `*`.
pub open spec fn marked_where(s: Seq<EntryModel>, hits: Seq<bool>) -> Seq<EntryModel> {
    Seq::new(
        s.len(),
        |i: int|
            if i < hits.len() && hits[i] {
                EntryModel { mark: '*', ..s[i] }
            } else {
                s[i]
            },
    )
}

/// The entries without marks.
pub open spec fn unmarked(s: Seq<EntryModel>) -> Seq<EntryModel> {
    Seq::new(s.len(), |i: int| EntryModel { mark: ' ', ..s[i] })
}

/// The editor with the current listing's entries replaced and listed again.
pub open spec fn entries_changed(e: EditorModel, entries: Seq<EntryModel>) -> EditorModel {
    relisted(
        with_buf(e, listing_as(cur_buf(e), DiredModel { entries, ..listing_at(e)->0 })),
    )
}

fn clear_marks(v: &mut Vec<Entry>)
    ensures
        models(final(v)@) == unmarked(models(old(v)@)),
{
    let ghost before = models(v@);
    let mut i: usize = 0;
    while i < v.len()
        invariant
            i <= v@.len(),
            v@.len() == before.len(),
            forall|k: int| 0 <= k < i ==> (#[trigger] v@[k])@ == unmarked(before)[k],
            forall|k: int| i <= k < before.len() ==> (#[trigger] v@[k])@ == before[k],
        decreases v@.len() - i,
    {
        v[i].mark = ' ';
        i = i + 1;
    }
    assert(models(v@) =~= unmarked(before));
}

/// Unmark all files.
pub fn unmark_all_cmd(ed: &mut Editor, _n: Option<u32>)
    requires
        wf(old(ed)@),
    ensures
        final(ed)@ == match listing_at(old(ed)@) {
            Some(d) => said(
                entries_changed(old(ed)@, unmarked(d.entries)),
                "All marks removed"@,
            ),
            None => not_dired(old(ed)@),
        },
        wf(final(ed)@),
{
    if !in_dired(ed) {
        ed.message("Not a dired buffer");
        return ;
    }
    let buf = ed.cur_buffer_mut();
    match &mut buf.mode {
        Mode::Dired(d) => {
            clear_marks(&mut d.entries);
        },
        Mode::Fundamental => {},
    }
    regenerate(ed);
    ed.message("All marks removed");
}

} // verus!
