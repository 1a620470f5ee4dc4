//! Dired commands on files: deleting, renaming, copying, comparing,
//! compressing and running programs.

use crate::buffer::{fresh, Buffer, BufferId, BufferModel, Mode};
use crate::buffers::{
    buffer_removed, lemma_buffer_removed, lemma_with_buffer, lemma_without_buffer, name_index,
    shown, with_buffer, without_buffer,
};
use crate::dired::ops::{
    entries_changed, entry_here, is_parent, listing_as, listing_at, marked_where, no_file,
    not_dired, other_window_made, other_window_or_split, parent_refused,
};
use crate::dired::state::{DiredModel, Entry, EntryModel};
use crate::editor::{
    buf_ids, buf_index, cur_buf, has_buffer, lemma_buf_index, lemma_wf_same, said, wf, with_buf,
    Editor, EditorModel,
};
use crate::input::{
    ActionModel, KindModel, PostAction, PromptKind, Task, TaskModel, YesNoAction, YesNoModel,
};
use crate::layout::asked;
use crate::paths::resolved;
use crate::regexes::{check_regex, match_regex, regex_error, regex_is_match};
use crate::seqs::models;
use crate::strings::{
    cat2, cat3, cat4, cat5, copy, decimal, decimal_string, join_with, joined_with, opt_view,
    replace_char, same, trim, trimmed, views, with_char_replaced,
};
use crate::stream::{text_for, to_text};
use ropey::Rope;
use vstd::prelude::*;

verus! {

// ---- marking by regexp -----------------------------------------------------

/// How often a list holds `true`.
pub open spec fn count_true(s: Seq<bool>) -> int
    decreases s.len(),
{
    if s.len() == 0 {
        0
    } else {
        count_true(s.drop_last()) + (if s.last() {
            1int
        } else {
            0int
        })
    }
}

/// Which entries a regexp marks: those that match, the parent entry left out.
pub open spec fn regexp_hits(s: Seq<EntryModel>, pattern: Seq<char>) -> Seq<bool> {
    Seq::new(s.len(), |i: int| !is_parent(s[i]) && regex_is_match(pattern, s[i].name))
}

/// The editor with the entries that `hits` tells of marked.
pub open spec fn hits_marked(e: EditorModel, hits: Seq<bool>) -> EditorModel {
    match listing_at(e) {
        Some(d) => said(
            entries_changed(e, marked_where(d.entries, hits)),
            decimal(count_true(hits) as nat) + " files marked"@,
        ),
        None => e,
    }
}

/// The editor with the entries that match a regexp marked.
pub open spec fn regexp_marked(e: EditorModel, pattern: Seq<char>) -> EditorModel {
    match regex_error(pattern) {
        Some(msg) => said(e, "Invalid regexp: "@ + msg),
        None => match listing_at(e) {
            Some(d) => hits_marked(e, regexp_hits(d.entries, pattern)),
            None => e,
        },
    }
}

pub fn mark_regexp_cmd(ed: &mut Editor, _n: Option<u32>)
    requires
        wf(old(ed)@),
    ensures
        final(ed)@ == match listing_at(old(ed)@) {
            Some(_) => asked(
                old(ed)@,
                KindModel::DiredMarkRegex,
                "Mark files (regexp): "@,
                Seq::empty(),
            ),
            None => not_dired(old(ed)@),
        },
        wf(final(ed)@),
{
    if let Mode::Dired(_) = &ed.cur_buffer().mode {
        ed.prompt(PromptKind::DiredMarkRegex, "Mark files (regexp): ");
    } else {
        ed.message("Not a dired buffer");
    }
}

fn mark_hits(v: &mut Vec<Entry>, hits: &Vec<bool>)
    ensures
        models(final(v)@) == marked_where(models(old(v)@), hits@),
{
    let ghost now = models(v@);
    let mut i: usize = 0;
    while i < v.len()
        invariant
            i <= v@.len(),
            v@.len() == now.len(),
            forall|k: int| 0 <= k < i ==> (#[trigger] v@[k])@ == marked_where(now, hits@)[k],
            forall|k: int| i <= k < now.len() ==> (#[trigger] v@[k])@ == now[k],
        decreases v@.len() - i,
    {
        assert(v@[i as int]@ == now[i as int]);
        if i < hits.len() && hits[i] {
            v[i].mark = '*';
        }
        assert(v@[i as int]@ =~= marked_where(now, hits@)[i as int]);
        i = i + 1;
    }
    assert(models(v@) =~= marked_where(now, hits@));
}

fn count_hits(hits: &Vec<bool>) -> (n: usize)
    ensures
        n == count_true(hits@),
        n <= hits@.len(),
{
    let mut n: usize = 0;
    for i in 0..hits.len()
        invariant
            n == count_true(hits@.take(i as int)),
            n <= i,
    {
        assert(hits@.take(i + 1).drop_last() =~= hits@.take(i as int));
        if hits[i] {
            n = n + 1;
        }
    }
    assert(hits@.take(hits@.len() as int) =~= hits@);
    n
}

/// Mark the entries that `hits` tells of.
pub fn mark_where(ed: &mut Editor, hits: &Vec<bool>)
    requires
        wf(old(ed)@),
    ensures
        final(ed)@ == hits_marked(old(ed)@, hits@),
        wf(final(ed)@),
{
    if let Mode::Fundamental = &ed.cur_buffer().mode {
        return ;
    }
    let buf = ed.cur_buffer_mut();
    if let Mode::Dired(d) = &mut buf.mode {
        mark_hits(&mut d.entries, hits);
    }
    crate::dired::ops::regenerate(ed);
    let n: usize = count_hits(hits);
    ed.message(cat2(decimal_string(n).as_str(), " files marked").as_str());
}

/// Mark the files whose names match a regexp.
pub fn mark_regexp(ed: &mut Editor, pattern: &str)
    requires
        wf(old(ed)@),
    ensures
        final(ed)@ == regexp_marked(old(ed)@, pattern@),
        wf(final(ed)@),
{
    if let Some(msg) = check_regex(pattern) {
        ed.message(cat2("Invalid regexp: ", msg.as_str()).as_str());
        return ;
    }
    let mut hits: Vec<bool> = Vec::new();
    match &ed.cur_buffer().mode {
        Mode::Dired(d) => {
            let ghost all = models(d.entries@);
            for i in 0..d.entries.len()
                invariant
                    all == models(d.entries@),
                    hits@ == regexp_hits(all, pattern@).take(i as int),
            {
                let name = d.entries[i].name.as_str();
                let hit = !same(name, "..") && match_regex(pattern, name);
                hits.push(hit);
                assert(hits@ =~= regexp_hits(all, pattern@).take(i + 1));
            }
            assert(hits@ =~= regexp_hits(all, pattern@));
        },
        Mode::Fundamental => {
            return ;
        },
    }
    mark_where(ed, &hits);
}

// ---- prompts for one file --------------------------------------------------

/// The editor with the entry under point asked about; not for the parent
/// entry.
pub open spec fn entry_asked(
    e: EditorModel,
    kind: spec_fn(EntryModel) -> KindModel,
    before: Seq<char>,
    after: Seq<char>,
    prefilled: bool,
) -> EditorModel {
    match entry_here(e) {
        Some(x) => if is_parent(x) {
            parent_refused(e)
        } else {
            asked(
                e,
                kind(x),
                before + x.name + after,
                if prefilled {
                    x.name
                } else {
                    Seq::empty()
                },
            )
        },
        None => no_file(e),
    }
}

fn operable(ed: &mut Editor) -> (r: Option<Entry>)
    requires
        wf(old(ed)@),
    ensures
        match r {
            Some(x) => entry_here(old(ed)@) == Some(x@) && !is_parent(x@) && final(ed)@
                == old(ed)@,
            None => match entry_here(old(ed)@) {
                Some(x) => is_parent(x) && final(ed)@ == parent_refused(old(ed)@),
                None => final(ed)@ == no_file(old(ed)@),
            },
        },
        wf(final(ed)@),
{
    match crate::dired::ops::entry_at_point(ed) {
        Some(x) => {
            if same(x.name.as_str(), "..") {
                ed.message("Cannot operate on `..'");
                None
            } else {
                Some(x)
            }
        },
        None => {
            ed.message("No file on this line");
            None
        },
    }
}

/// Delete the file at point, after a confirmation.
pub fn do_delete_cmd(ed: &mut Editor, _n: Option<u32>)
    requires
        wf(old(ed)@),
    ensures
        final(ed)@ == entry_asked(
            old(ed)@,
            |x: EntryModel| KindModel::YesNo(YesNoModel::DiredDelete(seq![x.path])),
            "Delete "@,
            "? (y or n) "@,
            false,
        ),
        wf(final(ed)@),
{
    if let Some(x) = operable(ed) {
        let prompt = cat3("Delete ", x.name.as_str(), "? (y or n) ");
        let mut paths: Vec<String> = Vec::new();
        paths.push(x.path);
        assert(views(paths@) =~= seq![x@.path]);
        ed.prompt(PromptKind::YesNo(YesNoAction::DiredDelete(paths)), prompt.as_str());
    }
}

/// Rename the file at point.
pub fn do_rename_cmd(ed: &mut Editor, _n: Option<u32>)
    requires
        wf(old(ed)@),
    ensures
        final(ed)@ == entry_asked(
            old(ed)@,
            |x: EntryModel| KindModel::DiredRename { from: x.path },
            "Rename "@,
            " to: "@,
            true,
        ),
        wf(final(ed)@),
{
    if let Some(x) = operable(ed) {
        let prompt = cat3("Rename ", x.name.as_str(), " to: ");
        ed.prompt_prefilled(PromptKind::DiredRename { from: x.path }, prompt.as_str(), x.name);
    }
}

/// Copy the file at point.
pub fn do_copy_cmd(ed: &mut Editor, _n: Option<u32>)
    requires
        wf(old(ed)@),
    ensures
        final(ed)@ == entry_asked(
            old(ed)@,
            |x: EntryModel| KindModel::DiredCopy { from: x.path },
            "Copy "@,
            " to: "@,
            false,
        ),
        wf(final(ed)@),
{
    if let Some(x) = operable(ed) {
        let prompt = cat3("Copy ", x.name.as_str(), " to: ");
        ed.prompt(PromptKind::DiredCopy { from: x.path }, prompt.as_str());
    }
}

/// The editor after diff is asked for; the parent entry may be compared too.
pub open spec fn diff_asked(e: EditorModel) -> EditorModel {
    match entry_here(e) {
        Some(x) => asked(
            e,
            KindModel::DiredDiff { from: x.path },
            "Diff "@ + x.name + " against: "@,
            Seq::empty(),
        ),
        None => no_file(e),
    }
}

/// Diff the file at point against another file.
pub fn diff_cmd(ed: &mut Editor, _n: Option<u32>)
    requires
        wf(old(ed)@),
    ensures
        final(ed)@ == diff_asked(old(ed)@),
        wf(final(ed)@),
{
    match crate::dired::ops::entry_at_point(ed) {
        Some(x) => {
            let prompt = cat3("Diff ", x.name.as_str(), " against: ");
            ed.prompt(PromptKind::DiredDiff { from: x.path }, prompt.as_str());
        },
        None => ed.message("No file on this line"),
    }
}

/// Prompt for a name and create a directory.
pub fn create_directory_cmd(ed: &mut Editor, _n: Option<u32>)
    requires
        wf(old(ed)@),
    ensures
        final(ed)@ == asked(
            old(ed)@,
            KindModel::DiredMkdir,
            "Create directory: "@,
            Seq::empty(),
        ),
        wf(final(ed)@),
{
    ed.prompt(PromptKind::DiredMkdir, "Create directory: ");
}

// ---- deleting flagged files ------------------------------------------------

/// The paths of the entries with a mark.
pub open spec fn paths_marked(s: Seq<EntryModel>, mark: char) -> Seq<Seq<char>>
    decreases s.len(),
{
    if s.len() == 0 {
        Seq::empty()
    } else if s.last().mark == mark {
        paths_marked(s.drop_last(), mark).push(s.last().path)
    } else {
        paths_marked(s.drop_last(), mark)
    }
}

fn collect_marked(v: &Vec<Entry>, mark: char) -> (r: Vec<String>)
    ensures
        views(r@) == paths_marked(models(v@), mark),
{
    let ghost all = models(v@);
    let mut out: Vec<String> = Vec::new();
    assert(all.take(0) =~= Seq::<EntryModel>::empty());
    assert(views(out@) =~= Seq::<Seq<char>>::empty());
    for i in 0..v.len()
        invariant
            all == models(v@),
            views(out@) == paths_marked(all.take(i as int), mark),
    {
        assert(all.take(i + 1).drop_last() =~= all.take(i as int));
        assert(all.take(i + 1).last() == v@[i as int]@);
        if v[i].mark == mark {
            let ghost before = views(out@);
            out.push(copy(v[i].path.as_str()));
            assert(views(out@) =~= before.push(v@[i as int]@.path));
        }
    }
    assert(all.take(all.len() as int) =~= all);
    out
}

/// The ending of a noun for a number of things.
pub open spec fn plural(n: int) -> Seq<char> {
    if n == 1 {
        ""@
    } else {
        "s"@
    }
}

fn plural_of(n: usize) -> (s: &'static str)
    ensures
        s@ == plural(n as int),
{
    if n == 1 {
        ""
    } else {
        "s"
    }
}

/// The editor after the flagged files are asked about.
pub open spec fn flagged_asked(e: EditorModel) -> EditorModel {
    match listing_at(e) {
        Some(d) => {
            let paths = paths_marked(d.entries, 'D');
            if paths.len() == 0 {
                said(e, "(No deletions requested)"@)
            } else {
                asked(
                    e,
                    KindModel::YesNo(YesNoModel::DiredDelete(paths)),
                    "Delete "@ + decimal(paths.len()) + " file"@ + plural(paths.len() as int)
                        + "? (y or n) "@,
                    Seq::empty(),
                )
            }
        },
        None => not_dired(e),
    }
}

/// Delete the files flagged with D, after a confirmation.
pub fn do_flagged_delete_cmd(ed: &mut Editor, _n: Option<u32>)
    requires
        wf(old(ed)@),
    ensures
        final(ed)@ == flagged_asked(old(ed)@),
        wf(final(ed)@),
{
    let paths = match &ed.cur_buffer().mode {
        Mode::Dired(d) => collect_marked(&d.entries, 'D'),
        Mode::Fundamental => {
            ed.message("Not a dired buffer");
            return ;
        },
    };
    let n: usize = paths.len();
    assert(views(paths@).len() == n);
    if n == 0 {
        ed.message("(No deletions requested)");
        return ;
    }
    let prompt = cat5(
        "Delete ",
        decimal_string(n).as_str(),
        " file",
        plural_of(n),
        "? (y or n) ",
    );
    ed.prompt(PromptKind::YesNo(YesNoAction::DiredDelete(paths)), prompt.as_str());
}

// ---- outcomes --------------------------------------------------------------

/// The directory is to be listed again, and a message shown after that.
pub open spec fn refreshes(msg: Seq<char>) -> ActionModel {
    ActionModel::Outside(TaskModel::Refresh(Some(msg)))
}

fn refresh_then(msg: String) -> (r: PostAction)
    ensures
        r@ == refreshes(msg@),
{
    PostAction::Outside(Task::Refresh(Some(msg)))
}

/// What is told of the paths that could not be deleted: each with the reason.
pub open spec fn delete_failures(paths: Seq<Seq<char>>, errors: Seq<Option<Seq<char>>>) -> Seq<
    Seq<char>,
>
    decreases paths.len(),
{
    if paths.len() == 0 {
        Seq::empty()
    } else {
        let before = delete_failures(paths.drop_last(), errors);
        match errors[paths.len() - 1] {
            Some(why) => before.push(paths.last() + ": "@ + why),
            None => before,
        }
    }
}

/// The outcome of deleting some paths, where each either has a reason for which
/// it could not be deleted, or none.
pub fn paths_deleted(paths: &Vec<String>, errors: &Vec<Option<String>>) -> (r: PostAction)
    requires
        errors@.len() == paths@.len(),
    ensures
        r@ == deletion_told(
            paths@.len() as int,
            delete_failures(views(paths@), errors@.map_values(|o: Option<String>| opt_view(o))),
        ),
{
    let ghost all = views(paths@);
    let ghost why = errors@.map_values(|o: Option<String>| opt_view(o));
    let mut failures: Vec<String> = Vec::new();
    let mut i: usize = 0;
    assert(views(failures@) =~= delete_failures(all.take(0), why));
    while i < paths.len()
        invariant
            i <= paths@.len() == errors@.len(),
            all == views(paths@),
            why == errors@.map_values(|o: Option<String>| opt_view(o)),
            views(failures@) == delete_failures(all.take(i as int), why),
        decreases paths@.len() - i,
    {
        let ghost before = views(failures@);
        assert(all.take(i + 1).drop_last() =~= all.take(i as int));
        assert(all.take(i + 1).last() == paths@[i as int]@);
        assert(why[i as int] == opt_view(errors@[i as int]));
        if let Some(e) = &errors[i] {
            failures.push(cat3(paths[i].as_str(), ": ", e.as_str()));
            assert(views(failures@) =~= before.push(paths@[i as int]@ + ": "@ + e@));
        }
        i = i + 1;
    }
    assert(all.take(all.len() as int) =~= all);
    delete_done(paths.len(), &failures)
}

/// What is told of a deletion.
pub open spec fn deletion_told(n: int, failures: Seq<Seq<char>>) -> ActionModel {
    refreshes(
        if failures.len() == 0 {
            "Deleted "@ + decimal(n as nat) + " file(s)"@
        } else {
            joined_with(failures, "; "@)
        },
    )
}

/// Of `n` paths that were to be deleted, these could not be ("path: why").
pub fn delete_done(n: usize, errors: &Vec<String>) -> (r: PostAction)
    ensures
        r@ == deletion_told(n as int, views(errors@)),
{
    if errors.len() == 0 {
        refresh_then(cat3("Deleted ", decimal_string(n).as_str(), " file(s)"))
    } else {
        refresh_then(join_with(errors, "; "))
    }
}

/// What is left after one file operation: the listing is to be shown again
/// with `done` and the path, or only `failed` and the reason is shown.
pub open spec fn file_done(
    e: EditorModel,
    done: Seq<char>,
    dest: Seq<char>,
    failed: Seq<char>,
    error: Option<Seq<char>>,
) -> (EditorModel, ActionModel) {
    match error {
        Some(msg) => (said(e, failed + msg), ActionModel::Nothing),
        None => (e, refreshes(done + dest)),
    }
}

fn finish_file(
    ed: &mut Editor,
    done: &str,
    dest: &str,
    failed: &str,
    error: Option<String>,
) -> (r: PostAction)
    requires
        wf(old(ed)@),
    ensures
        (final(ed)@, r@) == file_done(old(ed)@, done@, dest@, failed@, opt_view(error)),
        wf(final(ed)@),
{
    match error {
        Some(msg) => {
            ed.message(cat2(failed, msg.as_str()).as_str());
            PostAction::Nothing
        },
        None => refresh_then(cat2(done, dest)),
    }
}

/// Rename a file to what was entered.
pub fn rename_to(ed: &Editor, from: String, to: &str) -> (r: PostAction)
    requires
        wf(ed@),
    ensures
        r@ == ActionModel::Outside(TaskModel::Rename { from: from@, to: resolved(ed@, to@) }),
{
    PostAction::Outside(Task::Rename { from, to: ed.resolve_path(to) })
}

/// A file was renamed to `dest`, or could not be.
pub fn rename_done(ed: &mut Editor, dest: &str, error: Option<String>) -> (r: PostAction)
    requires
        wf(old(ed)@),
    ensures
        (final(ed)@, r@) == file_done(
            old(ed)@,
            "Renamed to "@,
            dest@,
            "Rename failed: "@,
            opt_view(error),
        ),
        wf(final(ed)@),
{
    finish_file(ed, "Renamed to ", dest, "Rename failed: ", error)
}

/// Copy a file to what was entered.
pub fn copy_to(ed: &Editor, from: String, to: &str) -> (r: PostAction)
    requires
        wf(ed@),
    ensures
        r@ == ActionModel::Outside(TaskModel::Copy { from: from@, to: resolved(ed@, to@) }),
{
    PostAction::Outside(Task::Copy { from, to: ed.resolve_path(to) })
}

/// A file was copied to `dest`, or could not be.
pub fn copy_done(ed: &mut Editor, dest: &str, error: Option<String>) -> (r: PostAction)
    requires
        wf(old(ed)@),
    ensures
        (final(ed)@, r@) == file_done(
            old(ed)@,
            "Copied to "@,
            dest@,
            "Copy failed: "@,
            opt_view(error),
        ),
        wf(final(ed)@),
{
    finish_file(ed, "Copied to ", dest, "Copy failed: ", error)
}

/// Make a directory of the name that was entered.
pub fn mkdir(ed: &Editor, name: &str) -> (r: PostAction)
    requires
        wf(ed@),
    ensures
        r@ == ActionModel::Outside(TaskModel::MakeDir(resolved(ed@, name@))),
{
    PostAction::Outside(Task::MakeDir(ed.resolve_path(name)))
}

/// A directory was made, or could not be.
pub fn mkdir_done(ed: &mut Editor, dest: &str, error: Option<String>) -> (r: PostAction)
    requires
        wf(old(ed)@),
    ensures
        (final(ed)@, r@) == file_done(
            old(ed)@,
            "Created "@,
            dest@,
            "mkdir failed: "@,
            opt_view(error),
        ),
        wf(final(ed)@),
{
    finish_file(ed, "Created ", dest, "mkdir failed: ", error)
}

/// Compress the file (gz) or directory (tar.gz) at point.
pub fn compress_cmd(ed: &mut Editor, _n: Option<u32>) -> (r: PostAction)
    requires
        wf(old(ed)@),
    ensures
        match entry_here(old(ed)@) {
            Some(x) => if is_parent(x) {
                final(ed)@ == parent_refused(old(ed)@) && r@ == ActionModel::Nothing
            } else {
                final(ed)@ == old(ed)@ && r@ == ActionModel::Outside(
                    TaskModel::Compress { path: x.path, is_dir: x.is_dir },
                )
            },
            None => final(ed)@ == no_file(old(ed)@) && r@ == ActionModel::Nothing,
        },
        wf(final(ed)@),
{
    match operable(ed) {
        Some(x) => PostAction::Outside(Task::Compress { path: x.path, is_dir: x.is_dir }),
        None => PostAction::Nothing,
    }
}

/// The name of the file that a path is compressed to.
pub open spec fn compressed_to(path: Seq<char>, is_dir: bool) -> Seq<char> {
    path + (if is_dir {
        ".tar.gz"@
    } else {
        ".gz"@
    })
}

/// The name of the file that a path is compressed to.
pub fn compressed_name(path: &str, is_dir: bool) -> (r: String)
    ensures
        r@ == compressed_to(path@, is_dir),
{
    cat2(path, if is_dir {
        ".tar.gz"
    } else {
        ".gz"
    })
}

/// A path was compressed to `dest`, or could not be.
pub fn compress_done(ed: &mut Editor, dest: &str, error: Option<String>) -> (r: PostAction)
    requires
        wf(old(ed)@),
    ensures
        (final(ed)@, r@) == file_done(
            old(ed)@,
            "Compressed to "@,
            dest@,
            "Compress failed: "@,
            opt_view(error),
        ),
        wf(final(ed)@),
{
    finish_file(ed, "Compressed to ", dest, "Compress failed: ", error)
}

/// Refresh the dired listing.
pub fn revert_cmd(ed: &mut Editor, _n: Option<u32>) -> (r: PostAction)
    requires
        wf(old(ed)@),
    ensures
        (final(ed)@, r@) == match listing_at(old(ed)@) {
            Some(_) => (old(ed)@, refreshes("Directory re-read"@)),
            None => (not_dired(old(ed)@), ActionModel::Nothing),
        },
        wf(final(ed)@),
{
    if let Mode::Dired(_) = &ed.cur_buffer().mode {
        refresh_then(copy("Directory re-read"))
    } else {
        ed.message("Not a dired buffer");
        PostAction::Nothing
    }
}

/// Toggle showing hidden files.
pub fn toggle_hidden_cmd(ed: &mut Editor, _n: Option<u32>) -> (r: PostAction)
    requires
        wf(old(ed)@),
    ensures
        (final(ed)@, r@) == match listing_at(old(ed)@) {
            Some(d) => (
                with_buf(
                    old(ed)@,
                    listing_as(
                        cur_buf(old(ed)@),
                        DiredModel { show_hidden: !d.show_hidden, ..d },
                    ),
                ),
                refreshes(
                    if d.show_hidden {
                        "Hiding hidden files"@
                    } else {
                        "Showing hidden files"@
                    },
                ),
            ),
            None => (not_dired(old(ed)@), ActionModel::Nothing),
        },
        wf(final(ed)@),
{
    let ghost e = ed@;
    if let Mode::Dired(_) = &ed.cur_buffer().mode {
    } else {
        ed.message("Not a dired buffer");
        return PostAction::Nothing;
    }
    let mut showing = false;
    let buf = ed.cur_buffer_mut();
    if let Mode::Dired(d) = &mut buf.mode {
        d.show_hidden = !d.show_hidden;
        showing = d.show_hidden;
    }
    refresh_then(copy(if showing {
        "Showing hidden files"
    } else {
        "Hiding hidden files"
    }))
}

// ---- output buffers --------------------------------------------------------

/// The editor with one buffer replaced.
pub open spec fn with_buffer_at(e: EditorModel, i: int, b: BufferModel) -> EditorModel {
    EditorModel { buffers: e.buffers.update(i, b), ..e }
}

/// Replacing a buffer, id kept, keeps the editor in order.
pub proof fn lemma_with_buffer_at(e: EditorModel, i: int, b: BufferModel)
    requires
        wf(e),
        0 <= i < e.buffers.len(),
        b.id == e.buffers[i].id,
    ensures
        wf(with_buffer_at(e, i, b)),
        buf_ids(with_buffer_at(e, i, b).buffers) == buf_ids(e.buffers),
{
    reveal(wf);
    let r = with_buffer_at(e, i, b);
    assert(buf_ids(r.buffers) =~= buf_ids(e.buffers));
    assert forall|k: int| 0 <= k < r.buffers.len() implies (#[trigger] r.buffers[k]).id
        < r.next_buffer_id by {
        assert(e.buffers[k].id < e.next_buffer_id);
    }
    assert forall|w: usize| (#[trigger] crate::window::leaf(r.windows.root, w)) is Some implies
        has_buffer(r.buffers, crate::window::leaf(r.windows.root, w)->0.buffer) by {
        assert(has_buffer(e.buffers, crate::window::leaf(e.windows.root, w)->0.buffer));
    }
}

/// The editor with generated text in the buffer of a name, made if need be,
/// and read-only; and the id of that buffer.
pub open spec fn output_in(e: EditorModel, name: Seq<char>, text: Seq<char>) -> (
    EditorModel,
    usize,
) {
    let i = name_index(e.buffers, name, 0);
    if i < e.buffers.len() {
        (
            with_buffer_at(
                e,
                i,
                BufferModel { text, modified: false, read_only: true, ..e.buffers[i] },
            ),
            e.buffers[i].id,
        )
    } else {
        (
            with_buffer(e, BufferModel { read_only: true, ..fresh(e.next_buffer_id, name, text) }),
            e.next_buffer_id,
        )
    }
}

/// The editor with generated text shown in another window.
pub open spec fn output_shown(e: EditorModel, name: Seq<char>, text: Seq<char>) -> EditorModel {
    let (e1, id) = output_in(e, name, text);
    shown(other_window_made(e1), id)
}

fn show_output(ed: &mut Editor, name: &str, text: &str)
    requires
        wf(old(ed)@),
        old(ed)@.next_buffer_id < usize::MAX,
        old(ed)@.windows.next_id < usize::MAX,
    ensures
        final(ed)@ == output_shown(old(ed)@, name@, text@),
        wf(final(ed)@),
{
    let ghost e = ed@;
    let mut i: usize = 0;
    while i < ed.buffers.len() && !same(ed.buffers[i].name.as_str(), name)
        invariant
            i <= ed.buffers@.len(),
            ed == old(ed),
            name_index(ed@.buffers, name@, 0) == name_index(ed@.buffers, name@, i as int),
        decreases ed.buffers@.len() - i,
    {
        assert(ed@.buffers[i as int] == ed.buffers@[i as int]@);
        i = i + 1;
    }
    let id: BufferId;
    if i < ed.buffers.len() {
        assert(ed@.buffers[i as int] == ed.buffers@[i as int]@);
        id = ed.buffers[i].id;
        let ghost b = BufferModel {
            text: text@,
            modified: false,
            read_only: true,
            ..e.buffers[i as int]
        };
        ed.buffers[i].rope = Rope::from_str(text);
        ed.buffers[i].modified = false;
        ed.buffers[i].read_only = true;
        proof {
            lemma_with_buffer_at(e, i as int, b);
            assert(ed@.buffers =~= e.buffers.update(i as int, b));
            assert(ed@ =~= output_in(e, name@, text@).0);
            assert(buf_ids(ed@.buffers)[i as int] == id);
        }
    } else {
        id = ed.next_buffer_id;
        let mut buf = Buffer::new(id, name, text);
        buf.read_only = true;
        ed.next_buffer_id = id + 1;
        ed.buffers.push(buf);
        ed.recency.push(id);
        proof {
            let b = BufferModel { read_only: true, ..fresh(id, name@, text@) };
            lemma_with_buffer(e, b);
            assert(ed@ =~= with_buffer(e, b));
        }
    }
    let ghost e1 = ed@;
    other_window_or_split(ed);
    ed.show_buffer(id);
}

/// What `similar::TextDiff::from_lines` and its unified diff give, with these
/// two labels in the header.
pub uninterp spec fn unified_diff(
    label_a: Seq<char>,
    text_a: Seq<char>,
    label_b: Seq<char>,
    text_b: Seq<char>,
) -> Seq<char>;

/// `similar::TextDiff::from_lines` of the two texts, its `unified_diff` with
/// the two labels as header, as a string. The result is named, and nothing
/// more is claimed of it.
#[verifier::external_body]
pub(crate) fn diff_lines(label_a: &str, text_a: &str, label_b: &str, text_b: &str) -> (r: String)
    ensures
        r@ == unified_diff(label_a@, text_a@, label_b@, text_b@),
{
    similar::TextDiff::from_lines(text_a, text_b).unified_diff().header(label_a, label_b).to_string()
}

/// The editor with a difference shown.
pub open spec fn diff_shown(e: EditorModel, diff: Seq<char>) -> EditorModel {
    output_shown(
        e,
        "*diff*"@,
        if diff.len() == 0 {
            "(no differences)"@
        } else {
            diff
        },
    )
}

/// Show a difference in another window.
pub fn show_diff(ed: &mut Editor, diff: &str)
    requires
        wf(old(ed)@),
        old(ed)@.next_buffer_id < usize::MAX,
        old(ed)@.windows.next_id < usize::MAX,
    ensures
        final(ed)@ == diff_shown(old(ed)@, diff@),
        wf(final(ed)@),
{
    if diff.is_empty() {
        show_output(ed, "*diff*", "(no differences)");
    } else {
        show_output(ed, "*diff*", diff);
    }
}

/// Compare a file with the one that was entered.
pub fn diff_against(ed: &Editor, from: String, other: &str) -> (r: PostAction)
    requires
        wf(ed@),
    ensures
        r@ == ActionModel::Outside(
            TaskModel::Diff { from: from@, other: resolved(ed@, other@) },
        ),
{
    PostAction::Outside(Task::Diff { from, other: ed.resolve_path(other) })
}

/// The texts of two files to compare.
pub open spec fn two_texts(r: Result<(String, String), String>) -> Result<
    (Seq<char>, Seq<char>),
    Seq<char>,
> {
    match r {
        Ok((a, b)) => Ok((a@, b@)),
        Err(m) => Err(m@),
    }
}

/// The editor after the two files were read, the other one first.
pub open spec fn diff_ended(
    e: EditorModel,
    from: Seq<char>,
    other: Seq<char>,
    texts: Result<(Seq<char>, Seq<char>), Seq<char>>,
) -> EditorModel {
    match texts {
        Ok((a, b)) => diff_shown(e, unified_diff(other, a, from, b)),
        Err(msg) => said(e, "Cannot diff: "@ + msg),
    }
}

/// The two files to compare were read (the other one first), or could not be.
pub fn diff_read(
    ed: &mut Editor,
    from: &str,
    other: &str,
    texts: Result<(String, String), String>,
)
    requires
        wf(old(ed)@),
        old(ed)@.next_buffer_id < usize::MAX,
        old(ed)@.windows.next_id < usize::MAX,
    ensures
        final(ed)@ == diff_ended(old(ed)@, from@, other@, two_texts(texts)),
        wf(final(ed)@),
{
    match texts {
        Ok((a, b)) => {
            let diff = diff_lines(other, a.as_str(), from, b.as_str());
            show_diff(ed, diff.as_str());
        },
        Err(msg) => ed.message(cat2("Cannot diff: ", msg.as_str()).as_str()),
    }
}

// ---- shell commands --------------------------------------------------------

/// Prompt for a shell command.
pub fn shell_command_cmd(ed: &mut Editor, _n: Option<u32>)
    requires
        wf(old(ed)@),
    ensures
        final(ed)@ == match listing_at(old(ed)@) {
            Some(_) => asked(
                old(ed)@,
                KindModel::DiredShell,
                "! on marked files (shell command): "@,
                Seq::empty(),
            ),
            None => not_dired(old(ed)@),
        },
        wf(final(ed)@),
{
    if let Mode::Dired(_) = &ed.cur_buffer().mode {
        ed.prompt(PromptKind::DiredShell, "! on marked files (shell command): ");
    } else {
        ed.message("Not a dired buffer");
    }
}

/// The files that a shell command is run on: the marked ones, else the one at
/// point.
pub open spec fn shell_targets(e: EditorModel) -> Seq<Seq<char>> {
    let marked = paths_marked(listing_at(e)->0.entries, '*');
    if marked.len() > 0 {
        marked
    } else {
        match entry_here(e) {
            Some(x) => seq![x.path],
            None => Seq::empty(),
        }
    }
}

/// A path between single quotes, for the shell.
pub open spec fn quoted(path: Seq<char>) -> Seq<char> {
    "'"@ + with_char_replaced(path, '\'', "'\\''"@) + "'"@
}

/// A command with its quoted targets behind it.
pub open spec fn shell_line(cmd: Seq<char>, targets: Seq<Seq<char>>) -> Seq<char> {
    cmd + " "@ + joined_with(Seq::new(targets.len(), |i: int| quoted(targets[i])), " "@)
}

fn quote(path: &str) -> (r: String)
    ensures
        r@ == quoted(path@),
{
    cat3("'", replace_char(path, '\'', "'\\''").as_str(), "'")
}

/// Run a shell command on the marked files (or the file at point).
pub fn run_shell(ed: &mut Editor, cmd: &str) -> (r: PostAction)
    requires
        wf(old(ed)@),
    ensures
        (final(ed)@, r@) == match listing_at(old(ed)@) {
            Some(_) => if shell_targets(old(ed)@).len() == 0 {
                (said(old(ed)@, "No files to operate on"@), ActionModel::Nothing)
            } else {
                (
                    old(ed)@,
                    ActionModel::Outside(
                        TaskModel::Shell(shell_line(cmd@, shell_targets(old(ed)@))),
                    ),
                )
            },
            None => (old(ed)@, ActionModel::Nothing),
        },
        wf(final(ed)@),
{
    let mut targets = match &ed.cur_buffer().mode {
        Mode::Dired(d) => collect_marked(&d.entries, '*'),
        Mode::Fundamental => {
            return PostAction::Nothing;
        },
    };
    assert(views(targets@).len() == targets@.len());
    if targets.len() == 0 {
        if let Some(x) = crate::dired::ops::entry_at_point(ed) {
            targets.push(x.path);
            assert(views(targets@) =~= seq![x@.path]);
        }
    }
    let ghost ts = shell_targets(ed@);
    assert(views(targets@) =~= ts);
    if targets.len() == 0 {
        ed.message("No files to operate on");
        return PostAction::Nothing;
    }
    let mut quotes: Vec<String> = Vec::new();
    for i in 0..targets.len()
        invariant
            views(targets@) == ts,
            views(quotes@) == Seq::new(ts.len(), |k: int| quoted(ts[k])).take(i as int),
    {
        let q = quote(targets[i].as_str());
        let ghost before = views(quotes@);
        quotes.push(q);
        assert(targets@[i as int]@ == ts[i as int]);
        assert(views(quotes@) =~= before.push(quoted(ts[i as int])));
        assert(views(quotes@) =~= Seq::new(ts.len(), |k: int| quoted(ts[k])).take(i + 1));
    }
    assert(views(quotes@) =~= Seq::new(ts.len(), |k: int| quoted(ts[k])));
    let full = cat3(cmd, " ", join_with(&quotes, " ").as_str());
    PostAction::Outside(Task::Shell(full))
}

/// What a program wrote and how it exited.
pub struct ShellOutput {
    pub stdout: String,
    pub stderr: String,
    pub status: String,
}

impl ShellOutput {
    /// What a program wrote, out of its bytes: not all of them need be text.
    pub fn from_bytes(stdout: &Vec<u8>, stderr: &Vec<u8>, status: String) -> (r: Self)
        ensures
            r.stdout@ == text_for(stdout@),
            r.stderr@ == text_for(stderr@),
            r.status@ == status@,
    {
        ShellOutput { stdout: to_text(stdout), stderr: to_text(stderr), status }
    }
}

/// The text shown for what a program wrote: its output, then its errors, and
/// how it exited where it wrote nothing.
pub open spec fn shell_text(
    full: Seq<char>,
    stdout: Seq<char>,
    stderr: Seq<char>,
    status: Seq<char>,
) -> Seq<char> {
    let text = if stderr.len() > 0 {
        stdout + "\n--- stderr ---\n"@ + stderr
    } else {
        stdout
    };
    if trimmed(text).len() == 0 {
        "("@ + full + " exited: "@ + status + ")"@
    } else {
        text
    }
}

/// The editor after a shell command ran, or could not be run.
pub open spec fn shell_ended(
    e: EditorModel,
    full: Seq<char>,
    out: Result<(Seq<char>, Seq<char>, Seq<char>), Seq<char>>,
) -> EditorModel {
    match out {
        Ok((stdout, stderr, status)) => output_shown(
            e,
            "*Shell Command Output*"@,
            shell_text(full, stdout, stderr, status),
        ),
        Err(msg) => said(e, "Shell command failed: "@ + msg),
    }
}

/// What a program wrote, or why it could not be run.
pub open spec fn shell_model(r: Result<ShellOutput, String>) -> Result<
    (Seq<char>, Seq<char>, Seq<char>),
    Seq<char>,
> {
    match r {
        Ok(o) => Ok((o.stdout@, o.stderr@, o.status@)),
        Err(m) => Err(m@),
    }
}

/// A shell command ran, or could not be run.
pub fn shell_done(ed: &mut Editor, full: &str, out: Result<ShellOutput, String>)
    requires
        wf(old(ed)@),
        old(ed)@.next_buffer_id < usize::MAX,
        old(ed)@.windows.next_id < usize::MAX,
    ensures
        final(ed)@ == shell_ended(old(ed)@, full@, shell_model(out)),
        wf(final(ed)@),
{
    match out {
        Ok(o) => {
            let mut text = copy(o.stdout.as_str());
            if !o.stderr.as_str().is_empty() {
                text.push_str("\n--- stderr ---\n");
                text.push_str(o.stderr.as_str());
            }
            if trim(text.as_str()).as_str().is_empty() {
                text = cat5("(", full, " exited: ", o.status.as_str(), ")");
            }
            show_output(ed, "*Shell Command Output*", text.as_str());
        },
        Err(msg) => ed.message(cat2("Shell command failed: ", msg.as_str()).as_str()),
    }
}

// ---- killing dired buffers -------------------------------------------------

/// The ids of the dired buffers.
pub open spec fn dired_ids(bs: Seq<BufferModel>) -> Seq<usize>
    decreases bs.len(),
{
    if bs.len() == 0 {
        Seq::empty()
    } else if bs.last().mode is Dired {
        dired_ids(bs.drop_last()).push(bs.last().id)
    } else {
        dired_ids(bs.drop_last())
    }
}

/// The editor with buffers removed one after the other.
pub open spec fn all_removed(e: EditorModel, gone: Seq<usize>) -> EditorModel
    decreases gone.len(),
{
    if gone.len() == 0 {
        e
    } else {
        buffer_removed(all_removed(e, gone.drop_last()), gone.last())
    }
}

/// Whether a buffer id is left to be given out at each removal.
pub open spec fn can_remove_all(e: EditorModel, gone: Seq<usize>) -> bool
    decreases gone.len(),
{
    gone.len() == 0 || {
        &&& can_remove_all(e, gone.drop_last())
        &&& all_removed(e, gone.drop_last()).next_buffer_id < usize::MAX
    }
}

/// The editor after the dired buffers are killed.
pub open spec fn dired_killed(e: EditorModel) -> EditorModel {
    let gone = dired_ids(e.buffers);
    said(
        all_removed(e, gone),
        "Killed "@ + decimal(gone.len()) + " dired buffer"@ + plural(gone.len() as int),
    )
}

proof fn lemma_can_remove_prefix(e: EditorModel, gone: Seq<usize>, k: int)
    requires
        can_remove_all(e, gone),
        0 <= k <= gone.len(),
    ensures
        can_remove_all(e, gone.take(k)),
    decreases gone.len(),
{
    if k == gone.len() {
        assert(gone.take(k) =~= gone);
    } else {
        lemma_can_remove_prefix(e, gone.drop_last(), k);
        assert(gone.drop_last().take(k) =~= gone.take(k));
    }
}

proof fn lemma_removals(e: EditorModel, gone: Seq<usize>)
    requires
        wf(e),
        e.next_buffer_id < usize::MAX,
        gone.no_duplicates(),
        gone.len() <= e.buffers.len(),
        forall|i: int| 0 <= i < gone.len() ==> has_buffer(e.buffers, #[trigger] gone[i]),
    ensures
        can_remove_all(e, gone),
        wf(all_removed(e, gone)),
        gone.len() < e.buffers.len() ==> {
            &&& all_removed(e, gone).next_buffer_id == e.next_buffer_id
            &&& all_removed(e, gone).buffers.len() == e.buffers.len() - gone.len()
            &&& forall|x: usize| #[trigger]
                has_buffer(all_removed(e, gone).buffers, x) <==> has_buffer(e.buffers, x)
                    && !gone.contains(x)
        },
    decreases gone.len(),
{
    if gone.len() > 0 {
        let before = gone.drop_last();
        let id = gone.last();
        assert(before.no_duplicates()) by {
            assert forall|i: int, j: int|
                0 <= i < before.len() && 0 <= j < before.len() && i != j implies before[i]
                != before[j] by {
                assert(gone[i] != gone[j]);
            }
        }
        assert forall|i: int| 0 <= i < before.len() implies has_buffer(
            e.buffers,
            #[trigger] before[i],
        ) by {
            assert(before[i] == gone[i]);
        }
        lemma_removals(e, before);
        let f = all_removed(e, before);
        assert(gone =~= before.push(id));
        assert(!before.contains(id)) by {
            if before.contains(id) {
                let i = before.index_of(id);
                assert(gone[i] == gone[gone.len() - 1]);
            }
        }
        assert(has_buffer(e.buffers, gone[gone.len() - 1]));
        assert(has_buffer(f.buffers, id));
        lemma_buffer_removed(f, id);
        lemma_buf_index(f.buffers, id);
        assert(buf_ids(f.buffers).no_duplicates()) by {
            reveal(wf);
        }
        lemma_without_buffer(f.buffers, id);
        if gone.len() < e.buffers.len() {
            let r = all_removed(e, gone);
            assert(r.buffers == without_buffer(f.buffers, id));
            assert forall|x: usize| #[trigger] has_buffer(r.buffers, x) <==> has_buffer(
                e.buffers,
                x,
            ) && !gone.contains(x) by {
                assert(has_buffer(f.buffers, x) <==> has_buffer(e.buffers, x) && !before.contains(
                    x,
                ));
                if gone.contains(x) && x != id {
                    let i = gone.index_of(x);
                    assert(before[i] == x);
                }
                if before.contains(x) {
                    let i = before.index_of(x);
                    assert(gone[i] == x);
                }
            }
        }
    }
}

proof fn lemma_dired_ids(bs: Seq<BufferModel>)
    requires
        buf_ids(bs).no_duplicates(),
    ensures
        dired_ids(bs).len() <= bs.len(),
        dired_ids(bs).no_duplicates(),
        forall|i: int| 0 <= i < dired_ids(bs).len() ==> has_buffer(bs, #[trigger] dired_ids(bs)[i]),
    decreases bs.len(),
{
    if bs.len() > 0 {
        let t = bs.drop_last();
        let all = buf_ids(bs);
        assert(buf_ids(t) =~= all.drop_last());
        lemma_dired_ids(t);
        let r = dired_ids(t);
        assert forall|x: usize| has_buffer(t, x) implies #[trigger] has_buffer(bs, x) && x
            != bs.last().id by {
            let k = buf_ids(t).index_of(x);
            assert(all[k] == x);
            assert(all[bs.len() - 1] == bs.last().id);
        }
        assert(has_buffer(bs, bs.last().id)) by {
            assert(all[bs.len() - 1] == bs.last().id);
        }
        assert forall|i: int| 0 <= i < r.len() implies has_buffer(bs, #[trigger] r[i]) && r[i]
            != bs.last().id by {
            assert(has_buffer(t, r[i]));
        }
    }
}

/// All dired buffers can be removed one after the other: a buffer is made only
/// where the last one goes.
proof fn lemma_dired_removable(e: EditorModel)
    requires
        wf(e),
        e.next_buffer_id < usize::MAX,
    ensures
        can_remove_all(e, dired_ids(e.buffers)),
{
    assert(buf_ids(e.buffers).no_duplicates()) by {
        reveal(wf);
    }
    lemma_dired_ids(e.buffers);
    lemma_removals(e, dired_ids(e.buffers));
}

/// Kill all dired buffers.
pub fn kill_all_cmd(ed: &mut Editor, _n: Option<u32>)
    requires
        wf(old(ed)@),
        old(ed)@.next_buffer_id < usize::MAX,
    ensures
        final(ed)@ == dired_killed(old(ed)@),
        wf(final(ed)@),
{
    let ghost e = ed@;
    proof {
        lemma_dired_removable(e);
    }
    let mut gone: Vec<BufferId> = Vec::new();
    let mut i: usize = 0;
    assert(e.buffers.take(0) =~= Seq::<BufferModel>::empty());
    while i < ed.buffers.len()
        invariant
            i <= ed.buffers@.len(),
            ed == old(ed),
            ed@ == e,
            gone@ == dired_ids(e.buffers.take(i as int)),
        decreases ed.buffers@.len() - i,
    {
        assert(e.buffers.take(i + 1).drop_last() =~= e.buffers.take(i as int));
        assert(e.buffers.take(i + 1).last() == ed.buffers@[i as int]@);
        if let Mode::Dired(_) = &ed.buffers[i].mode {
            gone.push(ed.buffers[i].id);
        }
        i = i + 1;
    }
    assert(e.buffers.take(e.buffers.len() as int) =~= e.buffers);
    let n: usize = gone.len();
    let mut k: usize = 0;
    assert(gone@.take(0) =~= Seq::<usize>::empty());
    while k < n
        invariant
            k <= n,
            n == gone@.len(),
            wf(ed@),
            ed@ == all_removed(e, gone@.take(k as int)),
            can_remove_all(e, gone@),
        decreases n - k,
    {
        proof {
            lemma_can_remove_prefix(e, gone@, k + 1);
            assert(gone@.take(k + 1).drop_last() =~= gone@.take(k as int));
            assert(gone@.take(k + 1).last() == gone@[k as int]);
        }
        ed.remove_buffer(gone[k]);
        k = k + 1;
    }
    assert(gone@.take(n as int) =~= gone@);
    let msg = cat4("Killed ", decimal_string(n).as_str(), " dired buffer", plural_of(n));
    ed.message(msg.as_str());
}

// ---- laws ------------------------------------------------------------------

proof fn lemma_dired_id(bs: Seq<BufferModel>, i: int)
    requires
        0 <= i < bs.len(),
        bs[i].mode is Dired,
    ensures
        dired_ids(bs).contains(bs[i].id),
    decreases bs.len(),
{
    if i < bs.len() - 1 {
        lemma_dired_id(bs.drop_last(), i);
        let rest = dired_ids(bs.drop_last());
        let k = rest.index_of(bs[i].id);
        assert(dired_ids(bs)[k] == bs[i].id);
    } else {
        assert(dired_ids(bs).last() == bs[i].id);
    }
}

proof fn lemma_dired_left(e: EditorModel, gone: Seq<usize>)
    requires
        wf(e),
        can_remove_all(e, gone),
    ensures
        wf(all_removed(e, gone)),
        forall|i: int|
            0 <= i < all_removed(e, gone).buffers.len() && (#[trigger] all_removed(
                e,
                gone,
            ).buffers[i]).mode is Dired ==> e.buffers.contains(all_removed(e, gone).buffers[i])
                && !gone.contains(all_removed(e, gone).buffers[i].id),
    decreases gone.len(),
{
    if gone.len() > 0 {
        let before = gone.drop_last();
        let id = gone.last();
        lemma_dired_left(e, before);
        let f = all_removed(e, before);
        let r = all_removed(e, gone);
        lemma_buffer_removed(f, id);
        lemma_buf_index(f.buffers, id);
        let bs = without_buffer(f.buffers, id);
        reveal(wf);
        assert forall|i: int|
            0 <= i < r.buffers.len() && (#[trigger] r.buffers[i]).mode is Dired implies e.buffers.contains(
            r.buffers[i],
        ) && !gone.contains(r.buffers[i].id) by {
            assert(bs.len() > 0);
            assert(r.buffers == bs);
            let k = buf_index(f.buffers, id);
            let j = if has_buffer(f.buffers, id) && i >= k {
                i + 1
            } else {
                i
            };
            assert(r.buffers[i] == f.buffers[j]);
            assert(f.buffers[j].id != id) by {
                if f.buffers[j].id == id {
                    assert(buf_ids(f.buffers)[j] == id);
                    assert(has_buffer(f.buffers, id));
                    assert(buf_ids(f.buffers)[k] == id);
                }
            }
            assert(gone =~= before.push(id));
            if gone.contains(f.buffers[j].id) {
                let m = gone.index_of(f.buffers[j].id);
                assert(before[m] == f.buffers[j].id);
            }
        }
    }
}

/// Killing the dired buffers leaves none.
pub proof fn law_no_dired_left(e: EditorModel)
    requires
        wf(e),
        e.next_buffer_id < usize::MAX,
    ensures
        wf(dired_killed(e)),
        forall|i: int|
            0 <= i < dired_killed(e).buffers.len() ==> !((#[trigger] dired_killed(
                e,
            ).buffers[i]).mode is Dired),
{
    let gone = dired_ids(e.buffers);
    let r = all_removed(e, gone);
    lemma_dired_removable(e);
    lemma_dired_left(e, gone);
    lemma_wf_same(r, dired_killed(e));
    assert forall|i: int| 0 <= i < r.buffers.len() implies !((#[trigger] r.buffers[i]).mode is Dired) by {
        if r.buffers[i].mode is Dired {
            let j = e.buffers.index_of(r.buffers[i]);
            lemma_dired_id(e.buffers, j);
        }
    }
    assert(dired_killed(e).buffers == r.buffers);
}

} // verus!
