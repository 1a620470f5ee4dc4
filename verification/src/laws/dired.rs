//! What the commands of a directory listing do.

use crate::buffer::{BufferModel, ModeModel};
use crate::commands::movement::{at_column, goal_of, line_down};
use crate::commands::run::native_done;
use crate::dired::files::{count_true, paths_marked, regexp_hits};
use crate::dired::listing::{entry_row, entry_text, listing_of, name_column, widths};
use crate::dired::ops::{
    entries_changed, entry_marked, listing_as, listing_at, marked_where, old_mark, refreshed,
    unmarked, with_old_marks,
};
use crate::dired::state::{DiredModel, EntryModel};
use crate::dispatch::chord_handled;
use crate::editor::{
    at_point, cur_buf, cur_point, cur_win, edit_cur, lemma_cur, lemma_with_buf, moved, wf, with_buf,
    EditorModel,
};
use crate::input::{ActionModel, InputModel, KindModel, TaskModel, YesNoModel};
use crate::laws::frame::{lemma_here_chain, lemma_here_same, lemma_put_here, only_here, plain};
use crate::laws::table::{
    lemma_dired_delete_commands, lemma_dired_files_commands, lemma_dired_listing_commands,
    lemma_dired_mark_commands, lemma_dired_visit_commands,
};
use crate::lines::{
    end_at, lemma_line_around, lemma_line_begin, lemma_line_ends, line_begin, line_count, line_of,
    min,
};
use crate::minibuffer::completed;
use crate::native::NativeCmd;
use crate::paths::{parent_of, resolved};
use crate::regexes::{regex_error, regex_is_match};
use crate::strings::decimal;
use vstd::prelude::*;

verus! {

/// Whether the current buffer lists a directory.
pub open spec fn listing(e: EditorModel, d: DiredModel) -> bool {
    cur_buf(e).mode == ModeModel::Dired(d)
}

/// Whether the current buffer lists a directory and point is on the line of entry
/// `i`: the header is above the first one.
pub open spec fn on_entry(e: EditorModel, d: DiredModel, i: int) -> bool {
    &&& listing(e, d)
    &&& 0 <= i < d.entries.len()
    &&& line_of(cur_buf(e).text, cur_point(e)) == i + 1
}

/// Whether a yes/no prompt is up that deletes exactly some paths on y, and
/// nothing on n.
pub open spec fn asks_to_delete(e: EditorModel, r: EditorModel, paths: Seq<Seq<char>>) -> bool {
    let (y, ya) = chord_handled(r, plain('y'));
    let (n, na) = chord_handled(r, plain('n'));
    &&& r == (EditorModel { input: r.input, ..e })
    &&& r.input is Prompt
    &&& y == (EditorModel { input: InputModel::Normal, echo: None, ..e })
    &&& ya == ActionModel::Outside(TaskModel::Delete(paths))
    &&& n == (EditorModel { input: InputModel::Normal, echo: Some("Cancelled"@), ..e })
    &&& na is Nothing
}

/// The paths of the entries with a mark, in order.
pub open spec fn paths_with(s: Seq<EntryModel>, mark: char) -> Seq<Seq<char>> {
    s.filter(|x: EntryModel| x.mark == mark).map_values(|x: EntryModel| x.path)
}

proof fn lemma_paths_marked(s: Seq<EntryModel>, mark: char)
    ensures
        paths_marked(s, mark) == paths_with(s, mark),
        forall|p: Seq<char>| #[trigger]
            paths_marked(s, mark).contains(p) <==> exists|i: int|
                0 <= i < s.len() && (#[trigger] s[i]).path == p && s[i].mark == mark,
    decreases s.len(),
{
    reveal(Seq::filter);
    let f = |x: EntryModel| x.mark == mark;
    let all = paths_marked(s, mark);
    if s.len() > 0 {
        let t = s.drop_last();
        let before = paths_marked(t, mark);
        lemma_paths_marked(t, mark);
        assert(all =~= paths_with(s, mark));
        assert forall|p: Seq<char>| #[trigger] all.contains(p) <==> exists|i: int|
            0 <= i < s.len() && (#[trigger] s[i]).path == p && s[i].mark == mark by {
            let last = s.len() - 1;
            if all.contains(p) {
                if s.last().mark == mark && p == s.last().path {
                    assert(s[last].path == p);
                } else {
                    let k = all.index_of(p);
                    assert(before[k] == p);
                    assert(before.contains(p));
                    let i = choose|i: int|
                        0 <= i < t.len() && (#[trigger] t[i]).path == p && t[i].mark == mark;
                    assert(s[i] == t[i]);
                }
            }
            if exists|i: int| 0 <= i < s.len() && (#[trigger] s[i]).path == p && s[i].mark == mark {
                let i = choose|i: int|
                    0 <= i < s.len() && (#[trigger] s[i]).path == p && s[i].mark == mark;
                if i < last {
                    assert(t[i] == s[i]);
                    assert(before.contains(p));
                    let k = before.index_of(p);
                    assert(all[k] == p);
                } else {
                    assert(all.last() == p);
                }
            }
        }
    } else {
        assert(all =~= paths_with(s, mark));
    }
}

/// x asks to delete the files flagged with D, all of them and no others, in the
/// order of the listing; y deletes them and n does not. Where none is flagged it
/// only says so.
pub proof fn law_flagged_deleted(e: EditorModel, d: DiredModel, n: Option<u32>)
    requires
        listing(e, d),
    ensures
        ({
            let (r, a) = native_done(e, NativeCmd::DiredDoFlaggedDelete, n);
            let paths = paths_with(d.entries, 'D');
            &&& a is Nothing
            &&& paths.len() > 0 ==> asks_to_delete(e, r, paths)
            &&& paths.len() == 0 ==> r == (EditorModel { echo: r.echo, ..e })
            &&& forall|p: Seq<char>| #[trigger]
                paths.contains(p) <==> exists|i: int|
                    0 <= i < d.entries.len() && (#[trigger] d.entries[i]).path == p
                        && d.entries[i].mark == 'D'
        }),
{
    lemma_dired_delete_commands(e, n);
    lemma_paths_marked(d.entries, 'D');
    let r = native_done(e, NativeCmd::DiredDoFlaggedDelete, n).0;
    let paths = paths_with(d.entries, 'D');
    if paths.len() > 0 {
        lemma_yes_no(e, r, paths);
    }
}

proof fn lemma_yes_no(e: EditorModel, r: EditorModel, paths: Seq<Seq<char>>)
    requires
        r == (EditorModel { input: r.input, ..e }),
        match r.input {
            InputModel::Prompt(p) => p.kind == KindModel::YesNo(YesNoModel::DiredDelete(paths)),
            _ => false,
        },
    ensures
        asks_to_delete(e, r, paths),
{
    let y = chord_handled(r, plain('y')).0;
    let n = chord_handled(r, plain('n')).0;
    assert(y =~= EditorModel { input: InputModel::Normal, echo: None, ..e });
    assert(n =~= EditorModel { input: InputModel::Normal, echo: Some("Cancelled"@), ..e });
}

/// D asks to delete the file at point and no other, marks or not; the parent
/// entry is refused.
pub proof fn law_delete_at_point(e: EditorModel, d: DiredModel, i: int, n: Option<u32>)
    requires
        on_entry(e, d, i),
    ensures
        ({
            let (r, a) = native_done(e, NativeCmd::DiredDoDelete, n);
            &&& a is Nothing
            &&& d.entries[i].name != ".."@ ==> asks_to_delete(e, r, seq![d.entries[i].path])
            &&& d.entries[i].name == ".."@ ==> r == (EditorModel { echo: r.echo, ..e })
        }),
{
    lemma_dired_delete_commands(e, n);
    let r = native_done(e, NativeCmd::DiredDoDelete, n).0;
    if d.entries[i].name != ".."@ {
        lemma_yes_no(e, r, seq![d.entries[i].path]);
    }
}

/// A shell command is run on the files marked with *, all of them and no others,
/// in the order of the listing; where none is marked, on the one at point; where
/// there is none, on nothing.
pub proof fn law_shell_on_marked(e: EditorModel, d: DiredModel, cmd: Seq<char>)
    requires
        listing(e, d),
    ensures
        ({
            let (r, a) = completed(e, KindModel::DiredShell, cmd);
            let paths = paths_with(d.entries, '*');
            let line = line_of(cur_buf(e).text, cur_point(e));
            &&& paths.len() > 0 ==> r == e && a == ActionModel::Outside(
                TaskModel::Shell(crate::dired::files::shell_line(cmd, paths)),
            )
            &&& paths.len() == 0 && 1 <= line <= d.entries.len() ==> r == e && a
                == ActionModel::Outside(
                TaskModel::Shell(
                    crate::dired::files::shell_line(cmd, seq![d.entries[line - 1].path]),
                ),
            )
            &&& paths.len() == 0 && !(1 <= line <= d.entries.len()) ==> a is Nothing
            &&& forall|p: Seq<char>| #[trigger]
                paths.contains(p) <==> exists|i: int|
                    0 <= i < d.entries.len() && (#[trigger] d.entries[i]).path == p
                        && d.entries[i].mark == '*'
        }),
{
    lemma_paths_marked(d.entries, '*');
}

// ---- marks -----------------------------------------------------------------

/// Whether an editor is another one with other entries in its listing, shown in
/// its text, and nothing changed elsewhere.
pub open spec fn lists_instead(
    e: EditorModel,
    r: EditorModel,
    d: DiredModel,
    entries: Seq<EntryModel>,
) -> bool {
    &&& listing(r, DiredModel { entries, name_col: name_column(widths(entries)), ..d })
    &&& cur_buf(r).text == listing_of(d.dir, entries)
    &&& cur_buf(r).read_only
    &&& !cur_buf(r).modified
    &&& only_here(e, r)
    &&& r.input == e.input
}

proof fn lemma_relisted(e: EditorModel, d: DiredModel, entries: Seq<EntryModel>)
    requires
        wf(e),
        listing(e, d),
    ensures
        ({
            let r = entries_changed(e, entries);
            let t = listing_of(d.dir, entries);
            let l = min(line_of(cur_buf(e).text, cur_point(e)), line_count(t) - 1);
            &&& wf(r)
            &&& lists_instead(e, r, d, entries)
            &&& cur_win(r).point == line_begin(t, l) as usize
            &&& r == (EditorModel { buffers: r.buffers, windows: r.windows, ..e })
            &&& forall|i: int|
                0 <= i < e.buffers.len() ==> (#[trigger] r.buffers[i]).id == e.buffers[i].id
        }),
{
    let d1 = DiredModel { entries, ..d };
    let b1 = listing_as(cur_buf(e), d1);
    lemma_with_buf(e, b1);
    lemma_cur(e);
    let e1 = with_buf(e, b1);
    lemma_put_here(e, cur_win(e), b1);
    let t = listing_of(d.dir, entries);
    let l = min(line_of(cur_buf(e).text, cur_point(e)), line_count(t) - 1);
    let b2 = BufferModel {
        text: t,
        modified: false,
        read_only: true,
        mode: ModeModel::Dired(DiredModel { name_col: name_column(widths(entries)), ..d1 }),
        ..b1
    };
    assert(cur_point(e1) == cur_point(e));
    lemma_put_here(e1, at_point(e1, line_begin(t, l)), b2);
    assert(entries_changed(e, entries) == edit_cur(e1, line_begin(t, l), b2));
    lemma_here_chain(e, e1, entries_changed(e, entries));
}

/// Marking, flagging and unmarking change the mark of the entry at point and
/// nothing else of the listing, show it, and put point on the next line; the
/// parent entry is refused.
pub proof fn law_marks_one(e: EditorModel, d: DiredModel, i: int, c: NativeCmd, n: Option<u32>)
    requires
        wf(e),
        on_entry(e, d, i),
        c == NativeCmd::DiredMark || c == NativeCmd::DiredFlagDeletion || c
            == NativeCmd::DiredUnmark,
        listing_of(
            d.dir,
            d.entries.update(
                i,
                EntryModel {
                    mark: (match c {
                        NativeCmd::DiredMark => '*',
                        NativeCmd::DiredFlagDeletion => 'D',
                        _ => ' ',
                    }),
                    ..d.entries[i]
                },
            ),
        ).len() <= usize::MAX,
    ensures
        ({
            let (r, a) = native_done(e, c, n);
            let mark = match c {
                NativeCmd::DiredMark => '*',
                NativeCmd::DiredFlagDeletion => 'D',
                _ => ' ',
            };
            let entries = d.entries.update(i, EntryModel { mark, ..d.entries[i] });
            let t = listing_of(d.dir, entries);
            let l = min(i + 2, line_count(t) - 1);
            &&& a is Nothing
            &&& d.entries[i].name == ".."@ ==> r == (EditorModel { echo: r.echo, ..e })
            &&& d.entries[i].name != ".."@ ==> {
                &&& lists_instead(e, r, d, entries)
                &&& line_begin(t, l) <= cur_win(r).point <= end_at(t, line_begin(t, l))
            }
        }),
{
    lemma_dired_mark_commands(e, n);
    let mark = match c {
        NativeCmd::DiredMark => '*',
        NativeCmd::DiredFlagDeletion => 'D',
        _ => ' ',
    };
    let entries = d.entries.update(i, EntryModel { mark, ..d.entries[i] });
    let r = native_done(e, c, n).0;
    assert(r == entry_marked(e, mark));
    if d.entries[i].name != ".."@ {
        let t = listing_of(d.dir, entries);
        lemma_relisted(e, d, entries);
        let m = entries_changed(e, entries);
        let k = min(i + 1, line_count(t) - 1);
        lemma_line_around(t, 0);
        lemma_line_begin(t, k);
        assert(cur_point(m) == line_begin(t, k));
        let l = min(line_of(t, cur_point(m)) + 1, line_count(t) - 1);
        assert(l == min(i + 2, line_count(t) - 1));
        lemma_line_begin(t, l);
        lemma_line_ends(t, line_begin(t, l));
        let p = at_column(t, l, goal_of(m));
        lemma_put_here(m, at_point(m, p), cur_buf(m));
        assert(r == line_down(m, None));
        lemma_here_same(m, moved(m, p), r);
        lemma_here_chain(e, m, r);
    }
}

/// Unmarking all takes every mark off, and changes nothing else of the listing.
pub proof fn law_unmarks_all(e: EditorModel, d: DiredModel, n: Option<u32>)
    requires
        wf(e),
        listing(e, d),
    ensures
        ({
            let (r, a) = native_done(e, NativeCmd::DiredUnmarkAll, n);
            &&& a is Nothing
            &&& lists_instead(
                e,
                r,
                d,
                d.entries.map_values(|x: EntryModel| EntryModel { mark: ' ', ..x }),
            )
        }),
{
    lemma_dired_mark_commands(e, n);
    let entries = d.entries.map_values(|x: EntryModel| EntryModel { mark: ' ', ..x });
    assert(entries =~= unmarked(d.entries));
    lemma_relisted(e, d, entries);
}

/// Marking by a regexp marks the entries whose name matches, but never the parent
/// entry, changes nothing else of the listing, and tells how many there were.
pub proof fn law_regexp_marks(e: EditorModel, d: DiredModel, pattern: Seq<char>)
    requires
        wf(e),
        listing(e, d),
    ensures
        ({
            let (r, a) = completed(e, KindModel::DiredMarkRegex, pattern);
            let hit = |x: EntryModel| x.name != ".."@ && regex_is_match(pattern, x.name);
            &&& a is Nothing
            &&& regex_error(pattern) is Some ==> r == (EditorModel { echo: r.echo, ..e })
            &&& regex_error(pattern) is None ==> {
                &&& lists_instead(
                    e,
                    r,
                    d,
                    d.entries.map_values(
                        |x: EntryModel|
                            if hit(x) {
                                EntryModel { mark: '*', ..x }
                            } else {
                                x
                            },
                    ),
                )
                &&& r.echo == Some(decimal(d.entries.filter(hit).len()) + " files marked"@)
            }
        }),
{
    if regex_error(pattern) is None {
        let hit = |x: EntryModel| x.name != ".."@ && regex_is_match(pattern, x.name);
        let hits = regexp_hits(d.entries, pattern);
        let entries = d.entries.map_values(
            |x: EntryModel|
                if hit(x) {
                    EntryModel { mark: '*', ..x }
                } else {
                    x
                },
        );
        assert(entries =~= marked_where(d.entries, hits));
        lemma_relisted(e, d, entries);
        lemma_hit_count(d.entries, pattern);
        let r = completed(e, KindModel::DiredMarkRegex, pattern).0;
        assert(r.buffers == entries_changed(e, entries).buffers);
        assert(r.windows == entries_changed(e, entries).windows);
    }
}

proof fn lemma_hit_count(s: Seq<EntryModel>, pattern: Seq<char>)
    ensures
        count_true(regexp_hits(s, pattern)) == s.filter(
            |x: EntryModel| x.name != ".."@ && regex_is_match(pattern, x.name),
        ).len(),
    decreases s.len(),
{
    reveal(Seq::filter);
    if s.len() > 0 {
        lemma_hit_count(s.drop_last(), pattern);
        assert(regexp_hits(s, pattern).drop_last() =~= regexp_hits(s.drop_last(), pattern));
    }
}

/// Listing the directory again shows what is there now, and keeps the marks of
/// the names that were there before; a failure is told and changes no text.
pub proof fn law_refresh_keeps_marks(
    e: EditorModel,
    d: DiredModel,
    l: Result<Seq<EntryModel>, Seq<char>>,
    i: int,
    j: int,
)
    requires
        wf(e),
        listing(e, d),
        forall|a: int, b: int|
            0 <= a < b < d.entries.len() ==> (#[trigger] d.entries[a]).name != (
            #[trigger] d.entries[b]).name,
    ensures
        match l {
            Ok(s) => {
                let r = refreshed(e, l);
                let now = listing_at(r)->0.entries;
                &&& lists_instead(e, r, d, now)
                &&& now.len() == s.len()
                &&& 0 <= i < s.len() ==> now[i] == (EntryModel { mark: now[i].mark, ..s[i] })
                &&& 0 <= i < s.len() && 0 <= j < d.entries.len() && d.entries[j].name == s[i].name
                    ==> now[i].mark == d.entries[j].mark
                &&& 0 <= i < s.len() && (forall|k: int|
                    0 <= k < d.entries.len() ==> (#[trigger] d.entries[k]).name != s[i].name)
                    ==> now[i].mark == s[i].mark
            },
            Err(msg) => refreshed(e, l) == (EditorModel { echo: Some(msg), ..e }),
        },
{
    if let Ok(s) = l {
        let entries = with_old_marks(s, d.entries);
        lemma_relisted(e, d, entries);
        assert(refreshed(e, l) == entries_changed(e, entries));
        if 0 <= i < s.len() {
            if forall|k: int| 0 <= k < d.entries.len() ==> (#[trigger] d.entries[k]).name != s[i].name {
                lemma_old_mark(d.entries, s[i].name, 0);
            }
            if 0 <= j < d.entries.len() && d.entries[j].name == s[i].name {
                lemma_old_mark_at(d.entries, s[i].name, 0, j);
            }
        }
    }
}

proof fn lemma_old_mark(s: Seq<EntryModel>, name: Seq<char>, i: int)
    requires
        0 <= i <= s.len(),
        forall|k: int| i <= k < s.len() ==> (#[trigger] s[k]).name != name,
    ensures
        old_mark(s, name, i) is None,
    decreases s.len() - i,
{
    if i < s.len() {
        lemma_old_mark(s, name, i + 1);
    }
}

proof fn lemma_old_mark_at(s: Seq<EntryModel>, name: Seq<char>, i: int, j: int)
    requires
        0 <= i <= j < s.len(),
        s[j].name == name,
        forall|a: int, b: int|
            0 <= a < b < s.len() ==> (#[trigger] s[a]).name != (#[trigger] s[b]).name,
    ensures
        old_mark(s, name, i) == Some(s[j].mark),
    decreases j - i,
{
    if i < j {
        assert(s[i].name != s[j].name);
        lemma_old_mark_at(s, name, i + 1, j);
    }
}

/// The line of an entry begins with its mark and ends with its name.
pub proof fn law_row_shows_mark(x: EntryModel, w: (int, int, int, int))
    ensures
        ({
            let row = entry_row(x, w);
            &&& row.len() >= 2 + x.name.len()
            &&& row[0] == x.mark
            &&& row[1] == ' '
            &&& row.skip(row.len() - x.name.len()) == x.name
        }),
{
    let t = entry_text(x, w);
    let row = entry_row(x, w);
    assert(t[1] == x.mark);
    assert(t[2] == ' ');
    assert(row.skip(row.len() - x.name.len()) =~= x.name);
}

// ---- single files ----------------------------------------------------------

/// R, C, = and Z work on the file at point: R and C ask for a name, and entering
/// one renames or copies that file to it, = compares that file with the one
/// entered, and Z packs that file. R, C and Z refuse the parent entry.
pub proof fn law_file_at_point(
    e: EditorModel,
    d: DiredModel,
    i: int,
    n: Option<u32>,
    input: Seq<char>,
)
    requires
        on_entry(e, d, i),
        e.input is Normal,
    ensures
        ({
            let x = d.entries[i];
            let (ren, ra) = native_done(e, NativeCmd::DiredDoRename, n);
            let (cop, ca) = native_done(e, NativeCmd::DiredDoCopy, n);
            let (dif, da) = native_done(e, NativeCmd::DiredDiff, n);
            let (zip, za) = native_done(e, NativeCmd::DiredCompress, n);
            &&& ra is Nothing && ca is Nothing && da is Nothing
            &&& x.name != ".."@ ==> {
                &&& answers(
                    e,
                    ren,
                    input,
                    TaskModel::Rename { from: x.path, to: resolved(e, input) },
                )
                &&& answers(e, cop, input, TaskModel::Copy { from: x.path, to: resolved(e, input) })
                &&& zip == e
                &&& za == ActionModel::Outside(
                    TaskModel::Compress { path: x.path, is_dir: x.is_dir },
                )
            }
            &&& x.name == ".."@ ==> {
                &&& ren == (EditorModel { echo: ren.echo, ..e })
                &&& cop == (EditorModel { echo: cop.echo, ..e })
                &&& zip == (EditorModel { echo: zip.echo, ..e })
                &&& za is Nothing
            }
            &&& answers(e, dif, input, TaskModel::Diff { from: x.path, other: resolved(e, input) })
        }),
{
    lemma_dired_files_commands(e, n);
    let x = d.entries[i];
    let ren = native_done(e, NativeCmd::DiredDoRename, n).0;
    let cop = native_done(e, NativeCmd::DiredDoCopy, n).0;
    let dif = native_done(e, NativeCmd::DiredDiff, n).0;
    if x.name != ".."@ {
        lemma_answers(
            e,
            ren,
            input,
            TaskModel::Rename { from: x.path, to: resolved(e, input) },
        );
        lemma_answers(
            e,
            cop,
            input,
            TaskModel::Copy { from: x.path, to: resolved(e, input) },
        );
    }
    lemma_answers(e, dif, input, TaskModel::Diff { from: x.path, other: resolved(e, input) });
}

/// Whether a prompt was put up, and submitting it with some input leaves a task
/// to do and nothing else changed.
pub open spec fn answers(
    e: EditorModel,
    r: EditorModel,
    input: Seq<char>,
    task: TaskModel,
) -> bool {
    match r.input {
        InputModel::Prompt(p) => {
            &&& r == (EditorModel { input: r.input, ..e })
            &&& completed(EditorModel { input: InputModel::Normal, ..r }, p.kind, input) == (
                e,
                ActionModel::Outside(task),
            )
        },
        _ => false,
    }
}

proof fn lemma_answers(e: EditorModel, r: EditorModel, input: Seq<char>, task: TaskModel)
    requires
        e.input is Normal,
        r == (EditorModel { input: r.input, ..e }),
        match r.input {
            InputModel::Prompt(p) => completed(e, p.kind, input) == (
                e,
                ActionModel::Outside(task),
            ),
            _ => false,
        },
    ensures
        answers(e, r, input, task),
{
    assert(EditorModel { input: InputModel::Normal, ..r } =~= e);
}

/// + asks for a name and makes that directory.
pub proof fn law_makes_directory(e: EditorModel, n: Option<u32>, input: Seq<char>)
    requires
        e.input is Normal,
    ensures
        answers(
            e,
            native_done(e, NativeCmd::DiredCreateDirectory, n).0,
            input,
            TaskModel::MakeDir(resolved(e, input)),
        ),
{
    lemma_dired_files_commands(e, n);
    lemma_answers(
        e,
        native_done(e, NativeCmd::DiredCreateDirectory, n).0,
        input,
        TaskModel::MakeDir(resolved(e, input)),
    );
}

/// RET opens the directory at point, or visits the file at point; ^ opens the
/// parent of the listed directory. Neither changes the editor by itself.
pub proof fn law_visits(e: EditorModel, d: DiredModel, i: int, n: Option<u32>)
    requires
        on_entry(e, d, i),
    ensures
        native_done(e, NativeCmd::DiredFindFile, n) == (
            e,
            ActionModel::Outside(
                if d.entries[i].is_dir {
                    TaskModel::OpenDired { dir: d.entries[i].path, goto: None }
                } else {
                    TaskModel::Visit(d.entries[i].path)
                },
            ),
        ),
        native_done(e, NativeCmd::DiredFindFileOtherWindow, n).1 == native_done(
            e,
            NativeCmd::DiredFindFile,
            n,
        ).1,
        match parent_of(d.dir) {
            Some(p) => native_done(e, NativeCmd::DiredUpDirectory, n) == (
                e,
                ActionModel::Outside(TaskModel::OpenDired { dir: p, goto: None }),
            ),
            None => native_done(e, NativeCmd::DiredUpDirectory, n).1 is Nothing,
        },
{
    lemma_dired_visit_commands(e, n);
}

/// ) turns hidden files on and off: twice gives back the editor. Both it and g
/// have the directory listed again.
pub proof fn law_toggles_hidden(e: EditorModel, d: DiredModel, n: Option<u32>)
    requires
        wf(e),
        listing(e, d),
    ensures
        ({
            let (r, a) = native_done(e, NativeCmd::DiredToggleHidden, n);
            &&& listing(r, DiredModel { show_hidden: !d.show_hidden, ..d })
            &&& cur_buf(r).text == cur_buf(e).text
            &&& only_here(e, r)
            &&& a matches ActionModel::Outside(TaskModel::Refresh(_))
            &&& native_done(r, NativeCmd::DiredToggleHidden, n).0 == e
            &&& native_done(e, NativeCmd::DiredRevert, n).0 == e
            &&& native_done(e, NativeCmd::DiredRevert, n).1 matches ActionModel::Outside(
                TaskModel::Refresh(_),
            )
        }),
{
    lemma_dired_listing_commands(e, n);
    lemma_cur(e);
    let d1 = DiredModel { show_hidden: !d.show_hidden, ..d };
    let b1 = listing_as(cur_buf(e), d1);
    lemma_with_buf(e, b1);
    lemma_put_here(e, cur_win(e), b1);
    let r = native_done(e, NativeCmd::DiredToggleHidden, n).0;
    lemma_dired_listing_commands(r, n);
    let b2 = listing_as(b1, d);
    assert(b2 =~= cur_buf(e));
    assert(with_buf(r, b2) =~= e);
}

} // verus!
