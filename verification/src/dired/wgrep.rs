//! Bulk rename: make the dired listing writable, edit names as plain text,
//! then commit (rename on disk) or abort.
//!
//! The snapshot maps buffer lines to paths positionally: editing a name in
//! place renames it. Reordering or deleting lines is not tracked.

use crate::buffer::{Buffer, BufferModel, Mode};
use crate::dired::files::{plural, refreshes};
use crate::dired::ops::{is_parent, listing_as, listing_at, not_dired};
use crate::dired::listing::{
    entry_row, law_listing_names, lines_kept, listing_of, name_column, widths,
};
use crate::dired::state::{snapshot, DiredModel, Entry, EntryModel};
use crate::editor::{
    cur_buf, lemma_wf_same, lemma_with_buf, said, wf, with_buf, Editor, EditorModel,
};
use crate::input::{string_pairs, ActionModel, PostAction, Task, TaskModel};
use crate::lines::{lemma_line_begin, line_begin, line_count};
use crate::paths::{file_name_of, join, joined, path_file_name};
use crate::rope::rope_slice;
use crate::seqs::models;
use crate::strings::{
    cat3, cat4, copy, decimal, decimal_string, from_chars, join_with, joined_with, opt_view, same,
    to_chars, trim, trimmed, views,
};
use vstd::prelude::*;

verus! {

/// The paths that lines may be renamed from: none for the header and for the
/// parent entry.
pub open spec fn renamable(s: Seq<EntryModel>) -> Seq<Option<Seq<char>>> {
    seq![None] + Seq::new(
        s.len(),
        |i: int|
            if is_parent(s[i]) {
                None
            } else {
                Some(s[i].path)
            },
    )
}

/// The editor with the current listing made writable.
pub open spec fn wgrep_begun(e: EditorModel) -> EditorModel {
    match listing_at(e) {
        Some(d) => if d.wgrep is Some {
            said(e, "Already editing"@)
        } else {
            said(
                with_buf(
                    e,
                    BufferModel {
                        read_only: false,
                        ..listing_as(
                            cur_buf(e),
                            DiredModel { wgrep: Some(renamable(d.entries)), ..d },
                        )
                    },
                ),
                "Editable dired: edit names, then C-c C-c to commit or C-c C-k to abort"@,
            )
        },
        None => not_dired(e),
    }
}

fn take_snapshot(entries: &Vec<Entry>) -> (r: Vec<Option<String>>)
    ensures
        snapshot(r@) == renamable(models(entries@)),
{
    let ghost all = models(entries@);
    let ghost want = renamable(all);
    let mut out: Vec<Option<String>> = Vec::new();
    out.push(None);
    assert(snapshot(out@) =~= want.take(1));
    for i in 0..entries.len()
        invariant
            all == models(entries@),
            want == renamable(all),
            snapshot(out@) == want.take(i + 1),
    {
        let ghost before = snapshot(out@);
        // The parent tracking entry is not renamable.
        let p = if same(entries[i].name.as_str(), "..") {
            None
        } else {
            Some(copy(entries[i].path.as_str()))
        };
        out.push(p);
        assert(snapshot(out@) =~= before.push(want[i + 1]));
        assert(snapshot(out@) =~= want.take(i + 2));
    }
    assert(snapshot(out@) =~= want);
    out
}

/// Make the dired buffer writable to edit file names as plain text.
pub fn wgrep_mode_cmd(ed: &mut Editor, _n: Option<u32>)
    requires
        wf(old(ed)@),
    ensures
        final(ed)@ == wgrep_begun(old(ed)@),
        wf(final(ed)@),
{
    let snap = match &ed.cur_buffer().mode {
        Mode::Dired(d) => {
            if d.wgrep.is_some() {
                ed.message("Already editing");
                return ;
            }
            take_snapshot(&d.entries)
        },
        Mode::Fundamental => {
            ed.message("Not a dired buffer");
            return ;
        },
    };
    let buf = ed.cur_buffer_mut();
    if let Mode::Dired(d) = &mut buf.mode {
        d.wgrep = Some(snap);
    }
    buf.read_only = false;
    ed.message("Editable dired: edit names, then C-c C-c to commit or C-c C-k to abort");
}

// ---- committing ------------------------------------------------------------

/// The name on a line: what stands from the name column on, without the white
/// space around it.
pub open spec fn name_on(t: Seq<char>, line: int, name_col: int) -> Seq<char> {
    let whole = t.subrange(line_begin(t, line), line_begin(t, line + 1));
    let end = text_end(whole, whole.len() as int);
    trimmed(
        if name_col < end {
            whole.subrange(name_col, end)
        } else {
            Seq::empty()
        },
    )
}

/// The length of the first `n` chars without the `\n`s that end them.
pub open spec fn text_end(s: Seq<char>, n: int) -> int
    decreases n,
{
    if 0 < n <= s.len() && s[n - 1] == '\n' {
        text_end(s, n - 1)
    } else {
        n
    }
}

/// The file name of a path, or nothing.
pub open spec fn last_name(path: Seq<char>) -> Seq<char> {
    match file_name_of(path) {
        Some(n) => n,
        None => Seq::empty(),
    }
}

/// The renaming that line `line` asks for: none where its path has none, where
/// the line is gone, or where the name is empty or the old one.
pub open spec fn rename_on(
    t: Seq<char>,
    line: int,
    path: Option<Seq<char>>,
    dir: Seq<char>,
    name_col: int,
) -> Option<(Seq<char>, Seq<char>)> {
    match path {
        Some(p) => {
            let name = name_on(t, line, name_col);
            if line >= line_count(t) || name.len() == 0 || name == last_name(p) {
                None
            } else {
                Some((p, joined(dir, name)))
            }
        },
        None => None,
    }
}

/// The renamings that the first `n` lines ask for, in order.
pub open spec fn renames(
    t: Seq<char>,
    snap: Seq<Option<Seq<char>>>,
    n: int,
    dir: Seq<char>,
    name_col: int,
) -> Seq<(Seq<char>, Seq<char>)>
    decreases n,
{
    if n <= 0 {
        Seq::empty()
    } else {
        let before = renames(t, snap, n - 1, dir, name_col);
        match rename_on(t, n - 1, snap[n - 1], dir, name_col) {
            Some(p) => before.push(p),
            None => before,
        }
    }
}

fn line_name(buf: &Buffer, line: usize, name_col: usize) -> (r: String)
    requires
        line < line_count(buf@.text),
    ensures
        r@ == name_on(buf@.text, line as int, name_col as int),
{
    let ghost t = buf@.text;
    proof {
        lemma_line_begin(t, line as int);
        lemma_line_begin(t, line + 1);
        crate::lines::lemma_line_around(t, line_begin(t, line as int));
    }
    let _count: usize = buf.len_lines();
    let start: usize = buf.rope.line_to_char(line);
    let stop: usize = buf.rope.line_to_char(line + 1);
    let whole = to_chars(rope_slice(&buf.rope, start, stop).as_str());
    let mut end: usize = whole.len();
    while end > 0 && whole[end - 1] == '\n'
        invariant
            end <= whole@.len(),
            text_end(whole@, whole@.len() as int) == text_end(whole@, end as int),
        decreases end,
    {
        end = end - 1;
    }
    if name_col < end {
        trim(from_chars(&whole, name_col, end).as_str())
    } else {
        let empty = String::new();
        assert(empty@ =~= Seq::<char>::empty());
        trim(empty.as_str())
    }
}

fn find_rename(
    buf: &Buffer,
    line: usize,
    path: &Option<String>,
    dir: &str,
    name_col: usize,
) -> (r: Option<(String, String)>)
    ensures
        match r {
            Some((a, b)) => rename_on(
                buf@.text,
                line as int,
                opt_view(*path),
                dir@,
                name_col as int,
            ) == Some((a@, b@)),
            None => rename_on(
                buf@.text,
                line as int,
                opt_view(*path),
                dir@,
                name_col as int,
            ) is None,
        },
{
    let old_path = match path {
        Some(p) => p,
        None => {
            return None;
        },
    };
    if line >= buf.len_lines() {
        return None;
    }
    let name = line_name(buf, line, name_col);
    let old_name = match path_file_name(old_path.as_str()) {
        Some(n) => n,
        None => String::new(),
    };
    assert(old_name@ =~= last_name(old_path@));
    if name.as_str().is_empty() || same(name.as_str(), old_name.as_str()) {
        return None;
    }
    Some((copy(old_path.as_str()), join(dir, name.as_str())))
}

fn collect_renames(
    buf: &Buffer,
    snap: &Vec<Option<String>>,
    dir: &str,
    name_col: usize,
) -> (r: Vec<(String, String)>)
    ensures
        string_pairs(r@) == renames(
            buf@.text,
            snapshot(snap@),
            snap@.len() as int,
            dir@,
            name_col as int,
        ),
{
    let mut out: Vec<(String, String)> = Vec::new();
    assert(string_pairs(out@) =~= Seq::<(Seq<char>, Seq<char>)>::empty());
    for i in 0..snap.len()
        invariant
            string_pairs(out@) == renames(
                buf@.text,
                snapshot(snap@),
                i as int,
                dir@,
                name_col as int,
            ),
    {
        assert(snapshot(snap@)[i as int] == opt_view(snap@[i as int]));
        if let Some((a, b)) = find_rename(buf, i, &snap[i], dir, name_col) {
            let ghost before = string_pairs(out@);
            let ghost p = (a@, b@);
            out.push((a, b));
            assert(string_pairs(out@) =~= before.push(p));
        }
    }
    out
}

/// The editor with the edited names taken: the listing is read-only again, and
/// the renamings are left to be done.
pub open spec fn wgrep_committed(e: EditorModel) -> (EditorModel, ActionModel) {
    let b = cur_buf(e);
    match listing_at(e) {
        Some(d) => match d.wgrep {
            Some(snap) => (
                with_buf(
                    e,
                    BufferModel {
                        read_only: true,
                        ..listing_as(b, DiredModel { wgrep: None, ..d })
                    },
                ),
                ActionModel::Outside(
                    TaskModel::RenameAll(
                        renames(b.text, snap, snap.len() as int, d.dir, d.name_col),
                    ),
                ),
            ),
            None => (said(e, "Not in wgrep mode (C-c C-e first)"@), ActionModel::Nothing),
        },
        None => (not_dired(e), ActionModel::Nothing),
    }
}

/// Apply the edited file names (renames files on disk).
pub fn wgrep_commit_cmd(ed: &mut Editor, _n: Option<u32>) -> (r: PostAction)
    requires
        wf(old(ed)@),
    ensures
        (final(ed)@, r@) == wgrep_committed(old(ed)@),
        wf(final(ed)@),
{
    let buf = ed.cur_buffer();
    let pairs = match &buf.mode {
        Mode::Dired(d) => match &d.wgrep {
            Some(snap) => collect_renames(buf, snap, d.dir.as_str(), d.name_col),
            None => {
                ed.message("Not in wgrep mode (C-c C-e first)");
                return PostAction::Nothing;
            },
        },
        Mode::Fundamental => {
            ed.message("Not a dired buffer");
            return PostAction::Nothing;
        },
    };
    let buf = ed.cur_buffer_mut();
    if let Mode::Dired(d) = &mut buf.mode {
        d.wgrep = None;
    }
    buf.read_only = true;
    PostAction::Outside(Task::RenameAll(pairs))
}

/// The errors of renamings, each with the old name before it.
pub open spec fn rename_errors(
    pairs: Seq<(Seq<char>, Seq<char>)>,
    errors: Seq<Option<Seq<char>>>,
    n: int,
) -> Seq<Seq<char>>
    decreases n,
{
    if n <= 0 {
        Seq::empty()
    } else {
        let before = rename_errors(pairs, errors, n - 1);
        match errors[n - 1] {
            Some(msg) => before.push(last_name(pairs[n - 1].0) + ": "@ + msg),
            None => before,
        }
    }
}

/// The closing message of a commit.
pub open spec fn commit_text(
    pairs: Seq<(Seq<char>, Seq<char>)>,
    errors: Seq<Option<Seq<char>>>,
) -> Seq<char> {
    let failed = rename_errors(pairs, errors, pairs.len() as int);
    let n = pairs.len() - failed.len();
    if failed.len() == 0 {
        "Applied "@ + decimal(n as nat) + " rename"@ + plural(n)
    } else {
        decimal(n as nat) + " renamed; failed: "@ + joined_with(failed, "; "@)
    }
}

/// The renamings were tried; `errors` tells of each why it failed, if it did.
pub fn wgrep_commit_done(pairs: &Vec<(String, String)>, errors: &Vec<Option<String>>) -> (r:
    PostAction)
    requires
        pairs@.len() == errors@.len(),
    ensures
        r@ == refreshes(commit_text(string_pairs(pairs@), snapshot(errors@))),
{
    let ghost ps = string_pairs(pairs@);
    let ghost es = snapshot(errors@);
    let mut failed: Vec<String> = Vec::new();
    assert(views(failed@) =~= Seq::<Seq<char>>::empty());
    for i in 0..pairs.len()
        invariant
            ps == string_pairs(pairs@),
            es == snapshot(errors@),
            pairs@.len() == errors@.len(),
            failed@.len() <= i,
            views(failed@) == rename_errors(ps, es, i as int),
    {
        assert(es[i as int] == opt_view(errors@[i as int]));
        if let Some(msg) = &errors[i] {
            let name = match path_file_name(pairs[i].0.as_str()) {
                Some(n) => n,
                None => String::new(),
            };
            assert(name@ =~= last_name(ps[i as int].0));
            let line = cat3(name.as_str(), ": ", msg.as_str());
            let ghost before = views(failed@);
            failed.push(line);
            assert(views(failed@) =~= before.push(line@));
        }
    }
    let n: usize = pairs.len() - failed.len();
    let msg = if failed.len() == 0 {
        cat4("Applied ", decimal_string(n).as_str(), " rename", if n == 1 {
            ""
        } else {
            "s"
        })
    } else {
        cat3(
            decimal_string(n).as_str(),
            " renamed; failed: ",
            join_with(&failed, "; ").as_str(),
        )
    };
    PostAction::Outside(Task::Refresh(Some(msg)))
}

/// The editor with the edited names given up.
pub open spec fn wgrep_aborted(e: EditorModel) -> (EditorModel, ActionModel) {
    let b = cur_buf(e);
    match listing_at(e) {
        Some(d) => match d.wgrep {
            Some(snap) => (
                with_buf(
                    e,
                    BufferModel {
                        read_only: true,
                        ..listing_as(b, DiredModel { wgrep: None, ..d })
                    },
                ),
                refreshes("Changes aborted"@),
            ),
            None => (said(e, "Not in wgrep mode"@), ActionModel::Nothing),
        },
        None => (not_dired(e), ActionModel::Nothing),
    }
}

/// Abort editing and restore the listing.
pub fn wgrep_abort_cmd(ed: &mut Editor, _n: Option<u32>) -> (r: PostAction)
    requires
        wf(old(ed)@),
    ensures
        (final(ed)@, r@) == wgrep_aborted(old(ed)@),
        wf(final(ed)@),
{
    match &ed.cur_buffer().mode {
        Mode::Dired(d) => {
            if d.wgrep.is_none() {
                ed.message("Not in wgrep mode");
                return PostAction::Nothing;
            }
        },
        Mode::Fundamental => {
            ed.message("Not a dired buffer");
            return PostAction::Nothing;
        },
    }
    let buf = ed.cur_buffer_mut();
    if let Mode::Dired(d) = &mut buf.mode {
        d.wgrep = None;
    }
    buf.read_only = true;
    PostAction::Outside(Task::Refresh(Some(copy("Changes aborted"))))
}

// ---- laws ------------------------------------------------------------------

/// The name on a line of a listing is that of its entry.
pub proof fn lemma_name_on(dir: Seq<char>, s: Seq<EntryModel>, i: int)
    requires
        lines_kept(dir, s),
        0 <= i < s.len(),
        name_column(widths(s)) < usize::MAX,
    ensures
        name_on(listing_of(dir, s), i + 1, name_column(widths(s))) == trimmed(s[i].name),
        line_count(listing_of(dir, s)) == s.len() + 1,
{
    let t = listing_of(dir, s);
    let col = name_column(widths(s));
    let row = entry_row(s[i], widths(s));
    law_listing_names(dir, s, i);
    let whole = t.subrange(line_begin(t, i + 1), line_begin(t, i + 2));
    let n = row.len() as int;
    let end = text_end(whole, whole.len() as int);
    assert(n > 0 ==> whole[n - 1] == row[n - 1]);
    assert(n > 0 ==> row[n - 1] != '\n');
    assert(text_end(whole, n) == n);
    if i + 1 < s.len() {
        assert(whole[n] == '\n');
        assert(whole.len() == n + 1);
    }
    assert(end == n);
    if col < end {
        assert(whole.subrange(col, end) =~= row.skip(col));
    } else {
        assert(s[i].name =~= Seq::<char>::empty());
    }
}

/// The entries with the name of one of them edited.
pub open spec fn name_edited(s: Seq<EntryModel>, k: int, name: Seq<char>) -> Seq<EntryModel> {
    s.update(k, EntryModel { name, ..s[k] })
}

/// Whether each name of a listing that may be renamed is that of its path.
pub open spec fn names_agree(s: Seq<EntryModel>) -> bool {
    forall|i: int|
        0 <= i < s.len() && !is_parent(#[trigger] s[i]) ==> trimmed(s[i].name) == last_name(
            s[i].path,
        )
}

proof fn lemma_same_widths(s: Seq<EntryModel>, k: int, name: Seq<char>)
    requires
        0 <= k < s.len(),
    ensures
        widths(name_edited(s, k, name)) == widths(s),
    decreases s.len(),
{
    let u = name_edited(s, k, name);
    if k == s.len() - 1 {
        assert(u.drop_last() =~= s.drop_last());
    } else {
        assert(u.drop_last() =~= name_edited(s.drop_last(), k, name));
        lemma_same_widths(s.drop_last(), k, name);
    }
}

/// The renaming that editing one name asks for; none where the name is empty or
/// the old one.
pub open spec fn edit_asks(
    s: Seq<EntryModel>,
    k: int,
    name: Seq<char>,
    dir: Seq<char>,
) -> Seq<(Seq<char>, Seq<char>)> {
    let n = trimmed(name);
    if n.len() == 0 || n == last_name(s[k].path) {
        Seq::empty()
    } else {
        seq![(s[k].path, joined(dir, n))]
    }
}

proof fn lemma_renames_edited(
    dir: Seq<char>,
    s: Seq<EntryModel>,
    k: int,
    name: Seq<char>,
    n: int,
)
    requires
        lines_kept(dir, name_edited(s, k, name)),
        names_agree(s),
        0 <= k < s.len(),
        !is_parent(s[k]),
        0 <= n <= s.len() + 1,
        name_column(widths(s)) < usize::MAX,
    ensures
        renames(
            listing_of(dir, name_edited(s, k, name)),
            renamable(s),
            n,
            dir,
            name_column(widths(s)),
        ) == (if n > k + 1 {
            edit_asks(s, k, name, dir)
        } else {
            Seq::empty()
        }),
    decreases n,
{
    let u = name_edited(s, k, name);
    let t = listing_of(dir, u);
    let col = name_column(widths(s));
    let snap = renamable(s);
    lemma_same_widths(s, k, name);
    if n > 0 {
        lemma_renames_edited(dir, s, k, name, n - 1);
        if n == 1 {
            assert(snap[0] is None);
        } else {
            let i = n - 2;
            lemma_name_on(dir, u, i);
            if i == k {
                assert(u[i].name == name);
                let q = edit_asks(s, k, name, dir);
                assert(snap[n - 1] == Some(s[k].path));
                if q.len() > 0 {
                    assert(Seq::<(Seq<char>, Seq<char>)>::empty().push(q[0]) =~= q);
                }
            } else {
                assert(u[i] == s[i]);
                if !is_parent(s[i]) {
                    assert(snap[n - 1] == Some(s[i].path));
                    assert(trimmed(s[i].name) == last_name(s[i].path));
                } else {
                    assert(snap[n - 1] is None);
                }
            }
        }
    }
}

/// Where the names of a listing are those of the paths, editing one of them in
/// place renames that file and no other; an emptied name, or the old one,
/// renames nothing.
pub proof fn law_edited_name_renames(
    dir: Seq<char>,
    s: Seq<EntryModel>,
    k: int,
    name: Seq<char>,
)
    requires
        lines_kept(dir, name_edited(s, k, name)),
        0 <= k < s.len(),
        !is_parent(s[k]),
        name_column(widths(s)) < usize::MAX,
    ensures
        names_agree(s) ==> renames(
            listing_of(dir, name_edited(s, k, name)),
            renamable(s),
            renamable(s).len() as int,
            dir,
            name_column(widths(s)),
        ) == edit_asks(s, k, name, dir),
{
    if names_agree(s) {
        lemma_renames_edited(dir, s, k, name, (s.len() + 1) as int);
    }
}

/// Giving up the edits leaves the buffer as it was before they began, but for
/// the text, which is listed again.
pub proof fn law_abort_undoes_begin(e: EditorModel, text: Seq<char>)
    requires
        wf(e),
        cur_buf(e).read_only,
        match listing_at(e) {
            Some(d) => d.wgrep is None,
            None => false,
        },
    ensures
        ({
            let e1 = wgrep_begun(e);
            let e2 = with_buf(e1, BufferModel { text, ..cur_buf(e1) });
            let (e3, a) = wgrep_aborted(e2);
            &&& BufferModel { text: cur_buf(e).text, ..cur_buf(e3) } == cur_buf(e)
            &&& a == refreshes("Changes aborted"@)
        }),
{
    let d = listing_at(e)->0;
    let b = cur_buf(e);
    let b1 = BufferModel {
        read_only: false,
        ..listing_as(b, DiredModel { wgrep: Some(renamable(d.entries)), ..d })
    };
    lemma_with_buf(e, b1);
    let e1 = wgrep_begun(e);
    lemma_wf_same(with_buf(e, b1), e1);
    assert(cur_buf(e1) == b1);
    let b2 = BufferModel { text, ..b1 };
    lemma_with_buf(e1, b2);
    let e2 = with_buf(e1, b2);
    let d2 = listing_at(e2)->0;
    let b3 = BufferModel { read_only: true, ..listing_as(b2, DiredModel { wgrep: None, ..d2 }) };
    lemma_with_buf(e2, b3);
    assert(DiredModel { wgrep: None, ..d2 } =~= d);
    assert(BufferModel { text: b.text, ..b3 } =~= b);
}

} // verus!
