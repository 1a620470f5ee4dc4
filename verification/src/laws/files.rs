//! What visiting, switching, saving, killing and quitting do.

use crate::assoc::lookup;
use crate::buffer::{fresh, BufferModel, ModeModel};
use crate::buffers::{
    buffer_removed, dropped, lemma_buffer_removed, lemma_found, lemma_shown, lemma_with_buffer,
    name_index, path_index, remembered, shown, with_buffer, without_buffer,
};
use crate::commands::files::{first_other, recent_other, save_ended, visited, visiting, FileModel};
use crate::commands::run::native_done;
use crate::dispatch::chord_handled;
use crate::editor::{
    buf_ids, buf_index, cur_buf, cur_index, cur_point, cur_win, has_buffer, lemma_buf_index,
    lemma_cur, lemma_wf_same, lemma_with_buf, wf, EditorModel,
};
use crate::input::{ActionModel, InputModel, KindModel, TaskModel};
use crate::laws::frame::{counted, lemma_put_here, only_here, plain};
use crate::laws::table::lemma_file_commands;
use crate::lines::clip;
use crate::minibuffer::completed;
use crate::native::NativeCmd;
use crate::paths::{dir_of, parent_of, resolved};
use crate::strings::{has_prefix, trimmed};
use crate::value::ValModel;
use crate::window::{leaf, lemma_with_leaf, Window, WindowId};
use vstd::prelude::*;

verus! {

// ---- showing ---------------------------------------------------------------

/// Whether an editor is another one with a buffer put in the selected window: the
/// buffer is the current and the most recent one; no buffer changed but for the
/// position at which it was left, and no other window.
pub open spec fn shows_buffer(e: EditorModel, r: EditorModel, id: usize) -> bool {
    &&& cur_win(r).buffer == id
    &&& cur_buf(r).id == id
    &&& r.recency.len() > 0 && r.recency[0] == id
    &&& r.buffers.len() == e.buffers.len()
    &&& forall|i: int|
        0 <= i < e.buffers.len() ==> #[trigger] r.buffers[i] == (BufferModel {
            last_point: r.buffers[i].last_point,
            ..e.buffers[i]
        })
    &&& r.windows.selected == e.windows.selected
    &&& forall|w: WindowId|
        w != e.windows.selected ==> #[trigger] leaf(r.windows.root, w) == leaf(e.windows.root, w)
}

proof fn lemma_shows(e: EditorModel, id: usize)
    requires
        wf(e),
        has_buffer(e.buffers, id),
    ensures
        wf(shown(e, id)),
        shows_buffer(e, shown(e, id), id),
{
    lemma_cur(e);
    lemma_shown(e, id);
    let r = shown(e, id);
    let bs = remembered(e);
    lemma_with_leaf(
        e.windows.root,
        e.windows.selected,
        Window {
            buffer: id,
            point: clip(
                bs[buf_index(bs, id)].text,
                bs[buf_index(bs, id)].last_point as int,
            ) as usize,
            top_line: 0,
            ..cur_win(e)
        },
    );
}

/// Leaving a buffer for another one and coming back puts point where it was.
pub proof fn law_point_remembered(e: EditorModel, id: usize)
    requires
        wf(e),
        counted(e),
        has_buffer(e.buffers, id),
        id != cur_win(e).buffer,
    ensures
        cur_buf(shown(shown(e, id), cur_win(e).buffer)).text == cur_buf(e).text,
        cur_win(shown(shown(e, id), cur_win(e).buffer)).point == cur_point(e),
{
    lemma_cur(e);
    let home = cur_win(e).buffer;
    let i = cur_index(e);
    lemma_shows(e, id);
    let m = shown(e, id);
    lemma_buf_index(e.buffers, home);
    lemma_buf_index(e.buffers, id);
    assert(buf_ids(m.buffers) =~= buf_ids(e.buffers));
    lemma_buf_index(m.buffers, home);
    lemma_buf_index(m.buffers, id);
    lemma_cur(m);
    assert(m.buffers[i].last_point == cur_win(e).point);
    lemma_shown(m, home);
    let bs = remembered(m);
    assert(buf_ids(bs) =~= buf_ids(m.buffers));
    lemma_buf_index(bs, home);
    assert(buf_index(bs, home) == i);
    assert(cur_index(m) != i);
    assert(bs[i] == m.buffers[i]);
    let r = shown(m, home);
    lemma_with_leaf(
        m.windows.root,
        m.windows.selected,
        Window {
            buffer: home,
            point: clip(bs[i].text, bs[i].last_point as int) as usize,
            top_line: 0,
            ..cur_win(m)
        },
    );
    lemma_cur(r);
}

proof fn lemma_named(bs: Seq<BufferModel>, name: Seq<char>, i: int)
    requires
        0 <= i <= bs.len(),
    ensures
        i <= name_index(bs, name, i) <= bs.len(),
        name_index(bs, name, i) < bs.len() ==> bs[name_index(bs, name, i)].name == name,
        forall|k: int| i <= k < name_index(bs, name, i) ==> (#[trigger] bs[k]).name != name,
    decreases bs.len() - i,
{
    if i < bs.len() && bs[i].name != name {
        lemma_named(bs, name, i + 1);
    }
}

proof fn lemma_visiting(bs: Seq<BufferModel>, path: Seq<char>, i: int)
    requires
        0 <= i <= bs.len(),
    ensures
        i <= path_index(bs, path, i) <= bs.len(),
        path_index(bs, path, i) < bs.len() ==> bs[path_index(bs, path, i)].path == Some(path),
        forall|k: int| i <= k < path_index(bs, path, i) ==> (#[trigger] bs[k]).path != Some(path),
    decreases bs.len() - i,
{
    if i < bs.len() && bs[i].path != Some(path) {
        lemma_visiting(bs, path, i + 1);
    }
}

/// Whether an editor is another one with a new buffer made and shown, and all old
/// ones kept.
pub open spec fn shows_new(
    e: EditorModel,
    r: EditorModel,
    name: Seq<char>,
    text: Seq<char>,
    path: Option<Seq<char>>,
) -> bool {
    &&& r.buffers.len() == e.buffers.len() + 1
    &&& cur_buf(r).name == name
    &&& cur_buf(r).text == text
    &&& cur_buf(r).path == path
    &&& !cur_buf(r).modified
    &&& !cur_buf(r).read_only
    &&& !has_buffer(e.buffers, cur_buf(r).id)
    &&& cur_win(r).point == 0
    &&& r.recency.len() > 0 && r.recency[0] == cur_buf(r).id
    &&& forall|i: int|
        0 <= i < e.buffers.len() ==> #[trigger] r.buffers[i] == (BufferModel {
            last_point: r.buffers[i].last_point,
            ..e.buffers[i]
        })
    &&& forall|w: WindowId|
        w != e.windows.selected ==> #[trigger] leaf(r.windows.root, w) == leaf(e.windows.root, w)
}

proof fn lemma_shows_new(e: EditorModel, b: BufferModel)
    requires
        wf(e),
        e.next_buffer_id < usize::MAX,
        b.id == e.next_buffer_id,
        b.last_point == 0,
        !b.modified,
        !b.read_only,
    ensures
        wf(shown(with_buffer(e, b), b.id)),
        shows_new(e, shown(with_buffer(e, b), b.id), b.name, b.text, b.path),
{
    lemma_with_buffer(e, b);
    let m = with_buffer(e, b);
    lemma_cur(m);
    lemma_shows(m, b.id);
    let r = shown(m, b.id);
    assert(!has_buffer(e.buffers, b.id)) by {
        reveal(wf);
        if has_buffer(e.buffers, b.id) {
            let i = buf_ids(e.buffers).index_of(b.id);
            assert(e.buffers[i].id < e.next_buffer_id);
        }
    }
    lemma_cur(e);
    lemma_buf_index(m.buffers, b.id);
    let n = e.buffers.len() as int;
    assert(m.buffers[n] == b);
    assert(cur_index(m) != n) by {
        assert(cur_buf(m).id != b.id);
    }
    let bs = remembered(m);
    assert(bs[n] == b);
    assert(buf_ids(bs) =~= buf_ids(m.buffers));
    lemma_buf_index(bs, b.id);
    lemma_shown(m, b.id);
    assert(cur_index(r) == n);
    assert(r.buffers[n] == b);
    lemma_with_leaf(
        m.windows.root,
        m.windows.selected,
        Window { buffer: b.id, point: clip(b.text, 0) as usize, top_line: 0, ..cur_win(m) },
    );
    assert forall|i: int| 0 <= i < e.buffers.len() implies #[trigger] r.buffers[i]
        == (BufferModel { last_point: r.buffers[i].last_point, ..e.buffers[i] }) by {
        assert(m.buffers[i] == e.buffers[i]);
    }
}

/// Entering a buffer name shows the buffer of that name where there is one, and
/// else a new empty one of that name; entering nothing shows the most recent
/// other buffer. No text changes.
pub proof fn law_switches(e: EditorModel, input: Seq<char>)
    requires
        wf(e),
        e.next_buffer_id < usize::MAX,
    ensures
        ({
            let r = completed(e, KindModel::SwitchBuffer, input).0;
            let name = trimmed(input);
            let known = exists|i: int| 0 <= i < e.buffers.len() && (#[trigger] e.buffers[i]).name == name;
            &&& name.len() > 0 && known ==> cur_buf(r).name == name && shows_buffer(
                e,
                r,
                cur_buf(r).id,
            )
            &&& name.len() > 0 && !known ==> shows_new(e, r, name, Seq::empty(), None)
            &&& name.len() == 0 && e.recency.len() > 1 ==> shows_buffer(e, r, cur_buf(r).id)
                && cur_buf(r).id != cur_win(e).buffer
        }),
{
    let name = trimmed(input);
    let r = completed(e, KindModel::SwitchBuffer, input).0;
    if name.len() == 0 {
        crate::commands::files::law_default_is_other(e);
        if e.recency.len() > 1 {
            reveal(wf);
            assert(e.recency[0] != e.recency[1]);
            let id = crate::commands::files::recent_other(e)->0;
            assert(e.recency.contains(id));
            lemma_shows(e, id);
        }
    } else {
        lemma_named(e.buffers, name, 0);
        lemma_found(e.buffers, name);
        let i = name_index(e.buffers, name, 0);
        if i < e.buffers.len() {
            assert(e.buffers[i].name == name);
            let id = e.buffers[i].id;
            lemma_shows(e, id);
            reveal(wf);
            lemma_buf_index(e.buffers, id);
            let k = buf_index(e.buffers, id);
            assert(buf_ids(e.buffers)[k] == buf_ids(e.buffers)[i]);
            assert(k == i);
            lemma_shown(e, id);
        } else {
            lemma_shows_new(e, fresh(e.next_buffer_id, name, ""@));
            reveal_strlit("");
            assert(""@ =~= Seq::<char>::empty());
        }
    }
}

/// Visiting a path shows the buffer that visits it already, where there is one,
/// whatever the file holds now; else a new buffer with the text of the file, or
/// an empty one for a file that does not exist yet. A file that cannot be read
/// changes no buffer, and a directory is handed to its opener.
pub proof fn law_visits_file(e: EditorModel, path: Seq<char>, at: FileModel)
    requires
        wf(e),
        e.next_buffer_id < usize::MAX,
    ensures
        ({
            let r = visited(e, path, at);
            let known = exists|i: int|
                0 <= i < e.buffers.len() && (#[trigger] e.buffers[i]).path == Some(path);
            match at {
                FileModel::Directory => {
                    &&& r.buffers == e.buffers
                    &&& r.windows == e.windows
                    &&& e.directory_opener matches Some(f) ==> r.deferred == e.deferred.push(
                        ActionModel::RunScheme(f, seq![ValModel::Str(path)]),
                    )
                },
                FileModel::Unreadable(msg) => !known ==> r.buffers == e.buffers && r.windows
                    == e.windows && !(r.file_visited && !e.file_visited),
                FileModel::Text(text) => !known ==> r.file_visited && shows_new(
                    e,
                    r,
                    cur_buf(r).name,
                    text,
                    Some(path),
                ),
                FileModel::Missing => !known ==> r.file_visited && shows_new(
                    e,
                    r,
                    cur_buf(r).name,
                    Seq::empty(),
                    Some(path),
                ),
            }
        }),
        !(at is Directory) && (exists|i: int|
            0 <= i < e.buffers.len() && (#[trigger] e.buffers[i]).path == Some(path)) ==> {
            let r = visited(e, path, at);
            &&& cur_buf(r).path == Some(path)
            &&& shows_buffer(e, r, cur_buf(r).id)
            &&& r.file_visited
        },
{
    let r = visited(e, path, at);
    lemma_visiting(e.buffers, path, 0);
    lemma_found(e.buffers, path);
    let i = path_index(e.buffers, path, 0);
    reveal_strlit("");
    assert(""@ =~= Seq::<char>::empty());
    if !(at is Directory) {
        if i < e.buffers.len() {
            assert(e.buffers[i].path == Some(path));
            let id = e.buffers[i].id;
            lemma_shows(e, id);
            reveal(wf);
            lemma_buf_index(e.buffers, id);
            let k = buf_index(e.buffers, id);
            assert(buf_ids(e.buffers)[k] == buf_ids(e.buffers)[i]);
            assert(k == i);
            lemma_shown(e, id);
            assert(cur_buf(r) == cur_buf(shown(e, id)));
        } else {
            match at {
                FileModel::Text(text) => {
                    let b = visiting(e.next_buffer_id, path, text);
                    lemma_shows_new(e, b);
                    assert(cur_buf(r) == cur_buf(shown(with_buffer(e, b), b.id)));
                },
                FileModel::Missing => {
                    let b = visiting(e.next_buffer_id, path, ""@);
                    lemma_shows_new(e, b);
                    assert(cur_buf(r) == cur_buf(shown(with_buffer(e, b), b.id)));
                },
                _ => {},
            }
        }
    }
}

// ---- killing ---------------------------------------------------------------

/// Whether an editor is another one without a buffer: every other one is there as
/// it was, and windows that showed others show them still.
pub open spec fn without(e: EditorModel, r: EditorModel, id: usize) -> bool {
    &&& !has_buffer(r.buffers, id)
    &&& r.buffers.len() > 0
    &&& forall|i: int|
        0 <= i < e.buffers.len() && (#[trigger] e.buffers[i]).id != id ==> r.buffers.contains(
            e.buffers[i],
        )
    &&& forall|w: WindowId|
        (#[trigger] leaf(e.windows.root, w)) is Some && leaf(e.windows.root, w)->0.buffer != id
            ==> leaf(r.windows.root, w) == leaf(e.windows.root, w)
    &&& forall|w: WindowId|
        (#[trigger] leaf(r.windows.root, w)) is Some ==> leaf(r.windows.root, w)->0.buffer != id
}

proof fn lemma_removed(e: EditorModel, id: usize)
    requires
        wf(e),
        e.next_buffer_id < usize::MAX,
        has_buffer(e.buffers, id),
    ensures
        without(e, buffer_removed(e, id), id),
{
    lemma_buffer_removed(e, id);
    let r = buffer_removed(e, id);
    assert(id != e.next_buffer_id) by {
        reveal(wf);
        let i = buf_ids(e.buffers).index_of(id);
        assert(e.buffers[i].id < e.next_buffer_id);
    }
    lemma_buf_index(e.buffers, id);
    let k = buf_index(e.buffers, id);
    assert forall|i: int| 0 <= i < e.buffers.len() && (#[trigger] e.buffers[i]).id != id implies
        r.buffers.contains(e.buffers[i]) by {
        let bs = without_buffer(e.buffers, id);
        let j = if i < k {
            i
        } else {
            i - 1
        };
        assert(bs[j] == e.buffers[i]);
        assert(bs.len() > 0);
        assert(r.buffers == bs);
        assert(r.buffers[j] == e.buffers[i]);
    }
    let f = crate::buffers::fall_back(id, dropped(e, id).recency[0]);
    crate::buffers::lemma_map_leaves(e.windows.root, f);
    assert forall|w: WindowId| (#[trigger] leaf(r.windows.root, w)) is Some implies leaf(
        r.windows.root,
        w,
    )->0.buffer != id by {
        reveal(wf);
        assert(has_buffer(r.buffers, leaf(r.windows.root, w)->0.buffer));
    }
    reveal(wf);
    lemma_cur(r);
}

/// kill-buffer kills the current buffer and no other; one that visits a file and
/// has changes only after a yes, and not after a no.
pub proof fn law_kills_buffer(e: EditorModel, n: Option<u32>)
    requires
        wf(e),
        e.next_buffer_id < usize::MAX,
        e.input is Normal,
    ensures
        ({
            let (r, a) = native_done(e, NativeCmd::KillBuffer, n);
            let b = cur_buf(e);
            &&& a is Nothing
            &&& !(b.modified && b.path is Some) ==> without(e, r, b.id)
            &&& b.modified && b.path is Some ==> {
                &&& r == (EditorModel { input: r.input, ..e })
                &&& without(e, chord_handled(r, plain('y')).0, b.id)
                &&& chord_handled(r, plain('n')).0 == (EditorModel {
                    echo: Some("Cancelled"@),
                    ..e
                })
            }
        }),
{
    lemma_file_commands(e, n);
    lemma_cur(e);
    lemma_buf_index(e.buffers, cur_win(e).buffer);
    let id = cur_buf(e).id;
    assert(has_buffer(e.buffers, id));
    lemma_removed(e, id);
    let r = native_done(e, NativeCmd::KillBuffer, n).0;
    if cur_buf(e).modified && cur_buf(e).path is Some {
        let y = chord_handled(r, plain('y')).0;
        let e1 = EditorModel { echo: None, ..e };
        lemma_wf_same(e, e1);
        lemma_removed(e1, id);
        assert(y == buffer_removed(e1, id));
        assert(chord_handled(r, plain('n')).0 =~= EditorModel { echo: Some("Cancelled"@), ..e });
    }
}

// ---- saving and quitting ---------------------------------------------------

/// save-buffer has the whole text of a changed buffer written to its file, and
/// nothing else; an unchanged one is left alone, and one without a file asks for
/// one, which then becomes its file.
pub proof fn law_saves(e: EditorModel, n: Option<u32>, input: Seq<char>)
    requires
        wf(e),
        e.input is Normal,
    ensures
        ({
            let (r, a) = native_done(e, NativeCmd::SaveBuffer, n);
            let b = cur_buf(e);
            let (s, sa) = completed(e, KindModel::SaveFileAs, input);
            &&& r.buffers == e.buffers
            &&& b.path matches Some(path) ==> if b.modified {
                r == e && a == ActionModel::Outside(TaskModel::Save { path, text: b.text })
            } else {
                r == (EditorModel { echo: r.echo, ..e }) && a is Nothing
            }
            &&& b.path is None ==> a is Nothing && (r.input matches InputModel::Prompt(p) ==> p.kind
                == KindModel::SaveFileAs) && r.input is Prompt
            &&& cur_buf(s) == (BufferModel {
                path: Some(resolved(e, input)),
                name: cur_buf(s).name,
                ..b
            })
            &&& only_here(e, s)
            &&& b.modified ==> sa == ActionModel::Outside(
                TaskModel::Save { path: resolved(e, input), text: b.text },
            )
        }),
{
    lemma_file_commands(e, n);
    let path = resolved(e, input);
    let b = BufferModel {
        path: Some(path),
        name: crate::commands::files::visit_name(path),
        ..cur_buf(e)
    };
    lemma_with_buf(e, b);
    lemma_put_here(e, cur_win(e), b);
}

/// A buffer that was written counts as unchanged, and one that could not be keeps
/// counting as changed; the text stays either way.
pub proof fn law_saved(e: EditorModel, error: Option<Seq<char>>)
    requires
        wf(e),
    ensures
        ({
            let r = save_ended(e, error);
            &&& only_here(e, r)
            &&& r.windows == e.windows
            &&& error is None ==> cur_buf(r) == (BufferModel { modified: false, ..cur_buf(e) })
            &&& error is Some ==> r.buffers == e.buffers
        }),
{
    let b = BufferModel { modified: false, ..cur_buf(e) };
    lemma_cur(e);
    lemma_with_buf(e, b);
    lemma_put_here(e, cur_win(e), b);
}

/// Quitting ends the editor at once where no file has unsaved changes, and else
/// only after a yes.
pub proof fn law_quits(e: EditorModel, n: Option<u32>)
    requires
        !e.quit,
        e.input is Normal,
    ensures
        ({
            let (r, a) = native_done(e, NativeCmd::SaveBuffersKillTerminal, n);
            let unsaved = exists|i: int|
                0 <= i < e.buffers.len() && (#[trigger] e.buffers[i]).modified && e.buffers[i].path
                    is Some;
            &&& a is Nothing
            &&& r.buffers == e.buffers
            &&& r.quit == !unsaved
            &&& unsaved ==> chord_handled(r, plain('y')).0.quit && !chord_handled(
                r,
                plain('n'),
            ).0.quit
        }),
{
    lemma_file_commands(e, n);
}

// ---- paths -----------------------------------------------------------------

/// An entered path stands for itself where it starts with `/`; one that starts
/// with `~/` lies in the home directory, and any other one in the directory of the
/// current buffer: the one it lists, else that of its file, else the working
/// directory.
pub proof fn law_paths_resolved(e: EditorModel, input: Seq<char>, home: Seq<char>, dir: Seq<char>)
    ensures
        input.len() > 0 && input[0] == '/' ==> resolved(e, input) == input,
        e.home == Some(home) && is_plain_dir(home) && home[0] == '/' && !(input.len() > 0 && input[0]
            == '/') ==> resolved(e, "~/"@ + input) == home + seq!['/'] + input,
        dir_of(e) == dir && is_plain_dir(dir) && !(input.len() > 0 && (input[0] == '/' || input[0]
            == '~')) ==> resolved(e, input) == dir + seq!['/'] + input,
        ({
            let b = cur_buf(e);
            lookup(b.locals, "dired-directory"@) is None ==> {
                &&& b.mode matches ModeModel::Dired(d) ==> dir_of(e) == d.dir
                &&& b.mode is Fundamental ==> match b.path {
                    Some(p) => parent_of(p) matches Some(q) ==> dir_of(e) == q,
                    None => dir_of(e) == e.cwd,
                }
            }
        }),
{
    reveal_strlit("~/");
    if input.len() > 0 && input[0] == '/' {
        crate::paths::law_rooted_path_kept(e, input);
    }
    let tilde = "~/"@ + input;
    assert(tilde.take(2) =~= "~/"@);
    assert(tilde.skip(2) =~= input);
    if has_prefix(input, "~/"@) {
        assert(input.take(2)[0] == input[0]);
    }
}

/// Whether a directory is named without a `/` at its end.
pub open spec fn is_plain_dir(dir: Seq<char>) -> bool {
    dir.len() > 0 && dir.last() != '/'
}

/// What switch-to-buffer offers is the buffer shown last of all but the current one.
pub proof fn law_offered_is_latest(e: EditorModel, k: int)
    requires
        0 <= k < e.recency.len(),
        e.recency[k] != cur_win(e).buffer,
        forall|j: int| 0 <= j < k ==> #[trigger] e.recency[j] == cur_win(e).buffer,
    ensures
        recent_other(e) == Some(e.recency[k]),
{
    lemma_offered(e.recency, cur_win(e).buffer, 0, k);
}

proof fn lemma_offered(s: Seq<usize>, x: usize, i: int, k: int)
    requires
        0 <= i <= k < s.len(),
        s[k] != x,
        forall|j: int| 0 <= j < k ==> #[trigger] s[j] == x,
    ensures
        first_other(s, x, i) == Some(s[k]),
    decreases k - i,
{
    if i < k {
        lemma_offered(s, x, i + 1, k);
    }
}

} // verus!
