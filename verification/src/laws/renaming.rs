//! What editing the names of a listing does.

use crate::buffer::BufferModel;
use crate::commands::run::native_done;
use crate::dired::listing::{lines_kept, listing_of, name_column, widths};
use crate::dired::ops::{is_parent, listing_as, listing_at};
use crate::dired::state::{DiredModel, EntryModel};
use crate::dired::wgrep::{last_name, lemma_name_on, renamable, renames, wgrep_begun};
use crate::editor::{cur_buf, lemma_wf_same, lemma_with_buf, wf, with_buf, EditorModel};
use crate::input::{ActionModel, TaskModel};
use crate::laws::table::lemma_dired_listing_commands;
use crate::native::NativeCmd;
use crate::paths::joined;
use crate::strings::trimmed;
use vstd::prelude::*;

verus! {

/// Entries with other names written for them.
pub open spec fn named(s: Seq<EntryModel>, names: Seq<Seq<char>>) -> Seq<EntryModel> {
    Seq::new(s.len(), |i: int| EntryModel { name: names[i], ..s[i] })
}

/// Whether an entry is to be renamed: it is not the parent, and the new name, without
/// the white space around it, is neither empty nor the old one.
pub open spec fn is_renamed(s: Seq<EntryModel>, names: Seq<Seq<char>>, i: int) -> bool {
    !is_parent(s[i]) && trimmed(names[i]).len() > 0 && trimmed(names[i]) != last_name(s[i].path)
}

/// The paths before and after of the entries that are to be renamed, in order.
pub open spec fn moves(dir: Seq<char>, s: Seq<EntryModel>, names: Seq<Seq<char>>) -> Seq<
    (Seq<char>, Seq<char>),
> {
    Seq::new(s.len(), |i: int| i).filter(|i: int| is_renamed(s, names, i)).map_values(
        |i: int| (s[i].path, joined(dir, trimmed(names[i]))),
    )
}

proof fn lemma_widths_named(s: Seq<EntryModel>, names: Seq<Seq<char>>)
    requires
        names.len() == s.len(),
    ensures
        widths(named(s, names)) == widths(s),
    decreases s.len(),
{
    if s.len() > 0 {
        assert(named(s, names).drop_last() =~= named(s.drop_last(), names.drop_last()));
        lemma_widths_named(s.drop_last(), names.drop_last());
    }
}

proof fn lemma_moves(dir: Seq<char>, s: Seq<EntryModel>, names: Seq<Seq<char>>, n: int)
    requires
        names.len() == s.len(),
        lines_kept(dir, named(s, names)),
        name_column(widths(s)) < usize::MAX,
        0 <= n <= s.len(),
    ensures
        renames(
            listing_of(dir, named(s, names)),
            renamable(s),
            n + 1,
            dir,
            name_column(widths(s)),
        ) == Seq::new(n as nat, |i: int| i).filter(
            |i: int| is_renamed(s, names, i),
        ).map_values(|i: int| (s[i].path, joined(dir, trimmed(names[i])))),
    decreases n,
{
    let u = named(s, names);
    let t = listing_of(dir, u);
    let col = name_column(widths(s));
    let snap = renamable(s);
    let keep = |i: int| is_renamed(s, names, i);
    let pair = |i: int| (s[i].path, joined(dir, trimmed(names[i])));
    let all = Seq::new(n as nat, |i: int| i);
    lemma_widths_named(s, names);
    reveal(Seq::filter);
    if n == 0 {
        assert(snap[0] is None);
        assert(renames(t, snap, 0, dir, col) =~= Seq::empty());
        assert(all =~= Seq::<int>::empty());
        assert(renames(t, snap, 1, dir, col) =~= all.filter(keep).map_values(pair));
    } else {
        let i = n - 1;
        let before = Seq::new(i as nat, |i: int| i);
        lemma_moves(dir, s, names, i);
        lemma_name_on(dir, u, i);
        assert(all.drop_last() =~= before);
        assert(u[i].name == names[i]);
        assert(snap[n] == if is_parent(s[i]) {
            None
        } else {
            Some(s[i].path)
        });
        assert(renames(t, snap, n, dir, col) == before.filter(keep).map_values(pair));
        if keep(i) {
            assert(all.filter(keep) =~= before.filter(keep).push(i));
            assert(all.filter(keep).map_values(pair) =~= before.filter(keep).map_values(pair).push(
                pair(i),
            ));
        } else {
            assert(all.filter(keep) =~= before.filter(keep));
        }
    }
}

/// A listing whose names are to be edited can be written to and looks as before. When
/// any of its names have been written over, the commit asks to rename exactly the
/// files whose names are others now, each to its new name in the same directory, in
/// the order of the listing, and never the parent; giving up asks for no renaming.
/// Either way the listing cannot be written to any more.
pub proof fn law_names_edited(
    e: EditorModel,
    d: DiredModel,
    names: Seq<Seq<char>>,
    n: Option<u32>,
)
    requires
        wf(e),
        listing_at(e) == Some(d),
        d.wgrep is None,
        d.name_col == name_column(widths(d.entries)),
        d.name_col < usize::MAX,
        names.len() == d.entries.len(),
        lines_kept(d.dir, named(d.entries, names)),
    ensures
        ({
            let (m, a) = native_done(e, NativeCmd::WgrepMode, n);
            let text = listing_of(d.dir, named(d.entries, names));
            let f = with_buf(m, BufferModel { text, ..cur_buf(m) });
            let (r, c) = native_done(f, NativeCmd::WgrepCommit, n);
            let (q, g) = native_done(f, NativeCmd::WgrepAbort, n);
            &&& a == ActionModel::Nothing
            &&& !cur_buf(m).read_only
            &&& cur_buf(m).text == cur_buf(e).text
            &&& c == ActionModel::Outside(TaskModel::RenameAll(moves(d.dir, d.entries, names)))
            &&& g is Outside && g->Outside_0 is Refresh
            &&& cur_buf(r).read_only && cur_buf(q).read_only
            &&& listing_at(r) == Some(d) && listing_at(q) == Some(d)
        }),
{
    lemma_dired_listing_commands(e, n);
    let b = cur_buf(e);
    let b1 = BufferModel {
        read_only: false,
        ..listing_as(b, DiredModel { wgrep: Some(renamable(d.entries)), ..d })
    };
    lemma_with_buf(e, b1);
    let m = wgrep_begun(e);
    lemma_wf_same(with_buf(e, b1), m);
    assert(cur_buf(m) == b1);
    let text = listing_of(d.dir, named(d.entries, names));
    let b2 = BufferModel { text, ..b1 };
    lemma_with_buf(m, b2);
    let f = with_buf(m, b2);
    lemma_dired_listing_commands(f, n);
    let d2 = listing_at(f)->0;
    let b3 = BufferModel { read_only: true, ..listing_as(b2, DiredModel { wgrep: None, ..d2 }) };
    lemma_with_buf(f, b3);
    assert(DiredModel { wgrep: None, ..d2 } =~= d);
    lemma_moves(d.dir, d.entries, names, d.entries.len() as int);
    assert(renamable(d.entries).len() == d.entries.len() + 1);
}

} // verus!
