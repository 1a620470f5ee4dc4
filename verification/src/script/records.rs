//! Directory entries as lists of the extension language.

use crate::calendar::{mtime_string, mtime_text};
use crate::dired::listing::{
    id_name, id_table, mode_string, mode_text, name_of_id, RawEntry, RawModel,
};
use crate::seqs::models;
use crate::strings::{copy, starts_with};
use crate::value::{vals, SchemeVal, ValModel};
use vstd::prelude::*;

verus! {

/// One entry as a list: path, name, whether it is a directory, mode, links,
/// owner, group, size and time of change.
pub open spec fn record_of(
    r: RawModel,
    users: Seq<(int, Seq<char>)>,
    groups: Seq<(int, Seq<char>)>,
) -> Seq<ValModel> {
    seq![
        ValModel::Str(r.path),
        ValModel::Str(r.name),
        ValModel::Bool(r.is_dir),
        ValModel::Str(mode_text(r.mode, r.is_dir)),
        ValModel::Int((r.nlink as isize) as int),
        ValModel::Str(name_of_id(users, r.uid as int, 0)),
        ValModel::Str(name_of_id(groups, r.gid as int, 0)),
        ValModel::Int((r.size as isize) as int),
        ValModel::Str(mtime_text(r.mtime as int)),
    ]
}

/// One entry as a list. Neither sorted nor laid out in columns: that is left to
/// the extension language.
pub fn entry_record(r: &RawEntry, users: &Vec<(u32, String)>, groups: &Vec<(u32, String)>) -> (v: Vec<
    SchemeVal,
>)
    ensures
        vals(v@) == record_of(r@, id_table(users@), id_table(groups@)),
{
    let mut v: Vec<SchemeVal> = Vec::new();
    v.push(SchemeVal::Str(copy(r.path.as_str())));
    v.push(SchemeVal::Str(copy(r.name.as_str())));
    v.push(SchemeVal::Bool(r.is_dir));
    v.push(SchemeVal::Str(mode_string(r.mode, r.is_dir)));
    v.push(SchemeVal::Int(#[verifier::truncate] (r.nlink as isize)));
    v.push(SchemeVal::Str(id_name(users, r.uid)));
    v.push(SchemeVal::Str(id_name(groups, r.gid)));
    v.push(SchemeVal::Int(#[verifier::truncate] (r.size as isize)));
    v.push(SchemeVal::Str(mtime_string(r.mtime)));
    assert(vals(v@) =~= record_of(r@, id_table(users@), id_table(groups@)));
    v
}

/// Whether an entry is left out: hidden names are, unless asked for.
pub open spec fn left_out(r: RawModel, show_hidden: bool) -> bool {
    !show_hidden && r.name.len() > 0 && r.name[0] == '.'
}

/// The lists of the entries that are not left out, in the order they came in.
pub open spec fn records_of(
    raw: Seq<RawModel>,
    users: Seq<(int, Seq<char>)>,
    groups: Seq<(int, Seq<char>)>,
    show_hidden: bool,
) -> Seq<Seq<ValModel>>
    decreases raw.len(),
{
    if raw.len() == 0 {
        Seq::empty()
    } else {
        let rest = records_of(raw.drop_last(), users, groups, show_hidden);
        if left_out(raw.last(), show_hidden) {
            rest
        } else {
            rest.push(record_of(raw.last(), users, groups))
        }
    }
}

/// The lists of a directory's entries: that of its parent first, where it has
/// one.
pub open spec fn directory_of(
    parent: Option<RawModel>,
    raw: Seq<RawModel>,
    users: Seq<(int, Seq<char>)>,
    groups: Seq<(int, Seq<char>)>,
    show_hidden: bool,
) -> Seq<Seq<ValModel>> {
    (match parent {
        Some(p) => seq![record_of(p, users, groups)],
        None => Seq::empty(),
    }) + records_of(raw, users, groups, show_hidden)
}

/// Lists of values.
pub open spec fn val_lists(s: Seq<Vec<SchemeVal>>) -> Seq<Seq<ValModel>> {
    Seq::new(s.len(), |i: int| vals(s[i]@))
}

/// Whether a name is hidden.
fn is_hidden(name: &str) -> (b: bool)
    ensures
        b == (name@.len() > 0 && name@[0] == '.'),
{
    proof {
        reveal_strlit(".");
        if name@.len() > 0 {
            assert(name@.take(1) =~= seq![name@[0]]);
            assert("."@ =~= seq!['.']);
        }
    }
    let b = starts_with(name, ".");
    assert(b ==> name@.take(1)[0] == '.');
    b
}

/// The entries of a directory as lists, unsorted: its parent first, then the
/// others, hidden names only with `show_hidden`.
pub fn directory_entries(
    parent: &Option<RawEntry>,
    raw: &Vec<RawEntry>,
    show_hidden: bool,
    users: &Vec<(u32, String)>,
    groups: &Vec<(u32, String)>,
) -> (r: Vec<Vec<SchemeVal>>)
    ensures
        val_lists(r@) == directory_of(
            match parent {
                Some(p) => Some(p@),
                None => None,
            },
            models(raw@),
            id_table(users@),
            id_table(groups@),
            show_hidden,
        ),
{
    let ghost us = id_table(users@);
    let ghost gs = id_table(groups@);
    let ghost all = models(raw@);
    let mut out: Vec<Vec<SchemeVal>> = Vec::new();
    if let Some(p) = parent {
        out.push(entry_record(p, users, groups));
    }
    let ghost head = val_lists(out@);
    assert(head =~= match parent {
        Some(p) => seq![record_of(p@, us, gs)],
        None => Seq::empty(),
    });
    assert(all.take(0) =~= Seq::<RawModel>::empty());
    assert(head + records_of(all.take(0), us, gs, show_hidden) =~= head);
    for i in 0..raw.len()
        invariant
            all == models(raw@),
            us == id_table(users@),
            gs == id_table(groups@),
            val_lists(out@) == head + records_of(all.take(i as int), us, gs, show_hidden),
    {
        let ghost now = all.take(i + 1);
        let ghost before = val_lists(out@);
        assert(now.drop_last() =~= all.take(i as int));
        assert(now.last() == raw@[i as int]@);
        if show_hidden || !is_hidden(raw[i].name.as_str()) {
            out.push(entry_record(&raw[i], users, groups));
            assert(val_lists(out@) =~= before.push(record_of(now.last(), us, gs)));
        }
        assert(val_lists(out@) =~= head + records_of(now, us, gs, show_hidden));
    }
    assert(all.take(all.len() as int) =~= all);
    out
}

} // verus!
