//! What help and completion are built on: names, documentation, bindings.

use crate::assoc::{lookup, Assoc};
use crate::buffer::BufferModel;
use crate::columns::{gutter_of, gutter_width};
use crate::editor::{cur_buf, wf, Editor, EditorModel};
use crate::input::string_pairs;
use crate::keymap::{lists_bindings, seq_texts, Meaning};
use crate::keys::Chord;
use crate::layout::rect_of;
use crate::order::{in_order, name_le, sort_names};
use crate::strings::{copy, no_text, views};
use vstd::prelude::*;

verus! {

/// The documentation of a command; empty for an unknown one.
pub fn command_doc(ed: &Editor, name: &str) -> (s: String)
    ensures
        s@ == match lookup(ed@.registry, name@) {
            Some(c) => c.doc,
            None => Seq::empty(),
        },
{
    match ed.registry.get(name) {
        Some(c) => copy(c.doc.as_str()),
        None => no_text(),
    }
}

/// The keys of a table.
pub open spec fn keys_of<V>(s: Seq<(Seq<char>, V)>) -> Seq<Seq<char>> {
    Seq::new(s.len(), |i: int| s[i].0)
}

fn sorted_keys<T: View>(t: &Assoc<T>) -> (r: Vec<String>)
    ensures
        views(r@) == in_order(keys_of(t@), name_le()),
{
    let mut names: Vec<String> = Vec::new();
    for i in 0..t.items.len()
        invariant
            names@.len() == i,
            forall|k: int| 0 <= k < i ==> (#[trigger] names@[k])@ == t.items@[k].0@,
    {
        names.push(copy(t.items[i].0.as_str()));
    }
    assert(views(names@) =~= keys_of(t@));
    sort_names(&names)
}

/// The names of all commands, in order.
pub fn command_names(ed: &Editor) -> (r: Vec<String>)
    ensures
        views(r@) == in_order(keys_of(ed@.registry), name_le()),
{
    sorted_keys(&ed.registry)
}

/// The names of the current buffer's buffer-local variables, in order.
pub fn buffer_local_keys(ed: &Editor) -> (r: Vec<String>)
    requires
        wf(ed@),
    ensures
        views(r@) == in_order(keys_of(cur_buf(ed@).locals), name_le()),
{
    sorted_keys(&ed.cur_buffer().locals)
}

/// The names of buffers.
pub open spec fn names_of(bs: Seq<BufferModel>) -> Seq<Seq<char>> {
    Seq::new(bs.len(), |i: int| bs[i].name)
}

/// The names of all buffers.
pub fn buffer_list(ed: &Editor) -> (r: Vec<String>)
    ensures
        views(r@) == names_of(ed@.buffers),
{
    let mut names: Vec<String> = Vec::new();
    for i in 0..ed.buffers.len()
        invariant
            names@.len() == i,
            forall|k: int| 0 <= k < i ==> (#[trigger] names@[k])@ == ed.buffers@[k].name@,
    {
        names.push(copy(ed.buffers[i].name.as_str()));
    }
    assert(views(names@) =~= names_of(ed@.buffers));
    names
}

/// The names of all buffers, in order.
pub fn buffer_names(ed: &Editor) -> (r: Vec<String>)
    ensures
        views(r@) == in_order(names_of(ed@.buffers), name_le()),
{
    let names = buffer_list(ed);
    sort_names(&names)
}

/// The names of directory entries, directories with a `/` at their end.
pub open spec fn entry_names(s: Seq<(String, bool)>) -> Seq<Seq<char>> {
    Seq::new(
        s.len(),
        |i: int|
            if s[i].1 {
                s[i].0@.push('/')
            } else {
                s[i].0@
            },
    )
}

/// The names of a directory's entries, in order, directories with a `/` at
/// their end.
pub fn directory_files(entries: &Vec<(String, bool)>) -> (r: Vec<String>)
    ensures
        views(r@) == in_order(entry_names(entries@), name_le()),
{
    let ghost all = entry_names(entries@);
    let mut names: Vec<String> = Vec::new();
    for i in 0..entries.len()
        invariant
            all == entry_names(entries@),
            names@.len() == i,
            forall|k: int| 0 <= k < i ==> (#[trigger] names@[k])@ == all[k],
    {
        let mut n = copy(entries[i].0.as_str());
        if entries[i].1 {
            n.push('/');
        }
        names.push(n);
    }
    assert(views(names@) =~= all);
    sort_names(&names)
}

/// The columns that the selected window shows text in.
pub fn window_width(ed: &Editor) -> (r: usize)
    requires
        wf(ed@),
    ensures
        r == ({
            let rect = rect_of(ed@, ed@.windows.selected);
            rect.w - gutter_of(ed@, cur_buf(ed@), rect)
        }),
{
    let rect = ed.window_rect(ed.windows.selected);
    let gutter: usize = gutter_width(ed, ed.cur_buffer(), &rect);
    rect.w as usize - gutter
}

// ---- bindings of a command -------------------------------------------------

/// Whether texts are those of the key sequences that a keymap binds to a
/// command.
pub open spec fn binding_texts(
    m: Map<Seq<Chord>, Meaning>,
    name: Seq<char>,
    texts: Seq<Seq<char>>,
) -> bool {
    exists|seqs: Seq<Seq<Chord>>|
        #![trigger lists_bindings(m, name, seqs)]
        lists_bindings(m, name, seqs) && texts == seq_texts(seqs)
}

/// Texts with a map's name beside each.
pub open spec fn beside(texts: Seq<Seq<char>>, map: Seq<char>) -> Seq<(Seq<char>, Seq<char>)> {
    Seq::new(texts.len(), |i: int| (texts[i], map))
}

/// Whether pairs are the bindings of a command in some named maps, map by map.
pub open spec fn named_bindings(
    e: EditorModel,
    name: Seq<char>,
    maps: Seq<Seq<char>>,
    pairs: Seq<(Seq<char>, Seq<char>)>,
) -> bool
    decreases maps.len(),
{
    if maps.len() == 0 {
        pairs.len() == 0
    } else {
        exists|before: Seq<(Seq<char>, Seq<char>)>, texts: Seq<Seq<char>>|
            #![trigger before + beside(texts, maps.last())]
            pairs == before + beside(texts, maps.last()) && named_bindings(
                e,
                name,
                maps.drop_last(),
                before,
            ) && match lookup(e.keymaps, maps.last()) {
                Some(m) => binding_texts(m, name, texts),
                None => texts.len() == 0,
            }
    }
}

/// Whether pairs are all bindings of a command: those of the global map, with
/// an empty name beside them, and then those of the named maps, by name.
pub open spec fn all_bindings(
    e: EditorModel,
    name: Seq<char>,
    pairs: Seq<(Seq<char>, Seq<char>)>,
) -> bool {
    exists|texts: Seq<Seq<char>>, rest: Seq<(Seq<char>, Seq<char>)>|
        #![trigger beside(texts, ""@) + rest]
        pairs == beside(texts, ""@) + rest && binding_texts(e.global_map, name, texts)
            && named_bindings(e, name, in_order(keys_of(e.keymaps), name_le()), rest)
}

fn pair_with(texts: Vec<String>, map: &str, out: &mut Vec<(String, String)>)
    ensures
        string_pairs(final(out)@) == string_pairs(old(out)@) + beside(views(texts@), map@),
{
    let ghost base = string_pairs(out@);
    let ghost all = views(texts@);
    assert(base + beside(all.take(0), map@) =~= base);
    for i in 0..texts.len()
        invariant
            all == views(texts@),
            string_pairs(out@) == base + beside(all.take(i as int), map@),
    {
        let ghost before = string_pairs(out@);
        out.push((copy(texts[i].as_str()), copy(map)));
        assert(string_pairs(out@) =~= before.push((all[i as int], map@)));
        assert(string_pairs(out@) =~= base + beside(all.take(i + 1), map@));
    }
    assert(all.take(all.len() as int) =~= all);
}

/// Every key sequence bound to a command, each with the name of its map, which
/// is empty for the global one.
pub fn command_bindings(ed: &Editor, name: &str) -> (r: Vec<(String, String)>)
    ensures
        all_bindings(ed@, name@, string_pairs(r@)),
{
    let global = ed.global_map.bindings_of(name);
    let ghost texts = views(global@);
    let mut head: Vec<(String, String)> = Vec::new();
    pair_with(global, "", &mut head);
    let ghost first = string_pairs(head@);
    assert(first =~= beside(texts, ""@));
    assert(binding_texts(ed@.global_map, name@, texts));
    let maps = sorted_keys(&ed.keymaps);
    let ghost names = views(maps@);
    let mut out: Vec<(String, String)> = Vec::new();
    assert(names.take(0) =~= Seq::<Seq<char>>::empty());
    assert(string_pairs(out@).len() == 0);
    for i in 0..maps.len()
        invariant
            names == views(maps@),
            named_bindings(ed@, name@, names.take(i as int), string_pairs(out@)),
    {
        let ghost before = string_pairs(out@);
        let ghost now = names.take(i + 1);
        assert(now.drop_last() =~= names.take(i as int));
        assert(now.last() == maps@[i as int]@);
        let seqs = match ed.keymaps.get(maps[i].as_str()) {
            Some(map) => map.bindings_of(name),
            None => Vec::new(),
        };
        let ghost ts = views(seqs@);
        pair_with(seqs, maps[i].as_str(), &mut out);
        assert(string_pairs(out@) == before + beside(ts, now.last()));
        assert(named_bindings(ed@, name@, now, string_pairs(out@)));
    }
    assert(names.take(names.len() as int) =~= names);
    let ghost rest = string_pairs(out@);
    head.append(&mut out);
    assert(string_pairs(head@) =~= beside(texts, ""@) + rest);
    head
}

} // verus!
