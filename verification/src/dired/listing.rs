//! Directory listings: entries from what the file system tells, their order
//! and their text.

use crate::bytes::{byte_len, bytes_of, lemma_byte_ends, lemma_byte_monotone};
use crate::calendar::{law_mtime_columns, mtime_string, mtime_text};
use crate::commands::editing::{lowercased, to_lower};
use crate::dired::state::{Entry, EntryModel};
use crate::lines::{
    is_break, law_rows_are_lines, line_begin, line_count, max, rows_text, unbroken,
};
use crate::order::{
    in_order, is_ordered, law_in_order, law_names_order, lex_le, lex_not_after, name_le, orders,
    put_in,
};
use crate::search::at_most_max;
use crate::seqs::models;
use crate::strings::{
    cat3, copy, decimal, decimal_u64, digit_count, from_chars, lemma_decimal_len, parse_decimal,
    parse_usize, repeat, repeated, to_chars, views,
};
use vstd::prelude::*;

verus! {

// ---- permissions -----------------------------------------------------------

/// The letter of a file type.
pub open spec fn type_char(mode: u32, is_dir: bool) -> char {
    let t = mode & 0o170000u32;
    if t == 0o040000 {
        'd'
    } else if t == 0o120000 {
        'l'
    } else if t == 0o140000 {
        's'
    } else if t == 0o060000 {
        'b'
    } else if t == 0o020000 {
        'c'
    } else if t == 0o010000 {
        'p'
    } else if t == 0 && is_dir {
        'd'
    } else {
        '-'
    }
}

/// The three letters of one class of permissions.
pub open spec fn rwx(mode: u32, shift: u32) -> Seq<char> {
    let bits = (mode >> shift) & 7u32;
    seq![
        if bits & 4u32 != 0 { 'r' } else { '-' },
        if bits & 2u32 != 0 { 'w' } else { '-' },
        if bits & 1u32 != 0 { 'x' } else { '-' },
    ]
}

/// "drwxr-xr-x" from a unix st_mode.
pub open spec fn mode_text(mode: u32, is_dir: bool) -> Seq<char> {
    seq![type_char(mode, is_dir)] + rwx(mode, 6) + rwx(mode, 3) + rwx(mode, 0)
}

fn push_rwx(s: &mut String, mode: u32, shift: u32)
    requires
        shift < 32,
    ensures
        final(s)@ == old(s)@ + rwx(mode, shift),
{
    let bits: u32 = (mode >> shift) & 7u32;
    s.push(if bits & 4u32 != 0 {
        'r'
    } else {
        '-'
    });
    s.push(if bits & 2u32 != 0 {
        'w'
    } else {
        '-'
    });
    s.push(if bits & 1u32 != 0 {
        'x'
    } else {
        '-'
    });
    assert(s@ =~= old(s)@ + rwx(mode, shift));
}

/// "drwxr-xr-x" from a unix st_mode.
pub fn mode_string(mode: u32, is_dir: bool) -> (s: String)
    ensures
        s@ == mode_text(mode, is_dir),
        s@.len() == 10,
{
    let t: u32 = mode & 0o170000u32;
    let mut s = String::new();
    s.push(
        if t == 0o040000 {
            'd'
        } else if t == 0o120000 {
            'l'
        } else if t == 0o140000 {
            's'
        } else if t == 0o060000 {
            'b'
        } else if t == 0o020000 {
            'c'
        } else if t == 0o010000 {
            'p'
        } else if t == 0 && is_dir {
            'd'
        } else {
            '-'
        },
    );
    push_rwx(&mut s, mode, 6);
    push_rwx(&mut s, mode, 3);
    push_rwx(&mut s, mode, 0);
    assert(s@ =~= mode_text(mode, is_dir));
    s
}

// ---- user and group names --------------------------------------------------

/// The index of the first `c` in `s` at or after `i`, or the length.
pub open spec fn find_char(s: Seq<char>, c: char, i: int) -> int
    decreases s.len() - i,
{
    if 0 <= i < s.len() && s[i] != c {
        find_char(s, c, i + 1)
    } else {
        i
    }
}

/// The name and the id of a line "name:x:id:..." of a user or group table.
pub open spec fn id_line(line: Seq<char>) -> Option<(int, Seq<char>)> {
    let a = find_char(line, ':', 0);
    let b = find_char(line, ':', a + 1);
    let c = find_char(line, ':', b + 1);
    if a < line.len() && b < line.len() {
        match parse_decimal(line.subrange(b + 1, c)) {
            Some(id) => if id <= u32::MAX {
                Some((id as int, line.subrange(0, a)))
            } else {
                None
            },
            None => None,
        }
    } else {
        None
    }
}

/// The pairs of the lines of a user or group table, lines without one left
/// out.
pub open spec fn id_pairs(lines: Seq<Seq<char>>) -> Seq<(int, Seq<char>)>
    decreases lines.len(),
{
    if lines.len() == 0 {
        Seq::empty()
    } else {
        match id_line(lines.last()) {
            Some(p) => id_pairs(lines.drop_last()).push(p),
            None => id_pairs(lines.drop_last()),
        }
    }
}

/// The first name of an id in a table from index `i` on; the id in digits if
/// there is none.
pub open spec fn name_of_id(t: Seq<(int, Seq<char>)>, id: int, i: int) -> Seq<char>
    decreases t.len() - i,
{
    if 0 <= i < t.len() {
        if t[i].0 == id {
            t[i].1
        } else {
            name_of_id(t, id, i + 1)
        }
    } else {
        decimal(id as nat)
    }
}

/// A table of ids and names.
pub open spec fn id_table(s: Seq<(u32, String)>) -> Seq<(int, Seq<char>)> {
    Seq::new(s.len(), |i: int| (s[i].0 as int, s[i].1@))
}

fn find_char_from(v: &Vec<char>, c: char, from: usize) -> (r: usize)
    requires
        from <= v@.len(),
    ensures
        r == find_char(v@, c, from as int),
        from <= r <= v@.len(),
{
    let mut i: usize = from;
    while i < v.len() && v[i] != c
        invariant
            from <= i <= v@.len(),
            find_char(v@, c, from as int) == find_char(v@, c, i as int),
        decreases v@.len() - i,
    {
        i = i + 1;
    }
    i
}

fn parse_id_line(line: &str) -> (r: Option<(u32, String)>)
    ensures
        match r {
            Some((id, name)) => id_line(line@) == Some((id as int, name@)),
            None => id_line(line@) is None,
        },
{
    let v = to_chars(line);
    let a: usize = find_char_from(&v, ':', 0);
    if a == v.len() {
        return None;
    }
    let b: usize = find_char_from(&v, ':', a + 1);
    if b == v.len() {
        return None;
    }
    let c: usize = find_char_from(&v, ':', b + 1);
    let digits = from_chars(&v, b + 1, c);
    match parse_usize(digits.as_str()) {
        Some(id) => {
            if id as u64 <= u32::MAX as u64 {
                let name = from_chars(&v, 0, a);
                Some((id as u32, name))
            } else {
                None
            }
        },
        None => None,
    }
}

/// The uid or gid names of a user or group table, given as its lines
/// ("name:x:id:..."). Lines that are no such line are left out.
pub fn id_names(lines: &Vec<String>) -> (r: Vec<(u32, String)>)
    ensures
        id_table(r@) == id_pairs(views(lines@)),
{
    let ghost all = views(lines@);
    let mut out: Vec<(u32, String)> = Vec::new();
    assert(all.take(0) =~= Seq::<Seq<char>>::empty());
    assert(id_table(out@) =~= Seq::<(int, Seq<char>)>::empty());
    for i in 0..lines.len()
        invariant
            all == views(lines@),
            id_table(out@) == id_pairs(all.take(i as int)),
    {
        let ghost before = id_table(out@);
        assert(all.take(i + 1).drop_last() =~= all.take(i as int));
        assert(all.take(i + 1).last() == lines@[i as int]@);
        if let Some((id, name)) = parse_id_line(lines[i].as_str()) {
            let ghost p = (id as int, name@);
            out.push((id, name));
            assert(id_table(out@) =~= before.push(p));
        }
    }
    assert(all.take(all.len() as int) =~= all);
    out
}

pub(crate) fn id_name(table: &Vec<(u32, String)>, id: u32) -> (s: String)
    ensures
        s@ == name_of_id(id_table(table@), id as int, 0),
{
    let ghost t = id_table(table@);
    let mut i: usize = 0;
    while i < table.len()
        invariant
            i <= table@.len(),
            t == id_table(table@),
            name_of_id(t, id as int, 0) == name_of_id(t, id as int, i as int),
        decreases table@.len() - i,
    {
        if table[i].0 == id {
            return copy(table[i].1.as_str());
        }
        i = i + 1;
    }
    decimal_u64(id as u64)
}

// ---- entries ---------------------------------------------------------------

/// What the file system tells of one name of a directory; the numbers are
/// zero where it tells nothing.
#[derive(Debug)]
pub struct RawEntry {
    pub name: String,
    pub path: String,
    pub is_dir: bool,
    pub mode: u32,
    pub nlink: u64,
    pub uid: u32,
    pub gid: u32,
    pub size: u64,
    pub mtime: i64,
}

/// What the file system tells of one name of a directory.
#[verifier::ext_equal]
pub struct RawModel {
    pub name: Seq<char>,
    pub path: Seq<char>,
    pub is_dir: bool,
    pub mode: u32,
    pub nlink: u64,
    pub uid: u32,
    pub gid: u32,
    pub size: u64,
    pub mtime: i64,
}

impl View for RawEntry {
    type V = RawModel;

    open spec fn view(&self) -> RawModel {
        RawModel {
            name: self.name@,
            path: self.path@,
            is_dir: self.is_dir,
            mode: self.mode,
            nlink: self.nlink,
            uid: self.uid,
            gid: self.gid,
            size: self.size,
            mtime: self.mtime,
        }
    }
}

/// An unmarked entry, with owner and group by name.
pub open spec fn entry_of(
    r: RawModel,
    users: Seq<(int, Seq<char>)>,
    groups: Seq<(int, Seq<char>)>,
) -> EntryModel {
    EntryModel {
        name: r.name,
        path: r.path,
        is_dir: r.is_dir,
        mark: ' ',
        mode: r.mode,
        nlink: r.nlink,
        owner: name_of_id(users, r.uid as int, 0),
        group: name_of_id(groups, r.gid as int, 0),
        size: r.size,
        mtime: r.mtime,
    }
}

/// An unmarked entry, with owner and group by name.
pub fn make_entry(
    r: &RawEntry,
    users: &Vec<(u32, String)>,
    groups: &Vec<(u32, String)>,
) -> (e: Entry)
    ensures
        e@ == entry_of(r@, id_table(users@), id_table(groups@)),
{
    Entry {
        name: copy(r.name.as_str()),
        path: copy(r.path.as_str()),
        is_dir: r.is_dir,
        mark: ' ',
        mode: r.mode,
        nlink: r.nlink,
        owner: id_name(users, r.uid),
        group: id_name(groups, r.gid),
        size: r.size,
        mtime: r.mtime,
    }
}

/// Whether entry `a` may stand before entry `b`: directories first, then by
/// name, whatever its case.
pub open spec fn entry_le(a: EntryModel, b: EntryModel) -> bool {
    if a.is_dir != b.is_dir {
        a.is_dir
    } else {
        lex_le(lowercased(a.name), lowercased(b.name), 0)
    }
}

/// The order of entries.
pub open spec fn entry_order() -> spec_fn(EntryModel, EntryModel) -> bool {
    |a: EntryModel, b: EntryModel| entry_le(a, b)
}

/// The entries that a listing shows: hidden names only where asked for.
pub open spec fn shown_entries(
    raw: Seq<RawModel>,
    users: Seq<(int, Seq<char>)>,
    groups: Seq<(int, Seq<char>)>,
    show_hidden: bool,
) -> Seq<EntryModel>
    decreases raw.len(),
{
    if raw.len() == 0 {
        Seq::empty()
    } else {
        let rest = shown_entries(raw.drop_last(), users, groups, show_hidden);
        let r = raw.last();
        if !show_hidden && r.name.len() > 0 && r.name[0] == '.' {
            rest
        } else {
            rest.push(entry_of(r, users, groups))
        }
    }
}

/// The entries of a directory: its parent first, then directories, then files.
pub open spec fn listed(
    raw: Seq<RawModel>,
    parent: Option<RawModel>,
    users: Seq<(int, Seq<char>)>,
    groups: Seq<(int, Seq<char>)>,
    show_hidden: bool,
) -> Seq<EntryModel> {
    let s = in_order(shown_entries(raw, users, groups, show_hidden), entry_order());
    match parent {
        Some(p) => seq![entry_of(p, users, groups)] + s,
        None => s,
    }
}

fn may_precede(a: &Entry, b: &Entry) -> (r: bool)
    ensures
        r == entry_le(a@, b@),
{
    if a.is_dir != b.is_dir {
        a.is_dir
    } else {
        let x = to_lower(a.name.as_str());
        let y = to_lower(b.name.as_str());
        lex_not_after(x.as_str(), y.as_str())
    }
}

fn insert_entry(s: &mut Vec<Entry>, e: Entry)
    ensures
        models(final(s)@) == put_in(models(old(s)@), e@, entry_order()),
{
    let ghost all = models(s@);
    let mut i: usize = s.len();
    assert(all.take(i as int) =~= all);
    assert(put_in(all, e@, entry_order()) =~= put_in(all.take(i as int), e@, entry_order()) + all.skip(i as int));
    while i > 0 && !may_precede(&s[i - 1], &e)
        invariant
            i <= s@.len(),
            s@ == old(s)@,
            all == models(s@),
            put_in(all, e@, entry_order()) == put_in(all.take(i as int), e@, entry_order()) + all.skip(i as int),
        decreases i,
    {
        assert(all.take(i as int).drop_last() =~= all.take(i - 1));
        assert(all.take(i as int).last() == all[i - 1]);
        assert(put_in(all.take(i - 1), e@, entry_order()).push(all[i - 1]) + all.skip(i as int) =~= put_in(
            all.take(i - 1),
            e@,
            entry_order(),
        ) + all.skip(i - 1));
        i = i - 1;
    }
    assert(i > 0 ==> all.take(i as int).last() == all[i - 1]);
    s.insert(i, e);
    assert(models(s@) =~= all.take(i as int).push(e@) + all.skip(i as int));
}

/// The entries of a directory from what the file system tells: its parent
/// first (always shown, like ls -la), then directories, then files, each by
/// name whatever its case; hidden names only with `show_hidden`.
pub fn list_entries(
    raw: &Vec<RawEntry>,
    parent: &Option<RawEntry>,
    users: &Vec<(u32, String)>,
    groups: &Vec<(u32, String)>,
    show_hidden: bool,
) -> (r: Vec<Entry>)
    ensures
        models(r@) == listed(
            models(raw@),
            match *parent {
                Some(p) => Some(p@),
                None => None,
            },
            id_table(users@),
            id_table(groups@),
            show_hidden,
        ),
{
    let ghost us = id_table(users@);
    let ghost gs = id_table(groups@);
    let ghost all = models(raw@);
    let mut out: Vec<Entry> = Vec::new();
    let mut i: usize = 0;
    assert(all.take(0) =~= Seq::<RawModel>::empty());
    assert(models(out@) =~= Seq::<EntryModel>::empty());
    while i < raw.len()
        invariant
            i <= raw@.len(),
            all == models(raw@),
            us == id_table(users@),
            gs == id_table(groups@),
            models(out@) == in_order(
                shown_entries(all.take(i as int), us, gs, show_hidden),
                entry_order(),
            ),
        decreases raw@.len() - i,
    {
        assert(all.take(i + 1).drop_last() =~= all.take(i as int));
        assert(all.take(i + 1).last() == raw@[i as int]@);
        let name = to_chars(raw[i].name.as_str());
        if show_hidden || !(name.len() > 0 && name[0] == '.') {
            let e = make_entry(&raw[i], users, groups);
            let ghost before = shown_entries(all.take(i as int), us, gs, show_hidden);
            insert_entry(&mut out, e);
            assert(before.push(e@).drop_last() =~= before);
        }
        i = i + 1;
    }
    assert(all.take(all.len() as int) =~= all);
    if let Some(p) = parent {
        let e = make_entry(p, users, groups);
        let ghost before = models(out@);
        out.insert(0, e);
        assert(models(out@) =~= seq![e@] + before);
    }
    out
}

// ---- the text --------------------------------------------------------------

/// `s` filled up with spaces on the left to `w` chars.
pub open spec fn pad_left(s: Seq<char>, w: int) -> Seq<char> {
    if s.len() < w {
        repeated(' ', (w - s.len()) as nat) + s
    } else {
        s
    }
}

/// `s` filled up with spaces on the right to `w` chars.
pub open spec fn pad_right(s: Seq<char>, w: int) -> Seq<char> {
    if s.len() < w {
        s + repeated(' ', (w - s.len()) as nat)
    } else {
        s
    }
}

pub(crate) fn padded_left(s: &str, w: usize) -> (r: String)
    ensures
        r@ == pad_left(s@, w as int),
{
    let n: usize = s.unicode_len();
    if n < w {
        let mut r = repeat(' ', w - n);
        r.push_str(s);
        r
    } else {
        copy(s)
    }
}

fn padded_right(s: &str, w: usize) -> (r: String)
    ensures
        r@ == pad_right(s@, w as int),
{
    let n: usize = s.unicode_len();
    let mut r = copy(s);
    if n < w {
        let fill = repeat(' ', w - n);
        r.push_str(fill.as_str());
    }
    r
}

/// The widths of the metadata columns of a listing: links, owner, group and
/// size, each at least 1.
pub open spec fn widths(s: Seq<EntryModel>) -> (int, int, int, int)
    decreases s.len(),
{
    if s.len() == 0 {
        (1, 1, 1, 1)
    } else {
        let w = widths(s.drop_last());
        let e = s.last();
        (
            max(w.0, digit_count(e.nlink as nat) as int),
            max(w.1, byte_len(e.owner)),
            max(w.2, byte_len(e.group)),
            max(w.3, digit_count(e.size as nat) as int),
        )
    }
}

/// The column at which file names start.
pub open spec fn name_column(w: (int, int, int, int)) -> int {
    at_most_max(2 + 10 + 1 + w.0 + 1 + w.1 + 1 + w.2 + 1 + w.3 + 1 + 12 + 1)
}

/// The line of an entry.
pub open spec fn entry_text(e: EntryModel, w: (int, int, int, int)) -> Seq<char> {
    seq!['\n', e.mark, ' '] + mode_text(e.mode, e.is_dir) + " "@ + pad_left(
        decimal(e.nlink as nat),
        w.0,
    ) + " "@ + pad_right(e.owner, w.1) + " "@ + pad_right(e.group, w.2) + " "@ + pad_left(
        decimal(e.size as nat),
        w.3,
    ) + " "@ + mtime_text(e.mtime as int) + " "@ + e.name
}

/// The lines of entries.
pub open spec fn entries_text(s: Seq<EntryModel>, w: (int, int, int, int)) -> Seq<char>
    decreases s.len(),
{
    if s.len() == 0 {
        Seq::empty()
    } else {
        entries_text(s.drop_last(), w) + entry_text(s.last(), w)
    }
}

/// The text of a listing: a header with the directory, then a line for each
/// entry.
pub open spec fn listing_of(dir: Seq<char>, s: Seq<EntryModel>) -> Seq<char> {
    "  "@ + dir + ":"@ + entries_text(s, widths(s))
}

fn larger(a: usize, b: usize) -> (r: usize)
    ensures
        r == max(a as int, b as int),
{
    if a >= b {
        a
    } else {
        b
    }
}

fn add_up(a: usize, b: usize) -> (r: usize)
    ensures
        r == at_most_max(a + b),
{
    if b <= usize::MAX - a {
        a + b
    } else {
        usize::MAX
    }
}

fn digits_of(n: u64) -> (r: usize)
    ensures
        r == digit_count(n as nat),
{
    proof {
        lemma_decimal_len(n as nat);
    }
    decimal_u64(n).as_str().unicode_len()
}

fn column_widths(entries: &Vec<Entry>) -> (r: (usize, usize, usize, usize))
    ensures
        (r.0 as int, r.1 as int, r.2 as int, r.3 as int) == widths(models(entries@)),
{
    let ghost all = models(entries@);
    let mut lw: usize = 1;
    let mut ow: usize = 1;
    let mut gw: usize = 1;
    let mut sw: usize = 1;
    assert(all.take(0) =~= Seq::<EntryModel>::empty());
    for i in 0..entries.len()
        invariant
            all == models(entries@),
            (lw as int, ow as int, gw as int, sw as int) == widths(all.take(i as int)),
    {
        assert(all.take(i + 1).drop_last() =~= all.take(i as int));
        assert(all.take(i + 1).last() == entries@[i as int]@);
        lw = larger(lw, digits_of(entries[i].nlink));
        ow = larger(ow, bytes_of(entries[i].owner.as_str()));
        gw = larger(gw, bytes_of(entries[i].group.as_str()));
        sw = larger(sw, digits_of(entries[i].size));
    }
    assert(all.take(all.len() as int) =~= all);
    (lw, ow, gw, sw)
}

fn push_entry(text: &mut String, e: &Entry, lw: usize, ow: usize, gw: usize, sw: usize)
    ensures
        final(text)@ == old(text)@ + entry_text(
            e@,
            (lw as int, ow as int, gw as int, sw as int),
        ),
{
    let mut s = String::new();
    s.push('\n');
    s.push(e.mark);
    s.push(' ');
    assert(s@ =~= seq!['\n', e.mark, ' ']);
    s.push_str(mode_string(e.mode, e.is_dir).as_str());
    s.push_str(" ");
    s.push_str(padded_left(decimal_u64(e.nlink).as_str(), lw).as_str());
    s.push_str(" ");
    s.push_str(padded_right(e.owner.as_str(), ow).as_str());
    s.push_str(" ");
    s.push_str(padded_right(e.group.as_str(), gw).as_str());
    s.push_str(" ");
    s.push_str(padded_left(decimal_u64(e.size).as_str(), sw).as_str());
    s.push_str(" ");
    s.push_str(mtime_string(e.mtime).as_str());
    s.push_str(" ");
    s.push_str(e.name.as_str());
    assert(s@ =~= entry_text(e@, (lw as int, ow as int, gw as int, sw as int)));
    text.push_str(s.as_str());
}

/// The buffer text for a listing, ls -la style, plus the column where file
/// names start (metadata columns are width-aligned per listing).
pub fn listing_text(dir: &str, entries: &Vec<Entry>) -> (r: (String, usize))
    ensures
        r.0@ == listing_of(dir@, models(entries@)),
        r.1 == name_column(widths(models(entries@))),
{
    let ghost all = models(entries@);
    let (lw, ow, gw, sw) = column_widths(entries);
    let ghost w = (lw as int, ow as int, gw as int, sw as int);
    let name_col: usize = add_up(add_up(add_up(add_up(30, lw), ow), gw), sw);
    let mut text = cat3("  ", dir, ":");
    let ghost head = text@;
    assert(all.take(0) =~= Seq::<EntryModel>::empty());
    assert(head + entries_text(all.take(0), w) =~= head);
    for i in 0..entries.len()
        invariant
            all == models(entries@),
            w == (lw as int, ow as int, gw as int, sw as int),
            text@ == head + entries_text(all.take(i as int), w),
    {
        assert(all.take(i + 1).drop_last() =~= all.take(i as int));
        assert(all.take(i + 1).last() == entries@[i as int]@);
        push_entry(&mut text, &entries[i], lw, ow, gw, sw);
        assert(text@ =~= head + entries_text(all.take(i + 1), w));
    }
    assert(all.take(all.len() as int) =~= all);
    (text, name_col)
}

// ---- laws ------------------------------------------------------------------

/// Entries can be ordered.
pub proof fn law_entries_order()
    ensures
        orders(entry_order()),
{
    let le = entry_order();
    law_names_order();
    let nl = name_le();
    assert forall|a: EntryModel, b: EntryModel| #[trigger] le(a, b) || le(b, a) by {
        assert(nl(lowercased(a.name), lowercased(b.name)) || nl(
            lowercased(b.name),
            lowercased(a.name),
        ));
    }
    assert forall|a: EntryModel, b: EntryModel, c: EntryModel| #[trigger]
        le(a, b) && #[trigger] le(b, c) implies le(a, c) by {
        if a.is_dir == b.is_dir && b.is_dir == c.is_dir {
            assert(nl(lowercased(a.name), lowercased(b.name)));
            assert(nl(lowercased(b.name), lowercased(c.name)));
        }
    }
}

/// A listing holds the parent first, where there is one, and then exactly the
/// entries to be shown, directories first, each kind by name.
pub proof fn law_listing_sorted(
    parent: Option<RawModel>,
    raw: Seq<RawModel>,
    users: Seq<(int, Seq<char>)>,
    groups: Seq<(int, Seq<char>)>,
    show_hidden: bool,
)
    ensures
        ({
            let all = listed(raw, parent, users, groups, show_hidden);
            let rest = match parent {
                Some(_) => all.drop_first(),
                None => all,
            };
            &&& match parent {
                Some(p) => all.len() > 0 && all[0] == entry_of(p, users, groups),
                None => true,
            }
            &&& is_ordered(rest, entry_order())
            &&& rest.to_multiset() == shown_entries(raw, users, groups, show_hidden).to_multiset()
        }),
{
    law_entries_order();
    let shown = shown_entries(raw, users, groups, show_hidden);
    law_in_order(shown, entry_order());
    let s = in_order(shown, entry_order());
    if let Some(p) = parent {
        let all = listed(raw, parent, users, groups, show_hidden);
        assert(all.drop_first() =~= s);
    }
}

// ---- where names stand in a listing ----------------------------------------

/// Whether an entry is shown on one line.
pub open spec fn on_one_line(e: EntryModel) -> bool {
    unbroken(e.name) && unbroken(e.owner) && unbroken(e.group) && !is_break(e.mark)
}

/// Whether a directory and its entries are shown on one line each.
pub open spec fn lines_kept(dir: Seq<char>, s: Seq<EntryModel>) -> bool {
    unbroken(dir) && forall|i: int| 0 <= i < s.len() ==> on_one_line(#[trigger] s[i])
}

/// The line of an entry, without the newline before it.
pub open spec fn entry_row(e: EntryModel, w: (int, int, int, int)) -> Seq<char> {
    entry_text(e, w).skip(1)
}

/// The lines of a listing.
pub open spec fn listing_rows(dir: Seq<char>, s: Seq<EntryModel>, w: (int, int, int, int)) -> Seq<
    Seq<char>,
> {
    seq!["  "@ + dir + ":"@] + Seq::new(s.len(), |i: int| entry_row(s[i], w))
}

/// Whether an entry's metadata fits the columns.
spec fn fits_columns(e: EntryModel, w: (int, int, int, int)) -> bool {
    &&& digit_count(e.nlink as nat) <= w.0
    &&& byte_len(e.owner) <= w.1
    &&& byte_len(e.group) <= w.2
    &&& digit_count(e.size as nat) <= w.3
}

proof fn lemma_widths(s: Seq<EntryModel>, i: int)
    requires
        0 <= i < s.len(),
    ensures
        fits_columns(s[i], widths(s)),
    decreases s.len(),
{
    if i < s.len() - 1 {
        lemma_widths(s.drop_last(), i);
    }
}

proof fn lemma_digits_unbroken(n: nat)
    ensures
        unbroken(decimal(n)),
    decreases n,
{
    if n >= 10 {
        lemma_digits_unbroken(n / 10);
    }
}

proof fn lemma_byte_len(s: Seq<char>)
    ensures
        s.len() <= byte_len(s),
{
    lemma_byte_ends(s);
    lemma_byte_monotone(s, 0, s.len() as int);
}

proof fn lemma_pads(s: Seq<char>, w: int)
    requires
        unbroken(s),
        s.len() <= w,
    ensures
        unbroken(pad_left(s, w)),
        unbroken(pad_right(s, w)),
        pad_left(s, w).len() == w,
        pad_right(s, w).len() == w,
{
}

/// The column at which names start, where it can be counted.
spec fn column_of(w: (int, int, int, int)) -> int {
    30 + w.0 + w.1 + w.2 + w.3
}

/// A piece more on a line keeps what stands before the line apart.
proof fn lemma_piece(n: Seq<char>, a: Seq<char>, b: Seq<char>)
    requires
        unbroken(a),
        unbroken(b),
    ensures
        (n + a) + b == n + (a + b),
        unbroken(a + b),
        (a + b).len() == a.len() + b.len(),
{
    assert((n + a) + b =~= n + (a + b));
}

proof fn lemma_row_pieces(e: EntryModel, w: (int, int, int, int))
    requires
        on_one_line(e),
        fits_columns(e, w),
    ensures
        unbroken(pad_left(decimal(e.nlink as nat), w.0)),
        pad_left(decimal(e.nlink as nat), w.0).len() == w.0,
        unbroken(pad_right(e.owner, w.1)),
        pad_right(e.owner, w.1).len() == w.1,
        unbroken(pad_right(e.group, w.2)),
        pad_right(e.group, w.2).len() == w.2,
        unbroken(pad_left(decimal(e.size as nat), w.3)),
        pad_left(decimal(e.size as nat), w.3).len() == w.3,
        unbroken(mtime_text(e.mtime as int)),
        mtime_text(e.mtime as int).len() == 12,
        unbroken(mode_text(e.mode, e.is_dir)),
        mode_text(e.mode, e.is_dir).len() == 10,
        unbroken(" "@),
        " "@.len() == 1,
{
    reveal_strlit(" ");
    lemma_decimal_len(e.nlink as nat);
    lemma_decimal_len(e.size as nat);
    lemma_digits_unbroken(e.nlink as nat);
    lemma_digits_unbroken(e.size as nat);
    lemma_byte_len(e.owner);
    lemma_byte_len(e.group);
    lemma_pads(decimal(e.nlink as nat), w.0);
    lemma_pads(e.owner, w.1);
    lemma_pads(e.group, w.2);
    lemma_pads(decimal(e.size as nat), w.3);
    law_mtime_columns(e.mtime as int);
}

proof fn lemma_row_joined(
    mark: char,
    m: Seq<char>,
    l: Seq<char>,
    o: Seq<char>,
    g: Seq<char>,
    z: Seq<char>,
    t: Seq<char>,
    name: Seq<char>,
) -> (head: Seq<char>)
    requires
        !is_break(mark),
        unbroken(m),
        unbroken(l),
        unbroken(o),
        unbroken(g),
        unbroken(z),
        unbroken(t),
        unbroken(name),
        unbroken(" "@),
        " "@.len() == 1,
    ensures
        unbroken(head + name),
        head.len() == 8 + m.len() + l.len() + o.len() + g.len() + z.len() + t.len(),
        seq!['\n', mark, ' '] + m + " "@ + l + " "@ + o + " "@ + g + " "@ + z + " "@ + t + " "@
            + name == seq!['\n'] + (head + name),
{
    let n = seq!['\n'];
    let sp = " "@;
    let b = seq![mark, ' '];
    assert(seq!['\n', mark, ' '] =~= n + b);
    lemma_piece(n, b, m);
    let c1 = b + m;
    lemma_piece(n, c1, sp);
    let c2 = c1 + sp;
    lemma_piece(n, c2, l);
    let c3 = c2 + l;
    lemma_piece(n, c3, sp);
    let c4 = c3 + sp;
    lemma_piece(n, c4, o);
    let c5 = c4 + o;
    lemma_piece(n, c5, sp);
    let c6 = c5 + sp;
    lemma_piece(n, c6, g);
    let c7 = c6 + g;
    lemma_piece(n, c7, sp);
    let c8 = c7 + sp;
    lemma_piece(n, c8, z);
    let c9 = c8 + z;
    lemma_piece(n, c9, sp);
    let c10 = c9 + sp;
    lemma_piece(n, c10, t);
    let c11 = c10 + t;
    lemma_piece(n, c11, sp);
    let c12 = c11 + sp;
    lemma_piece(n, c12, name);
    c12
}

proof fn lemma_entry_row(e: EntryModel, w: (int, int, int, int))
    requires
        on_one_line(e),
        fits_columns(e, w),
    ensures
        unbroken(entry_row(e, w)),
        entry_row(e, w).len() == column_of(w) + e.name.len(),
        entry_row(e, w).skip(column_of(w)) == e.name,
        entry_text(e, w) == seq!['\n'] + entry_row(e, w),
{
    lemma_row_pieces(e, w);
    let head = lemma_row_joined(
        e.mark,
        mode_text(e.mode, e.is_dir),
        pad_left(decimal(e.nlink as nat), w.0),
        pad_right(e.owner, w.1),
        pad_right(e.group, w.2),
        pad_left(decimal(e.size as nat), w.3),
        mtime_text(e.mtime as int),
        e.name,
    );
    assert(head.len() == column_of(w));
    assert((seq!['\n'] + (head + e.name)).skip(1) =~= head + e.name);
    assert((head + e.name).skip(column_of(w)) =~= e.name);
}

proof fn lemma_listing_rows(dir: Seq<char>, s: Seq<EntryModel>, w: (int, int, int, int))
    requires
        forall|i: int| 0 <= i < s.len() ==> on_one_line(#[trigger] s[i]),
        forall|i: int| 0 <= i < s.len() ==> fits_columns(#[trigger] s[i], w),
    ensures
        rows_text(listing_rows(dir, s, w)) == "  "@ + dir + ":"@ + entries_text(s, w),
    decreases s.len(),
{
    let rows = listing_rows(dir, s, w);
    let head = "  "@ + dir + ":"@;
    if s.len() == 0 {
        assert(rows =~= seq![head]);
        assert(head + entries_text(s, w) =~= head);
    } else {
        let t = s.drop_last();
        lemma_listing_rows(dir, t, w);
        lemma_entry_row(s.last(), w);
        assert(rows.drop_last() =~= listing_rows(dir, t, w));
        assert(rows.last() == entry_row(s.last(), w));
        assert(head + entries_text(s, w) =~= (head + entries_text(t, w)) + entry_text(s.last(), w));
        assert(rows_text(rows) =~= (head + entries_text(t, w)) + seq!['\n'] + entry_row(s.last(), w));
    }
}

proof fn lemma_rows_unbroken(dir: Seq<char>, s: Seq<EntryModel>, w: (int, int, int, int))
    requires
        unbroken(dir),
        forall|i: int| 0 <= i < s.len() ==> on_one_line(#[trigger] s[i]),
        forall|i: int| 0 <= i < s.len() ==> fits_columns(#[trigger] s[i], w),
    ensures
        forall|k: int|
            0 <= k < listing_rows(dir, s, w).len() ==> unbroken(
                #[trigger] listing_rows(dir, s, w)[k],
            ),
{
    let rows = listing_rows(dir, s, w);
    assert forall|k: int| 0 <= k < rows.len() implies unbroken(#[trigger] rows[k]) by {
        if k == 0 {
            reveal_strlit("  ");
            reveal_strlit(":");
        } else {
            assert(rows[k] == entry_row(s[k - 1], w));
            lemma_entry_row(s[k - 1], w);
        }
    }
}

/// A listing shows each entry on its own line, below the header, with its name
/// at the name column.
#[verifier::spinoff_prover]
#[verifier::rlimit(60)]
pub proof fn law_listing_names(dir: Seq<char>, s: Seq<EntryModel>, i: int)
    requires
        lines_kept(dir, s),
        0 <= i < s.len(),
    ensures
        ({
            let t = listing_of(dir, s);
            let row = entry_row(s[i], widths(s));
            let start = line_begin(t, i + 1);
            let stop = line_begin(t, i + 2);
            &&& line_count(t) == s.len() + 1
            &&& 0 <= start <= start + row.len() <= stop <= t.len()
            &&& t.subrange(start, stop) == (if i + 1 < s.len() {
                row.push('\n')
            } else {
                row
            })
            &&& unbroken(row)
            &&& name_column(widths(s)) < usize::MAX ==> name_column(widths(s)) <= row.len()
                && row.skip(name_column(widths(s))) == s[i].name
        }),
{
    let w = widths(s);
    let rows = listing_rows(dir, s, w);
    let t = listing_of(dir, s);
    assert forall|k: int| 0 <= k < s.len() implies fits_columns(#[trigger] s[k], w) by {
        lemma_widths(s, k);
    }
    lemma_listing_rows(dir, s, w);
    assert(rows_text(rows) == t);
    lemma_rows_unbroken(dir, s, w);
    law_rows_are_lines(rows, i + 1);
    lemma_entry_row(s[i], w);
    let row = entry_row(s[i], w);
    assert(rows[i + 1] == row);
    let start = line_begin(t, i + 1);
    let stop = line_begin(t, i + 2);
    assert(t.subrange(start, start + row.len()) == row);
    if i + 1 < s.len() {
        assert(t.subrange(start, stop) =~= t.subrange(start, start + row.len()).push('\n'));
    }
}

} // verus!
