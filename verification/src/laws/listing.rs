//! What a listing of a directory shows.

use crate::buffer::{BufferModel, ModeModel};
use crate::buffers::{lemma_shown, lemma_with_buffer, remembered, shown, with_buffer};
use crate::commands::editing::lowercased;
use crate::dired::files::{compressed_to, quoted};
use crate::dired::listing::{
    entry_of, entry_order, find_char, id_line, law_listing_sorted, lines_kept, listed, listing_of,
    mode_text, name_column, name_of_id, shown_entries, widths, RawModel,
};
use crate::dired::ops::{
    ancestors, at_entry, dired_buffer, dired_index, dired_opened, entry_named, first_true,
    listing_at, lists, refreshed, relisted,
};
use crate::dired::state::{DiredModel, EntryModel};
use crate::editor::{
    at_point, buf_ids, cur_buf, cur_index, cur_point, cur_win, lemma_buf_index, lemma_cur,
    lemma_put, lemma_with_buf, wf, with_buf, EditorModel,
};
use crate::lines::{clip, line_begin, line_count, line_of, min};
use crate::order::lex_le;
use crate::paths::parent_of;
use crate::strings::{decimal, parse_decimal, with_char_replaced};
use vstd::prelude::*;

verus! {

/// Whether a name is hidden.
pub open spec fn is_hidden(name: Seq<char>) -> bool {
    name.len() > 0 && name[0] == '.'
}

/// A listing is made of all names of the directory, or of all that do not begin with a
/// dot; none is left out, made up or changed.
pub proof fn law_hidden_left_out(
    raw: Seq<RawModel>,
    users: Seq<(int, Seq<char>)>,
    groups: Seq<(int, Seq<char>)>,
    all: bool,
)
    ensures
        shown_entries(raw, users, groups, all) == raw.filter(
            |r: RawModel| all || !is_hidden(r.name),
        ).map_values(|r: RawModel| entry_of(r, users, groups)),
    decreases raw.len(),
{
    reveal(Seq::filter);
    let keep = |r: RawModel| all || !is_hidden(r.name);
    let made = |r: RawModel| entry_of(r, users, groups);
    if raw.len() > 0 {
        law_hidden_left_out(raw.drop_last(), users, groups, all);
        let before = raw.drop_last().filter(keep);
        if keep(raw.last()) {
            assert(raw.filter(keep) =~= before.push(raw.last()));
            assert(before.push(raw.last()).map_values(made) =~= before.map_values(made).push(
                made(raw.last()),
            ));
        } else {
            assert(raw.filter(keep) =~= before);
        }
    } else {
        assert(raw.filter(keep).map_values(made) =~= Seq::<EntryModel>::empty());
    }
}

/// An entry tells what the file system tells of its name, with owner and group by the
/// first name that the tables have for them, or by number where they have none; it is
/// not marked.
pub proof fn law_entry_tells(
    r: RawModel,
    users: Seq<(int, Seq<char>)>,
    groups: Seq<(int, Seq<char>)>,
    i: int,
)
    requires
        0 <= i <= users.len(),
        forall|j: int| 0 <= j < i ==> (#[trigger] users[j]).0 != r.uid,
        i < users.len() ==> users[i].0 == r.uid,
    ensures
        ({
            let e = entry_of(r, users, groups);
            &&& e.name == r.name && e.path == r.path && e.is_dir == r.is_dir && e.mark == ' '
            &&& e.mode == r.mode && e.nlink == r.nlink && e.size == r.size && e.mtime == r.mtime
            &&& e.owner == (if i < users.len() {
                users[i].1
            } else {
                decimal(r.uid as nat)
            })
            &&& e.group == entry_of(RawModel { uid: r.gid, ..r }, groups, users).owner
        }),
{
    lemma_name_of(users, r.uid as int, 0, i);
}

proof fn lemma_name_of(t: Seq<(int, Seq<char>)>, id: int, k: int, i: int)
    requires
        0 <= k <= i <= t.len(),
        forall|j: int| 0 <= j < i ==> (#[trigger] t[j]).0 != id,
        i < t.len() ==> t[i].0 == id,
    ensures
        name_of_id(t, id, k) == (if i < t.len() {
            t[i].1
        } else {
            decimal(id as nat)
        }),
    decreases i - k,
{
    if k < i {
        lemma_name_of(t, id, k + 1, i);
    }
}

/// Whether one string comes before another one: it is the beginning of it, or has the
/// smaller char where they first differ.
pub open spec fn comes_first(a: Seq<char>, b: Seq<char>) -> bool {
    ||| a.len() <= b.len() && b.take(a.len() as int) == a
    ||| exists|k: int|
        0 <= k < a.len() && k < b.len() && #[trigger] a[k] < b[k] && a.take(k) == b.take(k)
}

proof fn lemma_lex(a: Seq<char>, b: Seq<char>, i: int)
    requires
        0 <= i <= a.len(),
        i <= b.len(),
        a.take(i) == b.take(i),
        lex_le(a, b, i),
    ensures
        comes_first(a, b),
    decreases a.len() - i,
{
    if i == a.len() {
        assert(a.take(i) =~= a);
    } else if i < b.len() {
        if a[i] == b[i] {
            assert(a.take(i + 1) =~= a.take(i).push(a[i]));
            assert(b.take(i + 1) =~= b.take(i).push(b[i]));
            lemma_lex(a, b, i + 1);
        } else {
            assert(a[i] < b[i]);
        }
    }
}

/// In a listing the parent comes first, where there is one, then all directories, then
/// all files, and both kinds by name, whatever the case.
pub proof fn law_listing_order(
    parent: Option<RawModel>,
    raw: Seq<RawModel>,
    users: Seq<(int, Seq<char>)>,
    groups: Seq<(int, Seq<char>)>,
    all: bool,
    i: int,
    j: int,
)
    ensures
        ({
            let s = listed(raw, parent, users, groups, all);
            0 <= i < j < s.len() ==> if parent is Some && i == 0 {
                s[0] == entry_of(parent->0, users, groups)
            } else {
                &&& s[j].is_dir ==> s[i].is_dir
                &&& s[i].is_dir == s[j].is_dir ==> comes_first(
                    lowercased(s[i].name),
                    lowercased(s[j].name),
                )
            }
        }),
{
    law_listing_sorted(parent, raw, users, groups, all);
    let s = listed(raw, parent, users, groups, all);
    if 0 <= i < j < s.len() {
        let le = entry_order();
        if parent is Some {
            if i > 0 {
                let rest = s.drop_first();
                assert(le(rest[i - 1], rest[j - 1]));
                assert(rest[i - 1] == s[i] && rest[j - 1] == s[j]);
            }
        } else {
            assert(le(s[i], s[j]));
        }
        if !(parent is Some && i == 0) && s[i].is_dir == s[j].is_dir {
            let (a, b) = (lowercased(s[i].name), lowercased(s[j].name));
            assert(a.take(0) =~= b.take(0));
            lemma_lex(a, b, 0);
        }
    }
}

/// The permissions of a file are shown by nine letters behind the one for its type: r, w
/// and x for its owner, its group and all others, each where its bit is set, else a dash.
pub proof fn law_permissions_shown(mode: u32, is_dir: bool)
    ensures
        ({
            let s = mode_text(mode, is_dir);
            &&& s.len() == 10
            &&& s[1] == (if mode & 0o400 != 0 { 'r' } else { '-' })
            &&& s[2] == (if mode & 0o200 != 0 { 'w' } else { '-' })
            &&& s[3] == (if mode & 0o100 != 0 { 'x' } else { '-' })
            &&& s[4] == (if mode & 0o040 != 0 { 'r' } else { '-' })
            &&& s[5] == (if mode & 0o020 != 0 { 'w' } else { '-' })
            &&& s[6] == (if mode & 0o010 != 0 { 'x' } else { '-' })
            &&& s[7] == (if mode & 0o004 != 0 { 'r' } else { '-' })
            &&& s[8] == (if mode & 0o002 != 0 { 'w' } else { '-' })
            &&& s[9] == (if mode & 0o001 != 0 { 'x' } else { '-' })
            &&& mode & 0o170000 == 0o100000 ==> s[0] == '-'
            &&& mode & 0o170000 == 0o040000 ==> s[0] == 'd'
            &&& mode & 0o170000 == 0o120000 ==> s[0] == 'l'
            &&& mode & 0o170000 == 0o140000 ==> s[0] == 's'
            &&& mode & 0o170000 == 0o060000 ==> s[0] == 'b'
            &&& mode & 0o170000 == 0o020000 ==> s[0] == 'c'
            &&& mode & 0o170000 == 0o010000 ==> s[0] == 'p'
        }),
{
    assert(((mode >> 6) & 7) & 4 != 0 <==> mode & 0o400 != 0) by (bit_vector);
    assert(((mode >> 6) & 7) & 2 != 0 <==> mode & 0o200 != 0) by (bit_vector);
    assert(((mode >> 6) & 7) & 1 != 0 <==> mode & 0o100 != 0) by (bit_vector);
    assert(((mode >> 3) & 7) & 4 != 0 <==> mode & 0o040 != 0) by (bit_vector);
    assert(((mode >> 3) & 7) & 2 != 0 <==> mode & 0o020 != 0) by (bit_vector);
    assert(((mode >> 3) & 7) & 1 != 0 <==> mode & 0o010 != 0) by (bit_vector);
    assert(((mode >> 0) & 7) & 4 != 0 <==> mode & 0o004 != 0) by (bit_vector);
    assert(((mode >> 0) & 7) & 2 != 0 <==> mode & 0o002 != 0) by (bit_vector);
    assert(((mode >> 0) & 7) & 1 != 0 <==> mode & 0o001 != 0) by (bit_vector);
}

proof fn lemma_find_char(s: Seq<char>, c: char, i: int, k: int)
    requires
        0 <= i <= k <= s.len(),
        forall|j: int| i <= j < k ==> #[trigger] s[j] != c,
        k < s.len() ==> s[k] == c,
    ensures
        find_char(s, c, i) == k,
    decreases k - i,
{
    if i < k {
        lemma_find_char(s, c, i + 1, k);
    }
}

/// A line of a user or group table gives the name before its first colon to the number
/// between its second and its third one, whatever stands in its other fields.
pub proof fn law_id_line_read(
    name: Seq<char>,
    x: Seq<char>,
    d: Seq<char>,
    rest: Seq<char>,
    id: nat,
)
    requires
        !name.contains(':'),
        !x.contains(':'),
        !d.contains(':'),
        parse_decimal(d) == Some(id),
    ensures
        id_line(name + seq![':'] + x + seq![':'] + d + seq![':'] + rest) == (if id <= u32::MAX {
            Some((id as int, name))
        } else {
            None
        }),
        id_line(name + seq![':'] + x) is None,
{
    let line = name + seq![':'] + x + seq![':'] + d + seq![':'] + rest;
    let a = name.len() as int;
    let b = a + 1 + x.len();
    let c = b + 1 + d.len();
    assert forall|j: int| 0 <= j < a implies #[trigger] line[j] != ':' by {
        assert(line[j] == name[j]);
        assert(name.contains(name[j]));
    }
    assert forall|j: int| a < j < b implies #[trigger] line[j] != ':' by {
        assert(line[j] == x[j - a - 1]);
        assert(x.contains(x[j - a - 1]));
    }
    assert forall|j: int| b < j < c implies #[trigger] line[j] != ':' by {
        assert(line[j] == d[j - b - 1]);
        assert(d.contains(d[j - b - 1]));
    }
    lemma_find_char(line, ':', 0, a);
    lemma_find_char(line, ':', a + 1, b);
    lemma_find_char(line, ':', b + 1, c);
    assert(line.subrange(b + 1, c) =~= d);
    assert(line.subrange(0, a) =~= name);
    let short = name + seq![':'] + x;
    assert forall|j: int| 0 <= j < a implies #[trigger] short[j] != ':' by {
        assert(short[j] == name[j]);
        assert(name.contains(name[j]));
    }
    assert forall|j: int| a < j < b implies #[trigger] short[j] != ':' by {
        assert(short[j] == x[j - a - 1]);
        assert(x.contains(x[j - a - 1]));
    }
    lemma_find_char(short, ':', 0, a);
    lemma_find_char(short, ':', a + 1, b);
}

// ---- quoting ---------------------------------------------------------------

/// What a shell takes a word for from index `i` on: between single quotes every char
/// stands for itself, and outside of them one behind a backslash does. None where a
/// quote is left open, or where a char outside of quotes could mean something else.
pub open spec fn shell_reads(s: Seq<char>, i: int, inside: bool) -> Option<Seq<char>>
    decreases s.len() - i,
{
    if i < 0 || i >= s.len() {
        if inside {
            None
        } else {
            Some(Seq::empty())
        }
    } else if s[i] == '\'' {
        shell_reads(s, i + 1, !inside)
    } else if inside {
        match shell_reads(s, i + 1, true) {
            Some(r) => Some(seq![s[i]] + r),
            None => None,
        }
    } else if s[i] == '\\' && i + 1 < s.len() {
        match shell_reads(s, i + 2, false) {
            Some(r) => Some(seq![s[i + 1]] + r),
            None => None,
        }
    } else {
        None
    }
}

proof fn lemma_replaced_first(p: Seq<char>, by: Seq<char>)
    requires
        p.len() > 0,
    ensures
        with_char_replaced(p, '\'', by) == (if p[0] == '\'' {
            by
        } else {
            seq![p[0]]
        }) + with_char_replaced(p.skip(1), '\'', by),
    decreases p.len(),
{
    let last = if p.last() == '\'' {
        by
    } else {
        seq![p.last()]
    };
    let first = if p[0] == '\'' {
        by
    } else {
        seq![p[0]]
    };
    if p.len() == 1 {
        assert(p.drop_last() =~= Seq::<char>::empty());
        assert(p.skip(1) =~= Seq::<char>::empty());
        assert(with_char_replaced(p, '\'', by) =~= first + with_char_replaced(
            p.skip(1),
            '\'',
            by,
        ));
    } else {
        lemma_replaced_first(p.drop_last(), by);
        assert(p.drop_last().skip(1) =~= p.skip(1).drop_last());
        assert(with_char_replaced(p, '\'', by) =~= first + with_char_replaced(
            p.skip(1),
            '\'',
            by,
        ));
    }
}

proof fn lemma_read_back(p: Seq<char>, s: Seq<char>, i: int)
    requires
        0 <= i <= s.len(),
        s.skip(i) == with_char_replaced(p, '\'', seq!['\'', '\\', '\'', '\'']) + seq!['\''],
    ensures
        shell_reads(s, i, true) == Some(p),
    decreases p.len(),
{
    let by = seq!['\'', '\\', '\'', '\''];
    let whole = with_char_replaced(p, '\'', by) + seq!['\''];
    let n = whole.len() as int;
    assert forall|k: int| 0 <= k < n implies s[i + k] == #[trigger] whole[k] by {
        assert(s.skip(i)[k] == whole[k]);
    }
    assert(s.len() == i + n);
    reveal_with_fuel(shell_reads, 4);
    if p.len() == 0 {
        assert(whole =~= seq!['\'']);
        assert(s[i] == whole[0]);
        assert(p =~= Seq::<char>::empty());
    } else {
        lemma_replaced_first(p, by);
        let rest = with_char_replaced(p.skip(1), '\'', by);
        assert(seq![p[0]] + p.skip(1) =~= p);
        assert(s[i] == whole[0]);
        if p[0] == '\'' {
            assert(s[i + 1] == whole[1]);
            assert(s[i + 2] == whole[2]);
            assert(s[i + 3] == whole[3]);
            assert(s.skip(i + 4) =~= rest + seq!['\'']) by {
                assert forall|k: int| 0 <= k < rest.len() + 1 implies s.skip(i + 4)[k] == (rest
                    + seq!['\''])[k] by {
                    assert(s[i + 4 + k] == whole[4 + k]);
                }
            }
            lemma_read_back(p.skip(1), s, i + 4);
        } else {
            assert(s.skip(i + 1) =~= rest + seq!['\'']) by {
                assert forall|k: int| 0 <= k < rest.len() + 1 implies s.skip(i + 1)[k] == (rest
                    + seq!['\''])[k] by {
                    assert(s[i + 1 + k] == whole[1 + k]);
                }
            }
            lemma_read_back(p.skip(1), s, i + 1);
        }
    }
}

/// A shell takes a quoted path for that path, whatever chars it holds.
pub proof fn law_quoted_read_back(path: Seq<char>)
    ensures
        shell_reads(quoted(path), 0, false) == Some(path),
{
    reveal_strlit("'");
    reveal_strlit("'\\''");
    let by = seq!['\'', '\\', '\'', '\''];
    assert("'\\''"@ =~= by);
    assert("'"@ =~= seq!['\'']);
    let s = quoted(path);
    assert(s[0] == '\'');
    assert(s.skip(1) =~= with_char_replaced(path, '\'', by) + seq!['\'']);
    lemma_read_back(path, s, 1);
}

/// A directory is packed to a file with `.tar.gz` behind its name, and a file to one
/// with `.gz`.
pub proof fn law_packed_name(path: Seq<char>)
    ensures
        compressed_to(path, true) == path + seq!['.', 't', 'a', 'r', '.', 'g', 'z'],
        compressed_to(path, false) == path + seq!['.', 'g', 'z'],
{
    reveal_strlit(".tar.gz");
    reveal_strlit(".gz");
    assert(".tar.gz"@ =~= seq!['.', 't', 'a', 'r', '.', 'g', 'z']);
    assert(".gz"@ =~= seq!['.', 'g', 'z']);
}

// ---- projects --------------------------------------------------------------

/// The project of a directory is looked for in it, then in its parent, and so on, each
/// one the parent of the one before; it ends only where there is none, or at the bound.
pub proof fn law_ancestors_walk(dir: Seq<char>, n: nat)
    requires
        n > 0,
    ensures
        ({
            let s = ancestors(dir, n);
            &&& 0 < s.len() <= n
            &&& s[0] == dir
            &&& forall|i: int|
                0 <= i < s.len() - 1 ==> parent_of(#[trigger] s[i]) == Some(s[i + 1])
            &&& s.len() < n ==> parent_of(s.last()) is None
        }),
    decreases n,
{
    let s = ancestors(dir, n);
    match parent_of(dir) {
        Some(p) => {
            if n > 1 {
                law_ancestors_walk(p, (n - 1) as nat);
                let t = ancestors(p, (n - 1) as nat);
                assert(s =~= seq![dir] + t);
                assert forall|i: int| 0 <= i < s.len() - 1 implies parent_of(#[trigger] s[i])
                    == Some(s[i + 1]) by {
                    if i > 0 {
                        assert(s[i] == t[i - 1]);
                        assert(s[i + 1] == t[i]);
                    } else {
                        assert(s[1] == t[0]);
                    }
                }
                assert(s.last() == t.last());
            } else {
                assert(ancestors(p, 0) =~= Seq::<Seq<char>>::empty());
                assert(s =~= seq![dir]);
            }
        },
        None => {},
    }
}

/// Of the directories that hold a project the nearest is taken.
pub proof fn law_nearest_taken(s: Seq<bool>, k: int)
    requires
        0 <= k <= s.len(),
        forall|j: int| 0 <= j < k ==> !#[trigger] s[j],
        k < s.len() ==> s[k],
    ensures
        first_true(s, 0) == k,
{
    lemma_first_true(s, 0, k);
}

proof fn lemma_first_true(s: Seq<bool>, i: int, k: int)
    requires
        0 <= i <= k <= s.len(),
        forall|j: int| 0 <= j < k ==> !#[trigger] s[j],
        k < s.len() ==> s[k],
    ensures
        first_true(s, i) == k,
    decreases k - i,
{
    if i < k {
        lemma_first_true(s, i + 1, k);
    }
}

// ---- opening ---------------------------------------------------------------

proof fn lemma_dired_index(bs: Seq<BufferModel>, dir: Seq<char>, i: int)
    requires
        0 <= i <= bs.len(),
    ensures
        i <= dired_index(bs, dir, i) <= bs.len(),
        dired_index(bs, dir, i) < bs.len() ==> lists(bs[dired_index(bs, dir, i)], dir),
        forall|j: int| i <= j < dired_index(bs, dir, i) ==> !lists(#[trigger] bs[j], dir),
    decreases bs.len() - i,
{
    if i < bs.len() && !lists(bs[i], dir) {
        lemma_dired_index(bs, dir, i + 1);
    }
}

proof fn lemma_same_place(e: EditorModel, l: Result<Seq<EntryModel>, Seq<char>>)
    requires
        wf(e),
    ensures
        refreshed(e, l).buffers.len() == e.buffers.len(),
        cur_win(refreshed(e, l)).buffer == cur_win(e).buffer,
{
    lemma_cur(e);
    if listing_at(e) is Some && l is Ok {
        let d = listing_at(e)->0;
        let b = crate::dired::ops::listing_as(
            cur_buf(e),
            DiredModel {
                entries: crate::dired::ops::with_old_marks(l->Ok_0, d.entries),
                ..d
            },
        );
        lemma_with_buf(e, b);
        lemma_relisted_place(with_buf(e, b));
    }
}

proof fn lemma_relisted_place(e: EditorModel)
    requires
        wf(e),
    ensures
        relisted(e).buffers.len() == e.buffers.len(),
        cur_win(relisted(e)).buffer == cur_win(e).buffer,
{
    lemma_cur(e);
    let b = cur_buf(e);
    let r = relisted(e);
    if listing_at(e) is Some {
        let d = listing_at(e)->0;
        let text = listing_of(d.dir, d.entries);
        let c = BufferModel {
            text,
            modified: false,
            read_only: true,
            mode: ModeModel::Dired(DiredModel { name_col: name_column(widths(d.entries)), ..d }),
            ..b
        };
        let p = line_begin(text, min(line_of(b.text, cur_point(e)), line_count(text) - 1));
        lemma_put(e, at_point(e, p), c);
        assert(r == crate::editor::put(e, at_point(e, p), c));
    } else {
        lemma_put(e, at_point(e, cur_point(e)), b);
        assert(r == crate::editor::put(e, at_point(e, cur_point(e)), b));
    }
}

/// Opening a directory that a buffer lists already shows that buffer, and makes none.
pub proof fn law_listed_directory_shown(
    e: EditorModel,
    dir: Seq<char>,
    l: Result<Seq<EntryModel>, Seq<char>>,
    i: int,
)
    requires
        wf(e),
        0 <= i < e.buffers.len(),
        lists(e.buffers[i], dir),
        forall|j: int| 0 <= j < i ==> !lists(#[trigger] e.buffers[j], dir),
    ensures
        dired_opened(e, dir, l).buffers.len() == e.buffers.len(),
        cur_win(dired_opened(e, dir, l)).buffer == e.buffers[i].id,
{
    lemma_dired_index(e.buffers, dir, 0);
    assert(dired_index(e.buffers, dir, 0) == i);
    let id = e.buffers[i].id;
    assert(buf_ids(e.buffers)[i] == id);
    lemma_buf_index(e.buffers, id);
    assert(buf_ids(e.buffers).contains(id));
    lemma_cur(e);
    lemma_shown(e, id);
    lemma_same_place(shown(e, id), l);
    assert(shown(e, id).buffers == remembered(e));
    assert(remembered(e).len() == e.buffers.len());
    assert(dired_opened(e, dir, l) == refreshed(shown(e, id), l));
}

proof fn lemma_fresh_listing(e: EditorModel, dir: Seq<char>, s: Seq<EntryModel>)
    requires
        wf(e),
        e.next_buffer_id < usize::MAX,
    ensures
        ({
            let b = dired_buffer(e.next_buffer_id, dir, s);
            let r = shown(with_buffer(e, b), b.id);
            &&& r.buffers.len() == e.buffers.len() + 1
            &&& cur_buf(r) == (BufferModel { last_point: cur_buf(r).last_point, ..b })
            &&& forall|i: int|
                0 <= i < e.buffers.len() ==> (#[trigger] r.buffers[i]).text == e.buffers[i].text
        }),
{
    let b = dired_buffer(e.next_buffer_id, dir, s);
    lemma_with_buffer(e, b);
    let m = with_buffer(e, b);
    lemma_shown(m, b.id);
    lemma_cur(m);
    let r = shown(m, b.id);
    assert(cur_index(r) == e.buffers.len());
    assert(r.buffers == remembered(m));
    assert(m.buffers == e.buffers.push(b));
    assert(cur_buf(r) == remembered(m)[e.buffers.len() as int]);
}

/// Opening a directory that no buffer lists yet makes one buffer more, read-only, with
/// the directory for its name and its listing for its text, and shows it; where the
/// directory could not be read nothing changes but the message.
pub proof fn law_directory_opened(
    e: EditorModel,
    dir: Seq<char>,
    l: Result<Seq<EntryModel>, Seq<char>>,
)
    requires
        wf(e),
        e.next_buffer_id < usize::MAX,
        forall|i: int| 0 <= i < e.buffers.len() ==> !lists(#[trigger] e.buffers[i], dir),
    ensures
        match l {
            Ok(s) => {
                let r = dired_opened(e, dir, l);
                let b = cur_buf(r);
                &&& r.buffers.len() == e.buffers.len() + 1
                &&& b.name == dir && b.read_only && !b.modified
                &&& b.text == listing_of(dir, s)
                &&& b.mode matches ModeModel::Dired(d) && d.dir == dir && d.entries == s
                    && d.wgrep is None
                &&& forall|i: int|
                    0 <= i < e.buffers.len() ==> (#[trigger] r.buffers[i]).text
                        == e.buffers[i].text
            },
            Err(msg) => dired_opened(e, dir, l) == (EditorModel { echo: Some(msg), ..e }),
        },
{
    lemma_dired_index(e.buffers, dir, 0);
    let i = dired_index(e.buffers, dir, 0);
    if i < e.buffers.len() {
        assert(lists(e.buffers[i], dir));
    }
    if let Ok(s) = l {
        lemma_fresh_listing(e, dir, s);
        let b = dired_buffer(e.next_buffer_id, dir, s);
        assert(dired_opened(e, dir, l) == shown(with_buffer(e, b), b.id));
    }
}

proof fn lemma_entry_named(s: Seq<EntryModel>, name: Seq<char>, i: int)
    requires
        0 <= i <= s.len(),
    ensures
        i <= entry_named(s, name, i) <= s.len(),
        entry_named(s, name, i) < s.len() ==> s[entry_named(s, name, i)].name == name,
        forall|j: int| i <= j < entry_named(s, name, i) ==> (#[trigger] s[j]).name != name,
    decreases s.len() - i,
{
    if i < s.len() && s[i].name != name {
        lemma_entry_named(s, name, i + 1);
    }
}

proof fn lemma_name_place(dir: Seq<char>, s: Seq<EntryModel>, i: int)
    requires
        lines_kept(dir, s),
        0 <= i < s.len(),
        name_column(widths(s)) < usize::MAX,
    ensures
        ({
            let t = listing_of(dir, s);
            let p = line_begin(t, i + 1) + name_column(widths(s));
            let n = s[i].name.len();
            &&& i + 1 < line_count(t)
            &&& 0 <= p <= p + n <= t.len()
            &&& t.subrange(p, p + n) == s[i].name
        }),
{
    let t = listing_of(dir, s);
    let col = name_column(widths(s));
    let name = s[i].name;
    let row = crate::dired::listing::entry_row(s[i], widths(s));
    crate::dired::listing::law_listing_names(dir, s, i);
    let start = line_begin(t, i + 1);
    let p = start + col;
    let n = name.len();
    let whole = t.subrange(start, line_begin(t, i + 2));
    lemma_column_nat(s);
    assert(row.len() == col + n);
    assert forall|k: int| 0 <= k < n implies t.subrange(p, p + n)[k] == name[k] by {
        assert(whole[col + k] == t[p + k]);
        assert(row.skip(col)[k] == row[col + k]);
    }
    assert(t.subrange(p, p + n) =~= name);
}

proof fn lemma_column_nat(s: Seq<EntryModel>)
    ensures
        0 <= name_column(widths(s)),
        widths(s).0 >= 1 && widths(s).1 >= 1 && widths(s).2 >= 1 && widths(s).3 >= 1,
    decreases s.len(),
{
    if s.len() > 0 {
        lemma_column_nat(s.drop_last());
    }
}

/// Going to a name in a listing puts point where that name begins, on the line of its
/// entry; where there is no such name nothing changes.
pub proof fn law_goes_to_name(e: EditorModel, d: DiredModel, name: Seq<char>)
    requires
        wf(e),
        listing_at(e) == Some(d),
        cur_buf(e).text == listing_of(d.dir, d.entries),
        cur_buf(e).text.len() <= usize::MAX,
        lines_kept(d.dir, d.entries),
        d.name_col == name_column(widths(d.entries)),
        d.name_col < usize::MAX,
    ensures
        ({
            let r = at_entry(e, name);
            let t = cur_buf(e).text;
            if exists|i: int| 0 <= i < d.entries.len() && (#[trigger] d.entries[i]).name == name {
                let p = cur_point(r);
                &&& cur_buf(r) == cur_buf(e)
                &&& p + name.len() <= t.len()
                &&& t.subrange(p, p + name.len()) == name
            } else {
                r == e
            }
        }),
{
    lemma_entry_named(d.entries, name, 0);
    let i = entry_named(d.entries, name, 0);
    if i < d.entries.len() {
        let t = cur_buf(e).text;
        lemma_name_place(d.dir, d.entries, i);
        let p = line_begin(t, i + 1) + d.name_col;
        assert(clip(t, p) == p);
        lemma_put(e, at_point(e, p), cur_buf(e));
    }
}

} // verus!
