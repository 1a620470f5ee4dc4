//! Strings, candidate lists, regular expressions and paths.

use crate::bytes::{byte_offset, byte_to_char, char_index, char_to_byte};
use crate::dired::files::{diff_lines, unified_diff};
use crate::lines::{clip, max};
use crate::paths::{
    extension_of, file_name_of, parent_of, path_extension, path_file_name, path_parent,
};
use crate::regexes::{
    capture_regex, match_regex, opt_range, opt_ranges, regex_groups, regex_is_match,
};
use crate::strings::{
    copy, ends_with, from_chars, has_prefix, has_suffix, lines_from, no_text, split_lines,
    starts_at, starts_with, to_chars, views,
};
use vstd::prelude::*;

verus! {

/// The lines of a string.
pub fn string_lines(s: &str) -> (r: Vec<String>)
    ensures
        views(r@) == lines_from(s@, 0),
{
    split_lines(s)
}

// ---- candidates ------------------------------------------------------------

/// Whether a string holds another one at index `i`.
pub open spec fn holds_at(s: Seq<char>, p: Seq<char>, i: int) -> bool {
    0 <= i <= s.len() - p.len() && s.subrange(i, i + p.len()) == p
}

/// Whether a string holds another one.
pub open spec fn holds(s: Seq<char>, p: Seq<char>) -> bool {
    exists|i: int| #[trigger] holds_at(s, p, i)
}

proof fn lemma_holds_at(s: Seq<char>, p: Seq<char>, i: int)
    requires
        0 <= i <= s.len(),
    ensures
        holds_at(s, p, i) == has_prefix(s.skip(i), p),
{
    if p.len() <= s.len() - i {
        assert(s.skip(i).take(p.len() as int) =~= s.subrange(i, i + p.len()));
    }
}

fn contains_text(s: &str, p: &str) -> (b: bool)
    ensures
        b == holds(s@, p@),
{
    let v = to_chars(s);
    let mut i: usize = 0;
    while i < v.len()
        invariant
            v@ == s@,
            i <= v@.len(),
            forall|k: int| 0 <= k < i ==> !#[trigger] holds_at(s@, p@, k),
        decreases v@.len() - i,
    {
        proof {
            lemma_holds_at(s@, p@, i as int);
        }
        if starts_at(&v, i, p) {
            return true;
        }
        i = i + 1;
    }
    proof {
        lemma_holds_at(s@, p@, i as int);
    }
    starts_at(&v, i, p)
}

/// The candidates that start with the input.
pub open spec fn starting(c: Seq<Seq<char>>, input: Seq<char>) -> Seq<Seq<char>> {
    c.filter(|s: Seq<char>| has_prefix(s, input))
}

/// The candidates that hold the input, but not at their start.
pub open spec fn holding(c: Seq<Seq<char>>, input: Seq<char>) -> Seq<Seq<char>> {
    c.filter(|s: Seq<char>| !has_prefix(s, input) && holds(s, input))
}

/// The candidates that match the input: those that start with it first, then
/// those that hold it, each in the order they came in. All match no input.
pub open spec fn matching(c: Seq<Seq<char>>, input: Seq<char>) -> Seq<Seq<char>> {
    if input.len() == 0 {
        c
    } else {
        starting(c, input) + holding(c, input)
    }
}

/// Completion-style candidate matching.
pub fn filter_matching(candidates: Vec<String>, input: &str) -> (r: Vec<String>)
    ensures
        views(r@) == matching(views(candidates@), input@),
{
    if input.unicode_len() == 0 {
        return candidates;
    }
    let ghost all = views(candidates@);
    let mut prefix: Vec<String> = Vec::new();
    let mut inside: Vec<String> = Vec::new();
    assert(all.take(0) =~= Seq::<Seq<char>>::empty());
    assert(views(prefix@) =~= starting(all.take(0), input@));
    assert(views(inside@) =~= holding(all.take(0), input@));
    for i in 0..candidates.len()
        invariant
            all == views(candidates@),
            views(prefix@) == starting(all.take(i as int), input@),
            views(inside@) == holding(all.take(i as int), input@),
    {
        let ghost now = all.take(i + 1);
        let ghost p0 = views(prefix@);
        let ghost i0 = views(inside@);
        assert(now.drop_last() =~= all.take(i as int));
        assert(now.last() == candidates@[i as int]@);
        let c = candidates[i].as_str();
        if starts_with(c, input) {
            prefix.push(copy(c));
            assert(views(prefix@) =~= p0.push(c@));
        } else if contains_text(c, input) {
            inside.push(copy(c));
            assert(views(inside@) =~= i0.push(c@));
        }
        proof {
            reveal(Seq::filter);
        }
        assert(views(prefix@) == starting(now, input@));
        assert(views(inside@) == holding(now, input@));
    }
    assert(all.take(all.len() as int) =~= all);
    let ghost a = views(prefix@);
    let ghost b = views(inside@);
    prefix.append(&mut inside);
    assert(views(prefix@) =~= a + b);
    prefix
}

/// The candidates that end with a suffix.
pub open spec fn ending(c: Seq<Seq<char>>, suffix: Seq<char>) -> Seq<Seq<char>> {
    c.filter(|s: Seq<char>| has_suffix(s, suffix))
}

/// Keep the candidates that end with a suffix, in the order they came in.
pub fn filter_suffix(candidates: Vec<String>, suffix: &str) -> (r: Vec<String>)
    ensures
        views(r@) == ending(views(candidates@), suffix@),
{
    let ghost all = views(candidates@);
    let mut out: Vec<String> = Vec::new();
    assert(all.take(0) =~= Seq::<Seq<char>>::empty());
    assert(views(out@) =~= ending(all.take(0), suffix@));
    for i in 0..candidates.len()
        invariant
            all == views(candidates@),
            views(out@) == ending(all.take(i as int), suffix@),
    {
        let ghost now = all.take(i + 1);
        let ghost o0 = views(out@);
        assert(now.drop_last() =~= all.take(i as int));
        assert(now.last() == candidates@[i as int]@);
        let c = candidates[i].as_str();
        if ends_with(c, suffix) {
            out.push(copy(c));
            assert(views(out@) =~= o0.push(c@));
        }
        proof {
            reveal(Seq::filter);
        }
        assert(views(out@) == ending(now, suffix@));
    }
    assert(all.take(all.len() as int) =~= all);
    out
}

// ---- regular expressions ---------------------------------------------------

/// Whether a pattern matches a text; false for a pattern that is rejected.
pub fn regexp_matches(pattern: &str, text: &str) -> (b: bool)
    ensures
        b == regex_is_match(pattern@, text@),
{
    match_regex(pattern, text)
}

/// The chars of a text between two byte offsets; none where they are not in
/// order.
pub open spec fn between(t: Seq<char>, a: int, b: int) -> Seq<char> {
    if char_index(t, a) <= char_index(t, b) {
        t.subrange(char_index(t, a), char_index(t, b))
    } else {
        Seq::empty()
    }
}

/// What each group of a match holds; nothing for one that takes no part.
pub open spec fn group_texts(t: Seq<char>, groups: Seq<Option<(int, int)>>) -> Seq<Seq<char>> {
    Seq::new(
        groups.len(),
        |i: int|
            match groups[i] {
                Some((a, b)) => between(t, a, b),
                None => Seq::empty(),
            },
    )
}

/// Where each group of a match lies, in chars; none for one that takes no part.
pub open spec fn group_positions(t: Seq<char>, groups: Seq<Option<(int, int)>>) -> Seq<
    Option<(int, int)>,
> {
    Seq::new(
        groups.len(),
        |i: int|
            match groups[i] {
                Some((a, b)) => Some((char_index(t, a), char_index(t, b))),
                None => None,
            },
    )
}

fn text_between(text: &str, a: usize, b: usize) -> (s: String)
    ensures
        s@ == between(text@, a as int, b as int),
{
    let from: usize = byte_to_char(text, a);
    let to: usize = byte_to_char(text, b);
    if from <= to {
        let v = to_chars(text);
        from_chars(&v, from, to)
    } else {
        no_text()
    }
}

/// What each group of a match holds.
pub fn texts_of_groups(text: &str, groups: &Vec<Option<(usize, usize)>>) -> (r: Vec<String>)
    ensures
        views(r@) == group_texts(text@, opt_ranges(groups@)),
{
    let ghost all = group_texts(text@, opt_ranges(groups@));
    let mut r: Vec<String> = Vec::new();
    for i in 0..groups.len()
        invariant
            all == group_texts(text@, opt_ranges(groups@)),
            r@.len() == i,
            forall|k: int| 0 <= k < i ==> (#[trigger] r@[k])@ == all[k],
    {
        assert(opt_ranges(groups@)[i as int] == opt_range(groups@[i as int]));
        let s = match groups[i] {
            Some((a, b)) => text_between(text, a, b),
            None => no_text(),
        };
        r.push(s);
    }
    assert(views(r@) =~= all);
    r
}

/// Where each group of a match lies, in chars.
pub fn positions_of_groups(text: &str, groups: &Vec<Option<(usize, usize)>>) -> (r: Vec<
    Option<(usize, usize)>,
>)
    ensures
        opt_ranges(r@) == group_positions(text@, opt_ranges(groups@)),
{
    let ghost all = group_positions(text@, opt_ranges(groups@));
    let mut r: Vec<Option<(usize, usize)>> = Vec::new();
    for i in 0..groups.len()
        invariant
            all == group_positions(text@, opt_ranges(groups@)),
            r@.len() == i,
            forall|k: int| 0 <= k < i ==> opt_range(#[trigger] r@[k]) == all[k],
    {
        assert(opt_ranges(groups@)[i as int] == opt_range(groups@[i as int]));
        let p = match groups[i] {
            Some((a, b)) => Some((byte_to_char(text, a), byte_to_char(text, b))),
            None => None,
        };
        r.push(p);
    }
    assert(opt_ranges(r@) =~= all);
    r
}

/// The whole match and the groups of the first match of a pattern; none where
/// it does not match, or is rejected.
pub fn regexp_match(pattern: &str, text: &str) -> (r: Option<Vec<String>>)
    ensures
        match r {
            Some(v) => match regex_groups(pattern@, text@, 0) {
                Some(g) => views(v@) == group_texts(text@, g),
                None => false,
            },
            None => regex_groups(pattern@, text@, 0) is None,
        },
{
    match capture_regex(pattern, text, 0) {
        Some(groups) => Some(texts_of_groups(text, &groups)),
        None => None,
    }
}

/// Where the whole match and the groups of the first match at or after a char
/// position lie, in chars; none where the pattern does not match, or is
/// rejected.
pub fn regexp_match_positions(pattern: &str, text: &str, start: isize) -> (r: Option<
    Vec<Option<(usize, usize)>>,
>)
    ensures
        ({
            let from = byte_offset(text@, clip(text@, max(start as int, 0)));
            match r {
                Some(v) => match regex_groups(pattern@, text@, from) {
                    Some(g) => opt_ranges(v@) == group_positions(text@, g),
                    None => false,
                },
                None => regex_groups(pattern@, text@, from) is None,
            }
        }),
{
    let n: usize = if start < 0 {
        0
    } else {
        start as usize
    };
    let from: usize = char_to_byte(text, n);
    match capture_regex(pattern, text, from) {
        Some(groups) => Some(positions_of_groups(text, &groups)),
        None => None,
    }
}

// ---- paths and differences -------------------------------------------------

/// A string that may be missing, empty then.
pub open spec fn or_empty(s: Option<Seq<char>>) -> Seq<char> {
    match s {
        Some(x) => x,
        None => Seq::empty(),
    }
}

/// The directory of a path; empty without one.
pub fn parent_directory(path: &str) -> (s: String)
    ensures
        s@ == or_empty(parent_of(path@)),
{
    match path_parent(path) {
        Some(p) => p,
        None => no_text(),
    }
}

/// The file name of a path; empty without one.
pub fn file_name_only(path: &str) -> (s: String)
    ensures
        s@ == or_empty(file_name_of(path@)),
{
    match path_file_name(path) {
        Some(p) => p,
        None => no_text(),
    }
}

/// The extension of a path's file name; empty without one.
pub fn file_name_extension(path: &str) -> (s: String)
    ensures
        s@ == or_empty(extension_of(path@)),
{
    match path_extension(path) {
        Some(p) => p,
        None => no_text(),
    }
}

/// The unified difference of two texts, line by line, with a label for each.
pub fn diff_unified(label_a: &str, text_a: &str, label_b: &str, text_b: &str) -> (s: String)
    ensures
        s@ == unified_diff(label_a@, text_a@, label_b@, text_b@),
{
    diff_lines(label_a, text_a, label_b, text_b)
}

/// What the outcome of work on files is told as: nothing on success, else the
/// error.
pub fn result_string(error: Option<String>) -> (s: String)
    ensures
        s@ == or_empty(crate::strings::opt_view(error)),
{
    match error {
        Some(e) => e,
        None => no_text(),
    }
}

// ---- laws ------------------------------------------------------------------

proof fn lemma_filter_from(c: Seq<Seq<char>>, p: spec_fn(Seq<char>) -> bool, s: Seq<char>)
    requires
        c.filter(p).contains(s),
    ensures
        c.contains(s),
        p(s),
    decreases c.len(),
{
    reveal(Seq::filter);
    if c.len() > 0 {
        let r = c.drop_last();
        let f = c.filter(p);
        let i = f.index_of(s);
        assert(f[i] == s);
        if p(c.last()) && i == f.len() - 1 {
            assert(c[c.len() - 1] == s);
        } else {
            assert(r.filter(p)[i] == s);
            lemma_filter_from(r, p, s);
            let j = r.index_of(s);
            assert(c[j] == s);
        }
    }
}

/// The candidates that match some input are exactly those that hold it.
pub proof fn law_matching(c: Seq<Seq<char>>, input: Seq<char>, s: Seq<char>)
    ensures
        input.len() > 0 ==> (matching(c, input).contains(s) <==> c.contains(s) && holds(s, input)),
        matching(c, input).contains(s) ==> c.contains(s),
{
    if input.len() > 0 {
        let p = |x: Seq<char>| has_prefix(x, input);
        let q = |x: Seq<char>| !has_prefix(x, input) && holds(x, input);
        broadcast use vstd::seq_lib::group_filter_ensures;

        let a = starting(c, input);
        let b = holding(c, input);
        assert(a == c.filter(p));
        assert(b == c.filter(q));
        assert(has_prefix(s, input) ==> holds(s, input)) by {
            if has_prefix(s, input) {
                assert(s.subrange(0, input.len() as int) =~= s.take(input.len() as int));
                assert(holds_at(s, input, 0));
            }
        }
        if (a + b).contains(s) {
            let i = (a + b).index_of(s);
            if i < a.len() {
                assert(a[i] == s);
                lemma_filter_from(c, p, s);
            } else {
                assert(b[i - a.len()] == s);
                lemma_filter_from(c, q, s);
            }
        }
        if c.contains(s) && holds(s, input) {
            let k = c.index_of(s);
            assert(c[k] == s);
            if has_prefix(s, input) {
                assert(p(c[k]));
                assert(a.contains(s));
                let j = a.index_of(s);
                assert((a + b)[j] == s);
            } else {
                assert(q(c[k]));
                assert(b.contains(s));
                let j = b.index_of(s);
                assert((a + b)[a.len() + j] == s);
            }
        }
    }
}

} // verus!
