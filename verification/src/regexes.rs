//! Regular expressions: what this library relies on of `regex`. Patterns are
//! given as strings; offsets are byte offsets.

use crate::bytes::{byte_len, is_boundary};
use crate::strings::opt_view;
use regex::Regex;
use vstd::prelude::*;

verus! {

/// The message of `Regex::new` for a pattern that it rejects.
pub uninterp spec fn regex_error(pattern: Seq<char>) -> Option<Seq<char>>;

/// What `Regex::is_match` gives; false for a pattern that is rejected.
pub uninterp spec fn regex_is_match(pattern: Seq<char>, text: Seq<char>) -> bool;

/// The range that `Regex::find_at` gives; none for a pattern that is rejected.
pub uninterp spec fn regex_find(pattern: Seq<char>, text: Seq<char>, start: int) -> Option<
    (int, int),
>;

/// The ranges that `Regex::find_iter` gives, in order; none for a pattern that
/// is rejected.
pub uninterp spec fn regex_ranges(pattern: Seq<char>, text: Seq<char>) -> Seq<(int, int)>;

/// The ranges of the groups of `Regex::captures_at`, the whole match first and
/// none for a group that takes no part; none for a pattern that is rejected.
pub uninterp spec fn regex_groups(pattern: Seq<char>, text: Seq<char>, start: int) -> Option<
    Seq<Option<(int, int)>>,
>;

/// What `Captures::expand` makes of `replacement` for the match of
/// `Regex::captures_at`; none for a pattern that is rejected.
pub uninterp spec fn regex_expansion(
    pattern: Seq<char>,
    text: Seq<char>,
    start: int,
    replacement: Seq<char>,
) -> Option<Seq<char>>;

/// A range of byte offsets.
pub open spec fn as_range(r: (usize, usize)) -> (int, int) {
    (r.0 as int, r.1 as int)
}

/// An optional range of byte offsets.
pub open spec fn opt_range(r: Option<(usize, usize)>) -> Option<(int, int)> {
    match r {
        Some(m) => Some(as_range(m)),
        None => None,
    }
}

/// A list of ranges.
pub open spec fn int_ranges(s: Seq<(usize, usize)>) -> Seq<(int, int)> {
    Seq::new(s.len(), |i: int| as_range(s[i]))
}

/// A list of optional ranges of byte offsets.
pub open spec fn opt_ranges(s: Seq<Option<(usize, usize)>>) -> Seq<Option<(int, int)>> {
    Seq::new(s.len(), |i: int| opt_range(s[i]))
}

/// `Regex::new`: the message of its error, if the pattern is rejected. The
/// message is named, and nothing more is claimed of it.
#[verifier::external_body]
pub(crate) fn check_regex(pattern: &str) -> (r: Option<String>)
    ensures
        opt_view(r) == regex_error(pattern@),
{
    Regex::new(pattern).err().map(|e| e.to_string())
}

/// `Regex::is_match`; its result is named, and nothing more is claimed of it.
#[verifier::external_body]
pub(crate) fn match_regex(pattern: &str, text: &str) -> (b: bool)
    ensures
        b == regex_is_match(pattern@, text@),
{
    match Regex::new(pattern) {
        Ok(re) => re.is_match(text),
        Err(_) => false,
    }
}

/// `Regex::find_at`, which panics past the end of the text. Its result is
/// named; it lies between `start` and the end of the text, in order, and on
/// char boundaries.
#[verifier::external_body]
pub(crate) fn find_regex(pattern: &str, text: &str, start: usize) -> (r: Option<(usize, usize)>)
    requires
        start <= byte_len(text@),
    ensures
        opt_range(r) == regex_find(pattern@, text@, start as int),
        match r {
            Some((a, b)) => start <= a <= b <= byte_len(text@) && is_boundary(text@, a as int)
                && is_boundary(text@, b as int),
            None => true,
        },
{
    let re = Regex::new(pattern).ok()?;
    re.find_at(text, start).map(|m| (m.start(), m.end()))
}

/// `Regex::find_iter`. Its results are named; each lies in the text, in order,
/// and on char boundaries, and each starts behind the start of the one before.
#[verifier::external_body]
pub(crate) fn find_all_regex(pattern: &str, text: &str) -> (r: Vec<(usize, usize)>)
    ensures
        int_ranges(r@) == regex_ranges(pattern@, text@),
        forall|i: int|
            0 <= i < r@.len() ==> (#[trigger] r@[i]).0 <= r@[i].1 <= byte_len(text@) && is_boundary(
                text@,
                r@[i].0 as int,
            ) && is_boundary(text@, r@[i].1 as int),
        forall|i: int, j: int|
            0 <= i < j < r@.len() ==> (#[trigger] r@[i]).0 < (#[trigger] r@[j]).0,
{
    match Regex::new(pattern) {
        Ok(re) => re.find_iter(text).map(|m| (m.start(), m.end())).collect(),
        Err(_) => Vec::new(),
    }
}

/// `Regex::captures_at`, which panics past the end of the text. The ranges of
/// its groups are named; each lies in the text, in order, and on char
/// boundaries.
#[verifier::external_body]
pub(crate) fn capture_regex(pattern: &str, text: &str, start: usize) -> (r: Option<
    Vec<Option<(usize, usize)>>,
>)
    requires
        start <= byte_len(text@),
    ensures
        match r {
            Some(v) => regex_groups(pattern@, text@, start as int) == Some(opt_ranges(v@)),
            None => regex_groups(pattern@, text@, start as int) is None,
        },
        match r {
            Some(v) => forall|i: int|
                0 <= i < v@.len() ==> match #[trigger] v@[i] {
                    Some((a, b)) => a <= b <= byte_len(text@) && is_boundary(text@, a as int)
                        && is_boundary(text@, b as int),
                    None => true,
                },
            None => true,
        },
{
    let re = Regex::new(pattern).ok()?;
    let caps = re.captures_at(text, start)?;
    Some(caps.iter().map(|g| g.map(|m| (m.start(), m.end()))).collect())
}

/// `Regex::captures_at`, which panics past the end of the text, and
/// `Captures::expand` for its match. The result is named, and nothing more is
/// claimed of it.
#[verifier::external_body]
pub(crate) fn expand_regex(pattern: &str, text: &str, start: usize, replacement: &str) -> (r: Option<
    String,
>)
    requires
        start <= byte_len(text@),
    ensures
        opt_view(r) == regex_expansion(pattern@, text@, start as int, replacement@),
{
    let re = Regex::new(pattern).ok()?;
    let caps = re.captures_at(text, start)?;
    let mut out = String::new();
    caps.expand(replacement, &mut out);
    Some(out)
}

} // verus!
