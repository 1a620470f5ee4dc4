//! Incremental regexp search (C-s / C-r) and query-replace (M-%).

use crate::buffer::{inserted, removed, BufferModel};
use crate::bytes::{
    byte_offset, byte_to_char, char_index, char_to_byte, is_boundary, lemma_byte_monotone,
    lemma_char_index, lemma_index_bounds, lemma_index_monotone,
};
use crate::commands::basic::{check_editable, refused};
use crate::editor::{
    at_point, cur_buf, cur_win, edit_cur, lemma_cur, lemma_put, lemma_wf_same, moved, said, wf,
    with_buf, Editor, EditorModel,
};
use crate::input::{
    InputMode, InputModel, IsearchModel, IsearchState, KindModel, PromptKind, QueryReplaceState,
    ReplaceModel,
};
use crate::keys::{inserts, Chord, Key};
use crate::layout::asked;
use crate::lines::{clip, max, min};
use crate::regexes::{
    check_regex, expand_regex, find_all_regex, find_regex, opt_range, int_ranges, regex_error,
    regex_expansion, regex_find, regex_ranges,
};
use crate::strings::{cat2, cat5, copy, decimal, decimal_string, from_chars, opt_view, to_chars};
use vstd::prelude::*;

verus! {

// ---- finding ---------------------------------------------------------------

/// A range of byte offsets as char positions.
pub open spec fn in_chars(t: Seq<char>, m: Option<(int, int)>) -> Option<(int, int)> {
    match m {
        Some((a, b)) => Some((char_index(t, a), char_index(t, b))),
        None => None,
    }
}

/// The number of ranges at the front, from index `i` on, that start before
/// `b`, counted from 0.
pub open spec fn run_before(ms: Seq<(int, int)>, b: int, i: int) -> int
    decreases ms.len() - i,
{
    if 0 <= i < ms.len() && ms[i].0 < b {
        run_before(ms, b, i + 1)
    } else {
        i
    }
}

/// The last of the ranges at the front that start before `b`.
pub open spec fn last_before(ms: Seq<(int, int)>, b: int) -> Option<(int, int)> {
    let k = run_before(ms, b, 0);
    if k > 0 {
        Some(ms[k - 1])
    } else {
        None
    }
}

/// The match of a pattern in `t`, in char positions. Forward: the first match
/// at or after `from`; backward: the last match starting before `from`.
pub open spec fn found(t: Seq<char>, pattern: Seq<char>, from: int, forward: bool) -> Option<
    (int, int),
> {
    let b = byte_offset(t, clip(t, from));
    in_chars(
        t,
        if forward {
            regex_find(pattern, t, b)
        } else {
            last_before(regex_ranges(pattern, t), b)
        },
    )
}

/// A range of byte offsets as char positions.
pub fn range_in_chars(text: &str, m: Option<(usize, usize)>) -> (r: Option<(usize, usize)>)
    ensures
        opt_range(r) == in_chars(text@, opt_range(m)),
        match r {
            Some((a, b)) => a <= text@.len() && b <= text@.len(),
            None => true,
        },
{
    match m {
        Some((a, b)) => Some((byte_to_char(text, a), byte_to_char(text, b))),
        None => None,
    }
}

/// The last of the ranges at the front that start before byte offset `b`.
pub fn pick_before(ms: &Vec<(usize, usize)>, b: usize) -> (r: Option<(usize, usize)>)
    ensures
        opt_range(r) == last_before(int_ranges(ms@), b as int),
{
    let ghost all = int_ranges(ms@);
    let mut i: usize = 0;
    while i < ms.len() && ms[i].0 < b
        invariant
            i <= ms@.len(),
            all == int_ranges(ms@),
            run_before(all, b as int, 0) == run_before(all, b as int, i as int),
        decreases ms@.len() - i,
    {
        i = i + 1;
    }
    if i > 0 {
        Some(ms[i - 1])
    } else {
        None
    }
}

/// Where the matches of a pattern start in `t`, in char positions.
pub open spec fn match_start(t: Seq<char>, pattern: Seq<char>, k: int) -> int {
    char_index(t, regex_ranges(pattern, t)[k].0)
}

/// Whether no match of a pattern in `t` starts from position `a` on and before
/// position `b`.
pub open spec fn none_starts(t: Seq<char>, pattern: Seq<char>, a: int, b: int) -> bool {
    forall|k: int|
        0 <= k < regex_ranges(pattern, t).len() ==> {
            let p = #[trigger] match_start(t, pattern, k);
            p < a || b <= p
        }
}

/// Of matches in order, the one picked is the last that starts before a place.
proof fn lemma_picked(t: Seq<char>, pattern: Seq<char>, from: int)
    requires
        0 <= from <= t.len(),
        ({
            let ms = regex_ranges(pattern, t);
            &&& forall|i: int|
                0 <= i < ms.len() ==> is_boundary(t, (#[trigger] ms[i]).0) && 0 <= ms[i].0
                    <= ms[i].1
            &&& forall|i: int, j: int|
                0 <= i < j < ms.len() ==> (#[trigger] ms[i]).0 < (#[trigger] ms[j]).0
        }),
    ensures
        match last_before(regex_ranges(pattern, t), byte_offset(t, from)) {
            Some((a, b)) => char_index(t, a) < from && none_starts(
                t,
                pattern,
                char_index(t, a) + 1,
                from,
            ),
            None => none_starts(t, pattern, 0, from),
        },
{
    let ms = regex_ranges(pattern, t);
    let b = byte_offset(t, from);
    lemma_run_before(ms, b, 0);
    let i = run_before(ms, b, 0);
    lemma_char_index(t, from);
    assert forall|k: int| 0 <= k < ms.len() implies (k < i ==> #[trigger] match_start(
        t,
        pattern,
        k,
    ) < from && match_start(t, pattern, k) <= match_start(t, pattern, i - 1)) && (k >= i ==> from
        <= match_start(t, pattern, k)) by {
        if k < i {
            let j = choose|j: int| 0 <= j <= t.len() && #[trigger] byte_offset(t, j) == ms[k].0;
            lemma_char_index(t, j);
            if j >= from {
                lemma_byte_monotone(t, from, j);
            }
            if k < i - 1 {
                assert(ms[k].0 < ms[i - 1].0);
            }
            lemma_index_monotone(t, ms[k].0, ms[i - 1].0);
        } else {
            if i < k {
                assert(ms[i].0 < ms[k].0);
            }
            lemma_index_monotone(t, b, ms[k].0);
        }
    }
    if i > 0 {
        assert(match_start(t, pattern, i - 1) < from);
    }
}

proof fn lemma_run_before(ms: Seq<(int, int)>, b: int, i: int)
    requires
        0 <= i <= ms.len(),
        forall|k: int| 0 <= k < i ==> (#[trigger] ms[k]).0 < b,
    ensures
        i <= run_before(ms, b, i) <= ms.len(),
        forall|k: int| 0 <= k < run_before(ms, b, i) ==> (#[trigger] ms[k]).0 < b,
        run_before(ms, b, i) < ms.len() ==> ms[run_before(ms, b, i)].0 >= b,
    decreases ms.len() - i,
{
    if i < ms.len() && ms[i].0 < b {
        lemma_run_before(ms, b, i + 1);
    }
}

/// Find a regex match in `text` (char offsets). Forward: first match starting
/// at or after `from`; backward: last match starting before `from`. A pattern
/// that is no regex matches nothing.
pub fn find_match(text: &str, pattern: &str, from: usize, forward: bool) -> (r: Option<
    (usize, usize),
>)
    ensures
        opt_range(r) == found(text@, pattern@, from as int, forward),
        match r {
            Some((a, b)) => a <= text@.len() && b <= text@.len() && (forward ==> clip(
                text@,
                from as int,
            ) <= a <= b),
            None => true,
        },
        !forward ==> match r {
            Some((a, b)) => a < clip(text@, from as int) && none_starts(
                text@,
                pattern@,
                a + 1,
                clip(text@, from as int),
            ),
            None => none_starts(text@, pattern@, 0, clip(text@, from as int)),
        },
{
    let from_byte: usize = char_to_byte(text, from);
    let m = if forward {
        let m = find_regex(pattern, text, from_byte);
        proof {
            if let Some((a, b)) = m {
                lemma_index_monotone(text@, from_byte as int, a as int);
                lemma_index_monotone(text@, a as int, b as int);
                lemma_char_index(text@, clip(text@, from as int));
            }
        }
        m
    } else {
        let all = find_all_regex(pattern, text);
        proof {
            let ms = regex_ranges(pattern@, text@);
            assert forall|i: int| 0 <= i < ms.len() implies is_boundary(text@, (#[trigger] ms[i]).0)
                && 0 <= ms[i].0 <= ms[i].1 by {
                assert(ms[i] == (all@[i].0 as int, all@[i].1 as int));
            }
            assert forall|i: int, j: int| 0 <= i < j < ms.len() implies (#[trigger] ms[i]).0 < (
            #[trigger] ms[j]).0 by {
                assert(ms[i] == (all@[i].0 as int, all@[i].1 as int));
                assert(ms[j] == (all@[j].0 as int, all@[j].1 as int));
            }
            lemma_picked(text@, pattern@, clip(text@, from as int));
        }
        pick_before(&all, from_byte)
    };
    range_in_chars(text, m)
}

// ---- isearch ---------------------------------------------------------------

/// The editor with an incremental search begun at point.
pub open spec fn search_started(e: EditorModel, forward: bool) -> EditorModel {
    EditorModel {
        input: InputModel::ISearch(
            IsearchModel {
                query: Seq::empty(),
                forward,
                origin: cur_win(e).point,
                current: None,
                wrapped: false,
                failed: false,
            },
        ),
        ..e
    }
}

fn start_isearch(ed: &mut Editor, forward: bool)
    requires
        wf(old(ed)@),
    ensures
        final(ed)@ == search_started(old(ed)@, forward),
        wf(final(ed)@),
{
    proof {
        lemma_cur(ed@);
    }
    let origin: usize = ed.windows.selected_ref().point;
    ed.input = InputMode::ISearch(
        IsearchState {
            query: String::new(),
            forward,
            origin,
            current: None,
            wrapped: false,
            failed: false,
        },
    );
    proof {
        assert(ed@ =~= search_started(old(ed)@, forward));
        lemma_wf_same(old(ed)@, ed@);
    }
}

pub fn isearch_forward(ed: &mut Editor, _n: Option<u32>)
    requires
        wf(old(ed)@),
    ensures
        final(ed)@ == search_started(old(ed)@, true),
        wf(final(ed)@),
{
    start_isearch(ed, true);
}

pub fn isearch_backward(ed: &mut Editor, _n: Option<u32>)
    requires
        wf(old(ed)@),
    ensures
        final(ed)@ == search_started(old(ed)@, false),
        wf(final(ed)@),
{
    start_isearch(ed, false);
}

/// Echo-line text for an active isearch.
pub open spec fn isearch_text(s: IsearchModel) -> Seq<char> {
    (if s.failed {
        "Failing "@
    } else {
        ""@
    }) + (if s.wrapped {
        "Wrapped "@
    } else {
        ""@
    }) + "Regexp I-search"@ + (if s.forward {
        ""@
    } else {
        " backward"@
    }) + ": "@ + s.query
}

/// Echo-line text for an active isearch.
pub fn isearch_echo(s: &IsearchState) -> (r: String)
    ensures
        r@ == isearch_text(s@),
{
    let mut r = copy(if s.failed {
        "Failing "
    } else {
        ""
    });
    r.push_str(if s.wrapped {
        "Wrapped "
    } else {
        ""
    });
    r.push_str("Regexp I-search");
    r.push_str(if s.forward {
        ""
    } else {
        " backward"
    });
    r.push_str(": ");
    r.push_str(s.query.as_str());
    r
}

/// The position after a match: past it, and past its start where it is empty.
pub open spec fn past(m: (usize, usize)) -> int {
    max(m.1 as int, m.0 + 1)
}

/// The first match after another one, none where that one ends the text.
pub open spec fn found_past(t: Seq<char>, pattern: Seq<char>, m: (usize, usize)) -> Option<
    (int, int),
> {
    if past(m) <= t.len() {
        found(t, pattern, past(m), true)
    } else {
        None
    }
}

/// The first match after another one, none where that one ends the text.
pub fn find_past(text: &str, pattern: &str, m: (usize, usize)) -> (r: Option<(usize, usize)>)
    ensures
        opt_range(r) == found_past(text@, pattern@, m),
        match r {
            Some((a, b)) => past(m) <= a <= b <= text@.len(),
            None => true,
        },
{
    let len: usize = text.unicode_len();
    // +1 guards against empty matches looping.
    let from: usize = if m.1 > m.0 {
        m.1
    } else if m.0 < len {
        m.0 + 1
    } else {
        return None;
    };
    if from <= len {
        find_match(text, pattern, from, true)
    } else {
        None
    }
}

/// How a search is run again: the query has changed and the current match is
/// extended in place, or the search goes on past it, or starts over from the far
/// end of the text.
#[derive(Debug, Clone, Copy, PartialEq, Eq, Structural)]
pub enum SearchStep {
    Extend,
    Advance,
    Wrap,
}

/// The match that a search finds next. It goes on from the current match, or
/// from where the search began where there is none yet.
pub open spec fn search_hit(t: Seq<char>, s: IsearchModel, step: SearchStep) -> Option<(int, int)> {
    match (step, s.current) {
        (SearchStep::Wrap, _) => found(
            t,
            s.query,
            if s.forward {
                0
            } else {
                t.len() as int
            },
            s.forward,
        ),
        (SearchStep::Advance, Some(m)) => if s.forward {
            found_past(t, s.query, m)
        } else {
            found(t, s.query, m.0 as int, false)
        },
        (SearchStep::Extend, Some(m)) => if s.forward {
            found(t, s.query, m.0 as int, true)
        } else {
            found(t, s.query, m.0 + 1, false)
        },
        (_, None) => found(t, s.query, s.origin as int, s.forward),
    }
}

/// Whether what a search that goes on past its current match finds is the nearest
/// match in its direction: forward one that starts behind the current one, and
/// backward the last one that starts before it.
pub open spec fn hit_is_next(t: Seq<char>, s: IsearchModel, step: SearchStep) -> bool {
    match (step, s.current) {
        (SearchStep::Advance, Some(m)) => match search_hit(t, s, step) {
            Some((a, b)) => if s.forward {
                past(m) <= a <= b <= t.len()
            } else {
                a < clip(t, m.0 as int) && b <= t.len() && none_starts(
                    t,
                    s.query,
                    a + 1,
                    clip(t, m.0 as int),
                )
            },
            None => s.forward || none_starts(t, s.query, 0, clip(t, m.0 as int)),
        },
        _ => true,
    }
}

fn find_hit(text: &str, s: &IsearchState, step: SearchStep) -> (r: Option<(usize, usize)>)
    ensures
        opt_range(r) == search_hit(text@, s@, step),
        hit_is_next(text@, s@, step),
{
    let len: usize = text.unicode_len();
    let query = s.query.as_str();
    match (step, s.current) {
        (SearchStep::Wrap, _) => {
            let from: usize = if s.forward {
                0
            } else {
                len
            };
            find_match(text, query, from, s.forward)
        },
        (SearchStep::Advance, Some(m)) => if s.forward {
            find_past(text, query, m)
        } else {
            find_match(text, query, m.0, false)
        },
        (SearchStep::Extend, Some(m)) => if s.forward {
            find_match(text, query, m.0, true)
        } else {
            let from: usize = if m.0 < len {
                m.0 + 1
            } else {
                len
            };
            assert(clip(text@, from as int) == clip(text@, m.0 + 1));
            find_match(text, query, from, false)
        },
        (_, None) => find_match(text, query, s.origin, s.forward),
    }
}

/// The editor with its search replaced.
pub open spec fn with_search(e: EditorModel, s: IsearchModel) -> EditorModel {
    EditorModel { input: InputModel::ISearch(s), ..e }
}

/// The editor with the outcome of a search shown: point goes to the far end of
/// the match in search direction, or the search is marked as failing.
pub open spec fn search_shown(e: EditorModel, s: IsearchModel, hit: Option<(usize, usize)>) -> EditorModel {
    match hit {
        Some(m) => moved(
            with_search(e, IsearchModel { current: hit, failed: false, ..s }),
            clip(
                cur_buf(e).text,
                if s.forward {
                    m.1 as int
                } else {
                    m.0 as int
                },
            ),
        ),
        None => with_search(e, IsearchModel { failed: true, ..s }),
    }
}

/// A match as the search keeps it.
pub open spec fn as_match(m: Option<(int, int)>) -> Option<(usize, usize)> {
    match m {
        Some((a, b)) => Some((a as usize, b as usize)),
        None => None,
    }
}

/// The editor after the search is run again. An empty query goes back to where
/// the search began; a query that is no regex fails.
pub open spec fn searched(e: EditorModel, step: SearchStep) -> EditorModel {
    let t = cur_buf(e).text;
    match e.input {
        InputModel::ISearch(s) => if s.query.len() == 0 {
            moved(
                with_search(e, IsearchModel { current: None, failed: false, ..s }),
                clip(t, s.origin as int),
            )
        } else if regex_error(s.query) is Some {
            with_search(e, IsearchModel { failed: true, ..s })
        } else {
            search_shown(
                e,
                s,
                as_match(search_hit(t, s, step)),
            )
        },
        _ => e,
    }
}

fn set_point(ed: &mut Editor, p: usize)
    requires
        wf(old(ed)@),
    ensures
        final(ed)@ == moved(old(ed)@, clip(cur_buf(old(ed)@).text, p as int)),
        wf(final(ed)@),
{
    let (win, buf) = ed.cur();
    let n: usize = buf.len_chars();
    win.point = if p <= n {
        p
    } else {
        n
    };
}

/// Show the outcome of a search.
pub fn show_search(ed: &mut Editor, hit: Option<(usize, usize)>)
    requires
        wf(old(ed)@),
    ensures
        final(ed)@ == match old(ed)@.input {
            InputModel::ISearch(s) => search_shown(old(ed)@, s, hit),
            _ => old(ed)@,
        },
        wf(final(ed)@),
{
    let ghost e = ed@;
    let mut target: Option<usize> = None;
    if let InputMode::ISearch(s) = &mut ed.input {
        match hit {
            Some((a, b)) => {
                s.current = Some((a, b));
                s.failed = false;
                target = Some(if s.forward {
                    b
                } else {
                    a
                });
            },
            None => {
                s.failed = true;
            },
        }
    }
    proof {
        lemma_wf_same(e, ed@);
    }
    if let Some(p) = target {
        set_point(ed, p);
    }
}

fn research(ed: &mut Editor, step: SearchStep)
    requires
        wf(old(ed)@),
    ensures
        final(ed)@ == searched(old(ed)@, step),
        match old(ed)@.input {
            InputModel::ISearch(s) => s.query.len() > 0 && regex_error(s.query) is None
                ==> hit_is_next(cur_buf(old(ed)@).text, s, step),
            _ => true,
        },
        wf(final(ed)@),
{
    let ghost e = ed@;
    let text = ed.cur_buffer().to_string_lossless();
    let mut origin: Option<usize> = None;
    let hit: Option<(usize, usize)>;
    match &mut ed.input {
        InputMode::ISearch(s) => {
            if s.query.as_str().is_empty() {
                s.current = None;
                s.failed = false;
                origin = Some(s.origin);
                hit = None;
            } else if check_regex(s.query.as_str()).is_some() {
                hit = None;
            } else {
                hit = find_hit(text.as_str(), s, step);
            }
        },
        _ => {
            return ;
        },
    }
    if let Some(p) = origin {
        proof {
            lemma_wf_same(e, ed@);
        }
        set_point(ed, p);
        return ;
    }
    show_search(ed, hit);
}

/// The editor after C-s or C-r in a search: the query is used again in that
/// direction, past the current match; a failing search wraps, once for each such
/// key.
pub open spec fn search_repeated(e: EditorModel, forward: bool) -> EditorModel {
    match e.input {
        InputModel::ISearch(s) => searched(
            with_search(
                e,
                if s.failed {
                    IsearchModel { forward, wrapped: true, failed: false, ..s }
                } else {
                    IsearchModel { forward, ..s }
                },
            ),
            if s.failed {
                SearchStep::Wrap
            } else {
                SearchStep::Advance
            },
        ),
        _ => e,
    }
}

/// Whether a search that was not failing went on to the nearest match in a
/// direction: forward to one that starts behind the current match, backward to
/// the last one that starts before it; or it is failing now, with point and match
/// where they were.
pub open spec fn went_on(e: EditorModel, r: EditorModel, forward: bool) -> bool {
    match (e.input, r.input) {
        (InputModel::ISearch(s), InputModel::ISearch(s1)) => match (s.current, s1.current) {
            (Some(m), Some(m1)) => {
                let t = cur_buf(e).text;
                &&& s1.forward == forward
                &&& s1.query == s.query
                &&& s1.origin == s.origin
                &&& r.buffers == e.buffers
                &&& s1.failed ==> m1 == m && r.windows == e.windows && (!forward ==> none_starts(
                    t,
                    s.query,
                    0,
                    clip(t, m.0 as int),
                ))
                &&& !s1.failed && forward ==> past(m) <= m1.0 <= m1.1 <= t.len() && cur_win(
                    r,
                ).point == m1.1
                &&& !s1.failed && !forward ==> m1.0 < m.0 && cur_win(r).point == m1.0
                    && none_starts(t, s.query, m1.0 + 1, clip(t, m.0 as int))
            },
            _ => false,
        },
        _ => false,
    }
}

/// Whether an editor is in a search that is not failing and has a match.
pub open spec fn at_search_match(e: EditorModel) -> bool {
    match e.input {
        InputModel::ISearch(s) => !s.failed && s.current is Some && s.query.len() > 0 && regex_error(
            s.query,
        ) is None,
        _ => false,
    }
}

proof fn lemma_went_on(e: EditorModel, forward: bool)
    requires
        wf(e),
        at_search_match(e),
        cur_buf(e).text.len() <= usize::MAX,
        hit_is_next(
            cur_buf(e).text,
            IsearchModel { forward, ..e.input->ISearch_0 },
            SearchStep::Advance,
        ),
    ensures
        went_on(e, search_repeated(e, forward), forward),
{
    let s = IsearchModel { forward, ..e.input->ISearch_0 };
    let e1 = with_search(e, s);
    lemma_wf_same(e, e1);
    lemma_cur(e1);
    let t = cur_buf(e).text;
    let r = search_repeated(e, forward);
    match search_hit(t, s, SearchStep::Advance) {
        Some((a, b)) => {
            let hit = Some((a as usize, b as usize));
            let e2 = with_search(e1, IsearchModel { current: hit, failed: false, ..s });
            lemma_wf_same(e1, e2);
            let p = clip(
                t,
                if forward {
                    (b as usize) as int
                } else {
                    (a as usize) as int
                },
            );
            lemma_put(e2, at_point(e2, p), cur_buf(e2));
            lemma_nonnegative(t, s);
            assert(r.buffers =~= e.buffers);
        },
        None => {},
    }
}

proof fn lemma_nonnegative(t: Seq<char>, s: IsearchModel)
    ensures
        match search_hit(t, s, SearchStep::Advance) {
            Some((a, b)) => 0 <= a && 0 <= b,
            None => true,
        },
{
    assert forall|b: int| #[trigger] char_index(t, b) >= 0 by {
        lemma_index_bounds(t, b);
    }
}

/// C-s/C-r while searching: reuse the query in the given direction, moving
/// past the current match. A failing search wraps on repeat.
pub fn repeat_isearch(ed: &mut Editor, forward: bool)
    requires
        wf(old(ed)@),
    ensures
        final(ed)@ == search_repeated(old(ed)@, forward),
        at_search_match(old(ed)@) ==> went_on(old(ed)@, final(ed)@, forward),
        wf(final(ed)@),
{
    let ghost e = ed@;
    let mut step = SearchStep::Advance;
    match &mut ed.input {
        InputMode::ISearch(s) => {
            s.forward = forward;
            if s.failed {
                s.wrapped = true;
                s.failed = false;
                step = SearchStep::Wrap;
            }
        },
        _ => {
            return ;
        },
    }
    proof {
        lemma_wf_same(e, ed@);
    }
    let _len: usize = ed.cur_buffer().len_chars();
    let ghost e1 = ed@;
    research(ed, step);
    proof {
        if at_search_match(e) {
            assert(cur_buf(e1) == cur_buf(e));
            lemma_went_on(e, forward);
        }
    }
}

/// The editor with the search accepted: point stays at the match, and the mark
/// goes where the search began.
pub open spec fn search_accepted(e: EditorModel) -> EditorModel {
    match e.input {
        InputModel::ISearch(s) => said(
            EditorModel {
                input: InputModel::Normal,
                ..with_buf(e, BufferModel { mark: Some(s.origin), ..cur_buf(e) })
            },
            "Mark saved where search started"@,
        ),
        _ => e,
    }
}

/// The editor after a key in an incremental search.
pub open spec fn search_key(e: EditorModel, c: Chord) -> EditorModel {
    match e.input {
        InputModel::ISearch(s) => if c == (Chord { ctrl: false, meta: false, key: Key::Enter }) {
            search_accepted(e)
        } else if c == (Chord { ctrl: true, meta: false, key: Key::Char('s') }) {
            search_repeated(e, true)
        } else if c == (Chord { ctrl: true, meta: false, key: Key::Char('r') }) {
            search_repeated(e, false)
        } else if c == (Chord { ctrl: false, meta: false, key: Key::Backspace }) {
            searched(
                with_search(
                    e,
                    IsearchModel {
                        query: if s.query.len() > 0 {
                            s.query.drop_last()
                        } else {
                            s.query
                        },
                        wrapped: false,
                        ..s
                    },
                ),
                SearchStep::Extend,
            )
        } else {
            match inserts(c) {
                Some(ch) => searched(
                    with_search(e, IsearchModel { query: s.query.push(ch), ..s }),
                    SearchStep::Extend,
                ),
                None => e,
            }
        },
        _ => e,
    }
}

/// A string without its last char.
pub fn without_last(s: &str) -> (r: String)
    ensures
        r@ == if s@.len() > 0 {
            s@.drop_last()
        } else {
            s@
        },
{
    let v = to_chars(s);
    if v.len() == 0 {
        return String::new();
    }
    let r = from_chars(&v, 0, v.len() - 1);
    assert(r@ =~= s@.drop_last());
    r
}

/// Handle a key while an incremental search is active.
pub fn isearch_key(ed: &mut Editor, chord: Chord)
    requires
        wf(old(ed)@),
    ensures
        final(ed)@ == search_key(old(ed)@, chord),
        at_search_match(old(ed)@) && chord == (Chord {
            ctrl: true,
            meta: false,
            key: Key::Char('s'),
        }) ==> went_on(old(ed)@, final(ed)@, true),
        at_search_match(old(ed)@) && chord == (Chord {
            ctrl: true,
            meta: false,
            key: Key::Char('r'),
        }) ==> went_on(old(ed)@, final(ed)@, false),
        wf(final(ed)@),
{
    let ghost e = ed@;
    let origin: usize = match &ed.input {
        InputMode::ISearch(s) => s.origin,
        _ => {
            return ;
        },
    };
    if chord == (Chord { ctrl: false, meta: false, key: Key::Enter }) {
        // Accept: leave point at the match, remember where we started.
        let buf = ed.cur_buffer_mut();
        buf.mark = Some(origin);
        let ghost e1 = ed@;
        ed.input = InputMode::Normal;
        proof {
            lemma_wf_same(e1, ed@);
        }
        ed.message("Mark saved where search started");
        assert(ed@ =~= search_accepted(e));
    } else if chord == (Chord { ctrl: true, meta: false, key: Key::Char('s') }) {
        repeat_isearch(ed, true);
    } else if chord == (Chord { ctrl: true, meta: false, key: Key::Char('r') }) {
        repeat_isearch(ed, false);
    } else if chord == (Chord { ctrl: false, meta: false, key: Key::Backspace }) {
        if let InputMode::ISearch(s) = &mut ed.input {
            let q = without_last(s.query.as_str());
            s.query = q;
            s.wrapped = false;
        }
        proof {
            lemma_wf_same(e, ed@);
        }
        research(ed, SearchStep::Extend);
    } else if let Some(c) = chord.self_insert_char() {
        if let InputMode::ISearch(s) = &mut ed.input {
            s.query.push(c);
        }
        proof {
            lemma_wf_same(e, ed@);
        }
        research(ed, SearchStep::Extend);
    }
}

// ---- query-replace ---------------------------------------------------------

/// The editor after query-replace: a prompt for the regexp.
pub open spec fn replace_asked(e: EditorModel) -> EditorModel {
    if cur_buf(e).read_only {
        refused(e)
    } else {
        asked(e, KindModel::QueryReplaceFrom, "Query replace regexp: "@, Seq::empty())
    }
}

pub fn query_replace(ed: &mut Editor, _n: Option<u32>)
    requires
        wf(old(ed)@),
    ensures
        final(ed)@ == replace_asked(old(ed)@),
        wf(final(ed)@),
{
    if !check_editable(ed) {
        return ;
    }
    ed.prompt(PromptKind::QueryReplaceFrom, "Query replace regexp: ");
}

/// The editor with its query-replace replaced.
pub open spec fn with_replace(e: EditorModel, s: ReplaceModel) -> EditorModel {
    EditorModel { input: InputModel::QueryReplace(s), ..e }
}

/// The editor at the first match of a query-replace.
pub open spec fn replace_begun(
    e: EditorModel,
    from: Seq<char>,
    to: Seq<char>,
    hit: Option<(usize, usize)>,
) -> EditorModel {
    match hit {
        Some(m) => moved(
            with_replace(e, ReplaceModel { regex: from, replacement: to, current: hit, count: 0 }),
            clip(cur_buf(e).text, m.0 as int),
        ),
        None => said(e, "Replaced 0 occurrences"@),
    }
}

/// The editor after both prompts of query-replace.
pub open spec fn replace_started(e: EditorModel, from: Seq<char>, to: Seq<char>) -> EditorModel {
    match regex_error(from) {
        Some(msg) => said(e, "Invalid regexp: "@ + msg),
        None => replace_begun(
            e,
            from,
            to,
            as_match(found(cur_buf(e).text, from, cur_win(e).point as int, true)),
        ),
    }
}

/// Begin a query-replace at its first match.
pub fn begin_replace(ed: &mut Editor, from: String, to: String, hit: Option<(usize, usize)>)
    requires
        wf(old(ed)@),
    ensures
        final(ed)@ == replace_begun(old(ed)@, from@, to@, hit),
        wf(final(ed)@),
{
    match hit {
        Some((a, b)) => {
            ed.input = InputMode::QueryReplace(
                QueryReplaceState { regex: from, replacement: to, current: Some((a, b)), count: 0 },
            );
            proof {
                lemma_wf_same(old(ed)@, ed@);
            }
            set_point(ed, a);
        },
        None => ed.message("Replaced 0 occurrences"),
    }
}

/// Second prompt completed: start the interactive loop at the first match.
pub fn start_query_replace(ed: &mut Editor, from: String, to: String)
    requires
        wf(old(ed)@),
    ensures
        final(ed)@ == replace_started(old(ed)@, from@, to@),
        wf(final(ed)@),
{
    if let Some(msg) = check_regex(from.as_str()) {
        ed.message(cat2("Invalid regexp: ", msg.as_str()).as_str());
        return ;
    }
    proof {
        lemma_cur(ed@);
    }
    let text = ed.cur_buffer().to_string_lossless();
    let point: usize = ed.windows.selected_ref().point;
    let hit = find_match(text.as_str(), from.as_str(), point, true);
    begin_replace(ed, from, to, hit);
}

/// Echo-line text for an active query-replace.
pub open spec fn replace_text(s: ReplaceModel) -> Seq<char> {
    "Query replacing regexp "@ + s.regex + " with "@ + s.replacement
        + ": (y)es (n)ext (!)all (q)uit"@
}

/// Echo-line text for an active query-replace.
pub fn query_replace_echo(s: &QueryReplaceState) -> (r: String)
    ensures
        r@ == replace_text(s@),
{
    cat5(
        "Query replacing regexp ",
        s.regex.as_str(),
        " with ",
        s.replacement.as_str(),
        ": (y)es (n)ext (!)all (q)uit",
    )
}

/// The largest count, or `n`.
pub open spec fn at_most_max(n: int) -> int {
    min(n, usize::MAX as int)
}

/// The editor with the current match replaced by `expansion`; without one the
/// match is given up. Where the match held nothing, the place after what was put
/// in becomes the current one.
pub open spec fn match_replaced(
    e: EditorModel,
    s: ReplaceModel,
    m: (usize, usize),
    expansion: Option<Seq<char>>,
) -> EditorModel {
    match expansion {
        Some(x) => {
            let end = at_most_max(m.0 + x.len());
            let t = cur_buf(e).text;
            let b = inserted(removed(cur_buf(e), m.0 as int, m.1 as int), m.0 as int, x);
            let start = if m.0 < clip(t, m.1 as int) {
                m.0 as int
            } else {
                end
            };
            edit_cur(
                with_replace(
                    e,
                    ReplaceModel {
                        count: at_most_max(s.count + 1),
                        current: Some((start as usize, end as usize)),
                        ..s
                    },
                ),
                clip(b.text, end),
                b,
            )
        },
        None => with_replace(e, ReplaceModel { current: None, ..s }),
    }
}

/// The editor with the current match of a query-replace replaced.
pub open spec fn current_replaced(e: EditorModel) -> EditorModel {
    match e.input {
        InputModel::QueryReplace(s) => match s.current {
            Some(m) => if regex_error(s.regex) is Some {
                e
            } else {
                let t = cur_buf(e).text;
                match_replaced(
                    e,
                    s,
                    m,
                    regex_expansion(
                        s.regex,
                        t,
                        byte_offset(t, clip(t, m.0 as int)),
                        s.replacement,
                    ),
                )
            },
            None => e,
        },
        _ => e,
    }
}

/// Replace the current match of a query-replace by `expansion`; without one
/// give the match up.
pub fn replace_match(ed: &mut Editor, expansion: Option<String>)
    requires
        wf(old(ed)@),
    ensures
        final(ed)@ == match old(ed)@.input {
            InputModel::QueryReplace(s) => match s.current {
                Some(m) => match_replaced(old(ed)@, s, m, opt_view(expansion)),
                None => old(ed)@,
            },
            _ => old(ed)@,
        },
        wf(final(ed)@),
{
    let ghost e = ed@;
    let (start, end) = match &ed.input {
        InputMode::QueryReplace(s) => match s.current {
            Some((a, b)) => (a, b),
            None => {
                return ;
            },
        },
        _ => {
            return ;
        },
    };
    match expansion {
        Some(x) => {
            let k: usize = x.as_str().unicode_len();
            let new_end: usize = if k <= usize::MAX - start {
                start + k
            } else {
                usize::MAX
            };
            let len: usize = ed.cur_buffer().len_chars();
            let new_start: usize = if start < end && start < len {
                start
            } else {
                new_end
            };
            if let InputMode::QueryReplace(s) = &mut ed.input {
                if s.count < usize::MAX {
                    s.count = s.count + 1;
                }
                s.current = Some((new_start, new_end));
            }
            let ghost e1 = ed@;
            proof {
                lemma_wf_same(e, e1);
            }
            let (win, buf) = ed.cur();
            buf.remove(start, end);
            buf.insert(start, x.as_str());
            let n: usize = buf.len_chars();
            win.point = if new_end <= n {
                new_end
            } else {
                n
            };
        },
        None => {
            if let InputMode::QueryReplace(s) = &mut ed.input {
                s.current = None;
            }
            proof {
                lemma_wf_same(e, ed@);
            }
        },
    }
}

fn replace_current(ed: &mut Editor)
    requires
        wf(old(ed)@),
    ensures
        final(ed)@ == current_replaced(old(ed)@),
        wf(final(ed)@),
{
    let text = ed.cur_buffer().to_string_lossless();
    let expansion = match &ed.input {
        InputMode::QueryReplace(s) => match s.current {
            Some((start, _end)) => {
                if check_regex(s.regex.as_str()).is_some() {
                    return ;
                }
                let start_byte: usize = char_to_byte(text.as_str(), start);
                // Expand $1-style capture references in the replacement.
                expand_regex(
                    s.regex.as_str(),
                    text.as_str(),
                    start_byte,
                    s.replacement.as_str(),
                )
            },
            None => {
                return ;
            },
        },
        _ => {
            return ;
        },
    };
    replace_match(ed, expansion);
}

/// The closing message of a query-replace.
pub open spec fn replaced_text(n: int) -> Seq<char> {
    "Replaced "@ + decimal(n as nat) + " occurrence"@ + (if n == 1 {
        ""@
    } else {
        "s"@
    })
}

/// The editor with the query-replace ended.
pub open spec fn replace_ended(e: EditorModel) -> EditorModel {
    match e.input {
        InputModel::QueryReplace(s) => said(
            EditorModel { input: InputModel::Normal, ..e },
            replaced_text(s.count),
        ),
        _ => e,
    }
}

fn finish_query_replace(ed: &mut Editor)
    requires
        wf(old(ed)@),
    ensures
        final(ed)@ == replace_ended(old(ed)@),
        wf(final(ed)@),
{
    let n: usize = match &ed.input {
        InputMode::QueryReplace(s) => s.count,
        _ => {
            return ;
        },
    };
    ed.input = InputMode::Normal;
    proof {
        lemma_wf_same(old(ed)@, ed@);
    }
    let digits = decimal_string(n);
    let msg = crate::strings::cat4(
        "Replaced ",
        digits.as_str(),
        " occurrence",
        if n == 1 {
            ""
        } else {
            "s"
        },
    );
    ed.message(msg.as_str());
}

/// The editor at the next match of a query-replace, or at its end.
pub open spec fn match_shown(e: EditorModel, s: ReplaceModel, hit: Option<(usize, usize)>) -> EditorModel {
    match hit {
        Some(m) => moved(
            with_replace(e, ReplaceModel { current: hit, ..s }),
            clip(cur_buf(e).text, m.0 as int),
        ),
        None => replace_ended(e),
    }
}

/// The editor at the next match of a query-replace after the current one.
pub open spec fn next_matched(e: EditorModel) -> EditorModel {
    let t = cur_buf(e).text;
    match e.input {
        InputModel::QueryReplace(s) => if regex_error(s.regex) is Some {
            replace_ended(e)
        } else {
            match_shown(
                e,
                s,
                as_match(
                    match s.current {
                        Some(m) => found_past(t, s.regex, m),
                        None => found(t, s.regex, cur_win(e).point as int, true),
                    },
                ),
            )
        },
        _ => e,
    }
}

/// Go to the next match of a query-replace, or end it.
pub fn show_match(ed: &mut Editor, hit: Option<(usize, usize)>)
    requires
        wf(old(ed)@),
    ensures
        final(ed)@ == match old(ed)@.input {
            InputModel::QueryReplace(s) => match_shown(old(ed)@, s, hit),
            _ => old(ed)@,
        },
        wf(final(ed)@),
{
    let ghost e = ed@;
    match hit {
        Some((a, b)) => {
            match &mut ed.input {
                InputMode::QueryReplace(s) => {
                    s.current = Some((a, b));
                },
                _ => {
                    return ;
                },
            }
            proof {
                lemma_wf_same(e, ed@);
            }
            set_point(ed, a);
        },
        None => finish_query_replace(ed),
    }
}

/// Whether the next match of a query-replace, if it goes on, lies past the
/// current one and in the text.
pub open spec fn goes_on(e: EditorModel, r: EditorModel) -> bool {
    match (e.input, r.input) {
        (InputModel::QueryReplace(s), InputModel::QueryReplace(s1)) => match (
            s.current,
            s1.current,
        ) {
            (Some(m), Some(m1)) => past(m) <= m1.0 <= cur_buf(r).text.len(),
            (Some(_), None) => false,
            _ => true,
        },
        _ => true,
    }
}

fn next_match(ed: &mut Editor)
    requires
        wf(old(ed)@),
    ensures
        final(ed)@ == next_matched(old(ed)@),
        goes_on(old(ed)@, final(ed)@),
        wf(final(ed)@),
{
    proof {
        lemma_cur(ed@);
    }
    let text = ed.cur_buffer().to_string_lossless();
    let hit = match &ed.input {
        InputMode::QueryReplace(s) => {
            if check_regex(s.regex.as_str()).is_some() {
                finish_query_replace(ed);
                return ;
            }
            match s.current {
                Some(m) => find_past(text.as_str(), s.regex.as_str(), m),
                None => {
                    let point: usize = ed.windows.selected_ref().point;
                    find_match(text.as_str(), s.regex.as_str(), point, true)
                },
            }
        },
        _ => {
            return ;
        },
    };
    proof {
        if let Some(m) = hit {
            let s = ed@.input->QueryReplace_0;
            let e1 = with_replace(ed@, ReplaceModel { current: hit, ..s });
            lemma_wf_same(ed@, e1);
            lemma_put(e1, at_point(e1, clip(cur_buf(e1).text, m.0 as int)), cur_buf(e1));
        }
    }
    show_match(ed, hit);
}

/// Whether a query-replace stands at a match.
pub open spec fn at_match(e: EditorModel) -> bool {
    match e.input {
        InputModel::QueryReplace(s) => s.current is Some,
        _ => false,
    }
}

/// The editor with the current match replaced, at the next one; a match that
/// cannot be replaced ends the query-replace.
pub open spec fn one_replaced(e: EditorModel) -> EditorModel {
    let r = current_replaced(e);
    if at_match(r) {
        next_matched(r)
    } else {
        replace_ended(r)
    }
}

/// The editor with up to `n` matches from the current one on replaced.
pub open spec fn all_replaced(e: EditorModel, n: int) -> EditorModel
    decreases n,
{
    if n > 0 && at_match(e) {
        all_replaced(one_replaced(e), n - 1)
    } else {
        e
    }
}

/// The editor with all matches from the current one on replaced: there are no
/// more of them than there are places in the text.
pub open spec fn rest_replaced(e: EditorModel) -> EditorModel {
    all_replaced(e, cur_buf(e).text.len() as int + 2)
}

/// How many matches are left at most, from the current one on.
spec fn places_left(e: EditorModel) -> int {
    match e.input {
        InputModel::QueryReplace(s) => match s.current {
            Some(m) => max(cur_buf(e).text.len() - m.0, 0) + 1,
            None => 0,
        },
        _ => 0,
    }
}

/// The editor after a key in a query-replace: replace, skip, replace all the
/// rest, or quit.
pub open spec fn replace_key(e: EditorModel, c: Chord) -> EditorModel {
    if c.ctrl || c.meta {
        e
    } else {
        match c.key {
            Key::Char('y') => next_matched(current_replaced(e)),
            Key::Char('n') => next_matched(e),
            Key::Char('!') => rest_replaced(e),
            Key::Char('q') => replace_ended(e),
            Key::Enter => replace_ended(e),
            _ => e,
        }
    }
}

/// Handle a key while a query-replace is active.
pub fn query_replace_key(ed: &mut Editor, chord: Chord)
    requires
        wf(old(ed)@),
    ensures
        final(ed)@ == replace_key(old(ed)@, chord),
        at_match(old(ed)@) && chord == (Chord { ctrl: false, meta: false, key: Key::Char('!') })
            ==> final(ed)@.input is Normal,
        wf(final(ed)@),
{
    if chord.ctrl || chord.meta {
        return ;
    }
    let key = match chord.key {
        Key::Char(c) => c,
        Key::Enter => 'q',
        _ => {
            return ;
        },
    };
    if key == 'y' {
        replace_current(ed);
        next_match(ed);
    } else if key == 'n' {
        next_match(ed);
    } else if key == '!' {
        replace_all(ed);
    } else if key == 'q' {
        finish_query_replace(ed);
    }
}

/// Replacing the current match and going on leaves fewer places.
proof fn lemma_fewer_places(e: EditorModel, r: EditorModel)
    requires
        wf(e),
        at_match(e),
        cur_buf(current_replaced(e)).text.len() <= usize::MAX,
        at_match(current_replaced(e)),
        r == next_matched(current_replaced(e)),
        goes_on(current_replaced(e), r),
    ensures
        places_left(r) < places_left(e),
        at_match(r) || r.input is Normal,
{
    let f = current_replaced(e);
    match (e.input, f.input) {
        (InputModel::QueryReplace(s), InputModel::QueryReplace(s1)) => {
            let m = s.current->0;
            let m1 = s1.current->0;
            let t = cur_buf(e).text;
            if regex_error(s.regex) is None {
                let x = regex_expansion(
                    s.regex,
                    t,
                    byte_offset(t, clip(t, m.0 as int)),
                    s.replacement,
                )->0;
                let b = inserted(removed(cur_buf(e), m.0 as int, m.1 as int), m.0 as int, x);
                let e1 = with_replace(e, s1);
                lemma_wf_same(e, e1);
                lemma_put(e1, at_point(e1, clip(b.text, at_most_max(m.0 + x.len()))), b);
                assert(cur_buf(f) == b);
                if at_match(r) {
                    lemma_put(f, at_point(f, clip(b.text, (r.input->QueryReplace_0.current->0).0 as int)), b);
                }
            }
        },
        _ => {},
    }
}

fn replace_all(ed: &mut Editor)
    requires
        wf(old(ed)@),
    ensures
        final(ed)@ == rest_replaced(old(ed)@),
        at_match(old(ed)@) ==> final(ed)@.input is Normal,
        wf(final(ed)@),
{
    let ghost e = ed@;
    let ghost n = cur_buf(e).text.len() as int + 2;
    let ghost mut left: int = n;
    loop
        invariant
            wf(ed@),
            e == old(ed)@,
            n == cur_buf(e).text.len() as int + 2,
            rest_replaced(e) == all_replaced(ed@, left),
            places_left(ed@) < left,
            at_match(e) ==> at_match(ed@) || ed@.input is Normal,
        decreases places_left(ed@),
    {
        match &ed.input {
            InputMode::QueryReplace(s) => {
                if s.current.is_none() {
                    return ;
                }
            },
            _ => {
                return ;
            },
        }
        let ghost f = ed@;
        replace_current(ed);
        let given_up = match &ed.input {
            InputMode::QueryReplace(s) => s.current.is_none(),
            _ => true,
        };
        if given_up {
            finish_query_replace(ed);
        } else {
            let _len: usize = ed.cur_buffer().len_chars();
            next_match(ed);
            proof {
                lemma_fewer_places(f, ed@);
            }
        }
        proof {
            left = left - 1;
        }
    }
}

} // verus!
