//! What an incremental search does.

use crate::buffer::BufferModel;
use crate::bytes::{byte_offset, char_index, lemma_index_bounds};
use crate::commands::run::native_done;
use crate::dispatch::chord_handled;
use crate::editor::{
    at_point, cur_buf, cur_win, lemma_cur, lemma_wf_same, lemma_with_buf, wf, EditorModel,
};
use crate::input::{InputModel, IsearchModel};
use crate::keys::{inserts, Chord, Key};
use crate::laws::frame::{counted, enter, lemma_put_here, only_here};
use crate::laws::table::lemma_search_commands;
use crate::lines::max;
use crate::minibuffer::ctrl;
use crate::native::NativeCmd;
use crate::regexes::{regex_error, regex_find, regex_ranges};
use crate::search::{
    found, last_before, run_before, search_shown, searched, with_search, SearchStep,
};
use vstd::prelude::*;

verus! {

/// Whether a search shows a match, given by its byte offsets: it is the current
/// one, and point is at its far end in the direction of the search.
pub open spec fn shows(r: EditorModel, t: Seq<char>, m: (int, int)) -> bool {
    match r.input {
        InputModel::ISearch(s) => {
            &&& !s.failed
            &&& s.current == Some((char_index(t, m.0) as usize, char_index(t, m.1) as usize))
            &&& cur_win(r).point == char_index(
                t,
                if s.forward {
                    m.1
                } else {
                    m.0
                },
            )
        },
        _ => false,
    }
}

/// Whether an editor is another one whose search found nothing: it is marked as
/// failing, with match and point where they were.
pub open spec fn fails(e: EditorModel, r: EditorModel) -> bool {
    match (e.input, r.input) {
        (InputModel::ISearch(s), InputModel::ISearch(s1)) => s1.failed && s1.current == s.current
            && r.windows == e.windows,
        _ => false,
    }
}

/// Whether a forward search shows the first match of a query from a position on,
/// or fails where there is none.
pub open spec fn finds_first(e: EditorModel, r: EditorModel, query: Seq<char>, from: int) -> bool {
    let t = cur_buf(e).text;
    match regex_find(query, t, byte_offset(t, from)) {
        Some(m) => shows(r, t, m),
        None => fails(e, r),
    }
}

/// Whether a backward search shows the last of the matches of a query that start
/// before a position, all matches before it starting earlier, or fails where the
/// first match starts no earlier.
pub open spec fn finds_last(e: EditorModel, r: EditorModel, query: Seq<char>, from: int) -> bool {
    let t = cur_buf(e).text;
    let ms = regex_ranges(query, t);
    let b = byte_offset(t, from);
    if ms.len() > 0 && ms[0].0 < b {
        exists|k: int|
            {
                &&& 0 <= k < ms.len()
                &&& shows(r, t, #[trigger] ms[k])
                &&& forall|j: int| 0 <= j <= k ==> (#[trigger] ms[j]).0 < b
                &&& k + 1 < ms.len() ==> ms[k + 1].0 >= b
                &&& ordered(ms) ==> forall|j: int|
                    0 <= j < ms.len() && (#[trigger] ms[j]).0 < b ==> ms[j].0 <= ms[k].0
            }
    } else {
        fails(e, r)
    }
}

/// Whether matches start one behind the other.
pub open spec fn ordered(ms: Seq<(int, int)>) -> bool {
    forall|i: int, j: int| 0 <= i < j < ms.len() ==> (#[trigger] ms[i]).0 < (#[trigger] ms[j]).0
}

/// Whether only the search and point changed.
pub open spec fn only_searched(e: EditorModel, r: EditorModel) -> bool {
    &&& r.buffers == e.buffers
    &&& only_here(e, r)
    &&& r.kill_ring == e.kill_ring
    &&& r.input is ISearch
    &&& (r.input->ISearch_0).origin == (e.input->ISearch_0).origin
}

proof fn lemma_shown(e: EditorModel, s: IsearchModel, m: Option<(int, int)>)
    requires
        wf(e),
        counted(e),
        e.input is ISearch,
        s.origin == (e.input->ISearch_0).origin,
        s.current == (e.input->ISearch_0).current,
    ensures
        ({
            let t = cur_buf(e).text;
            let hit = crate::search::as_match(crate::search::in_chars(t, m));
            let r = search_shown(with_search(e, s), s, hit);
            &&& wf(r)
            &&& only_searched(e, r)
            &&& (r.input->ISearch_0).query == s.query
            &&& (r.input->ISearch_0).forward == s.forward
            &&& (r.input->ISearch_0).wrapped == s.wrapped
            &&& match m {
                Some(x) => shows(r, t, x),
                None => fails(e, r),
            }
        }),
{
    let t = cur_buf(e).text;
    let e1 = with_search(e, s);
    lemma_wf_same(e, e1);
    lemma_cur(e1);
    let hit = crate::search::as_match(crate::search::in_chars(t, m));
    let r = search_shown(e1, s, hit);
    match m {
        Some((a, b)) => {
            lemma_index_bounds(t, a);
            lemma_index_bounds(t, b);
            let e2 = with_search(e1, IsearchModel { current: hit, failed: false, ..s });
            lemma_wf_same(e1, e2);
            let p = if s.forward {
                char_index(t, b)
            } else {
                char_index(t, a)
            };
            lemma_put_here(e2, at_point(e2, p), cur_buf(e2));
            assert(r.buffers =~= e.buffers);
        },
        None => {
            lemma_wf_same(e1, r);
        },
    }
}

proof fn lemma_last(ms: Seq<(int, int)>, b: int)
    ensures
        match last_before(ms, b) {
            Some(m) => exists|k: int|
                0 <= k < ms.len() && m == #[trigger] ms[k] && (forall|j: int|
                    0 <= j <= k ==> (#[trigger] ms[j]).0 < b) && (k + 1 < ms.len() ==> ms[k + 1].0
                    >= b),
            None => ms.len() == 0 || ms[0].0 >= b,
        },
{
    lemma_run(ms, b, 0);
    let k = run_before(ms, b, 0);
    if k > 0 {
        assert(ms[k - 1] == last_before(ms, b)->0);
    }
}

proof fn lemma_run(ms: Seq<(int, int)>, b: int, i: int)
    requires
        0 <= i <= ms.len(),
        forall|k: int| 0 <= k < i ==> (#[trigger] ms[k]).0 < b,
    ensures
        i <= run_before(ms, b, i) <= ms.len(),
        forall|k: int| 0 <= k < run_before(ms, b, i) ==> (#[trigger] ms[k]).0 < b,
        run_before(ms, b, i) < ms.len() ==> ms[run_before(ms, b, i)].0 >= b,
    decreases ms.len() - i,
{
    if i < ms.len() && ms[i].0 < b {
        lemma_run(ms, b, i + 1);
    }
}

proof fn lemma_found(e: EditorModel, s: IsearchModel, from: int)
    requires
        wf(e),
        counted(e),
        e.input is ISearch,
        s.origin == (e.input->ISearch_0).origin,
        s.current == (e.input->ISearch_0).current,
        0 <= from <= cur_buf(e).text.len(),
    ensures
        ({
            let t = cur_buf(e).text;
            let hit = crate::search::as_match(found(t, s.query, from, s.forward));
            let r = search_shown(with_search(e, s), s, hit);
            &&& only_searched(e, r)
            &&& (r.input->ISearch_0).query == s.query
            &&& (r.input->ISearch_0).forward == s.forward
            &&& (r.input->ISearch_0).wrapped == s.wrapped
            &&& s.forward ==> finds_first(e, r, s.query, from)
            &&& !s.forward ==> finds_last(e, r, s.query, from)
        }),
{
    let t = cur_buf(e).text;
    let b = byte_offset(t, from);
    if s.forward {
        lemma_shown(e, s, regex_find(s.query, t, b));
    } else {
        let ms = regex_ranges(s.query, t);
        lemma_shown(e, s, last_before(ms, b));
        lemma_last(ms, b);
        let hit = crate::search::as_match(found(t, s.query, from, s.forward));
        let r = search_shown(with_search(e, s), s, hit);
        if let Some(m) = last_before(ms, b) {
            let k = choose|k: int|
                0 <= k < ms.len() && m == #[trigger] ms[k] && (forall|j: int|
                    0 <= j <= k ==> (#[trigger] ms[j]).0 < b) && (k + 1 < ms.len() ==> ms[k + 1].0
                    >= b);
            assert(ms[0].0 < b);
            if ordered(ms) {
                assert forall|j: int| 0 <= j < ms.len() && (#[trigger] ms[j]).0 < b implies ms[j].0
                    <= ms[k].0 by {
                    if j > k + 1 {
                        assert(ms[k + 1].0 < ms[j].0);
                    } else if j < k {
                        assert(ms[j].0 < ms[k].0);
                    }
                }
            }
            assert(shows(r, t, ms[k]));
        } else {
            assert(fails(e, r));
        }
    }
}

/// In a search with a match that is not failing, C-s goes to the first match
/// behind the current one, and C-r to the last match that starts before it,
/// whatever direction the search had; where there is none the search fails. No
/// text changes.
pub proof fn law_repeat_goes_on(e: EditorModel, forward: bool)
    requires
        wf(e),
        counted(e),
        match e.input {
            InputModel::ISearch(s) => match s.current {
                Some(m) => !s.failed && s.query.len() > 0 && m.0 <= m.1 <= cur_buf(e).text.len(),
                None => false,
            },
            _ => false,
        },
    ensures
        ({
            let s = e.input->ISearch_0;
            let m = s.current->0;
            let t = cur_buf(e).text;
            let r = chord_handled(
                e,
                if forward {
                    ctrl('s')
                } else {
                    ctrl('r')
                },
            ).0;
            let s1 = r.input->ISearch_0;
            let from = max(m.1 as int, m.0 + 1);
            regex_error(s.query) is None ==> {
                &&& only_searched(e, r)
                &&& s1.query == s.query
                &&& s1.forward == forward
                &&& forward && from <= t.len() ==> finds_first(e, r, s.query, from)
                &&& forward && from > t.len() ==> fails(e, r)
                &&& !forward ==> finds_last(e, r, s.query, m.0 as int)
            }
        }),
{
    let e0 = EditorModel { echo: None, ..e };
    lemma_wf_same(e, e0);
    lemma_cur(e0);
    let s = e.input->ISearch_0;
    let m = s.current->0;
    let t = cur_buf(e).text;
    if regex_error(s.query) is None {
        let s1 = IsearchModel { forward, ..s };
        let from = max(m.1 as int, m.0 + 1);
        if forward {
            if from <= t.len() {
                lemma_found(e0, s1, from);
            } else {
                lemma_shown(e0, s1, None);
            }
        } else {
            lemma_found(e0, s1, m.0 as int);
        }
    }
}

/// In a failing search, C-s starts over from the start of the text and C-r from
/// its end.
pub proof fn law_failing_wraps(e: EditorModel, forward: bool)
    requires
        wf(e),
        counted(e),
        match e.input {
            InputModel::ISearch(s) => s.failed && s.query.len() > 0,
            _ => false,
        },
    ensures
        ({
            let s = e.input->ISearch_0;
            let t = cur_buf(e).text;
            let r = chord_handled(
                e,
                if forward {
                    ctrl('s')
                } else {
                    ctrl('r')
                },
            ).0;
            let s1 = r.input->ISearch_0;
            regex_error(s.query) is None ==> {
                &&& only_searched(e, r)
                &&& s1.query == s.query
                &&& s1.forward == forward
                &&& s1.wrapped
                &&& forward ==> finds_first(e, r, s.query, 0)
                &&& !forward ==> finds_last(e, r, s.query, t.len() as int)
            }
        }),
{
    let e0 = EditorModel { echo: None, ..e };
    lemma_wf_same(e, e0);
    lemma_cur(e0);
    let s = e.input->ISearch_0;
    if regex_error(s.query) is None {
        let s1 = IsearchModel { forward, wrapped: true, failed: false, ..s };
        lemma_found(
            e0,
            s1,
            if forward {
                0
            } else {
                cur_buf(e).text.len() as int
            },
        );
    }
}

/// A printable key adds its char to the query, and backspace takes the last one
/// off; the search then takes the nearest match from the start of the current one
/// on, or from where it began, and no text changes.
pub proof fn law_typing_extends(e: EditorModel, c: Chord)
    requires
        wf(e),
        counted(e),
        match e.input {
            InputModel::ISearch(s) => s.origin <= cur_buf(e).text.len() && match s.current {
                Some(m) => m.0 < cur_buf(e).text.len(),
                None => true,
            },
            _ => false,
        },
        inserts(c) is Some || c == (Chord { ctrl: false, meta: false, key: Key::Backspace }),
    ensures
        ({
            let s = e.input->ISearch_0;
            let r = chord_handled(e, c).0;
            let s1 = r.input->ISearch_0;
            let query = match inserts(c) {
                Some(ch) => s.query.push(ch),
                None => if s.query.len() > 0 {
                    s.query.drop_last()
                } else {
                    s.query
                },
            };
            let from = match s.current {
                Some(m) => if s.forward {
                    m.0 as int
                } else {
                    m.0 + 1
                },
                None => s.origin as int,
            };
            &&& only_searched(e, r)
            &&& s1.query == query
            &&& s1.forward == s.forward
            &&& query.len() > 0 && regex_error(query) is None ==> {
                &&& s.forward ==> finds_first(e, r, query, from)
                &&& !s.forward ==> finds_last(e, r, query, from)
            }
            &&& query.len() > 0 && regex_error(query) is Some ==> fails(e, r)
            &&& query.len() == 0 ==> s1.current is None && cur_win(r).point == s.origin
        }),
{
    let e0 = EditorModel { echo: None, ..e };
    lemma_wf_same(e, e0);
    lemma_cur(e0);
    let s = e.input->ISearch_0;
    let r = chord_handled(e, c).0;
    let query = match inserts(c) {
        Some(ch) => s.query.push(ch),
        None => if s.query.len() > 0 {
            s.query.drop_last()
        } else {
            s.query
        },
    };
    let s1 = match inserts(c) {
        Some(ch) => IsearchModel { query, ..s },
        None => IsearchModel { query, wrapped: false, ..s },
    };
    let e1 = with_search(e0, s1);
    lemma_wf_same(e0, e1);
    assert(r == searched(e1, SearchStep::Extend));
    if query.len() == 0 {
        let e2 = with_search(e1, IsearchModel { current: None, failed: false, ..s1 });
        lemma_wf_same(e1, e2);
        lemma_put_here(e2, at_point(e2, s.origin as int), cur_buf(e2));
        assert(r.buffers =~= e.buffers);
    } else if regex_error(query) is None {
        let from = match s.current {
            Some(m) => if s.forward {
                m.0 as int
            } else {
                m.0 + 1
            },
            None => s.origin as int,
        };
        lemma_found(e0, s1, from);
    }
}

/// RET in a search ends it with point where it is and the mark where the search
/// began; no text changes.
pub proof fn law_accept_marks_origin(e: EditorModel)
    requires
        wf(e),
        e.input is ISearch,
    ensures
        ({
            let r = chord_handled(e, enter()).0;
            &&& r.input is Normal
            &&& r.windows == e.windows
            &&& only_here(e, r)
            &&& cur_buf(r) == (BufferModel {
                mark: Some((e.input->ISearch_0).origin),
                ..cur_buf(e)
            })
        }),
{
    let e0 = EditorModel { echo: None, ..e };
    lemma_wf_same(e, e0);
    lemma_cur(e0);
    let b = BufferModel { mark: Some((e.input->ISearch_0).origin), ..cur_buf(e) };
    lemma_with_buf(e0, b);
    lemma_put_here(e0, cur_win(e0), b);
}

/// A search begins at point with an empty query, in the direction of its command.
pub proof fn law_search_begins(e: EditorModel, n: Option<u32>)
    ensures
        ({
            let f = native_done(e, NativeCmd::IsearchForward, n).0;
            let b = native_done(e, NativeCmd::IsearchBackward, n).0;
            &&& f == (EditorModel { input: f.input, ..e })
            &&& b == (EditorModel { input: b.input, ..e })
            &&& match (f.input, b.input) {
                (InputModel::ISearch(s), InputModel::ISearch(u)) => {
                    &&& s.forward && !u.forward
                    &&& s.query.len() == 0 && u.query.len() == 0
                    &&& s.origin == cur_win(e).point && u.origin == cur_win(e).point
                    &&& s.current is None && u.current is None
                    &&& !s.failed && !u.failed && !s.wrapped && !u.wrapped
                },
                _ => false,
            }
        }),
{
    lemma_search_commands(e, n);
}

} // verus!
