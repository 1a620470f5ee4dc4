//! What a query-replace does.

use crate::buffer::{inserted, removed};
use crate::bytes::byte_offset;
use crate::dispatch::chord_handled;
use crate::editor::{
    at_point, cur_buf, cur_win, lemma_cur, lemma_put, lemma_wf_same, put, wf, EditorModel,
};
use crate::input::{InputModel, KindModel, ReplaceModel};
use crate::keys::{Chord, Key};
use crate::laws::frame::{enter, lemma_put_here, only_here, plain};
use crate::lines::{clip, max};
use crate::minibuffer::completed;
use crate::regexes::{regex_error, regex_expansion, regex_find};
use crate::search::{
    all_replaced, as_match, at_match, current_replaced, in_chars, next_matched, one_replaced, past,
    replace_ended, replace_key, with_replace,
};
use crate::strings::decimal;
use vstd::prelude::*;

verus! {

/// What is told at the end of a query-replace with `n` replacements.
pub open spec fn tells(r: EditorModel, n: int) -> bool {
    r.echo == Some(
        "Replaced "@ + decimal(n as nat) + (if n == 1 {
            " occurrence"@
        } else {
            " occurrence"@ + "s"@
        }),
    )
}

/// In a query-replace, q and RET end it, tell how often was replaced, and change
/// nothing else: no text, no point.
pub proof fn law_quit_keeps_text(e: EditorModel, c: Chord)
    requires
        e.input is QueryReplace,
        c == plain('q') || c == enter(),
    ensures
        ({
            let (r, a) = chord_handled(e, c);
            &&& r == (EditorModel { input: InputModel::Normal, echo: r.echo, ..e })
            &&& tells(r, (e.input->QueryReplace_0).count)
            &&& a is Nothing
        }),
{
    let n = (e.input->QueryReplace_0).count;
    let r = chord_handled(e, c).0;
    assert(r =~= EditorModel { input: InputModel::Normal, echo: r.echo, ..e });
    assert("Replaced "@ + decimal(n as nat) + " occurrence"@ + "s"@ =~= "Replaced "@ + decimal(
        n as nat,
    ) + (" occurrence"@ + "s"@));
    assert("Replaced "@ + decimal(n as nat) + " occurrence"@ + ""@ =~= "Replaced "@ + decimal(
        n as nat,
    ) + " occurrence"@) by {
        reveal_strlit("");
    }
}

/// In a query-replace, no key but y and ! changes a text, and no key but y, n, !,
/// q and RET does anything; C-g is told apart elsewhere.
pub proof fn law_only_yes_changes_text(e: EditorModel, c: Chord)
    requires
        wf(e),
        e.input is QueryReplace,
        c != plain('y'),
        c != plain('!'),
        c != (Chord { ctrl: true, meta: false, key: Key::Char('g') }),
    ensures
        chord_handled(e, c).0.buffers == e.buffers,
        c != plain('n') && c != plain('q') && c != enter() ==> chord_handled(e, c).0
            == (EditorModel { echo: None, ..e }),
{
    let e0 = EditorModel { echo: None, ..e };
    lemma_wf_same(e, e0);
    lemma_cur(e0);
    let r = chord_handled(e, c).0;
    assert(r.buffers =~= e.buffers);
}

/// Where the search for the next match of a query-replace goes on after a match
/// was left as it is.
pub open spec fn behind(m: (usize, usize)) -> int {
    max(m.1 as int, m.0 + 1)
}

/// Whether a query-replace goes on at the first match of its regexp in a text
/// from position `q` on, with point at its start, or is ended where there is none
/// or `q` lies behind the text.
pub open spec fn goes_to_next(s: ReplaceModel, r: EditorModel, t: Seq<char>, q: int) -> bool {
    let hit = if q <= t.len() {
        in_chars(t, regex_find(s.regex, t, byte_offset(t, q)))
    } else {
        None
    };
    match hit {
        Some((a, b)) => r.input == InputModel::QueryReplace(
            ReplaceModel { current: Some((a as usize, b as usize)), ..s },
        ) && cur_win(r).point == clip(t, (a as usize) as int) as usize,
        None => r.input is Normal && tells(r, s.count),
    }
}

proof fn lemma_next(f: EditorModel, s: ReplaceModel, m: (usize, usize))
    requires
        wf(f),
        f.input == InputModel::QueryReplace(s),
        s.current == Some(m),
        regex_error(s.regex) is None,
    ensures
        only_here(f, next_matched(f)),
        cur_buf(next_matched(f)) == cur_buf(f),
        goes_to_next(s, next_matched(f), cur_buf(f).text, behind(m)),
        wf(next_matched(f)),
{
    let t = cur_buf(f).text;
    let r = next_matched(f);
    let hit = as_match(crate::search::found_past(t, s.regex, m));
    assert(past(m) == behind(m));
    lemma_cur(f);
    match hit {
        Some(h) => {
            let f1 = with_replace(f, ReplaceModel { current: hit, ..s });
            lemma_wf_same(f, f1);
            lemma_put_here(f1, at_point(f1, clip(t, h.0 as int)), cur_buf(f1));
        },
        None => {
            lemma_wf_same(f, r);
            law_quit_keeps_text(EditorModel { echo: None, ..f }, plain('q'));
            assert(replace_ended(f).echo == chord_handled(
                EditorModel { echo: None, ..f },
                plain('q'),
            ).0.echo);
        },
    }
}

/// n leaves the text alone and goes on behind the match.
pub proof fn law_no_skips(e: EditorModel)
    requires
        wf(e),
        match e.input {
            InputModel::QueryReplace(s) => s.current is Some,
            _ => false,
        },
    ensures
        ({
            let s = e.input->QueryReplace_0;
            let (r, a) = chord_handled(e, plain('n'));
            regex_error(s.regex) is None ==> {
                &&& r.buffers == e.buffers
                &&& only_here(e, r)
                &&& goes_to_next(s, r, cur_buf(e).text, behind(s.current->0))
                &&& a is Nothing
            }
        }),
{
    let e0 = EditorModel { echo: None, ..e };
    lemma_wf_same(e, e0);
    let s = e.input->QueryReplace_0;
    if regex_error(s.regex) is None {
        lemma_next(e0, s, s.current->0);
        law_only_yes_changes_text(e, plain('n'));
    }
}

/// y puts the replacement, its group references expanded, in the place of the
/// match, counts it, and goes on behind it; all other text stays.
pub proof fn law_yes_replaces(e: EditorModel)
    requires
        wf(e),
        match e.input {
            InputModel::QueryReplace(s) => match s.current {
                Some(m) => m.0 <= m.1 <= cur_buf(e).text.len() && s.count < usize::MAX,
                None => false,
            },
            _ => false,
        },
    ensures
        ({
            let s = e.input->QueryReplace_0;
            let m = s.current->0;
            let t = cur_buf(e).text;
            let (r, a) = chord_handled(e, plain('y'));
            match regex_expansion(s.regex, t, byte_offset(t, m.0 as int), s.replacement) {
                Some(x) => regex_error(s.regex) is None && m.0 + x.len() < usize::MAX ==> {
                    let t1 = t.take(m.0 as int) + x + t.skip(m.1 as int);
                    let end = m.0 + x.len();
                    &&& cur_buf(r).text == t1
                    &&& only_here(e, r)
                    &&& goes_to_next(
                        ReplaceModel { count: s.count + 1, ..s },
                        r,
                        t1,
                        if m.0 < m.1 && x.len() > 0 {
                            end
                        } else {
                            end + 1
                        },
                    )
                    &&& a is Nothing
                },
                None => true,
            }
        }),
{
    let e0 = EditorModel { echo: None, ..e };
    lemma_wf_same(e, e0);
    lemma_cur(e0);
    let s = e.input->QueryReplace_0;
    let m = s.current->0;
    let t = cur_buf(e).text;
    let xo = regex_expansion(s.regex, t, byte_offset(t, m.0 as int), s.replacement);
    if xo is Some && regex_error(s.regex) is None && m.0 + xo->0.len() < usize::MAX {
        let x = xo->0;
        let end = m.0 + x.len();
        let b = inserted(removed(cur_buf(e), m.0 as int, m.1 as int), m.0 as int, x);
        let t1 = t.take(m.0 as int) + x + t.skip(m.1 as int);
        assert(b.text =~= t1);
        let f = current_replaced(e0);
        let start = if m.0 < m.1 {
            m.0 as int
        } else {
            end
        };
        let s1 = ReplaceModel {
            count: s.count + 1,
            current: Some((start as usize, end as usize)),
            ..s
        };
        let e1 = with_replace(e0, s1);
        lemma_wf_same(e0, e1);
        lemma_put_here(e1, at_point(e1, clip(b.text, end)), b);
        assert(f == put(e1, at_point(e1, clip(b.text, end)), b));
        lemma_next(f, s1, s1.current->0);
        let r = next_matched(f);
        assert(r == chord_handled(e, plain('y')).0);
        assert(goes_to_next(
            ReplaceModel { count: s.count + 1, ..s },
            r,
            t1,
            behind((start as usize, end as usize)),
        ));
        crate::laws::frame::lemma_here_chain(e, f, r);
    }
}

/// The editor after y is pressed `k` times.
pub open spec fn yes_times(e: EditorModel, k: nat) -> EditorModel
    decreases k,
{
    if k == 0 {
        e
    } else {
        replace_key(yes_times(e, (k - 1) as nat), plain('y'))
    }
}

proof fn lemma_yes_first(e: EditorModel, k: nat)
    ensures
        yes_times(e, k + 1) == yes_times(replace_key(e, plain('y')), k),
    decreases k,
{
    if k > 0 {
        lemma_yes_first(e, (k - 1) as nat);
    } else {
        reveal_with_fuel(yes_times, 2);
    }
}

/// Whether an editor is another one after y was pressed some times, each time at
/// a match, and possibly an end at a match that cannot be replaced.
pub open spec fn by_yes(e: EditorModel, r: EditorModel) -> bool {
    exists|k: nat|
        {
            &&& forall|j: nat| j < k ==> at_match(#[trigger] yes_times(e, j))
            &&& {
                ||| r == #[trigger] yes_times(e, k)
                ||| at_match(yes_times(e, k)) && !at_match(current_replaced(yes_times(e, k)))
                    && r == replace_ended(current_replaced(yes_times(e, k)))
            }
        }
}

proof fn lemma_all_by_yes(e: EditorModel, n: int)
    ensures
        by_yes(e, all_replaced(e, n)),
    decreases n,
{
    if n > 0 && at_match(e) {
        let f = current_replaced(e);
        let r = all_replaced(e, n);
        if at_match(f) {
            let g = replace_key(e, plain('y'));
            assert(g == one_replaced(e));
            lemma_all_by_yes(g, n - 1);
            let k = choose|k: nat|
                {
                    &&& forall|j: nat| j < k ==> at_match(#[trigger] yes_times(g, j))
                    &&& {
                        ||| r == #[trigger] yes_times(g, k)
                        ||| at_match(yes_times(g, k)) && !at_match(
                            current_replaced(yes_times(g, k)),
                        ) && r == replace_ended(current_replaced(yes_times(g, k)))
                    }
                };
            lemma_yes_first(e, k);
            assert forall|j: nat| j < k + 1 implies at_match(#[trigger] yes_times(e, j)) by {
                if j > 0 {
                    lemma_yes_first(e, (j - 1) as nat);
                    assert(at_match(yes_times(g, (j - 1) as nat)));
                } else {
                    assert(yes_times(e, 0) == e);
                }
            }
            assert(yes_times(e, k + 1) == yes_times(g, k));
        } else {
            assert(yes_times(e, 0) == e);
            let g = replace_ended(f);
            assert(one_replaced(e) == g);
            assert(!at_match(g));
            assert(all_replaced(g, n - 1) == g);
            assert(r == replace_ended(current_replaced(yes_times(e, 0))));
        }
    } else {
        assert(yes_times(e, 0) == e);
    }
}

/// ! does what y does at this match and at all that follow: the editor after ! is
/// the editor after pressing y at each match in turn. That it ends, with no match
/// left over, is stated where the key is handled.
pub proof fn law_all_is_yes(e: EditorModel)
    ensures
        e.input is QueryReplace ==> by_yes(
            EditorModel { echo: None, ..e },
            chord_handled(e, plain('!')).0,
        ),
{
    let e0 = EditorModel { echo: None, ..e };
    lemma_all_by_yes(e0, cur_buf(e0).text.len() as int + 2);
}

/// Entering regexp and replacement begins a query-replace at the first match from
/// point on, nothing replaced yet; a regexp that is none is told. No text changes.
pub proof fn law_replace_starts(e: EditorModel, from: Seq<char>, to: Seq<char>)
    requires
        wf(e),
        e.input is Normal,
        cur_win(e).point <= cur_buf(e).text.len(),
    ensures
        ({
            let (r, a) = completed(e, KindModel::QueryReplaceTo { from }, to);
            let t = cur_buf(e).text;
            &&& r.buffers == e.buffers
            &&& a is Nothing
            &&& regex_error(from) is Some ==> r.input is Normal
            &&& regex_error(from) is None ==> goes_to_next(
                ReplaceModel { regex: from, replacement: to, current: None, count: 0 },
                r,
                t,
                cur_win(e).point as int,
            )
        }),
{
    lemma_cur(e);
    let (r, a) = completed(e, KindModel::QueryReplaceTo { from }, to);
    assert(r.buffers =~= e.buffers);
    let t = cur_buf(e).text;
    if regex_error(from) is None {
        let hit = as_match(crate::search::found(t, from, cur_win(e).point as int, true));
        if let Some(m) = hit {
            let e1 = with_replace(
                e,
                ReplaceModel { regex: from, replacement: to, current: hit, count: 0 },
            );
            lemma_wf_same(e, e1);
            lemma_put(e1, at_point(e1, clip(t, m.0 as int)), cur_buf(e1));
        } else {
            reveal_strlit("Replaced 0 occurrences");
            reveal_strlit("Replaced ");
            reveal_strlit(" occurrence");
            reveal_strlit("s");
            assert(decimal(0) =~= seq!['0']) by {
                reveal_with_fuel(decimal, 2);
            }
            assert("Replaced 0 occurrences"@ =~= "Replaced "@ + decimal(0) + (" occurrence"@ + "s"@));
        }
    }
}

} // verus!
