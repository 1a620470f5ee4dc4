//! What highlighting a text by its syntax gives.

use crate::bytes::{byte_len, char_at_byte};
use crate::treesit::{
    brought_current, good_steps, open_after, picked, spans_after, spans_of, steps_through, suits,
    HIGHLIGHT_NAMES, HighlightStep, NodeModel, SyntaxModel,
};
use vstd::prelude::*;

verus! {

/// The end of a highlight closes the one that was opened last, and what was open before
/// is open again.
pub proof fn law_end_closes_last(s: Seq<HighlightStep>, i: usize)
    ensures
        open_after(s.push(HighlightStep::Start(i)).push(HighlightStep::End)) == open_after(s),
        open_after(s.push(HighlightStep::Start(i))).len() == open_after(s).len() + 1,
{
    let a = s.push(HighlightStep::Start(i));
    let b = a.push(HighlightStep::End);
    assert(b.drop_last() =~= a);
    assert(a.drop_last() =~= s);
    assert(a.last() == HighlightStep::Start(i));
    assert(b.last() == HighlightStep::End);
    assert(open_after(a) == open_after(s).push(i as int));
    assert(open_after(b) == open_after(a).drop_last());
    assert(open_after(b) =~= open_after(s));
}

/// Opening and closing highlights gives no span; a stretch of text gives one span more,
/// of its chars, with the name of the highlight opened last, and none where no highlight
/// is open.
pub proof fn law_stretch_takes_last_opened(
    t: Seq<char>,
    s: Seq<HighlightStep>,
    i: usize,
    a: usize,
    b: usize,
)
    requires
        i < HIGHLIGHT_NAMES@.len(),
        a <= byte_len(t),
        b <= byte_len(t),
    ensures
        spans_after(t, s.push(HighlightStep::Start(i))) == spans_after(t, s),
        spans_after(t, s.push(HighlightStep::End)) == spans_after(t, s),
        spans_after(t, s.push(HighlightStep::Start(i)).push(HighlightStep::Source(a, b)))
            == spans_after(t, s).push(
            (
                char_at_byte(t, a as int),
                char_at_byte(t, b as int),
                HIGHLIGHT_NAMES@[i as int]@,
            ),
        ),
        open_after(s).len() == 0 ==> spans_after(t, s.push(HighlightStep::Source(a, b)))
            == spans_after(t, s),
{
    let x = s.push(HighlightStep::Start(i));
    let y = x.push(HighlightStep::Source(a, b));
    assert(x.drop_last() =~= s);
    assert(y.drop_last() =~= x);
    assert(x.last() == HighlightStep::Start(i));
    assert(y.last() == HighlightStep::Source(a, b));
    assert(open_after(x) == open_after(s).push(i as int));
    assert(open_after(x).last() == i);
    assert(s.push(HighlightStep::End).drop_last() =~= s);
    assert(s.push(HighlightStep::Source(a, b)).drop_last() =~= s);
}

proof fn lemma_good(s: Seq<HighlightStep>, i: int, k: int)
    requires
        0 <= i <= k <= s.len(),
        forall|j: int| 0 <= j < k ==> #[trigger] s[j] != HighlightStep::Failed,
        k < s.len() ==> s[k] == HighlightStep::Failed,
    ensures
        good_steps(s, i) == k,
    decreases k - i,
{
    if i < k {
        lemma_good(s, i + 1, k);
    }
}

/// Where highlighting fails, what came before counts, and what comes after does not.
pub proof fn law_failure_ends(
    t: Seq<char>,
    s: Seq<HighlightStep>,
    more: Seq<HighlightStep>,
)
    requires
        !s.contains(HighlightStep::Failed),
    ensures
        spans_of(t, s) == spans_after(t, s),
        spans_of(t, s.push(HighlightStep::Failed) + more) == spans_of(t, s),
{
    let n = s.len() as int;
    assert forall|j: int| 0 <= j < n implies #[trigger] s[j] != HighlightStep::Failed by {
        assert(s.contains(s[j]));
    }
    lemma_good(s, 0, n);
    assert(s.take(n) =~= s);
    let u = s.push(HighlightStep::Failed) + more;
    assert forall|j: int| 0 <= j < n implies #[trigger] u[j] != HighlightStep::Failed by {
        assert(u[j] == s[j]);
    }
    assert(u[n] == HighlightStep::Failed);
    lemma_good(u, 0, n);
    assert(u.take(n) =~= s);
}

/// Highlights are made anew only where the text changed since, and then once: a second
/// time changes nothing.
pub proof fn law_highlighted_once(s: SyntaxModel, t: Seq<char>)
    ensures
        ({
            let r = brought_current(s, t);
            &&& !r.dirty
            &&& brought_current(r, t) == r
            &&& !s.dirty ==> r == s
            &&& s.dirty ==> r.spans == spans_of(t, steps_through(s.config, t))
            &&& r.config == s.config
        }),
{
}

/// Of the nodes around a position, innermost first, the innermost one of the wanted kinds
/// is taken, or the outermost one where that is asked for; none where there is none.
pub proof fn law_node_picked(
    t: Seq<char>,
    nodes: Seq<NodeModel>,
    kinds: Seq<Seq<char>>,
    outermost: bool,
    k: int,
)
    requires
        0 <= k < nodes.len(),
        suits(t, nodes[k], kinds),
        !outermost ==> forall|j: int| 0 <= j < k ==> !suits(t, #[trigger] nodes[j], kinds),
        outermost ==> forall|j: int|
            k < j < nodes.len() ==> !suits(t, #[trigger] nodes[j], kinds),
    ensures
        picked(t, nodes, kinds, outermost, 0) == Some(
            (char_at_byte(t, nodes[k].start as int), char_at_byte(t, nodes[k].end as int)),
        ),
{
    lemma_picked(t, nodes, kinds, outermost, 0, k);
}

proof fn lemma_picked(
    t: Seq<char>,
    nodes: Seq<NodeModel>,
    kinds: Seq<Seq<char>>,
    outermost: bool,
    i: int,
    k: int,
)
    requires
        0 <= i <= k < nodes.len(),
        suits(t, nodes[k], kinds),
        !outermost ==> forall|j: int| 0 <= j < k ==> !suits(t, #[trigger] nodes[j], kinds),
        outermost ==> forall|j: int|
            k < j < nodes.len() ==> !suits(t, #[trigger] nodes[j], kinds),
    ensures
        picked(t, nodes, kinds, outermost, i) == Some(
            (char_at_byte(t, nodes[k].start as int), char_at_byte(t, nodes[k].end as int)),
        ),
    decreases k - i,
{
    if i < k {
        lemma_picked(t, nodes, kinds, outermost, i + 1, k);
    } else if outermost {
        lemma_none(t, nodes, kinds, true, k + 1);
    }
}

proof fn lemma_none(
    t: Seq<char>,
    nodes: Seq<NodeModel>,
    kinds: Seq<Seq<char>>,
    outermost: bool,
    i: int,
)
    requires
        0 <= i <= nodes.len(),
        forall|j: int| i <= j < nodes.len() ==> !suits(t, #[trigger] nodes[j], kinds),
    ensures
        picked(t, nodes, kinds, outermost, i) is None,
    decreases nodes.len() - i,
{
    if i < nodes.len() {
        lemma_none(t, nodes, kinds, outermost, i + 1);
    }
}

/// No node is taken where none is of the wanted kinds.
pub proof fn law_no_node_picked(
    t: Seq<char>,
    nodes: Seq<NodeModel>,
    kinds: Seq<Seq<char>>,
    outermost: bool,
)
    requires
        forall|j: int|
            0 <= j < nodes.len() ==> !kinds.contains((#[trigger] nodes[j]).kind),
    ensures
        picked(t, nodes, kinds, outermost, 0) is None,
{
    lemma_none(t, nodes, kinds, outermost, 0);
}

} // verus!
