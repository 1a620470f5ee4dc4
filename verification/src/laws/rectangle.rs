//! What replacing a rectangle does.

use crate::buffer::{inserted, removed, BufferModel};
use crate::editor::{at_point, cur_buf, cur_point, wf, EditorModel};
use crate::input::KindModel;
use crate::laws::frame::{lemma_put_here, only_here};
use crate::lines::{
    clip, end_at, lemma_line_around, lemma_line_begin, lemma_line_begin_unique, lemma_line_ends,
    lemma_line_of_monotone, line_begin, line_count, line_of, max, min, minus, starts_line,
};
use crate::minibuffer::completed;
use crate::rect::{rect_line, rect_lines, rect_replaced, rectangle};
use crate::strings::repeated;
use vstd::prelude::*;

verus! {

/// The content of a line: what stands before the newline that ends it.
pub open spec fn content(t: Seq<char>, l: int) -> Seq<char> {
    t.subrange(line_begin(t, l), end_at(t, line_begin(t, l)))
}

/// What ends a line.
pub open spec fn ending(t: Seq<char>, l: int) -> Seq<char> {
    t.subrange(end_at(t, line_begin(t, l)), line_begin(t, l + 1))
}

/// A row with what stands from column `left` to column `right` replaced: what
/// stood before, padded with spaces up to the left column, the new text, and what
/// stood from the right column on.
pub open spec fn row_with(row: Seq<char>, left: int, right: int, x: Seq<char>) -> Seq<char> {
    row.take(min(left, row.len() as int)) + repeated(' ', minus(left, row.len() as int) as nat) + x
        + row.skip(min(right, row.len() as int))
}

/// Lines `first` to `last` of a text, one after the other, with their columns
/// `left` to `right` replaced.
pub open spec fn lines_with(
    t: Seq<char>,
    first: int,
    last: int,
    left: int,
    right: int,
    x: Seq<char>,
) -> Seq<char>
    decreases last - first + 1,
{
    if last < first {
        Seq::empty()
    } else {
        lines_with(t, first, last - 1, left, right, x) + (row_with(
            content(t, last),
            left,
            right,
            x,
        ) + ending(t, last))
    }
}

/// Whether line `l` does not begin behind a lone carriage return, which a newline
/// put in behind it would join.
pub open spec fn cleanly_begun(t: Seq<char>, l: int) -> bool {
    line_begin(t, l) > 0 ==> t[line_begin(t, l) - 1] != '\r'
}

proof fn lemma_prefix_line(t: Seq<char>, u: Seq<char>, p: int, q: int)
    requires
        0 <= q <= p <= t.len(),
        p <= u.len(),
        t.take(p) == u.take(p),
        p > 0 ==> t[p - 1] != '\r',
    ensures
        line_of(u, q) == line_of(t, q),
        starts_line(u, q) == starts_line(t, q),
    decreases q,
{
    if q > 0 {
        assert(t.take(p)[q - 1] == t[q - 1]);
        assert(u.take(p)[q - 1] == u[q - 1]);
        if q < p {
            assert(t.take(p)[q] == t[q]);
            assert(u.take(p)[q] == u[q]);
        }
        assert(starts_line(u, q) == starts_line(t, q));
        lemma_prefix_line(t, u, p, q - 1);
    }
}

/// Texts that agree up to the start of a line have the same lines before it.
proof fn lemma_same_lines(t: Seq<char>, u: Seq<char>, last: int, l: int)
    requires
        0 <= l <= last < line_count(t),
        line_begin(t, last) <= u.len(),
        t.take(line_begin(t, last)) == u.take(line_begin(t, last)),
        cleanly_begun(t, last),
    ensures
        line_begin(u, l) == line_begin(t, l),
        last < line_count(u),
        l < last ==> content(u, l) == content(t, l) && ending(u, l) == ending(t, l),
        l < last ==> end_at(u, line_begin(u, l)) == end_at(t, line_begin(t, l)),
{
    let p = line_begin(t, last);
    lemma_line_begin(t, last);
    lemma_line_begin(t, l);
    let q = line_begin(t, l);
    assert(q <= p) by {
        if q > p {
            assert(line_of(t, p) < l);
        }
    }
    lemma_prefix_line(t, u, p, q);
    lemma_prefix_line(t, u, p, p);
    lemma_line_begin_unique(u, q);
    lemma_line_begin_unique(u, p);
    lemma_line_of_monotone(u, p, u.len() as int);
    if l < last {
        let q1 = line_begin(t, l + 1);
        lemma_line_begin(t, l + 1);
        assert(q1 <= p) by {
            if q1 > p {
                assert(line_of(t, p) < l + 1);
            }
        }
        lemma_prefix_line(t, u, p, q1);
        lemma_line_begin_unique(u, q1);
        assert(q < q1);
        assert(t.take(p)[q1 - 1] == t[q1 - 1]);
        assert(u.take(p)[q1 - 1] == u[q1 - 1]);
        let m = end_at(t, q);
        assert(end_at(u, q) == m);
        lemma_line_ends(t, q);
        assert(content(u, l) =~= content(t, l)) by {
            assert forall|k: int| 0 <= k < m - q implies content(u, l)[k] == content(t, l)[k] by {
                assert(t.take(p)[q + k] == t[q + k]);
                assert(u.take(p)[q + k] == u[q + k]);
            }
        }
        assert(ending(u, l) =~= ending(t, l)) by {
            assert forall|k: int| 0 <= k < q1 - m implies ending(u, l)[k] == ending(t, l)[k] by {
                assert(t.take(p)[m + k] == t[m + k]);
                assert(u.take(p)[m + k] == u[m + k]);
            }
        }
    }
}

proof fn lemma_lines_with_same(
    t: Seq<char>,
    u: Seq<char>,
    first: int,
    last: int,
    l: int,
    left: int,
    right: int,
    x: Seq<char>,
)
    requires
        0 <= first,
        l < last < line_count(t),
        line_begin(t, last) <= u.len(),
        t.take(line_begin(t, last)) == u.take(line_begin(t, last)),
        cleanly_begun(t, last),
    ensures
        lines_with(u, first, l, left, right, x) == lines_with(t, first, l, left, right, x),
    decreases l - first + 1,
{
    if first <= l {
        lemma_lines_with_same(t, u, first, last, l - 1, left, right, x);
        lemma_same_lines(t, u, last, l);
    }
}

proof fn lemma_rect_line(b: BufferModel, l: int, left: int, right: int, x: Seq<char>)
    requires
        0 <= l < line_count(b.text),
        0 <= left <= right,
    ensures
        ({
            let t = b.text;
            rect_line(b, l, left, right, x).text == t.take(line_begin(t, l)) + (row_with(
                content(t, l),
                left,
                right,
                x,
            ) + ending(t, l)) + t.skip(line_begin(t, l + 1))
        }),
        line_begin(b.text, l) <= end_at(b.text, line_begin(b.text, l)) <= line_begin(b.text, l + 1)
            <= b.text.len(),
{
    let t = b.text;
    let start = line_begin(t, l);
    lemma_line_begin(t, l);
    lemma_line_ends(t, start);
    lemma_line_around(t, start);
    let stop = line_begin(t, l + 1);
    let n = end_at(t, start) - start;
    let pad = repeated(' ', minus(left, n) as nat);
    lemma_cut_and_put(b, start + min(left, n), start + min(right, n), pad + x);
    lemma_row_pieces(t, start, end_at(t, start), stop, left, right, pad, x);
}

proof fn lemma_cut_and_put(b: BufferModel, p: int, q: int, x: Seq<char>)
    requires
        0 <= p <= q <= b.text.len(),
    ensures
        inserted(removed(b, p, q), p, x).text == b.text.take(p) + x + b.text.skip(q),
{
    let c = removed(b, p, q);
    assert(c.text =~= b.text.take(p) + b.text.skip(q));
    assert(inserted(c, p, x).text =~= b.text.take(p) + x + b.text.skip(q));
}

proof fn lemma_row_pieces(
    t: Seq<char>,
    start: int,
    eol: int,
    stop: int,
    left: int,
    right: int,
    pad: Seq<char>,
    x: Seq<char>,
)
    requires
        0 <= start <= eol <= stop <= t.len(),
        0 <= left <= right,
    ensures
        ({
            let n = eol - start;
            let row = t.subrange(start, eol);
            t.take(start + min(left, n)) + (pad + x) + t.skip(start + min(right, n)) == t.take(start)
                + (row.take(min(left, n)) + pad + x + row.skip(min(right, n)) + t.subrange(
                eol,
                stop,
            )) + t.skip(stop)
        }),
{
    let n = eol - start;
    let row = t.subrange(start, eol);
    let a = row.take(min(left, n));
    let d = row.skip(min(right, n));
    assert(t.take(start + min(left, n)) =~= t.take(start) + a);
    assert(t.skip(start + min(right, n)) =~= d + t.subrange(eol, stop) + t.skip(stop));
    let h = t.take(start);
    let z = t.skip(stop);
    let w = t.subrange(eol, stop);
    assert((h + a) + (pad + x) + (d + w + z) =~= h + (a + pad + x + d + w) + z);
}

proof fn lemma_rect_join(
    t: Seq<char>,
    u: Seq<char>,
    first: int,
    last: int,
    seg: Seq<char>,
    mid: Seq<char>,
)
    requires
        0 <= first <= last < line_count(t),
        line_begin(t, last + 1) <= t.len(),
        u == t.take(line_begin(t, last)) + seg + t.skip(line_begin(t, last + 1)),
    ensures
        u.take(line_begin(t, first)) + mid + u.skip(line_begin(t, last)) == t.take(
            line_begin(t, first),
        ) + (mid + seg) + t.skip(line_begin(t, last + 1)),
{
    lemma_before(t, first, last);
    let p = line_begin(t, last);
    let stop = line_begin(t, last + 1);
    assert(u.take(line_begin(t, first)) =~= t.take(line_begin(t, first)));
    assert(u.skip(p) =~= seg + t.skip(stop));
    let head = t.take(line_begin(t, first));
    assert(head + mid + (seg + t.skip(stop)) =~= head + (mid + seg) + t.skip(stop));
}

proof fn lemma_still_clean(t: Seq<char>, u: Seq<char>, l: int, last: int)
    requires
        0 <= l <= last < line_count(t),
        line_begin(t, last) <= u.len(),
        t.take(line_begin(t, last)) == u.take(line_begin(t, last)),
        cleanly_begun(t, last),
        cleanly_begun(t, l),
    ensures
        cleanly_begun(u, l),
{
    let p = line_begin(t, last);
    lemma_same_lines(t, u, last, l);
    lemma_before(t, l, last);
    let q = line_begin(t, l);
    if q > 0 {
        assert(t.take(p)[q - 1] == t[q - 1]);
        assert(u.take(p)[q - 1] == u[q - 1]);
    }
}

proof fn lemma_rect_lines(
    b: BufferModel,
    first: int,
    last: int,
    left: int,
    right: int,
    x: Seq<char>,
)
    requires
        0 <= first <= last < line_count(b.text),
        0 <= left <= right,
        forall|l: int| first < l <= last ==> #[trigger] cleanly_begun(b.text, l),
    ensures
        ({
            let t = b.text;
            rect_lines(b, first, last, left, right, x).text == t.take(line_begin(t, first))
                + lines_with(t, first, last, left, right, x) + t.skip(line_begin(t, last + 1))
        }),
    decreases last - first + 1,
{
    let t = b.text;
    let c = rect_line(b, last, left, right, x);
    let u = c.text;
    let p = line_begin(t, last);
    let seg = row_with(content(t, last), left, right, x) + ending(t, last);
    lemma_rect_line(b, last, left, right, x);
    lemma_line_begin(t, last);
    let mid = lines_with(t, first, last - 1, left, right, x);
    if first == last {
        assert(rect_lines(c, first, last - 1, left, right, x) == c);
        assert(mid =~= Seq::<char>::empty());
        assert(mid + seg =~= seg);
    } else {
        assert(t.take(p) =~= u.take(p));
        assert(cleanly_begun(t, last));
        assert forall|l: int| first < l <= last - 1 implies #[trigger] cleanly_begun(u, l) by {
            assert(cleanly_begun(t, l));
            lemma_still_clean(t, u, l, last);
        }
        lemma_same_lines(t, u, last, first);
        lemma_same_lines(t, u, last, last);
        lemma_rect_lines(c, first, last - 1, left, right, x);
        lemma_lines_with_same(t, u, first, last, last - 1, left, right, x);
        lemma_rect_join(t, u, first, last, seg, mid);
    }
}

proof fn lemma_before(t: Seq<char>, l: int, last: int)
    requires
        0 <= l <= last < line_count(t),
    ensures
        0 <= line_begin(t, l) <= line_begin(t, last) <= t.len(),
{
    lemma_line_begin(t, last);
    lemma_line_begin(t, l);
    let p = line_begin(t, last);
    if line_begin(t, l) > p {
        assert(line_of(t, p) < l);
    }
}

proof fn lemma_rect_id(b: BufferModel, first: int, last: int, left: int, right: int, x: Seq<char>)
    ensures
        rect_lines(b, first, last, left, right, x).id == b.id,
    decreases last - first + 1,
{
    if last >= first {
        lemma_rect_id(rect_line(b, last, left, right, x), first, last - 1, left, right, x);
    }
}

/// string-rectangle puts the string in the place of the rectangle between mark
/// and point: on each line from the first to the last of the two, what stood
/// before the left column stays, padded with spaces up to it, then comes the
/// string, then what stood from the right column on. All other lines stay, and so
/// does everything outside the buffer. Lines that begin behind a lone carriage
/// return are left out.
pub proof fn law_rectangle_replaced(e: EditorModel, x: Seq<char>)
    requires
        wf(e),
        cur_buf(e).mark is Some,
        forall|l: int|
            0 < l < line_count(cur_buf(e).text) ==> #[trigger] cleanly_begun(cur_buf(e).text, l),
    ensures
        ({
            let r = completed(e, KindModel::RectInsert, x).0;
            let t = cur_buf(e).text;
            let a = min(cur_buf(e).mark->0 as int, t.len() as int);
            let p = cur_point(e);
            let first = min(line_of(t, a), line_of(t, p));
            let last = max(line_of(t, a), line_of(t, p));
            let col_a = a - line_begin(t, line_of(t, a));
            let col_p = p - line_begin(t, line_of(t, p));
            &&& cur_buf(r).text == t.take(line_begin(t, first)) + lines_with(
                t,
                first,
                last,
                min(col_a, col_p),
                max(col_a, col_p),
                x,
            ) + t.skip(line_begin(t, last + 1))
            &&& only_here(e, r)
            &&& !cur_buf(r).mark_active
            &&& !r.rect_mode
        }),
{
    let b = cur_buf(e);
    let t = b.text;
    let a = min(b.mark->0 as int, t.len() as int);
    let p = cur_point(e);
    lemma_line_around(t, a);
    lemma_line_around(t, p);
    if a <= p {
        lemma_line_of_monotone(t, a, p);
    } else {
        lemma_line_of_monotone(t, p, a);
    }
    let (first, last, left, right) = rectangle(t, a, p);
    assert(left == min(a - line_begin(t, line_of(t, a)), p - line_begin(t, line_of(t, p))));
    lemma_rect_lines(b, first, last, left, right, x);
    lemma_rect_id(b, first, last, left, right, x);
    let b1 = BufferModel { mark_active: false, ..rect_lines(b, first, last, left, right, x) };
    let start = line_begin(b1.text, min(first, line_count(b1.text) - 1));
    let q = clip(b1.text, start + left + x.len());
    lemma_put_here(e, at_point(e, q), b1);
    let r = completed(e, KindModel::RectInsert, x).0;
    assert(r == rect_replaced(e, x));
}

} // verus!
