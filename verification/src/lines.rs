//! Lines of a text. A line ends after a line break; the last line ends with
//! the text. The line breaks are LF, VT, FF, CR, CRLF, NEL, LS and PS.

use vstd::prelude::*;

verus! {

/// The chars that break a line.
pub open spec fn is_break(c: char) -> bool {
    ||| '\n' <= c <= '\r'
    ||| c == '\u{85}'
    ||| c == '\u{2028}'
    ||| c == '\u{2029}'
}

/// Whether a line starts at position `p` of `t`: at 0, and after each line
/// break, where CR and LF in a row count as one break.
pub open spec fn starts_line(t: Seq<char>, p: int) -> bool {
    ||| p == 0
    ||| {
        &&& 0 < p <= t.len()
        &&& is_break(t[p - 1])
        &&& !(t[p - 1] == '\r' && p < t.len() && t[p] == '\n')
    }
}

/// The number of the line that holds position `p`: the lines that start after
/// position 0 and not after `p`.
pub open spec fn line_of(t: Seq<char>, p: int) -> int
    decreases p,
{
    if p <= 0 {
        0
    } else if starts_line(t, p) {
        line_of(t, p - 1) + 1
    } else {
        line_of(t, p - 1)
    }
}

/// The number of lines of `t`; a text that ends with a break has an empty
/// last line.
pub open spec fn line_count(t: Seq<char>) -> int {
    line_of(t, t.len() as int) + 1
}

/// The last position not after `p` at which a line starts.
pub open spec fn start_at(t: Seq<char>, p: int) -> int
    decreases p,
{
    if p <= 0 {
        0
    } else if starts_line(t, p) {
        p
    } else {
        start_at(t, p - 1)
    }
}

/// The first position not before `p` whose line is at least `l`, or the
/// length of `t`.
pub open spec fn reach_line(t: Seq<char>, l: int, p: int) -> int
    decreases t.len() - p,
{
    if p >= t.len() {
        t.len() as int
    } else if line_of(t, p) >= l {
        p
    } else {
        reach_line(t, l, p + 1)
    }
}

/// The position at which line `l` starts; the length of `t` past the last
/// line.
pub open spec fn line_begin(t: Seq<char>, l: int) -> int {
    reach_line(t, l, 0)
}

/// The end of the line that holds `p`, its `\n` left out.
pub open spec fn end_at(t: Seq<char>, p: int) -> int {
    let l = line_of(t, p);
    let start = line_begin(t, l);
    let end = line_begin(t, l + 1);
    if end > start && t[end - 1] == '\n' {
        end - 1
    } else {
        end
    }
}

/// The position clipped to the text.
pub open spec fn clip(t: Seq<char>, p: int) -> int {
    if p <= t.len() {
        p
    } else {
        t.len() as int
    }
}

/// The smaller of two numbers.
pub open spec fn min(a: int, b: int) -> int {
    if a <= b {
        a
    } else {
        b
    }
}

/// The larger of two numbers.
pub open spec fn max(a: int, b: int) -> int {
    if a >= b {
        a
    } else {
        b
    }
}

/// `a - b`, or 0 where that is negative.
pub open spec fn minus(a: int, b: int) -> int {
    if a >= b {
        a - b
    } else {
        0
    }
}

/// Line numbers grow with the position.
pub proof fn lemma_line_of_monotone(t: Seq<char>, p: int, q: int)
    requires
        p <= q,
    ensures
        0 <= line_of(t, p) <= line_of(t, q),
    decreases q,
{
    if p < q && q > 0 {
        lemma_line_of_monotone(t, p, q - 1);
    } else if q > 0 {
        lemma_line_of_monotone(t, p - 1, q - 1);
    }
}

/// A position has at most as many lines before it as chars.
pub proof fn lemma_line_of_bound(t: Seq<char>, p: int)
    requires
        0 <= p,
    ensures
        0 <= line_of(t, p) <= p,
    decreases p,
{
    if p > 0 {
        lemma_line_of_bound(t, p - 1);
    }
}

proof fn lemma_reach_line(t: Seq<char>, l: int, p: int)
    requires
        0 <= p <= t.len(),
        forall|q: int| 0 <= q < p ==> line_of(t, q) < l,
    ensures
        p <= reach_line(t, l, p) <= t.len(),
        forall|q: int| 0 <= q < reach_line(t, l, p) ==> line_of(t, q) < l,
        reach_line(t, l, p) < t.len() ==> line_of(t, reach_line(t, l, p)) >= l,
    decreases t.len() - p,
{
    if p < t.len() && line_of(t, p) < l {
        lemma_reach_line(t, l, p + 1);
    }
}

/// Where a line starts: inside the text, at a line start, on that line, and
/// nothing before it is on that line. Past the last line it is the end.
pub proof fn lemma_line_begin(t: Seq<char>, l: int)
    requires
        0 <= l,
    ensures
        0 <= line_begin(t, l) <= t.len(),
        l < line_count(t) ==> line_of(t, line_begin(t, l)) == l,
        l < line_count(t) ==> starts_line(t, line_begin(t, l)),
        l < line_count(t) ==> forall|q: int| 0 <= q < line_begin(t, l) ==> line_of(t, q) < l,
        l >= line_count(t) ==> line_begin(t, l) == t.len(),
{
    lemma_reach_line(t, l, 0);
    let b = line_begin(t, l);
    if l < line_count(t) {
        assert(line_of(t, b) >= l);
        if b > 0 {
            assert(line_of(t, b - 1) < l);
        }
    } else if b < t.len() {
        lemma_line_of_monotone(t, b, t.len() as int);
    }
}

/// A line start is where its line begins, and only that.
pub proof fn lemma_line_begin_unique(t: Seq<char>, p: int)
    requires
        0 <= p <= t.len(),
        starts_line(t, p),
    ensures
        line_begin(t, line_of(t, p)) == p,
{
    let l = line_of(t, p);
    lemma_line_of_bound(t, p);
    lemma_line_of_monotone(t, p, t.len() as int);
    lemma_line_begin(t, l);
    let b = line_begin(t, l);
    if b < p {
        lemma_line_of_monotone(t, b, p - 1);
        assert(line_of(t, p) == line_of(t, p - 1) + 1);
    }
}

proof fn lemma_start_at(t: Seq<char>, p: int)
    requires
        0 <= p <= t.len(),
    ensures
        0 <= start_at(t, p) <= p,
        starts_line(t, start_at(t, p)),
        line_of(t, start_at(t, p)) == line_of(t, p),
    decreases p,
{
    if p > 0 && !starts_line(t, p) {
        lemma_start_at(t, p - 1);
    }
}

/// The line of a position starts at or before it, and the next line after it.
pub proof fn lemma_line_around(t: Seq<char>, p: int)
    requires
        0 <= p <= t.len(),
    ensures
        0 <= line_of(t, p) < line_count(t),
        line_begin(t, line_of(t, p)) == start_at(t, p),
        0 <= start_at(t, p) <= p,
        line_of(t, p) + 1 < line_count(t) ==> p < line_begin(t, line_of(t, p) + 1),
        p <= line_begin(t, line_of(t, p) + 1) <= t.len(),
        line_count(t) <= t.len() + 1,
{
    lemma_line_of_bound(t, p);
    lemma_line_of_bound(t, t.len() as int);
    lemma_line_of_monotone(t, p, t.len() as int);
    lemma_start_at(t, p);
    lemma_line_begin_unique(t, start_at(t, p));
    let l = line_of(t, p) + 1;
    lemma_line_begin(t, l);
    if line_begin(t, l) <= p && l < line_count(t) {
        lemma_line_of_monotone(t, line_begin(t, l), p);
    }
}

/// A line's end lies in the text, not before any position of the line, and
/// at most one char before the next line.
pub proof fn lemma_line_ends(t: Seq<char>, p: int)
    requires
        0 <= p <= t.len(),
    ensures
        start_at(t, p) <= p <= end_at(t, p) <= t.len(),
        end_at(t, p) <= line_begin(t, line_of(t, p) + 1) <= end_at(t, p) + 1,
{
    lemma_line_around(t, p);
    let l = line_of(t, p);
    let e = line_begin(t, l + 1);
    lemma_line_begin(t, l + 1);
    if end_at(t, p) != e && l + 1 >= line_count(t) {
        // The text ends with `\n`, so a line starts at its end.
        assert(starts_line(t, e));
        if p < e {
            lemma_line_of_monotone(t, p, e - 1);
        } else {
            lemma_start_at(t, p);
        }
    }
}

// ---- texts made of rows ----------------------------------------------------

/// Whether a text holds no line break.
pub open spec fn unbroken(s: Seq<char>) -> bool {
    forall|i: int| 0 <= i < s.len() ==> !is_break(#[trigger] s[i])
}

/// Rows with a newline between each two.
pub open spec fn rows_text(rows: Seq<Seq<char>>) -> Seq<char>
    decreases rows.len(),
{
    if rows.len() == 0 {
        Seq::empty()
    } else if rows.len() == 1 {
        rows[0]
    } else {
        rows_text(rows.drop_last()) + seq!['\n'] + rows.last()
    }
}

/// Where row `i` starts.
pub open spec fn row_start(rows: Seq<Seq<char>>, i: int) -> int
    decreases i,
{
    if i <= 0 {
        0
    } else {
        row_start(rows, i - 1) + rows[i - 1].len() + 1
    }
}

proof fn lemma_row_start_same(a: Seq<Seq<char>>, b: Seq<Seq<char>>, i: int)
    requires
        0 <= i <= a.len(),
        i <= b.len(),
        forall|k: int| 0 <= k < i ==> a[k] == b[k],
    ensures
        row_start(a, i) == row_start(b, i),
        row_start(a, i) >= 0,
    decreases i,
{
    if i > 0 {
        lemma_row_start_same(a, b, i - 1);
    }
}

proof fn lemma_rows_content(rows: Seq<Seq<char>>, i: int)
    requires
        0 <= i < rows.len(),
    ensures
        rows_text(rows).len() == row_start(rows, rows.len() as int) - 1,
        0 <= row_start(rows, i),
        row_start(rows, i) + rows[i].len() <= rows_text(rows).len(),
        forall|k: int|
            0 <= k < rows[i].len() ==> rows_text(rows)[row_start(rows, i) + k] == #[trigger] rows[i][k],
        i + 1 < rows.len() ==> row_start(rows, i) + rows[i].len() < rows_text(rows).len()
            && rows_text(rows)[row_start(rows, i) + rows[i].len()] == '\n',
    decreases rows.len(),
{
    let t = rows_text(rows);
    lemma_row_start_same(rows, rows, i);
    if rows.len() > 1 {
        let r = rows.drop_last();
        let n = r.len() as int;
        lemma_row_start_same(rows, r, n);
        lemma_row_start_same(rows, r, i);
        if i < n {
            lemma_rows_content(r, i);
            assert(rows[i] == r[i]);
            let t0 = rows_text(r);
            assert forall|k: int| 0 <= k < rows[i].len() implies t[row_start(rows, i) + k]
                == #[trigger] rows[i][k] by {
                assert(t0[row_start(r, i) + k] == r[i][k]);
            }
            if i + 1 == n {
                assert(row_start(r, n) == row_start(r, i) + r[i].len() + 1);
            } else {
                assert(t0[row_start(r, i) + r[i].len()] == '\n');
            }
        } else {
            lemma_rows_content(r, n - 1);
            assert(rows_text(r).len() == row_start(rows, n) - 1);
        }
    } else {
        assert(row_start(rows, 1) == rows[0].len() + 1) by {
            reveal_with_fuel(row_start, 2);
        }
    }
}

proof fn lemma_in_row(t: Seq<char>, p: int, n: int, l: int, k: int)
    requires
        0 <= p <= p + n <= t.len(),
        0 <= k <= n,
        line_of(t, p) == l,
        forall|j: int| p <= j < p + n ==> !is_break(#[trigger] t[j]),
    ensures
        line_of(t, p + k) == l,
    decreases k,
{
    if k > 0 {
        lemma_in_row(t, p, n, l, k - 1);
        assert(!is_break(t[p + k - 1]));
        assert(!starts_line(t, p + k));
    }
}

proof fn lemma_row_line(rows: Seq<Seq<char>>, i: int)
    requires
        0 <= i < rows.len(),
        forall|k: int| 0 <= k < rows.len() ==> unbroken(#[trigger] rows[k]),
    ensures
        line_of(rows_text(rows), row_start(rows, i)) == i,
        starts_line(rows_text(rows), row_start(rows, i)),
        line_of(rows_text(rows), row_start(rows, i) + rows[i].len()) == i,
    decreases i,
{
    let t = rows_text(rows);
    lemma_rows_content(rows, i);
    let p = row_start(rows, i);
    let n = rows[i].len() as int;
    if i > 0 {
        lemma_row_line(rows, i - 1);
        lemma_rows_content(rows, i - 1);
        assert(t[p - 1] == '\n');
        assert(starts_line(t, p));
    }
    assert forall|j: int| p <= j < p + n implies !is_break(#[trigger] t[j]) by {
        assert(t[p + (j - p)] == rows[i][j - p]);
        assert(unbroken(rows[i]));
    }
    lemma_in_row(t, p, n, i, n);
}

/// In a text made of rows without line breaks, the rows are the lines.
pub proof fn law_rows_are_lines(rows: Seq<Seq<char>>, i: int)
    requires
        0 <= i < rows.len(),
        forall|k: int| 0 <= k < rows.len() ==> unbroken(#[trigger] rows[k]),
    ensures
        line_count(rows_text(rows)) == rows.len(),
        line_begin(rows_text(rows), i) == row_start(rows, i),
        line_begin(rows_text(rows), i + 1) == row_start(rows, i) + rows[i].len() + (if i + 1
            < rows.len() {
            1int
        } else {
            0int
        }),
        0 <= row_start(rows, i),
        row_start(rows, i) + rows[i].len() <= rows_text(rows).len(),
        rows_text(rows).subrange(row_start(rows, i), row_start(rows, i) + rows[i].len()) == rows[i],
        i + 1 < rows.len() ==> row_start(rows, i) + rows[i].len() < rows_text(rows).len()
            && rows_text(rows)[row_start(rows, i) + rows[i].len()] == '\n',
{
    let t = rows_text(rows);
    let last = rows.len() - 1;
    lemma_rows_content(rows, i);
    lemma_rows_content(rows, last);
    lemma_row_line(rows, i);
    lemma_row_line(rows, last);
    lemma_line_begin_unique(t, row_start(rows, i));
    assert(row_start(rows, rows.len() as int) == row_start(rows, last) + rows[last].len() + 1);
    assert(line_count(t) == rows.len());
    if i < last {
        lemma_row_line(rows, i + 1);
        lemma_rows_content(rows, i + 1);
        lemma_line_begin_unique(t, row_start(rows, i + 1));
    } else {
        lemma_line_begin(t, i + 1);
    }
    assert(t.subrange(row_start(rows, i), row_start(rows, i) + rows[i].len()) =~= rows[i]) by {
        assert forall|k: int| 0 <= k < rows[i].len() implies t.subrange(
            row_start(rows, i),
            row_start(rows, i) + rows[i].len(),
        )[k] == rows[i][k] by {
            assert(t[row_start(rows, i) + k] == rows[i][k]);
        }
    }
}

} // verus!
