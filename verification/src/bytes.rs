//! Char positions and byte offsets of UTF-8 text.

use vstd::prelude::*;
use vstd::utf8::*;

verus! {

/// The byte offset of char position `k` of `t`.
pub open spec fn byte_offset(t: Seq<char>, k: int) -> int {
    encode_utf8(t.take(k)).len() as int
}

/// The number of bytes of `t`.
pub open spec fn byte_len(t: Seq<char>) -> int {
    encode_utf8(t).len() as int
}

/// Whether a byte offset lies between two chars, or at an end.
pub open spec fn is_boundary(t: Seq<char>, b: int) -> bool {
    exists|k: int| 0 <= k <= t.len() && #[trigger] byte_offset(t, k) == b
}

/// The first char position at or after `k` whose offset is at least `b`, or
/// the end.
pub open spec fn reach_byte(t: Seq<char>, b: int, k: int) -> int
    decreases t.len() - k,
{
    if 0 <= k < t.len() && byte_offset(t, k) < b {
        reach_byte(t, b, k + 1)
    } else {
        k
    }
}

/// The char position of a byte offset.
pub open spec fn char_index(t: Seq<char>, b: int) -> int {
    reach_byte(t, b, 0)
}

/// The last char position at or after `k` whose offset is at most `b`.
pub open spec fn last_at_byte(t: Seq<char>, b: int, k: int) -> int
    decreases t.len() - k,
{
    if 0 <= k < t.len() && byte_offset(t, k + 1) <= b {
        last_at_byte(t, b, k + 1)
    } else {
        k
    }
}

/// The position of the char that the byte at an offset belongs to; the end for
/// the offset of the end.
pub open spec fn char_at_byte(t: Seq<char>, b: int) -> int {
    last_at_byte(t, b, 0)
}

/// The number of bytes of a char.
pub open spec fn width(c: char) -> int {
    encode_scalar(c as u32).len() as int
}

proof fn lemma_encode_concat(a: Seq<char>, b: Seq<char>)
    ensures
        encode_utf8(a + b) == encode_utf8(a) + encode_utf8(b),
    decreases a.len(),
{
    if a.len() == 0 {
        assert(a + b =~= b);
        assert(encode_utf8(a) =~= Seq::<u8>::empty());
        assert(encode_utf8(a) + encode_utf8(b) =~= encode_utf8(b));
    } else {
        let t = a + b;
        assert(t.drop_first() =~= a.drop_first() + b);
        assert(t[0] == a[0]);
        lemma_encode_concat(a.drop_first(), b);
        assert(encode_utf8(t) =~= encode_utf8(a) + encode_utf8(b));
    }
}

/// Each char adds its own bytes.
pub proof fn lemma_byte_step(t: Seq<char>, k: int)
    requires
        0 <= k < t.len(),
    ensures
        byte_offset(t, k + 1) == byte_offset(t, k) + width(t[k]),
        1 <= width(t[k]) <= 4,
{
    let one = seq![t[k]];
    assert(t.take(k + 1) =~= t.take(k) + one);
    lemma_encode_concat(t.take(k), one);
    reveal_with_fuel(encode_utf8, 2);
    assert(one.drop_first() =~= Seq::<char>::empty());
    assert(encode_utf8(one) =~= encode_scalar(t[k] as u32));
    char_is_scalar(t[k]);
}

/// Offsets grow with the position.
pub proof fn lemma_byte_monotone(t: Seq<char>, j: int, k: int)
    requires
        0 <= j <= k <= t.len(),
    ensures
        byte_offset(t, k) - byte_offset(t, j) >= k - j,
    decreases k - j,
{
    if j < k {
        lemma_byte_monotone(t, j, k - 1);
        lemma_byte_step(t, k - 1);
    }
}

/// The ends of a text.
pub proof fn lemma_byte_ends(t: Seq<char>)
    ensures
        byte_offset(t, 0) == 0,
        byte_offset(t, t.len() as int) == byte_len(t),
{
    assert(t.take(0) =~= Seq::<char>::empty());
    assert(t.take(t.len() as int) =~= t);
}

proof fn lemma_reach_byte(t: Seq<char>, b: int, k: int)
    requires
        0 <= k <= t.len(),
    ensures
        k <= reach_byte(t, b, k) <= t.len(),
        forall|j: int| k <= j < reach_byte(t, b, k) ==> #[trigger] byte_offset(t, j) < b,
        reach_byte(t, b, k) < t.len() ==> byte_offset(t, reach_byte(t, b, k)) >= b,
    decreases t.len() - k,
{
    if k < t.len() && byte_offset(t, k) < b {
        lemma_reach_byte(t, b, k + 1);
    }
}

/// The position of an offset and the offset of a position undo each other.
pub proof fn law_char_byte_roundtrip(t: Seq<char>, k: int, b: int)
    requires
        0 <= k <= t.len(),
        is_boundary(t, b),
    ensures
        char_index(t, byte_offset(t, k)) == k,
        byte_offset(t, char_index(t, b)) == b,
        0 <= char_index(t, b) <= t.len(),
{
    lemma_char_index(t, k);
    let j = choose|j: int| 0 <= j <= t.len() && #[trigger] byte_offset(t, j) == b;
    lemma_char_index(t, j);
}

/// The position of the offset of a position is that position.
pub proof fn lemma_char_index(t: Seq<char>, k: int)
    requires
        0 <= k <= t.len(),
    ensures
        char_index(t, byte_offset(t, k)) == k,
{
    let b = byte_offset(t, k);
    lemma_reach_byte(t, b, 0);
    let r = char_index(t, b);
    if r < k {
        lemma_byte_monotone(t, r, k);
    } else if r > k {
        assert(byte_offset(t, k) < b);
    }
}

/// The position of an offset lies in the text.
pub proof fn lemma_index_bounds(t: Seq<char>, b: int)
    ensures
        0 <= char_index(t, b) <= t.len(),
{
    lemma_reach_byte(t, b, 0);
}

/// Positions grow with the offset.
pub proof fn lemma_index_monotone(t: Seq<char>, a: int, b: int)
    requires
        a <= b,
    ensures
        char_index(t, a) <= char_index(t, b),
{
    lemma_reach_byte(t, a, 0);
    lemma_reach_byte(t, b, 0);
    let i = char_index(t, a);
    let j = char_index(t, b);
    if j < i {
        assert(byte_offset(t, j) < a);
    }
}

fn char_width(c: char) -> (n: usize)
    ensures
        n == width(c),
        1 <= n <= 4,
{
    proof {
        char_is_scalar(c);
    }
    let u: u32 = c as u32;
    if u <= 0x7F {
        1
    } else if u <= 0x7FF {
        2
    } else if u <= 0xFFFF {
        3
    } else {
        4
    }
}

/// The number of bytes of a text.
pub fn bytes_of(s: &str) -> (n: usize)
    ensures
        n == byte_len(s@),
{
    s.as_bytes().len()
}

/// Byte offset of char position `ci` (the number of bytes when past the end).
pub fn char_to_byte(s: &str, ci: usize) -> (r: usize)
    ensures
        r == byte_offset(s@, crate::lines::clip(s@, ci as int)),
        r <= byte_len(s@),
{
    let v = crate::strings::to_chars(s);
    let total: usize = bytes_of(s);
    let n: usize = if ci <= v.len() {
        ci
    } else {
        v.len()
    };
    let mut i: usize = 0;
    let mut b: usize = 0;
    proof {
        lemma_byte_ends(s@);
        lemma_byte_monotone(s@, n as int, s@.len() as int);
    }
    while i < n
        invariant
            i <= n <= v@.len(),
            v@ == s@,
            b == byte_offset(s@, i as int),
            total == byte_len(s@),
        decreases n - i,
    {
        proof {
            lemma_byte_step(s@, i as int);
            lemma_byte_ends(s@);
            lemma_byte_monotone(s@, i + 1, s@.len() as int);
        }
        b = b + char_width(v[i]);
        i = i + 1;
    }
    b
}

/// Char position of byte offset `bi`, which lies between chars.
pub fn byte_to_char(s: &str, bi: usize) -> (r: usize)
    ensures
        r == char_index(s@, bi as int),
        r <= s@.len(),
{
    let v = crate::strings::to_chars(s);
    let total: usize = bytes_of(s);
    let mut i: usize = 0;
    let mut b: usize = 0;
    proof {
        lemma_byte_ends(s@);
    }
    while i < v.len() && b < bi
        invariant
            i <= v@.len(),
            v@ == s@,
            b == byte_offset(s@, i as int),
            total == byte_len(s@),
            char_index(s@, bi as int) == reach_byte(s@, bi as int, i as int),
        decreases v@.len() - i,
    {
        proof {
            lemma_byte_step(s@, i as int);
            lemma_byte_ends(s@);
            lemma_byte_monotone(s@, i + 1, s@.len() as int);
        }
        b = b + char_width(v[i]);
        i = i + 1;
    }
    i
}

} // verus!
