//! The text storage of a buffer: what this library relies on of `ropey`.

use crate::bytes::{byte_len, byte_offset, char_at_byte};
use crate::lines::{line_begin, line_count, line_of};
use ropey::Rope;
use vstd::prelude::*;

verus! {

/// `ropey::Rope`, a text held in pieces.
#[verifier::external_type_specification]
#[verifier::external_body]
pub struct ExRope(Rope);

/// The chars that a rope holds.
pub uninterp spec fn rope_text(rope: Rope) -> Seq<char>;

/// `Rope::from_str` makes a rope that holds the given text.
pub assume_specification [Rope::from_str](text: &str) -> (rope: Rope)
    ensures
        rope_text(rope) == text@,
;

/// `Rope::len_chars` counts the chars of the rope.
pub assume_specification [Rope::len_chars](rope: &Rope) -> (n: usize)
    ensures
        n == rope_text(*rope).len(),
;

/// `Rope::len_lines` counts the lines of the rope: one more than its line
/// breaks, all Unicode line breaks counted.
pub assume_specification [Rope::len_lines](rope: &Rope) -> (n: usize)
    ensures
        n == line_count(rope_text(*rope)),
;

/// `Rope::insert` puts `text` in at char index `char_idx`, which may be the
/// end of the rope, and panics past it.
pub assume_specification [Rope::insert](rope: &mut Rope, char_idx: usize, text: &str)
    requires
        char_idx <= rope_text(*old(rope)).len(),
    ensures
        rope_text(*final(rope)) == rope_text(*old(rope)).take(char_idx as int) + text@ + rope_text(
            *old(rope),
        ).skip(char_idx as int),
;

/// `Rope::char` gives the char at an index of the rope.
pub assume_specification [Rope::char](rope: &Rope, char_idx: usize) -> (c: char)
    requires
        char_idx < rope_text(*rope).len(),
    ensures
        c == rope_text(*rope)[char_idx as int],
;

/// `Rope::char_to_line` gives the line of a char index, the end included: the
/// line breaks before it, CR and LF in a row being one break.
pub assume_specification [Rope::char_to_line](rope: &Rope, char_idx: usize) -> (line: usize)
    requires
        char_idx <= rope_text(*rope).len(),
    ensures
        line == line_of(rope_text(*rope), char_idx as int),
;

/// `Rope::line_to_char` gives the char index at which a line starts; one past
/// the last line it gives the length.
pub assume_specification [Rope::line_to_char](rope: &Rope, line_idx: usize) -> (char_idx: usize)
    requires
        line_idx <= line_count(rope_text(*rope)),
    ensures
        char_idx == line_begin(rope_text(*rope), line_idx as int),
;

/// `Rope::len_bytes` counts the bytes of the rope, as UTF-8.
pub assume_specification [Rope::len_bytes](rope: &Rope) -> (n: usize)
    ensures
        n == byte_len(rope_text(*rope)),
;

/// `Rope::char_to_byte` gives the byte offset of a char index, the end included,
/// and panics past it.
#[verifier::external_body]
pub(crate) fn rope_byte_of(rope: &Rope, char_idx: usize) -> (byte_idx: usize)
    requires
        char_idx <= rope_text(*rope).len(),
    ensures
        byte_idx == byte_offset(rope_text(*rope), char_idx as int),
{
    rope.char_to_byte(char_idx)
}

/// `Rope::byte_to_char` gives the index of the char that a byte belongs to; at
/// the end it gives the number of chars, and past it it panics.
#[verifier::external_body]
pub(crate) fn rope_char_of(rope: &Rope, byte_idx: usize) -> (char_idx: usize)
    requires
        byte_idx <= byte_len(rope_text(*rope)),
    ensures
        char_idx == char_at_byte(rope_text(*rope), byte_idx as int),
{
    rope.byte_to_char(byte_idx)
}

/// `Rope::remove` takes out the chars of a range that lies in the rope.
#[verifier::external_body]
pub(crate) fn rope_remove(rope: &mut Rope, start: usize, end: usize)
    requires
        start <= end <= rope_text(*old(rope)).len(),
    ensures
        rope_text(*final(rope)) == rope_text(*old(rope)).take(start as int) + rope_text(
            *old(rope),
        ).skip(end as int),
{
    rope.remove(start..end);
}

/// `Rope::slice`, turned into a `String`, holds the chars of a range that lies
/// in the rope.
#[verifier::external_body]
pub(crate) fn rope_slice(rope: &Rope, start: usize, end: usize) -> (s: String)
    requires
        start <= end <= rope_text(*rope).len(),
    ensures
        s@ == rope_text(*rope).subrange(start as int, end as int),
{
    rope.slice(start..end).into()
}

/// `Rope` turned into a `String` holds all of its chars.
#[verifier::external_body]
pub(crate) fn rope_string(rope: &Rope) -> (s: String)
    ensures
        s@ == rope_text(*rope),
{
    rope.to_string()
}

} // verus!
