//! Text out of a stream of bytes. A code point can straddle two reads, so bytes
//! that do not end one are carried into the next read.

use vstd::prelude::*;
use vstd::utf8::*;

verus! {

/// The length of the longest prefix of at most `n` bytes that is valid UTF-8.
pub open spec fn valid_len(bytes: Seq<u8>, n: int) -> int
    decreases n,
{
    if n <= 0 {
        0
    } else if valid_utf8(bytes.take(n)) {
        n
    } else {
        valid_len(bytes, n - 1)
    }
}

/// The text that `String::from_utf8_lossy` makes of bytes.
pub uninterp spec fn lossy_text(bytes: Seq<u8>) -> Seq<char>;

/// `std::str::from_utf8`, and for an error `Utf8Error::valid_up_to`: how far the
/// bytes are valid UTF-8.
#[verifier::external_body]
fn valid_up_to(bytes: &Vec<u8>) -> (n: usize)
    ensures
        n == valid_len(bytes@, bytes@.len() as int),
{
    match std::str::from_utf8(bytes) {
        Ok(_) => bytes.len(),
        Err(e) => e.valid_up_to(),
    }
}

/// `String::from_utf8_lossy`: the text that the bytes encode where they are
/// valid UTF-8. The result is named, and of other bytes nothing more is claimed.
#[verifier::external_body]
pub(crate) fn to_text(bytes: &Vec<u8>) -> (s: String)
    ensures
        s@ == lossy_text(bytes@),
        valid_utf8(bytes@) ==> s@ == decode_utf8(bytes@),
{
    String::from_utf8_lossy(bytes).into_owned()
}

/// The text that is handed on for some bytes: what they encode where they are
/// valid UTF-8.
pub open spec fn text_for(bytes: Seq<u8>) -> Seq<char> {
    if valid_utf8(bytes) {
        decode_utf8(bytes)
    } else {
        lossy_text(bytes)
    }
}

/// How many of the bytes read so far can be handed on: those that are valid, or
/// all where they are too many to be the start of a code point.
pub open spec fn flushable(bytes: Seq<u8>) -> int {
    let valid = valid_len(bytes, bytes.len() as int);
    if valid > 0 {
        valid
    } else if bytes.len() >= 4 {
        bytes.len() as int
    } else {
        0
    }
}

/// Bytes of a stream that do not make up text yet.
#[derive(Debug)]
pub struct Carry {
    pub bytes: Vec<u8>,
}

fn part_of(v: &Vec<u8>, from: usize, to: usize) -> (r: Vec<u8>)
    requires
        from <= to <= v@.len(),
    ensures
        r@ == v@.subrange(from as int, to as int),
{
    let mut r: Vec<u8> = Vec::new();
    let mut i: usize = from;
    while i < to
        invariant
            from <= i <= to <= v@.len(),
            r@ == v@.subrange(from as int, i as int),
        decreases to - i,
    {
        r.push(v[i]);
        assert(r@ =~= v@.subrange(from as int, i + 1));
        i = i + 1;
    }
    r
}

impl Carry {
    /// Nothing carried.
    pub fn new() -> (c: Self)
        ensures
            c.bytes@ == Seq::<u8>::empty(),
    {
        let c = Carry { bytes: Vec::new() };
        assert(c.bytes@ =~= Seq::<u8>::empty());
        c
    }

    /// Take in the bytes of a read, and hand on the text that they complete.
    pub fn feed(&mut self, chunk: &[u8]) -> (r: Option<String>)
        ensures
            ({
                let all = old(self).bytes@ + chunk@;
                let n = flushable(all);
                &&& final(self).bytes@ == all.skip(n)
                &&& match r {
                    Some(s) => n > 0 && s@ == text_for(all.take(n)),
                    None => n == 0,
                }
            }),
    {
        let ghost all = self.bytes@ + chunk@;
        let mut i: usize = 0;
        let ghost before = self.bytes@;
        assert(before + chunk@.take(0) =~= before);
        while i < chunk.len()
            invariant
                i <= chunk@.len(),
                self.bytes@ == before + chunk@.take(i as int),
            decreases chunk@.len() - i,
        {
            self.bytes.push(chunk[i]);
            assert(self.bytes@ =~= before + chunk@.take(i + 1));
            i = i + 1;
        }
        assert(self.bytes@ =~= all);
        let len: usize = self.bytes.len();
        let valid: usize = valid_up_to(&self.bytes);
        proof {
            lemma_valid_len(all, all.len() as int);
        }
        let flush: usize = if valid > 0 {
            valid
        } else if len >= 4 {
            len
        } else {
            assert(self.bytes@.skip(0) =~= all);
            return None;
        };
        let head = part_of(&self.bytes, 0, flush);
        let rest = part_of(&self.bytes, flush, len);
        assert(head@ =~= all.take(flush as int));
        assert(rest@ =~= all.skip(flush as int));
        self.bytes = rest;
        Some(to_text(&head))
    }

    /// The stream ended: what is still carried.
    pub fn finish(self) -> (r: Option<String>)
        ensures
            match r {
                Some(s) => self.bytes@.len() > 0 && s@ == text_for(self.bytes@),
                None => self.bytes@.len() == 0,
            },
    {
        if self.bytes.len() == 0 {
            None
        } else {
            Some(to_text(&self.bytes))
        }
    }
}

proof fn lemma_valid_len(bytes: Seq<u8>, n: int)
    requires
        0 <= n <= bytes.len(),
    ensures
        0 <= valid_len(bytes, n) <= n,
        valid_utf8(bytes.take(valid_len(bytes, n))),
        forall|m: int| valid_len(bytes, n) < m <= n ==> !valid_utf8(#[trigger] bytes.take(m)),
    decreases n,
{
    if n <= 0 {
        assert(bytes.take(0) =~= Seq::<u8>::empty());
    } else if !valid_utf8(bytes.take(n)) {
        lemma_valid_len(bytes, n - 1);
    }
}

// ---- laws ------------------------------------------------------------------

/// The bytes of some reads.
pub open spec fn all_bytes(chunks: Seq<Seq<u8>>) -> Seq<u8>
    decreases chunks.len(),
{
    if chunks.len() == 0 {
        Seq::empty()
    } else {
        all_bytes(chunks.drop_last()) + chunks.last()
    }
}

/// The text handed on after some reads, and the bytes still carried.
pub open spec fn fed(chunks: Seq<Seq<u8>>) -> (Seq<char>, Seq<u8>)
    decreases chunks.len(),
{
    if chunks.len() == 0 {
        (Seq::empty(), Seq::empty())
    } else {
        let (text, carry) = fed(chunks.drop_last());
        let all = carry + chunks.last();
        let n = flushable(all);
        if n > 0 {
            (text + text_for(all.take(n)), all.skip(n))
        } else {
            (text, all)
        }
    }
}

proof fn lemma_decode_concat(a: Seq<u8>, b: Seq<u8>)
    requires
        valid_utf8(a),
        valid_utf8(b),
    ensures
        valid_utf8(a + b),
        decode_utf8(a + b) == decode_utf8(a) + decode_utf8(b),
    decreases a.len(),
{
    valid_utf8_concat(a, b);
    if a.len() == 0 {
        assert(a + b =~= b);
        assert(decode_utf8(a) + decode_utf8(b) =~= decode_utf8(b));
    } else {
        let rest = pop_first_scalar(a);
        assert(length_of_first_scalar(a) >= 1);
        lemma_decode_concat(rest, b);
        assert(pop_first_scalar(a + b) =~= rest + b);
        assert(decode_utf8(a + b) =~= decode_utf8(a) + decode_utf8(b));
    }
}

/// The start of valid bytes, four or more of them, holds a whole code point.
proof fn lemma_first_scalar(bytes: Seq<u8>, n: int)
    requires
        valid_utf8(bytes),
        4 <= n <= bytes.len(),
    ensures
        valid_len(bytes.take(n), n) > 0,
{
    let k = length_of_first_scalar(bytes);
    let t = bytes.take(n);
    lemma_valid_len(t, n);
    assert(1 <= k <= 4);
    reveal_with_fuel(valid_utf8, 2);
    assert(t.take(k) =~= bytes.take(k));
    assert(bytes.take(k)[0] == bytes[0]);
    assert(valid_first_scalar(bytes.take(k)));
    assert(pop_first_scalar(bytes.take(k)) =~= Seq::<u8>::empty());
    assert(valid_utf8(t.take(k)));
}

proof fn lemma_fed(chunks: Seq<Seq<u8>>, rest: Seq<u8>)
    requires
        valid_utf8(all_bytes(chunks) + rest),
    ensures
        ({
            let s = all_bytes(chunks);
            let (text, carry) = fed(chunks);
            let m = s.len() - carry.len();
            &&& 0 <= m
            &&& valid_utf8(s.take(m))
            &&& text == decode_utf8(s.take(m))
            &&& carry == s.skip(m)
            &&& valid_utf8(s) && chunks.len() > 0 ==> carry.len() == 0
        }),
    decreases chunks.len(),
{
    let s = all_bytes(chunks);
    if chunks.len() == 0 {
        assert(s.take(0) =~= Seq::<u8>::empty());
        assert(s.skip(0) =~= Seq::<u8>::empty());
    } else {
        let t = chunks.drop_last();
        let c = chunks.last();
        let s0 = all_bytes(t);
        assert(s + rest =~= s0 + (c + rest));
        lemma_fed(t, c + rest);
        let (text0, carry0) = fed(t);
        let m = s0.len() - carry0.len();
        let all = carry0 + c;
        assert(s.take(m) =~= s0.take(m));
        assert(s.skip(m) =~= all);
        let whole = s + rest;
        assert(whole.subrange(0, m) =~= s.take(m));
        assert(whole.subrange(m, whole.len() as int) =~= all + rest);
        if !valid_utf8(all + rest) {
            partial_valid_partial_invalid_utf8(whole, m);
        }
        let v = valid_len(all, all.len() as int);
        lemma_valid_len(all, all.len() as int);
        if all.len() >= 4 {
            assert((all + rest).take(all.len() as int) =~= all);
            lemma_first_scalar(all + rest, all.len() as int);
        }
        let n = flushable(all);
        assert(n == v);
        if n > 0 {
            lemma_decode_concat(s.take(m), all.take(n));
            assert(s.take(m) + all.take(n) =~= s.take(m + n));
            assert(all.skip(n) =~= s.skip(m + n));
        } else {
            assert(all.skip(0) =~= all);
        }
        if valid_utf8(s) {
            if !valid_utf8(all) {
                assert(s.subrange(0, m) =~= s.take(m));
                assert(s.subrange(m, s.len() as int) =~= all);
                partial_valid_partial_invalid_utf8(s, m);
            }
            assert(all.take(all.len() as int) =~= all);
        }
    }
}

/// However a valid stream is cut into reads, the text handed on is what the
/// stream encodes, and nothing is carried at its end: no code point is lost or
/// mangled at a read boundary.
pub proof fn law_stream_text(chunks: Seq<Seq<u8>>)
    requires
        valid_utf8(all_bytes(chunks)),
    ensures
        fed(chunks).0 == decode_utf8(all_bytes(chunks)),
        fed(chunks).1 == Seq::<u8>::empty(),
{
    let s = all_bytes(chunks);
    assert(s + Seq::<u8>::empty() =~= s);
    lemma_fed(chunks, Seq::empty());
    let (text, carry) = fed(chunks);
    assert(carry =~= Seq::<u8>::empty());
    assert(s.take(s.len() as int) =~= s);
}

} // verus!
