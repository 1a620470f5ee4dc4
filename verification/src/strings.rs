//! Strings as sequences of chars: building, counting, trimming, splitting,
//! decimal numbers and UTF-8 offsets.

use vstd::prelude::*;

verus! {

/// `String::push` appends one char to the end of the string.
pub assume_specification [String::push](s: &mut String, c: char)
    ensures
        final(s)@ == old(s)@.push(c),
;

/// `String::push_str` appends the whole of the given slice to the string.
pub assume_specification [String::push_str](s: &mut String, t: &str)
    ensures
        final(s)@ == old(s)@ + t@,
;

/// The chars of `s`, in order.
pub fn to_chars(s: &str) -> (v: Vec<char>)
    ensures
        v@ == s@,
{
    let mut v: Vec<char> = Vec::new();
    for c in it: s.chars()
        invariant
            v@ == it.seq().take(it.index() as int),
            it.seq() == s@,
    {
        v.push(c);
    }
    v
}

/// The string made of `v[from..to]`.
pub fn from_chars(v: &Vec<char>, from: usize, to: usize) -> (s: String)
    requires
        from <= to <= v@.len(),
    ensures
        s@ == v@.subrange(from as int, to as int),
{
    let mut s = String::new();
    for i in from..to
        invariant
            from <= to <= v@.len(),
            s@ == v@.subrange(from as int, i as int),
    {
        s.push(v[i]);
    }
    s
}

/// No text.
pub fn no_text() -> (s: String)
    ensures
        s@ == Seq::<char>::empty(),
{
    let s = String::new();
    assert(s@ =~= Seq::<char>::empty());
    s
}

/// What the `Debug` form of a `str` writes.
pub uninterp spec fn quoted(s: Seq<char>) -> Seq<char>;

/// The `Debug` form of a `str`, as `std::fmt` writes it: in double quotes, with
/// escapes. The result is named, and nothing more is claimed of it.
#[verifier::external_body]
pub(crate) fn quote(s: &str) -> (r: String)
    ensures
        r@ == quoted(s@),
{
    format!("{s:?}")
}

/// A copy of `s`.
pub fn copy(s: &str) -> (r: String)
    ensures
        r@ == s@,
{
    let mut r = String::new();
    r.push_str(s);
    r
}

/// A copy of an optional string.
pub fn copy_opt(s: &Option<String>) -> (r: Option<String>)
    ensures
        opt_view(r) == opt_view(*s),
{
    match s {
        Some(t) => Some(copy(t.as_str())),
        None => None,
    }
}

/// The chars of an optional string.
pub open spec fn opt_view(s: Option<String>) -> Option<Seq<char>> {
    match s {
        Some(t) => Some(t@),
        None => None,
    }
}

/// The chars of each string of a list.
pub open spec fn views(v: Seq<String>) -> Seq<Seq<char>> {
    Seq::new(v.len(), |i: int| v[i]@)
}

/// A copy of a list of strings.
pub fn copy_all(v: &Vec<String>) -> (r: Vec<String>)
    ensures
        views(r@) == views(v@),
{
    let mut r: Vec<String> = Vec::new();
    for i in 0..v.len()
        invariant
            r@.len() == i,
            forall|k: int| 0 <= k < i ==> #[trigger] r@[k]@ == v@[k]@,
    {
        r.push(copy(v[i].as_str()));
    }
    assert(views(r@) =~= views(v@));
    r
}

/// Two strings one after the other.
pub fn cat2(a: &str, b: &str) -> (r: String)
    ensures
        r@ == a@ + b@,
{
    let mut r = copy(a);
    r.push_str(b);
    r
}

/// Three strings one after the other.
pub fn cat3(a: &str, b: &str, c: &str) -> (r: String)
    ensures
        r@ == a@ + b@ + c@,
{
    let mut r = cat2(a, b);
    r.push_str(c);
    r
}

/// Four strings one after the other.
pub fn cat4(a: &str, b: &str, c: &str, d: &str) -> (r: String)
    ensures
        r@ == a@ + b@ + c@ + d@,
{
    let mut r = cat3(a, b, c);
    r.push_str(d);
    r
}

/// Five strings one after the other.
pub fn cat5(a: &str, b: &str, c: &str, d: &str, e: &str) -> (r: String)
    ensures
        r@ == a@ + b@ + c@ + d@ + e@,
{
    let mut r = cat4(a, b, c, d);
    r.push_str(e);
    r
}

/// Whether two strings hold the same chars.
pub fn same(a: &str, b: &str) -> (r: bool)
    ensures
        r == (a@ == b@),
{
    copy(a) == copy(b)
}

/// `n` times the char `c`.
pub open spec fn repeated(c: char, n: nat) -> Seq<char> {
    Seq::new(n, |i: int| c)
}

/// `n` times the char `c`, as a string.
pub fn repeat(c: char, n: usize) -> (s: String)
    ensures
        s@ == repeated(c, n as nat),
{
    let mut s = String::new();
    for i in 0..n
        invariant
            s@ == repeated(c, i as nat),
    {
        s.push(c);
        assert(s@ =~= repeated(c, (i + 1) as nat));
    }
    s
}

// ---- decimal numbers -------------------------------------------------------

/// The decimal digit of value `d`.
pub open spec fn digit(d: int) -> char {
    (48 + d) as char
}

/// The decimal digits of `n`, most significant first.
pub open spec fn decimal(n: nat) -> Seq<char>
    decreases n,
{
    if n < 10 {
        seq![digit(n as int)]
    } else {
        decimal(n / 10).push(digit((n % 10) as int))
    }
}

/// The decimal digits of a number, as a string.
pub fn decimal_string(n: usize) -> (s: String)
    ensures
        s@ == decimal(n as nat),
{
    decimal_u64(n as u64)
}

/// The decimal digits of a 64-bit number, as a string.
pub fn decimal_u64(n: u64) -> (s: String)
    ensures
        s@ == decimal(n as nat),
    decreases n,
{
    let mut s = if n < 10 {
        String::new()
    } else {
        decimal_u64(n / 10)
    };
    let d: u8 = 48 + (n % 10) as u8;
    s.push(d as char);
    assert(s@ =~= decimal(n as nat));
    s
}

/// The number of decimal digits of `n` is its number of digits.
pub open spec fn digit_count(n: nat) -> nat
    decreases n,
{
    if n < 10 {
        1
    } else {
        1 + digit_count(n / 10)
    }
}

/// A number is written with as many digits as it has.
pub proof fn lemma_decimal_len(n: nat)
    ensures
        decimal(n).len() == digit_count(n),
    decreases n,
{
    if n >= 10 {
        lemma_decimal_len(n / 10);
    }
}

/// The value of a sequence of decimal digits.
pub open spec fn decimal_value(s: Seq<char>) -> nat
    decreases s.len(),
{
    if s.len() == 0 {
        0
    } else {
        10 * decimal_value(s.drop_last()) + ((s.last() as int) - 48) as nat
    }
}

/// Whether a char is one of `0` to `9`.
pub open spec fn is_digit(c: char) -> bool {
    '0' <= c <= '9'
}

/// Reading back a written number gives the number.
pub proof fn law_decimal_roundtrip(n: nat)
    ensures
        decimal_value(decimal(n)) == n,
        forall|i: int| 0 <= i < decimal(n).len() ==> is_digit(#[trigger] decimal(n)[i]),
        decimal(n).len() > 0,
    decreases n,
{
    if n >= 10 {
        law_decimal_roundtrip(n / 10);
        let s = decimal(n);
        assert(s.drop_last() =~= decimal(n / 10));
    } else {
        let s = decimal(n);
        assert(s.drop_last() =~= Seq::<char>::empty());
        reveal_with_fuel(decimal_value, 2);
    }
}

/// `s` without a leading `+`.
pub open spec fn unsigned(s: Seq<char>) -> Seq<char> {
    if s.len() > 0 && s[0] == '+' {
        s.subrange(1, s.len() as int)
    } else {
        s
    }
}

/// Whether `s` is digits only.
pub open spec fn all_digits(s: Seq<char>) -> bool {
    forall|i: int| 0 <= i < s.len() ==> is_digit(#[trigger] s[i])
}

/// What `str::parse::<usize>` accepts: an optional `+`, then digits whose
/// value fits.
pub open spec fn parse_decimal(s: Seq<char>) -> Option<nat> {
    let body = unsigned(s);
    if body.len() > 0 && all_digits(body) && decimal_value(body) <= usize::MAX {
        Some(decimal_value(body))
    } else {
        None
    }
}

proof fn lemma_decimal_value_grows(s: Seq<char>, k: int)
    requires
        0 <= k <= s.len(),
        all_digits(s),
    ensures
        decimal_value(s.take(k)) <= decimal_value(s),
    decreases s.len() - k,
{
    if k < s.len() {
        lemma_decimal_value_grows(s, k + 1);
        assert(s.take(k + 1).drop_last() =~= s.take(k));
    } else {
        assert(s.take(k) =~= s);
    }
}

/// Read a decimal number.
pub fn parse_usize(s: &str) -> (r: Option<usize>)
    ensures
        match r {
            Some(n) => parse_decimal(s@) == Some(n as nat),
            None => parse_decimal(s@) is None,
        },
{
    let v = to_chars(s);
    let from: usize = if v.len() > 0 && v[0] == '+' {
        1
    } else {
        0
    };
    let ghost body = unsigned(s@);
    if from == v.len() {
        return None;
    }
    let mut n: usize = 0;
    let mut i: usize = from;
    while i < v.len()
        invariant
            from <= i <= v@.len(),
            v@ == s@,
            from == if s@.len() > 0 && s@[0] == '+' { 1int } else { 0int },
            body == unsigned(s@),
            forall|k: int| 0 <= k < i - from ==> is_digit(#[trigger] body[k]),
            n == decimal_value(body.take(i - from)),
            body.len() > 0,
        decreases v@.len() - i,
    {
        let c = v[i];
        assert(c == body[i - from]);
        if !('0' <= c && c <= '9') {
            assert(!is_digit(body[i - from]));
            return None;
        }
        let d: usize = (c as u32 - 48) as usize;
        assert(body.take(i - from + 1).drop_last() =~= body.take(i - from));
        assert(decimal_value(body.take(i - from + 1)) == 10 * n + d);
        if n > (usize::MAX - d) / 10 {
            proof {
                if all_digits(body) {
                    lemma_decimal_value_grows(body, i - from + 1);
                }
            }
            return None;
        }
        n = 10 * n + d;
        i = i + 1;
    }
    assert(body.take(body.len() as int) =~= body);
    Some(n)
}

// ---- white space -----------------------------------------------------------

/// The chars with the Unicode property White_Space.
pub open spec fn is_space(c: char) -> bool {
    let u = c as u32;
    ||| 0x9 <= u <= 0xd
    ||| u == 0x20
    ||| u == 0x85
    ||| u == 0xa0
    ||| u == 0x1680
    ||| 0x2000 <= u <= 0x200a
    ||| u == 0x2028
    ||| u == 0x2029
    ||| u == 0x202f
    ||| u == 0x205f
    ||| u == 0x3000
}

/// Whether a char is white space.
pub fn char_is_space(c: char) -> (b: bool)
    ensures
        b == is_space(c),
{
    let u: u32 = c as u32;
    (0x9 <= u && u <= 0xd) || u == 0x20 || u == 0x85 || u == 0xa0 || u == 0x1680 || (0x2000 <= u
        && u <= 0x200a) || u == 0x2028 || u == 0x2029 || u == 0x202f || u == 0x205f || u == 0x3000
}

/// The first index at or after `i` that holds no white space, or the length.
pub open spec fn skip_space(s: Seq<char>, i: int) -> int
    decreases s.len() - i,
{
    if 0 <= i < s.len() && is_space(s[i]) {
        skip_space(s, i + 1)
    } else {
        i
    }
}

/// The first index at or after `i` that holds white space, or the length.
pub open spec fn skip_word(s: Seq<char>, i: int) -> int
    decreases s.len() - i,
{
    if 0 <= i < s.len() && !is_space(s[i]) {
        skip_word(s, i + 1)
    } else {
        i
    }
}

/// The end of `s` without the white space that ends it, not below `low`.
pub open spec fn trim_end_at(s: Seq<char>, low: int, hi: int) -> int
    decreases hi,
{
    if low < hi <= s.len() && 0 < hi && is_space(s[hi - 1]) {
        trim_end_at(s, low, hi - 1)
    } else {
        hi
    }
}

/// `s` without the white space at its two ends.
pub open spec fn trimmed(s: Seq<char>) -> Seq<char> {
    let a = skip_space(s, 0);
    s.subrange(a, trim_end_at(s, a, s.len() as int))
}

proof fn lemma_skip_space(s: Seq<char>, i: int)
    requires
        0 <= i <= s.len(),
    ensures
        i <= skip_space(s, i) <= s.len(),
    decreases s.len() - i,
{
    if i < s.len() && is_space(s[i]) {
        lemma_skip_space(s, i + 1);
    }
}

proof fn lemma_skip_word(s: Seq<char>, i: int)
    requires
        0 <= i <= s.len(),
    ensures
        i <= skip_word(s, i) <= s.len(),
    decreases s.len() - i,
{
    if i < s.len() && !is_space(s[i]) {
        lemma_skip_word(s, i + 1);
    }
}

fn find_nonspace(v: &Vec<char>, from: usize) -> (r: usize)
    requires
        from <= v@.len(),
    ensures
        r == skip_space(v@, from as int),
        from <= r <= v@.len(),
{
    let mut i: usize = from;
    while i < v.len() && char_is_space(v[i])
        invariant
            from <= i <= v@.len(),
            skip_space(v@, from as int) == skip_space(v@, i as int),
        decreases v@.len() - i,
    {
        i = i + 1;
    }
    i
}

fn find_space(v: &Vec<char>, from: usize) -> (r: usize)
    requires
        from <= v@.len(),
    ensures
        r == skip_word(v@, from as int),
        from <= r <= v@.len(),
{
    let mut i: usize = from;
    while i < v.len() && !char_is_space(v[i])
        invariant
            from <= i <= v@.len(),
            skip_word(v@, from as int) == skip_word(v@, i as int),
        decreases v@.len() - i,
    {
        i = i + 1;
    }
    i
}

/// `s` without the white space at its two ends.
pub fn trim(s: &str) -> (r: String)
    ensures
        r@ == trimmed(s@),
{
    let v = to_chars(s);
    let a: usize = find_nonspace(&v, 0);
    let mut b: usize = v.len();
    while b > a && char_is_space(v[b - 1])
        invariant
            a <= b <= v@.len(),
            trim_end_at(v@, a as int, v@.len() as int) == trim_end_at(v@, a as int, b as int),
        decreases b,
    {
        b = b - 1;
    }
    from_chars(&v, a, b)
}

/// The maximal runs of `s` from index `i` on that hold no white space.
pub open spec fn words_from(s: Seq<char>, i: int) -> Seq<Seq<char>>
    decreases s.len() - i,
{
    let a = skip_space(s, i);
    if 0 <= i <= a < s.len() && a < skip_word(s, a) <= s.len() {
        seq![s.subrange(a, skip_word(s, a))] + words_from(s, skip_word(s, a))
    } else {
        Seq::empty()
    }
}

/// The words of `s`: what white space separates.
pub open spec fn words(s: Seq<char>) -> Seq<Seq<char>> {
    words_from(s, 0)
}

/// The words of a string.
pub fn split_whitespace(s: &str) -> (r: Vec<String>)
    ensures
        views(r@) == words(s@),
{
    let v = to_chars(s);
    let mut out: Vec<String> = Vec::new();
    let mut i: usize = 0;
    assert(views(out@) + words_from(v@, 0) =~= words(s@));
    loop
        invariant
            i <= v@.len(),
            v@ == s@,
            views(out@) + words_from(v@, i as int) == words(s@),
        decreases v@.len() - i,
    {
        proof {
            lemma_skip_space(v@, i as int);
        }
        let a: usize = find_nonspace(&v, i);
        if a == v.len() {
            assert(views(out@) =~= words(s@));
            return out;
        }
        proof {
            lemma_not_space(v@, i as int);
            lemma_skip_word(v@, a as int);
            lemma_skip_word(v@, a + 1);
        }
        let b: usize = find_space(&v, a);
        let w = from_chars(&v, a, b);
        let ghost before = views(out@);
        out.push(w);
        assert(views(out@) =~= before.push(v@.subrange(a as int, b as int)));
        assert(views(out@) + words_from(v@, b as int) =~= before + words_from(v@, i as int));
        i = b;
    }
}

proof fn lemma_not_space(s: Seq<char>, i: int)
    requires
        0 <= i <= s.len(),
    ensures
        skip_space(s, i) < s.len() ==> !is_space(s[skip_space(s, i)]),
    decreases s.len() - i,
{
    if i < s.len() && is_space(s[i]) {
        lemma_not_space(s, i + 1);
    }
}

// ---- lines of a string -----------------------------------------------------

/// The index of the first line feed at or after `i`, or the length.
pub open spec fn find_newline(s: Seq<char>, i: int) -> int
    decreases s.len() - i,
{
    if 0 <= i < s.len() && s[i] != '\n' {
        find_newline(s, i + 1)
    } else {
        i
    }
}

/// A line without the carriage return at its end.
pub open spec fn without_cr(s: Seq<char>) -> Seq<char> {
    if s.len() > 0 && s.last() == '\r' {
        s.drop_last()
    } else {
        s
    }
}

/// The lines of `s` from index `i` on, as `str::lines` gives them: without
/// their line feed or CRLF, and no empty line after the last line feed.
pub open spec fn lines_from(s: Seq<char>, i: int) -> Seq<Seq<char>>
    decreases s.len() - i,
{
    let j = find_newline(s, i);
    if i < 0 || i >= s.len() {
        Seq::empty()
    } else if i <= j < s.len() {
        seq![without_cr(s.subrange(i, j))] + lines_from(s, j + 1)
    } else {
        seq![s.subrange(i, s.len() as int)]
    }
}

/// The lines of a string.
pub fn split_lines(s: &str) -> (r: Vec<String>)
    ensures
        views(r@) == lines_from(s@, 0),
{
    let v = to_chars(s);
    let mut out: Vec<String> = Vec::new();
    let mut i: usize = 0;
    assert(views(out@) + lines_from(s@, 0) =~= lines_from(s@, 0));
    while i < v.len()
        invariant
            i <= v@.len(),
            v@ == s@,
            views(out@) + lines_from(s@, i as int) == lines_from(s@, 0),
        decreases v@.len() - i,
    {
        let mut j: usize = i;
        while j < v.len() && v[j] != '\n'
            invariant
                i <= j <= v@.len(),
                v@ == s@,
                find_newline(s@, i as int) == find_newline(s@, j as int),
            decreases v@.len() - j,
        {
            j = j + 1;
        }
        let ghost before = views(out@);
        if j == v.len() {
            let line = from_chars(&v, i, j);
            out.push(line);
            assert(views(out@) =~= before.push(s@.subrange(i as int, j as int)));
            assert(views(out@) =~= before + lines_from(s@, i as int));
            i = j;
            assert(views(out@) + lines_from(s@, i as int) =~= views(out@));
        } else {
            let end: usize = if j > i && v[j - 1] == '\r' {
                j - 1
            } else {
                j
            };
            let line = from_chars(&v, i, end);
            out.push(line);
            assert(line@ =~= without_cr(s@.subrange(i as int, j as int)));
            assert(views(out@) =~= before.push(line@));
            assert(views(out@) + lines_from(s@, j + 1) =~= before + lines_from(s@, i as int));
            i = j + 1;
        }
    }
    assert(lines_from(s@, i as int) =~= Seq::<Seq<char>>::empty());
    assert(views(out@) =~= lines_from(s@, 0));
    out
}

// ---- ASCII -----------------------------------------------------------------

/// The ASCII lower case of a char; other chars are kept.
pub open spec fn lower(c: char) -> char {
    if 'A' <= c <= 'Z' {
        ((c as u32) + 32) as char
    } else {
        c
    }
}

/// The ASCII lower case of a char.
pub fn ascii_lower(c: char) -> (r: char)
    ensures
        r == lower(c),
{
    if 'A' <= c && c <= 'Z' {
        let u: u8 = c as u8 + 32;
        u as char
    } else {
        c
    }
}

/// The ASCII lower case of a string.
pub fn ascii_lowercase(s: &str) -> (r: String)
    ensures
        r@ == s@.map_values(|c: char| lower(c)),
{
    let v = to_chars(s);
    let mut r = String::new();
    for i in 0..v.len()
        invariant
            v@ == s@,
            r@ == s@.take(i as int).map_values(|c: char| lower(c)),
    {
        r.push(ascii_lower(v[i]));
        assert(r@ =~= s@.take(i + 1).map_values(|c: char| lower(c)));
    }
    assert(s@.take(s@.len() as int) =~= s@);
    r
}

/// Whether `s` starts with `p`.
pub open spec fn has_prefix(s: Seq<char>, p: Seq<char>) -> bool {
    p.len() <= s.len() && s.take(p.len() as int) == p
}

/// Whether `s` ends with `p`.
pub open spec fn has_suffix(s: Seq<char>, p: Seq<char>) -> bool {
    p.len() <= s.len() && s.skip(s.len() - p.len()) == p
}

/// Whether the chars of `v` from `from` on start with those of `p`.
pub fn starts_at(v: &Vec<char>, from: usize, p: &str) -> (b: bool)
    requires
        from <= v@.len(),
    ensures
        b == has_prefix(v@.skip(from as int), p@),
{
    let q = to_chars(p);
    if q.len() > v.len() - from {
        return false;
    }
    for i in 0..q.len()
        invariant
            q@ == p@,
            from + q@.len() <= v@.len(),
            v@.len() <= usize::MAX,
            forall|k: int| 0 <= k < i ==> v@[from + k] == q@[k],
    {
        if v[from + i] != q[i] {
            assert(v@.skip(from as int).take(p@.len() as int)[i as int] != p@[i as int]);
            return false;
        }
    }
    assert(v@.skip(from as int).take(p@.len() as int) =~= p@);
    true
}

/// Whether `s` starts with `p`.
pub fn starts_with(s: &str, p: &str) -> (b: bool)
    ensures
        b == has_prefix(s@, p@),
{
    let v = to_chars(s);
    assert(v@.skip(0) =~= v@);
    starts_at(&v, 0, p)
}

/// Whether `s` ends with `p`.
pub fn ends_with(s: &str, p: &str) -> (b: bool)
    ensures
        b == has_suffix(s@, p@),
{
    let v = to_chars(s);
    let n: usize = p.unicode_len();
    if n > v.len() {
        return false;
    }
    let from: usize = v.len() - n;
    let b = starts_at(&v, from, p);
    assert(v@.skip(from as int).take(p@.len() as int) =~= v@.skip(from as int));
    b
}

/// The strings one after the other, with `sep` between each two.
pub open spec fn joined_with(s: Seq<Seq<char>>, sep: Seq<char>) -> Seq<char>
    decreases s.len(),
{
    if s.len() == 0 {
        Seq::empty()
    } else if s.len() == 1 {
        s[0]
    } else {
        joined_with(s.drop_last(), sep) + sep + s.last()
    }
}

/// The strings one after the other, with `sep` between each two.
pub fn join_with(v: &Vec<String>, sep: &str) -> (r: String)
    ensures
        r@ == joined_with(views(v@), sep@),
{
    let ghost all = views(v@);
    let mut r = String::new();
    for i in 0..v.len()
        invariant
            all == views(v@),
            r@ == joined_with(all.take(i as int), sep@),
    {
        if i > 0 {
            r.push_str(sep);
        }
        r.push_str(v[i].as_str());
        assert(all.take(i + 1).drop_last() =~= all.take(i as int));
        assert(all.take(i + 1).last() == v@[i as int]@);
        assert(r@ =~= joined_with(all.take(i + 1), sep@));
    }
    assert(all.take(all.len() as int) =~= all);
    r
}

/// `s` with each `c` replaced by `by`.
pub open spec fn with_char_replaced(s: Seq<char>, c: char, by: Seq<char>) -> Seq<char>
    decreases s.len(),
{
    if s.len() == 0 {
        Seq::empty()
    } else {
        with_char_replaced(s.drop_last(), c, by) + (if s.last() == c {
            by
        } else {
            seq![s.last()]
        })
    }
}

/// A string with each `c` replaced.
pub fn replace_char(s: &str, c: char, by: &str) -> (r: String)
    ensures
        r@ == with_char_replaced(s@, c, by@),
{
    let v = to_chars(s);
    let mut r = String::new();
    for i in 0..v.len()
        invariant
            v@ == s@,
            r@ == with_char_replaced(s@.take(i as int), c, by@),
    {
        assert(s@.take(i + 1).drop_last() =~= s@.take(i as int));
        let ghost before = r@;
        if v[i] == c {
            r.push_str(by);
        } else {
            r.push(v[i]);
        }
        assert(r@ =~= with_char_replaced(s@.take(i + 1), c, by@));
    }
    assert(s@.take(s@.len() as int) =~= s@);
    r
}

} // verus!
