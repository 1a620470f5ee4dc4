//! Key chords: the unit of the dispatcher. A chord is one keypress with
//! Ctrl/Meta modifiers; a binding is a sequence of chords ("C-x C-f").

use crate::strings::{
    ascii_lower, from_chars, is_space, lower, same, skip_space, skip_word, split_whitespace,
    to_chars, views, words, words_from,
};
use vstd::prelude::*;

verus! {

#[derive(Debug, Clone, Copy, PartialEq, Eq, Hash, Structural)]
pub enum Key {
    Char(char),
    Enter,
    Tab,
    Backspace,
    Space,
}

#[derive(Debug, Clone, Copy, PartialEq, Eq, Hash, Structural)]
pub struct Chord {
    pub ctrl: bool,
    pub meta: bool,
    pub key: Key,
}

/// The char that a chord inserts into a text buffer.
pub open spec fn inserts(c: Chord) -> Option<char> {
    if c.ctrl || c.meta {
        None
    } else {
        match c.key {
            Key::Char(ch) => Some(ch),
            Key::Space => Some(' '),
            _ => None,
        }
    }
}

/// The name of a key.
pub open spec fn key_text(k: Key) -> Seq<char> {
    match k {
        Key::Char(c) => seq![c],
        Key::Enter => "RET"@,
        Key::Tab => "TAB"@,
        Key::Backspace => "backspace"@,
        Key::Space => "SPC"@,
    }
}

/// A chord in the notation of key bindings.
pub open spec fn chord_text(c: Chord) -> Seq<char> {
    (if c.ctrl {
        "C-"@
    } else {
        Seq::empty()
    }) + (if c.meta {
        "M-"@
    } else {
        Seq::empty()
    }) + key_text(c.key)
}

/// A sequence of chords in the notation of key bindings: the chords with a
/// space between each two.
pub open spec fn seq_text(s: Seq<Chord>) -> Seq<char>
    decreases s.len(),
{
    if s.len() == 0 {
        Seq::empty()
    } else if s.len() == 1 {
        chord_text(s[0])
    } else {
        seq_text(s.drop_last()) + seq![' '] + chord_text(s.last())
    }
}

/// The key that a name stands for: one of the named keys, or a single char.
pub open spec fn named_key(s: Seq<char>) -> Option<Key> {
    if s == "RET"@ {
        Some(Key::Enter)
    } else if s == "TAB"@ || s == "Tab"@ {
        Some(Key::Tab)
    } else if s == "SPC"@ || s == "spacebar"@ || s == "space"@ {
        Some(Key::Space)
    } else if s == "backspace"@ || s == "DEL"@ {
        Some(Key::Backspace)
    } else if s.len() == 1 {
        Some(Key::Char(s[0]))
    } else {
        None
    }
}

/// The chord that a word stands for, the modifiers read so far given. A
/// modifier counts once, and not where nothing follows it.
pub open spec fn read_chord(s: Seq<char>, ctrl: bool, meta: bool) -> Option<Chord>
    decreases s.len(),
{
    if s.len() > 2 && s[0] == 'C' && s[1] == '-' && !ctrl {
        read_chord(s.skip(2), true, meta)
    } else if s.len() > 2 && s[0] == 'M' && s[1] == '-' && !meta {
        read_chord(s.skip(2), ctrl, true)
    } else {
        match named_key(s) {
            Some(key) => Some(Chord { ctrl, meta, key }),
            None => None,
        }
    }
}

/// The chords that the words stand for; none if one of them stands for none.
pub open spec fn read_chords(ws: Seq<Seq<char>>) -> Option<Seq<Chord>>
    decreases ws.len(),
{
    if ws.len() == 0 {
        Some(Seq::empty())
    } else {
        match (read_chords(ws.drop_last()), read_chord(ws.last(), false, false)) {
            (Some(s), Some(c)) => Some(s.push(c)),
            _ => None,
        }
    }
}

impl Chord {
    /// A chord without modifiers.
    pub fn plain(key: Key) -> (c: Self)
        ensures
            c == (Chord { ctrl: false, meta: false, key }),
    {
        Chord { ctrl: false, meta: false, key }
    }

    /// A chord with no modifiers that would self-insert in a text buffer.
    pub fn self_insert_char(&self) -> (r: Option<char>)
        ensures
            r == inserts(*self),
    {
        if self.ctrl || self.meta {
            return None;
        }
        match self.key {
            Key::Char(c) => Some(c),
            Key::Space => Some(' '),
            _ => None,
        }
    }

    /// The chord in the notation of key bindings.
    pub fn to_text(&self) -> (s: String)
        ensures
            s@ == chord_text(*self),
    {
        let mut s = String::new();
        if self.ctrl {
            s.push_str("C-");
        }
        if self.meta {
            s.push_str("M-");
        }
        match self.key {
            Key::Char(c) => s.push(c),
            Key::Enter => s.push_str("RET"),
            Key::Tab => s.push_str("TAB"),
            Key::Backspace => s.push_str("backspace"),
            Key::Space => s.push_str("SPC"),
        }
        assert(s@ =~= chord_text(*self));
        s
    }
}

/// A sequence of chords in the notation of key bindings.
pub fn format_seq(seq: &[Chord]) -> (s: String)
    ensures
        s@ == seq_text(seq@),
{
    let mut s = String::new();
    for i in 0..seq.len()
        invariant
            s@ == seq_text(seq@.take(i as int)),
    {
        if i > 0 {
            s.push(' ');
        }
        let t = seq[i].to_text();
        s.push_str(t.as_str());
        assert(seq@.take(i + 1).drop_last() =~= seq@.take(i as int));
        assert(s@ =~= seq_text(seq@.take(i + 1)));
    }
    assert(seq@.take(seq@.len() as int) =~= seq@);
    s
}

/// A sequence is read as many chords as it has words.
pub proof fn lemma_read_chords(ws: Seq<Seq<char>>)
    ensures
        match read_chords(ws) {
            Some(v) => v.len() == ws.len(),
            None => true,
        },
    decreases ws.len(),
{
    if ws.len() > 0 {
        lemma_read_chords(ws.drop_last());
    }
}

/// Parse a binding string like "C-x C-f", "M-<", "C-c p D", "% m", "C-x SPC".
pub fn parse_seq(s: &str) -> (r: Option<Vec<Chord>>)
    ensures
        match r {
            Some(v) => read_chords(words(s@)) == Some(v@),
            None => read_chords(words(s@)) is None,
        },
{
    let ws = split_whitespace(s);
    let ghost all = views(ws@);
    let mut out: Vec<Chord> = Vec::new();
    let mut i: usize = 0;
    assert(all.take(0) =~= Seq::<Seq<char>>::empty());
    assert(out@ =~= Seq::<Chord>::empty());
    while i < ws.len()
        invariant
            i <= ws@.len(),
            all == views(ws@),
            all == words(s@),
            read_chords(all.take(i as int)) == Some(out@),
        decreases ws@.len() - i,
    {
        proof {
            assert(all.take(i + 1).drop_last() =~= all.take(i as int));
            assert(all.take(i + 1).last() == ws@[i as int]@);
        }
        match parse_chord(ws[i].as_str()) {
            Some(c) => {
                out.push(c);
            },
            None => {
                proof {
                    lemma_read_chords_fails(all, i + 1);
                }
                return None;
            },
        }
        i = i + 1;
    }
    assert(all.take(all.len() as int) =~= all);
    Some(out)
}

proof fn lemma_read_chords_fails(ws: Seq<Seq<char>>, k: int)
    requires
        0 <= k <= ws.len(),
        read_chords(ws.take(k)) is None,
    ensures
        read_chords(ws) is None,
    decreases ws.len(),
{
    if k < ws.len() {
        assert(ws.drop_last().take(k) =~= ws.take(k));
        lemma_read_chords_fails(ws.drop_last(), k);
    } else {
        assert(ws.take(k) =~= ws);
    }
}

fn key_named(s: &str) -> (r: Option<Key>)
    ensures
        r == named_key(s@),
{
    if same(s, "RET") {
        Some(Key::Enter)
    } else if same(s, "TAB") || same(s, "Tab") {
        Some(Key::Tab)
    } else if same(s, "SPC") || same(s, "spacebar") || same(s, "space") {
        Some(Key::Space)
    } else if same(s, "backspace") || same(s, "DEL") {
        Some(Key::Backspace)
    } else if s.unicode_len() == 1 {
        Some(Key::Char(s.get_char(0)))
    } else {
        None
    }
}

/// Parse one word of a binding string.
pub fn parse_chord(tok: &str) -> (r: Option<Chord>)
    ensures
        r == read_chord(tok@, false, false),
{
    let v = to_chars(tok);
    let mut ctrl = false;
    let mut meta = false;
    let mut from: usize = 0;
    assert(v@.skip(0) =~= v@);
    loop
        invariant
            from <= v@.len(),
            v@ == tok@,
            read_chord(tok@, false, false) == read_chord(v@.skip(from as int), ctrl, meta),
        ensures
            from <= v@.len(),
            v@ == tok@,
            read_chord(tok@, false, false) == match named_key(v@.skip(from as int)) {
                Some(key) => Some(Chord { ctrl, meta, key }),
                None => None,
            },
        decreases v@.len() - from,
    {
        let ghost rest = v@.skip(from as int);
        // A bare "C-" followed by nothing is no modifier; "C--" is Ctrl+'-'.
        if v.len() - from > 2 && v[from + 1] == '-' && ((v[from] == 'C' && !ctrl) || (v[from] == 'M'
            && !meta)) {
            if v[from] == 'C' {
                ctrl = true;
            } else {
                meta = true;
            }
            from = from + 2;
            assert(v@.skip(from as int) =~= rest.skip(2));
        } else {
            break;
        }
    }
    let rest = from_chars(&v, from, v.len());
    assert(rest@ =~= v@.skip(from as int));
    match key_named(rest.as_str()) {
        Some(key) => Some(Chord { ctrl, meta, key }),
        None => None,
    }
}

// ---- terminal events -------------------------------------------------------

/// What a key event of the terminal tells of the key.
#[derive(Debug, Clone, Copy, PartialEq, Eq, Structural)]
pub enum KeyCode {
    Char(char),
    Enter,
    Tab,
    Backspace,
    Null,
    Esc,
    Other,
}

/// A key event of the terminal.
#[derive(Debug, Clone, Copy, PartialEq, Eq, Structural)]
pub struct KeyEvent {
    pub code: KeyCode,
    pub ctrl: bool,
    pub alt: bool,
    /// The key went up.
    pub release: bool,
}

/// The key of a char typed with or without Ctrl, legacy aliases resolved.
pub open spec fn char_key(c: char, ctrl: bool) -> Key {
    if ctrl {
        if c == '_' || c == '7' {
            Key::Char('/')
        } else if c == '@' || c == '2' || c == ' ' {
            Key::Space
        } else {
            Key::Char(lower(c))
        }
    } else if c == ' ' {
        Key::Space
    } else {
        Key::Char(c)
    }
}

/// The chord of a key event.
pub open spec fn event_chord(ev: KeyEvent, esc_meta: bool) -> Option<Chord> {
    let meta = ev.alt || esc_meta;
    if ev.release {
        None
    } else {
        match ev.code {
            KeyCode::Char(c) => Some(Chord { ctrl: ev.ctrl, meta, key: char_key(c, ev.ctrl) }),
            KeyCode::Enter => Some(Chord { ctrl: ev.ctrl, meta, key: Key::Enter }),
            KeyCode::Tab => Some(Chord { ctrl: ev.ctrl, meta, key: Key::Tab }),
            KeyCode::Backspace => Some(Chord { ctrl: ev.ctrl, meta, key: Key::Backspace }),
            // The legacy NUL byte is C-SPC.
            KeyCode::Null => Some(Chord { ctrl: true, meta, key: Key::Space }),
            KeyCode::Esc | KeyCode::Other => None,
        }
    }
}

/// Normalize a key event into a chord, folding legacy terminal aliases into
/// canonical chords. `esc_meta` is true when the previous event was a bare
/// ESC (terminals without Alt support send ESC as a Meta prefix).
///
/// Legacy quirks handled:
///   C-/  arrives as 0x1F => Ctrl+'_' (or Ctrl+'7' in some terminals)
///   C-SPC arrives as NUL => Ctrl+'@' / Ctrl+' ' / Ctrl+'2'
pub fn normalize(ev: &KeyEvent, esc_meta: bool) -> (r: Option<Chord>)
    ensures
        r == event_chord(*ev, esc_meta),
{
    if ev.release {
        return None;
    }
    let ctrl = ev.ctrl;
    let meta = ev.alt || esc_meta;
    let key = match ev.code {
        KeyCode::Char(c) => {
            if ctrl {
                if c == '_' || c == '7' {
                    Key::Char('/')
                } else if c == '@' || c == '2' || c == ' ' {
                    Key::Space
                } else {
                    Key::Char(ascii_lower(c))
                }
            } else if c == ' ' {
                Key::Space
            } else {
                Key::Char(c)
            }
        },
        KeyCode::Enter => Key::Enter,
        KeyCode::Tab => Key::Tab,
        KeyCode::Backspace => Key::Backspace,
        KeyCode::Null => {
            return Some(Chord { ctrl: true, meta, key: Key::Space });
        },
        KeyCode::Esc | KeyCode::Other => {
            return None;
        },
    };
    Some(Chord { ctrl, meta, key })
}

// ---- laws ------------------------------------------------------------------

/// Whether a chord can be written: its key is no white space char.
pub open spec fn writable(c: Chord) -> bool {
    match c.key {
        Key::Char(ch) => !is_space(ch),
        _ => true,
    }
}

/// Whether a text holds no white space and something else.
pub open spec fn solid(s: Seq<char>) -> bool {
    s.len() > 0 && forall|i: int| 0 <= i < s.len() ==> !is_space(#[trigger] s[i])
}

proof fn lemma_key_text(k: Key)
    requires
        writable(Chord { ctrl: false, meta: false, key: k }),
    ensures
        solid(key_text(k)),
        named_key(key_text(k)) == Some(k),
        key_text(k).len() > 2 ==> key_text(k)[1] != '-',
{
    reveal_strlit("RET");
    reveal_strlit("TAB");
    reveal_strlit("Tab");
    reveal_strlit("SPC");
    reveal_strlit("spacebar");
    reveal_strlit("space");
    reveal_strlit("backspace");
    reveal_strlit("DEL");
    let t = key_text(k);
    match k {
        Key::Char(c) => {
            assert(t.len() == 1);
            assert("RET"@.len() == 3 && "TAB"@.len() == 3 && "Tab"@.len() == 3 && "SPC"@.len() == 3
                && "spacebar"@.len() == 8 && "space"@.len() == 5 && "backspace"@.len() == 9
                && "DEL"@.len() == 3);
        },
        Key::Enter => {
            assert(t == "RET"@);
        },
        Key::Tab => {
            assert(t[0] == 'T' && "RET"@[0] == 'R');
        },
        Key::Space => {
            assert(t[0] == 'S' && "RET"@[0] == 'R' && "TAB"@[0] == 'T' && "Tab"@[0] == 'T');
        },
        Key::Backspace => {
            assert(t.len() == 9 && "RET"@.len() == 3 && "TAB"@.len() == 3 && "Tab"@.len() == 3
                && "SPC"@.len() == 3 && "spacebar"@.len() == 8 && "space"@.len() == 5);
        },
    }
}

proof fn lemma_chord_text(c: Chord)
    requires
        writable(c),
    ensures
        solid(chord_text(c)),
        read_chord(chord_text(c), false, false) == Some(c),
{
    let k = key_text(c.key);
    lemma_key_text(c.key);
    reveal_strlit("C-");
    reveal_strlit("M-");
    let s = chord_text(c);
    reveal_with_fuel(read_chord, 3);
    if c.ctrl && c.meta {
        assert(s.skip(2) =~= "M-"@ + k);
        assert(s.skip(2).skip(2) =~= k);
    } else if c.ctrl {
        assert(s.skip(2) =~= k);
    } else if c.meta {
        assert(s.skip(2) =~= k);
    } else {
        assert(s =~= k);
    }
}

proof fn lemma_skip_word_solid(s: Seq<char>, i: int, j: int)
    requires
        0 <= i <= j <= s.len(),
        forall|k: int| i <= k < j ==> !is_space(#[trigger] s[k]),
        j < s.len() ==> is_space(s[j]),
    ensures
        skip_word(s, i) == j,
    decreases j - i,
{
    if i < j {
        assert(!is_space(s[i]));
        lemma_skip_word_solid(s, i + 1, j);
    }
}

/// The words of a text, a space and a solid text are the words of the first
/// and the second.
proof fn lemma_words_snoc(a: Seq<char>, b: Seq<char>, i: int)
    requires
        solid(b),
        0 <= i <= a.len(),
    ensures
        words_from(a + seq![' '] + b, i) == words_from(a, i).push(b),
    decreases a.len() - i,
{
    let t = a + seq![' '] + b;
    let p = skip_space(a, i);
    lemma_spaces_agree(a, b, i);
    if p < a.len() {
        lemma_not_space_at(a, i);
        lemma_words_agree(a, b, p);
        let q = skip_word(a, p);
        lemma_words_agree(a, b, p + 1);
        lemma_words_snoc(a, b, q);
        assert(t.subrange(p, q) =~= a.subrange(p, q));
        assert(words_from(t, i) == seq![t.subrange(p, q)] + words_from(t, q));
        assert(words_from(a, i) == seq![a.subrange(p, q)] + words_from(a, q));
        assert(words_from(t, i) =~= words_from(a, i).push(b));
    } else {
        let start = a.len() as int + 1;
        assert(!is_space(t[start])) by {
            assert(t[start] == b[0]);
        }
        assert(skip_space(t, i) == start) by {
            assert(t[a.len() as int] == ' ');
            assert(skip_space(t, start) == start);
            assert(skip_space(t, a.len() as int) == skip_space(t, start));
        }
        assert forall|k: int| start <= k < t.len() implies !is_space(#[trigger] t[k]) by {
            assert(t[k] == b[k - start]);
        }
        lemma_skip_word_solid(t, start, t.len() as int);
        assert(t.subrange(start, t.len() as int) =~= b);
        assert(words_from(t, t.len() as int) =~= Seq::<Seq<char>>::empty());
        assert(words_from(a, i) =~= Seq::<Seq<char>>::empty());
        assert(words_from(t, i) =~= seq![b]);
        assert(words_from(t, i) =~= words_from(a, i).push(b));
    }
}

proof fn lemma_spaces_agree(a: Seq<char>, b: Seq<char>, i: int)
    requires
        0 <= i <= a.len(),
    ensures
        i <= skip_space(a, i) <= a.len(),
        skip_space(a, i) < a.len() ==> skip_space(a + seq![' '] + b, i) == skip_space(a, i),
        skip_space(a, i) == a.len() ==> skip_space(a + seq![' '] + b, i) == skip_space(
            a + seq![' '] + b,
            a.len() as int,
        ),
    decreases a.len() - i,
{
    let t = a + seq![' '] + b;
    if i < a.len() {
        assert(t[i] == a[i]);
        if is_space(a[i]) {
            lemma_spaces_agree(a, b, i + 1);
        }
    }
}

proof fn lemma_not_space_at(a: Seq<char>, i: int)
    requires
        0 <= i <= a.len(),
    ensures
        skip_space(a, i) < a.len() ==> !is_space(a[skip_space(a, i)]),
    decreases a.len() - i,
{
    if i < a.len() && is_space(a[i]) {
        lemma_not_space_at(a, i + 1);
    }
}

proof fn lemma_words_agree(a: Seq<char>, b: Seq<char>, i: int)
    requires
        0 <= i <= a.len(),
    ensures
        i <= skip_word(a, i) <= a.len(),
        skip_word(a + seq![' '] + b, i) == skip_word(a, i),
    decreases a.len() - i,
{
    let t = a + seq![' '] + b;
    if i < a.len() {
        assert(t[i] == a[i]);
        if !is_space(a[i]) {
            lemma_words_agree(a, b, i + 1);
        }
    } else {
        assert(t[i] == ' ');
    }
}

proof fn lemma_words_solid(b: Seq<char>)
    requires
        solid(b),
    ensures
        words(b) == seq![b],
{
    assert(!is_space(b[0]));
    assert(skip_space(b, 0) == 0);
    lemma_skip_word_solid(b, 0, b.len() as int);
    assert(b.subrange(0, b.len() as int) =~= b);
    assert(words_from(b, b.len() as int) =~= Seq::<Seq<char>>::empty());
    assert(words(b) =~= seq![b]);
}

/// Writing a key sequence and reading it back gives the sequence, for every
/// sequence of chords whose keys are not white space chars.
pub proof fn law_parse_format(s: Seq<Chord>)
    requires
        forall|i: int| 0 <= i < s.len() ==> writable(#[trigger] s[i]),
    ensures
        read_chords(words(seq_text(s))) == Some(s),
    decreases s.len(),
{
    if s.len() == 0 {
        assert(words(seq_text(s)) =~= Seq::<Seq<char>>::empty());
        assert(s =~= Seq::<Chord>::empty());
    } else if s.len() == 1 {
        assert(writable(s[0]));
        lemma_chord_text(s[0]);
        lemma_words_solid(chord_text(s[0]));
        let ws = words(seq_text(s));
        assert(ws.drop_last() =~= Seq::<Seq<char>>::empty());
        assert(ws.last() == chord_text(s[0]));
        reveal_with_fuel(read_chords, 2);
        assert(Seq::<Chord>::empty().push(s[0]) =~= s);
    } else {
        let init = s.drop_last();
        assert forall|i: int| 0 <= i < init.len() implies writable(#[trigger] init[i]) by {
            assert(writable(s[i]));
        }
        law_parse_format(init);
        assert(writable(s[s.len() - 1]));
        lemma_chord_text(s.last());
        lemma_words_snoc(seq_text(init), chord_text(s.last()), 0);
        let ws = words(seq_text(s));
        assert(ws.drop_last() =~= words(seq_text(init)));
        assert(ws.last() == chord_text(s.last()));
        assert(init.push(s.last()) =~= s);
    }
}

} // verus!
