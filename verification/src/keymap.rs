//! Keymaps: prefix trees from chord sequences to command names.

use crate::keys::{format_seq, seq_text, Chord};
use crate::strings::{copy, same, views};
use vstd::prelude::*;

verus! {

#[derive(Debug)]
pub struct Keymap {
    map: Vec<(Chord, Entry)>,
}

#[derive(Debug)]
pub enum Entry {
    Cmd(String),
    Prefix(Keymap),
}

#[derive(Debug, PartialEq, Eq)]
pub enum Lookup {
    /// Sequence matches nothing in this map.
    Unbound,
    /// Sequence is a proper prefix of at least one binding.
    Pending,
    /// Sequence resolves to a command.
    Cmd(String),
}

/// What a key sequence means in a keymap.
pub enum Meaning {
    Unbound,
    Pending,
    Cmd(Seq<char>),
}

impl View for Lookup {
    type V = Meaning;

    open spec fn view(&self) -> Meaning {
        match self {
            Lookup::Unbound => Meaning::Unbound,
            Lookup::Pending => Meaning::Pending,
            Lookup::Cmd(name) => Meaning::Cmd(name@),
        }
    }
}

/// A keymap is what it makes of each key sequence.
impl View for Keymap {
    type V = Map<Seq<Chord>, Meaning>;

    closed spec fn view(&self) -> Map<Seq<Chord>, Meaning> {
        Map::new(|s: Seq<Chord>| true, |s: Seq<Chord>| meaning(*self, s))
    }
}

/// Whether `a` is a prefix of `b`.
pub open spec fn begins(b: Seq<Chord>, a: Seq<Chord>) -> bool {
    a.len() <= b.len() && b.take(a.len() as int) == a
}

/// The keymap without bindings: no sequence means anything.
pub open spec fn no_bindings() -> Map<Seq<Chord>, Meaning> {
    Map::new(|s: Seq<Chord>| true, |s: Seq<Chord>| Meaning::Unbound)
}

/// The keymap with `seq` bound to `name`: `seq` means the command, what begins
/// `seq` waits for more, what goes on after `seq` means nothing, and all else
/// means what it meant.
pub open spec fn bound(
    m: Map<Seq<Chord>, Meaning>,
    seq: Seq<Chord>,
    name: Seq<char>,
) -> Map<Seq<Chord>, Meaning> {
    Map::new(
        |s: Seq<Chord>| true,
        |s: Seq<Chord>|
            if s == seq {
                Meaning::Cmd(name)
            } else if begins(seq, s) {
                Meaning::Pending
            } else if begins(s, seq) {
                Meaning::Unbound
            } else {
                m[s]
            },
    )
}

spec fn slot(s: Seq<(Chord, Entry)>, c: Chord, i: int) -> int
    decreases s.len() - i,
{
    if 0 <= i < s.len() && s[i].0 != c {
        slot(s, c, i + 1)
    } else {
        i
    }
}

spec fn meaning(k: Keymap, seq: Seq<Chord>) -> Meaning
    decreases seq.len(),
{
    if seq.len() == 0 {
        if k.map@.len() == 0 {
            Meaning::Unbound
        } else {
            Meaning::Pending
        }
    } else {
        let i = slot(k.map@, seq[0], 0);
        if i >= k.map@.len() {
            Meaning::Unbound
        } else {
            match k.map@[i].1 {
                Entry::Cmd(name) => if seq.len() == 1 {
                    Meaning::Cmd(name@)
                } else {
                    Meaning::Unbound
                },
                Entry::Prefix(sub) => meaning(sub, seq.skip(1)),
            }
        }
    }
}

proof fn lemma_slot(s: Seq<(Chord, Entry)>, c: Chord, i: int)
    requires
        0 <= i <= s.len(),
    ensures
        i <= slot(s, c, i) <= s.len(),
        slot(s, c, i) < s.len() ==> s[slot(s, c, i)].0 == c,
        forall|j: int| i <= j < slot(s, c, i) ==> (#[trigger] s[j]).0 != c,
    decreases s.len() - i,
{
    if i < s.len() && s[i].0 != c {
        lemma_slot(s, c, i + 1);
    }
}

proof fn lemma_slot_is(s: Seq<(Chord, Entry)>, c: Chord, i: int, k: int)
    requires
        0 <= i <= k <= s.len(),
        forall|j: int| i <= j < k ==> (#[trigger] s[j]).0 != c,
        k < s.len() ==> s[k].0 == c,
    ensures
        slot(s, c, i) == k,
    decreases k - i,
{
    if i < k {
        assert(s[i].0 != c);
        lemma_slot_is(s, c, i + 1, k);
    }
}

/// Setting the entry of one chord (in its slot, or at the end) changes the
/// slot of no other chord.
proof fn lemma_slot_set(s: Seq<(Chord, Entry)>, c: Chord, e: Entry, d: Chord)
    ensures
        ({
            let i = slot(s, c, 0);
            let t = if i < s.len() {
                s.update(i, (c, e))
            } else {
                s.push((c, e))
            };
            &&& slot(t, c, 0) == i
            &&& d != c ==> (slot(s, d, 0) < s.len() ==> slot(t, d, 0) == slot(s, d, 0)) && (slot(
                s,
                d,
                0,
            ) >= s.len() ==> slot(t, d, 0) >= t.len())
        }),
{
    let i = slot(s, c, 0);
    lemma_slot(s, c, 0);
    let t = if i < s.len() {
        s.update(i, (c, e))
    } else {
        s.push((c, e))
    };
    lemma_slot_is(t, c, 0, i);
    if d != c {
        let k = slot(s, d, 0);
        lemma_slot(s, d, 0);
        assert(forall|j: int| 0 <= j < s.len() ==> (#[trigger] t[j]).0 == s[j].0);
        if k < s.len() {
            lemma_slot_is(t, d, 0, k);
        } else {
            lemma_slot_is(t, d, 0, t.len() as int);
        }
    }
}

impl Default for Keymap {
    fn default() -> (k: Self)
        ensures
            k@ == no_bindings(),
    {
        let k = Keymap { map: Vec::new() };
        assert forall|s: Seq<Chord>| meaning(k, s) == #[trigger] no_bindings()[s] by {
            if s.len() > 0 {
                assert(slot(k.map@, s[0], 0) == 0);
            }
        }
        assert(k@ =~= no_bindings());
        k
    }
}

impl Keymap {
    fn find(&self, c: Chord) -> (r: usize)
        ensures
            r == slot(self.map@, c, 0),
            r <= self.map@.len(),
    {
        let mut i: usize = 0;
        while i < self.map.len() && self.map[i].0 != c
            invariant
                i <= self.map@.len(),
                slot(self.map@, c, 0) == slot(self.map@, c, i as int),
            decreases self.map@.len() - i,
        {
            i = i + 1;
        }
        i
    }

    /// Bind `seq` to command `name`, creating prefix maps as needed.
    /// Overwrites conflicting bindings.
    pub fn bind(&mut self, seq: &[Chord], name: &str)
        requires
            seq@.len() > 0,
        ensures
            final(self)@ == bound(old(self)@, seq@, name@),
    {
        self.bind_from(seq, 0, name);
        assert(seq@.skip(0) =~= seq@);
    }

    fn bind_from(&mut self, seq: &[Chord], from: usize, name: &str)
        requires
            from < seq@.len(),
        ensures
            final(self)@ == bound(old(self)@, seq@.skip(from as int), name@),
        decreases seq@.len() - from,
    {
        let ghost before = *self;
        let ghost tail = seq@.skip(from as int);
        let c = seq[from];
        let i: usize = self.find(c);
        if from + 1 == seq.len() {
            let e = Entry::Cmd(copy(name));
            let ghost e0 = e;
            if i < self.map.len() {
                self.map[i] = (c, e);
            } else {
                self.map.push((c, e));
            }
            proof {
                assert forall|s: Seq<Chord>|
                    meaning(*self, s) == #[trigger] bound(before@, tail, name@)[s] by {
                    lemma_bind_last(before, *self, c, e0, name@, s);
                    assert(tail =~= seq![c]);
                    assert(before@[s] == meaning(before, s));
                }
                assert(self@ =~= bound(before@, tail, name@));
            }
            return ;
        }
        if i == self.map.len() {
            self.map.push((c, Entry::Prefix(Keymap::default())));
        }
        let is_cmd = match &self.map[i].1 {
            Entry::Cmd(_) => true,
            Entry::Prefix(_) => false,
        };
        if is_cmd {
            self.map[i] = (c, Entry::Prefix(Keymap::default()));
        }
        let ghost mid = *self;
        proof {
            lemma_slot(before.map@, c, 0);
        }
        let ghost sub0 = self.map@[i as int].1->Prefix_0;
        if let Entry::Prefix(sub) = &mut self.map[i].1 {
            sub.bind_from(seq, from + 1, name);
        }
        proof {
            let sub1 = self.map@[i as int].1->Prefix_0;
            let after = (c, Entry::Prefix(sub1));
            if i < before.map@.len() {
                assert(self.map@ =~= before.map@.update(i as int, after));
            } else {
                assert(self.map@ =~= before.map@.push(after));
            }
            let rest = seq@.skip(from + 1);
            assert(sub1@ == bound(sub0@, rest, name@));
            assert forall|s: Seq<Chord>|
                meaning(*self, s) == #[trigger] bound(before@, tail, name@)[s] by {
                lemma_bind_prefix(before, *self, c, sub0, sub1, rest, name@, s);
                assert(tail =~= seq![c] + rest);
                assert(before@[s] == meaning(before, s));
            }
            assert(self@ =~= bound(before@, tail, name@));
        }
    }

    /// What a key sequence means.
    pub fn lookup(&self, seq: &[Chord]) -> (r: Lookup)
        ensures
            r@ == self@[seq@],
    {
        assert(seq@.skip(0) =~= seq@);
        self.lookup_from(seq, 0)
    }

    fn lookup_from(&self, seq: &[Chord], from: usize) -> (r: Lookup)
        requires
            from <= seq@.len(),
        ensures
            r@ == meaning(*self, seq@.skip(from as int)),
        decreases seq@.len() - from,
    {
        if from == seq.len() {
            return if self.map.len() == 0 {
                Lookup::Unbound
            } else {
                Lookup::Pending
            };
        }
        let ghost tail = seq@.skip(from as int);
        assert(tail[0] == seq@[from as int]);
        assert(tail.skip(1) =~= seq@.skip(from + 1));
        let i: usize = self.find(seq[from]);
        if i == self.map.len() {
            return Lookup::Unbound;
        }
        match &self.map[i].1 {
            Entry::Cmd(name) => {
                if from + 1 == seq.len() {
                    Lookup::Cmd(copy(name.as_str()))
                } else {
                    Lookup::Unbound
                }
            },
            Entry::Prefix(sub) => sub.lookup_from(seq, from + 1),
        }
    }
}

proof fn lemma_bind_last(
    before: Keymap,
    after: Keymap,
    c: Chord,
    e: Entry,
    name: Seq<char>,
    s: Seq<Chord>,
)
    requires
        e matches Entry::Cmd(n) && n@ == name,
        ({
            let i = slot(before.map@, c, 0);
            after.map@ == if i < before.map@.len() {
                before.map@.update(i, (c, e))
            } else {
                before.map@.push((c, e))
            }
        }),
    ensures
        meaning(after, s) == if s == seq![c] {
            Meaning::Cmd(name)
        } else if begins(seq![c], s) {
            Meaning::Pending
        } else if begins(s, seq![c]) {
            Meaning::Unbound
        } else {
            meaning(before, s)
        },
{
    lemma_slot(before.map@, c, 0);
    if s.len() == 0 {
        assert(seq![c].take(0) =~= s);
        assert(s != seq![c]);
    } else {
        lemma_slot_set(before.map@, c, e, s[0]);
        lemma_slot(before.map@, s[0], 0);
        lemma_slot(after.map@, s[0], 0);
        if s[0] == c {
            assert(s.take(1) =~= seq![c]);
            if s.len() == 1 {
                assert(s =~= seq![c]);
            }
        } else {
            assert(s != seq![c]) by {
                assert(seq![c][0] == c);
            }
            assert(!begins(seq![c], s)) by {
                if begins(seq![c], s) {
                    assert(seq![c].take(s.len() as int)[0] == c);
                }
            }
            assert(!begins(s, seq![c])) by {
                if begins(s, seq![c]) {
                    assert(s.take(1)[0] == s[0]);
                }
            }
        }
    }
}

proof fn lemma_bind_prefix(
    before: Keymap,
    after: Keymap,
    c: Chord,
    sub0: Keymap,
    sub1: Keymap,
    rest: Seq<Chord>,
    name: Seq<char>,
    s: Seq<Chord>,
)
    requires
        rest.len() > 0,
        sub1@ == bound(sub0@, rest, name),
        ({
            let i = slot(before.map@, c, 0);
            &&& after.map@ == if i < before.map@.len() {
                before.map@.update(i, (c, Entry::Prefix(sub1)))
            } else {
                before.map@.push((c, Entry::Prefix(sub1)))
            }
            &&& if i < before.map@.len() && before.map@[i].1 is Prefix {
                sub0 == before.map@[i].1->Prefix_0
            } else {
                sub0@ == no_bindings()
            }
        }),
    ensures
        meaning(after, s) == if s == seq![c] + rest {
            Meaning::Cmd(name)
        } else if begins(seq![c] + rest, s) {
            Meaning::Pending
        } else if begins(s, seq![c] + rest) {
            Meaning::Unbound
        } else {
            meaning(before, s)
        },
{
    let all = seq![c] + rest;
    let i = slot(before.map@, c, 0);
    lemma_slot(before.map@, c, 0);
    if s.len() == 0 {
        assert(all.take(0) =~= s);
        assert(s != all);
    } else {
        lemma_slot_set(before.map@, c, Entry::Prefix(sub1), s[0]);
        lemma_slot(before.map@, s[0], 0);
        lemma_slot(after.map@, s[0], 0);
        if s[0] == c {
            let t = s.skip(1);
            assert(meaning(after, s) == meaning(sub1, t));
            assert(sub1@[t] == meaning(sub1, t));
            assert(sub0@[t] == meaning(sub0, t));
            assert((s == all) == (t == rest)) by {
                if t == rest {
                    assert(s =~= all);
                }
                if s == all {
                    assert(t =~= rest);
                }
            }
            assert(begins(all, s) == begins(rest, t)) by {
                if begins(rest, t) {
                    assert forall|k: int| 0 <= k < s.len() implies all[k] == s[k] by {
                        if k > 0 {
                            assert(rest.take(t.len() as int)[k - 1] == t[k - 1]);
                        }
                    }
                    assert(all.take(s.len() as int) =~= s);
                }
                if begins(all, s) {
                    assert(all.take(s.len() as int).skip(1) =~= rest.take(t.len() as int));
                }
            }
            assert(begins(s, all) == begins(t, rest)) by {
                if begins(t, rest) {
                    assert(s.take(all.len() as int) =~= seq![c] + t.take(rest.len() as int));
                }
                if begins(s, all) {
                    assert(s.take(all.len() as int).skip(1) =~= t.take(rest.len() as int));
                    assert(all.skip(1) =~= rest);
                }
            }
            if t.len() == 0 {
                assert(rest.take(0) =~= t);
            }
        } else {
            assert(s != all) by {
                assert(all[0] == c);
            }
            assert(!begins(all, s)) by {
                if begins(all, s) {
                    assert(all.take(s.len() as int)[0] == c);
                }
            }
            assert(!begins(s, all)) by {
                if begins(s, all) {
                    assert(s.take(all.len() as int)[0] == s[0]);
                }
            }
        }
    }
}

// ---- listing the bindings of a command -------------------------------------

/// Every key sequence that runs command `name`, written out: each sequence
/// once, and nothing else.
pub open spec fn lists_bindings(
    m: Map<Seq<Chord>, Meaning>,
    name: Seq<char>,
    seqs: Seq<Seq<Chord>>,
) -> bool {
    &&& seqs.no_duplicates()
    &&& forall|s: Seq<Chord>| #[trigger] seqs.contains(s) <==> m[s] == Meaning::Cmd(name)
}

/// Each sequence of a list written out.
pub open spec fn seq_texts(seqs: Seq<Seq<Chord>>) -> Seq<Seq<char>> {
    Seq::new(seqs.len(), |i: int| seq_text(seqs[i]))
}

/// The chord sequences of a list of lists.
pub open spec fn chord_seqs(v: Seq<Vec<Chord>>) -> Seq<Seq<Chord>> {
    Seq::new(v.len(), |i: int| v[i]@)
}

/// Whether `seqs` are the sequences bound to `name` whose first chord has its
/// slot below `n`, each once.
spec fn lists_below(k: Keymap, name: Seq<char>, seqs: Seq<Seq<Chord>>, n: int) -> bool {
    &&& seqs.no_duplicates()
    &&& forall|s: Seq<Chord>| #[trigger]
        seqs.contains(s) <==> s.len() > 0 && slot(k.map@, s[0], 0) < n && meaning(k, s)
            == Meaning::Cmd(name)
}

fn chord_then(c: Chord, tail: &Vec<Chord>) -> (r: Vec<Chord>)
    ensures
        r@ == seq![c] + tail@,
{
    let mut r: Vec<Chord> = Vec::new();
    r.push(c);
    for i in 0..tail.len()
        invariant
            r@ == seq![c] + tail@.take(i as int),
    {
        r.push(tail[i]);
        assert(r@ =~= seq![c] + tail@.take(i + 1));
    }
    assert(tail@.take(tail@.len() as int) =~= tail@);
    r
}

impl Keymap {
    /// The key sequences that run command `name`.
    fn sequences_of(&self, name: &str) -> (r: Vec<Vec<Chord>>)
        ensures
            lists_bindings(self@, name@, chord_seqs(r@)),
        decreases *self,
    {
        let mut out: Vec<Vec<Chord>> = Vec::new();
        let mut i: usize = 0;
        assert(lists_below(*self, name@, chord_seqs(out@), 0)) by {
            assert forall|s: Seq<Chord>| s.len() > 0 implies slot(self.map@, s[0], 0) >= 0 by {
                lemma_slot(self.map@, s[0], 0);
            }
        }
        while i < self.map.len()
            invariant
                i <= self.map@.len(),
                lists_below(*self, name@, chord_seqs(out@), i as int),
            decreases self.map@.len() - i,
        {
            let c = self.map[i].0;
            let ghost before = chord_seqs(out@);
            if self.find(c) == i {
                match &self.map[i].1 {
                    Entry::Cmd(n) => {
                        if same(n.as_str(), name) {
                            let mut one: Vec<Chord> = Vec::new();
                            one.push(c);
                            out.push(one);
                            assert(one@ =~= seq![c]);
                            assert(chord_seqs(out@) =~= before.push(seq![c]));
                        }
                        proof {
                            lemma_add_cmd(*self, name@, before, chord_seqs(out@), i as int, n@);
                        }
                    },
                    Entry::Prefix(sub) => {
                        let tails = sub.sequences_of(name);
                        let ghost ts = chord_seqs(tails@);
                        let mut j: usize = 0;
                        while j < tails.len()
                            invariant
                                j <= tails@.len(),
                                ts == chord_seqs(tails@),
                                chord_seqs(out@) == before + prefixed(c, ts.take(j as int)),
                            decreases tails@.len() - j,
                        {
                            let ghost mid = chord_seqs(out@);
                            let s = chord_then(c, &tails[j]);
                            out.push(s);
                            assert(chord_seqs(out@) =~= mid.push(seq![c] + ts[j as int]));
                            assert(chord_seqs(out@) =~= before + prefixed(c, ts.take(j + 1)));
                            j = j + 1;
                        }
                        assert(ts.take(ts.len() as int) =~= ts);
                        proof {
                            lemma_add_prefix(*self, name@, before, ts, i as int, *sub);
                        }
                    },
                }
            } else {
                proof {
                    lemma_slot(self.map@, c, 0);
                    assert forall|s: Seq<Chord>| s.len() > 0 implies slot(self.map@, s[0], 0)
                        != i by {
                        lemma_slot(self.map@, s[0], 0);
                    }
                    assert(lists_below(*self, name@, chord_seqs(out@), i + 1));
                }
            }
            i = i + 1;
        }
        proof {
            let r = chord_seqs(out@);
            assert forall|s: Seq<Chord>| #[trigger] r.contains(s) <==> self@[s] == Meaning::Cmd(
                name@,
            ) by {
                assert(self@[s] == meaning(*self, s));
            }
        }
        out
    }

    /// Every key sequence bound to command `name`, written out.
    pub fn bindings_of(&self, name: &str) -> (r: Vec<String>)
        ensures
            exists|seqs: Seq<Seq<Chord>>|
                #![trigger lists_bindings(self@, name@, seqs)]
                lists_bindings(self@, name@, seqs) && views(r@) == seq_texts(seqs),
    {
        let seqs = self.sequences_of(name);
        let ghost all = chord_seqs(seqs@);
        let mut r: Vec<String> = Vec::new();
        for i in 0..seqs.len()
            invariant
                all == chord_seqs(seqs@),
                views(r@) == seq_texts(all.take(i as int)),
        {
            let ghost before = views(r@);
            let text = format_seq(seqs[i].as_slice());
            r.push(text);
            assert(views(r@) =~= before.push(seq_text(all[i as int])));
            assert(views(r@) =~= seq_texts(all.take(i + 1)));
        }
        assert(all.take(all.len() as int) =~= all);
        r
    }
}

spec fn prefixed(c: Chord, ts: Seq<Seq<Chord>>) -> Seq<Seq<Chord>> {
    Seq::new(ts.len(), |i: int| seq![c] + ts[i])
}

proof fn lemma_add_cmd(
    k: Keymap,
    name: Seq<char>,
    before: Seq<Seq<Chord>>,
    after: Seq<Seq<Chord>>,
    i: int,
    n: Seq<char>,
)
    requires
        0 <= i < k.map@.len(),
        slot(k.map@, k.map@[i].0, 0) == i,
        k.map@[i].1 matches Entry::Cmd(m) && m@ == n,
        lists_below(k, name, before, i),
        after == if n == name {
            before.push(seq![k.map@[i].0])
        } else {
            before
        },
    ensures
        lists_below(k, name, after, i + 1),
{
    let c = k.map@[i].0;
    let one = seq![c];
    assert forall|s: Seq<Chord>| #[trigger] after.contains(s) <==> s.len() > 0 && slot(
        k.map@,
        s[0],
        0,
    ) < i + 1 && meaning(k, s) == Meaning::Cmd(name) by {
        if s.len() > 0 {
            lemma_slot(k.map@, s[0], 0);
            if slot(k.map@, s[0], 0) == i {
                assert(s[0] == c);
                assert(!before.contains(s));
                if s.len() == 1 {
                    assert(s =~= one);
                }
            }
        }
        if before.contains(s) {
            let j = before.index_of(s);
            assert(after[j] == s);
        }
        if after.contains(s) && !before.contains(s) {
            let j = after.index_of(s);
            assert(after[j] == s);
            if j < before.len() {
                assert(before[j] == s);
            }
            assert(s == one);
        }
        if n == name && s == one {
            assert(after[before.len() as int] == s);
        }
    }
    assert(!before.contains(one));
    assert(after.no_duplicates()) by {
        assert forall|a: int, b: int| 0 <= a < after.len() && 0 <= b < after.len() && a != b implies after[a]
            != after[b] by {
            if a < before.len() && b < before.len() {
                assert(before[a] != before[b]);
            } else if a < before.len() {
                assert(before.contains(before[a]));
            } else {
                assert(before.contains(before[b]));
            }
        }
    }
}

proof fn lemma_add_prefix(
    k: Keymap,
    name: Seq<char>,
    before: Seq<Seq<Chord>>,
    ts: Seq<Seq<Chord>>,
    i: int,
    sub: Keymap,
)
    requires
        0 <= i < k.map@.len(),
        slot(k.map@, k.map@[i].0, 0) == i,
        k.map@[i].1 == Entry::Prefix(sub),
        lists_below(k, name, before, i),
        lists_bindings(sub@, name, ts),
    ensures
        lists_below(k, name, before + prefixed(k.map@[i].0, ts), i + 1),
{
    let c = k.map@[i].0;
    let added = prefixed(c, ts);
    let after = before + added;
    assert forall|s: Seq<Chord>| #[trigger] after.contains(s) <==> s.len() > 0 && slot(
        k.map@,
        s[0],
        0,
    ) < i + 1 && meaning(k, s) == Meaning::Cmd(name) by {
        if s.len() > 0 {
            lemma_slot(k.map@, s[0], 0);
            if slot(k.map@, s[0], 0) == i {
                let t = s.skip(1);
                assert(s =~= seq![c] + t);
                assert(meaning(k, s) == meaning(sub, t));
                assert(sub@[t] == meaning(sub, t));
                assert(!before.contains(s));
                if ts.contains(t) {
                    let j = ts.index_of(t);
                    assert(added[j] == s);
                    assert(after[before.len() + j] == s);
                }
            }
        }
        if before.contains(s) {
            let j = before.index_of(s);
            assert(after[j] == s);
        }
        if after.contains(s) {
            let j = after.index_of(s);
            assert(after[j] == s);
            if j < before.len() {
                assert(before[j] == s);
                assert(before.contains(s));
            } else {
                let t = ts[j - before.len()];
                assert(s == seq![c] + t);
                assert(s.skip(1) =~= t);
                assert(ts.contains(t));
                assert(sub@[t] == meaning(sub, t));
            }
        }
    }
    assert(after.no_duplicates()) by {
        assert forall|a: int, b: int| 0 <= a < after.len() && 0 <= b < after.len() && a != b implies after[a]
            != after[b] by {
            let m = before.len() as int;
            if a < m && b < m {
                assert(before[a] != before[b]);
            } else if a < m {
                assert(before.contains(before[a]));
                assert(after[b][0] == c);
            } else if b < m {
                assert(before.contains(before[b]));
                assert(after[a][0] == c);
            } else {
                assert(ts[a - m] != ts[b - m]);
                assert((seq![c] + ts[a - m]).skip(1) =~= ts[a - m]);
                assert((seq![c] + ts[b - m]).skip(1) =~= ts[b - m]);
            }
        }
    }
}

// ---- laws ------------------------------------------------------------------

/// A sequence just bound runs its command.
pub proof fn law_bind_then_lookup(m: Map<Seq<Chord>, Meaning>, seq: Seq<Chord>, name: Seq<char>)
    requires
        seq.len() > 0,
    ensures
        bound(m, seq, name)[seq] == Meaning::Cmd(name),
{
}

/// Binding a sequence keeps what other sequences mean, unless one begins with
/// the other.
pub proof fn law_bind_keeps_others(
    m: Map<Seq<Chord>, Meaning>,
    seq: Seq<Chord>,
    name: Seq<char>,
    other: Seq<Chord>,
)
    requires
        !begins(seq, other),
        !begins(other, seq),
    ensures
        bound(m, seq, name)[other] == m[other],
{
    assert(other.take(other.len() as int) =~= other);
}

} // verus!
