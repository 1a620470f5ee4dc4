//! The kill ring: killed text accumulates here; C-y yanks the front, M-y
//! rotates. Consecutive kills append into one entry.

use crate::strings::{cat2, copy, views};
use vstd::prelude::*;

verus! {

/// The most entries that the ring keeps.
pub const MAX_ENTRIES: usize = 60;

#[derive(Debug)]
pub struct KillRing {
    entries: Vec<String>,
    /// Rotation offset for yank-pop: 0 = most recent kill.
    yank_index: usize,
}

/// What the kill ring holds: the kills, oldest first, and how many kills
/// before the newest the next yank takes.
#[verifier::ext_equal]
pub struct RingModel {
    pub entries: Seq<Seq<char>>,
    pub turned: int,
}

impl View for KillRing {
    type V = RingModel;

    closed spec fn view(&self) -> RingModel {
        RingModel { entries: views(self.entries@), turned: self.yank_index as int }
    }
}

/// The ring after a kill: no empty text, the oldest entry dropped when full.
pub open spec fn pushed(r: RingModel, text: Seq<char>) -> RingModel {
    if text.len() == 0 {
        r
    } else {
        let all = r.entries.push(text);
        RingModel {
            entries: if all.len() > MAX_ENTRIES {
                all.skip(1)
            } else {
                all
            },
            turned: 0,
        }
    }
}

/// The ring after text is added to the end of the newest kill.
pub open spec fn grown(r: RingModel, text: Seq<char>) -> RingModel {
    if r.entries.len() == 0 {
        RingModel { turned: 0, ..pushed(r, text) }
    } else {
        RingModel {
            entries: r.entries.update(r.entries.len() - 1, r.entries.last() + text),
            turned: 0,
        }
    }
}

/// The ring after text is added before the newest kill.
pub open spec fn grown_front(r: RingModel, text: Seq<char>) -> RingModel {
    if r.entries.len() == 0 {
        RingModel { turned: 0, ..pushed(r, text) }
    } else {
        RingModel {
            entries: r.entries.update(r.entries.len() - 1, text + r.entries.last()),
            turned: 0,
        }
    }
}

/// What a yank takes.
pub open spec fn yanked(r: RingModel) -> Option<Seq<char>> {
    if r.entries.len() == 0 {
        None
    } else {
        Some(r.entries[r.entries.len() - 1 - r.turned % r.entries.len() as int])
    }
}

/// The ring turned to the kill before.
pub open spec fn rotated(r: RingModel) -> RingModel {
    if r.entries.len() == 0 {
        r
    } else {
        RingModel { turned: (r.turned + 1) % (r.entries.len() as int), ..r }
    }
}

impl Default for KillRing {
    fn default() -> (r: Self)
        ensures
            r@ == (RingModel { entries: Seq::empty(), turned: 0 }),
    {
        let r = KillRing { entries: Vec::new(), yank_index: 0 };
        assert(r@.entries =~= Seq::<Seq<char>>::empty());
        r
    }
}

impl KillRing {
    /// Whether the kill that the next rotation takes, put in at `start`, ends where
    /// positions can be counted.
    pub fn next_fits(&self, start: usize) -> (b: bool)
        ensures
            b == match yanked(rotated(self@)) {
                Some(text) => start + text.len() <= usize::MAX,
                None => true,
            },
    {
        let n: usize = self.entries.len();
        if n == 0 {
            return true;
        }
        let back: usize = self.yank_index % n;
        proof {
            lemma_next_mod(self.yank_index as int, n as int);
            vstd::arithmetic::div_mod::lemma_mod_twice(self.yank_index as int + 1, n as int);
        }
        let turned: usize = (back + 1) % n;
        let i: usize = n - 1 - turned;
        let k: usize = self.entries[i].as_str().unicode_len();
        assert(yanked(rotated(self@)) == Some(self.entries@[i as int]@));
        k <= usize::MAX - start
    }

    /// Add a kill.
    pub fn push(&mut self, text: String)
        ensures
            final(self)@ == pushed(old(self)@, text@),
    {
        if text.as_str().is_empty() {
            return;
        }
        self.entries.push(text);
        assert(views(self.entries@) =~= old(self)@.entries.push(text@));
        if self.entries.len() > MAX_ENTRIES {
            let ghost all = views(self.entries@);
            self.entries.remove(0);
            assert(views(self.entries@) =~= all.skip(1));
        }
        self.yank_index = 0;
    }

    /// Append to the latest entry (consecutive forward kills).
    pub fn append(&mut self, text: &str)
        ensures
            final(self)@ == grown(old(self)@, text@),
    {
        let n: usize = self.entries.len();
        if n > 0 {
            let joined = cat2(self.entries[n - 1].as_str(), text);
            self.entries[n - 1] = joined;
            assert(views(self.entries@) =~= old(self)@.entries.update(n - 1, joined@));
        } else {
            self.push(copy(text));
        }
        self.yank_index = 0;
    }

    /// Prepend to the latest entry (consecutive backward kills).
    pub fn prepend(&mut self, text: &str)
        ensures
            final(self)@ == grown_front(old(self)@, text@),
    {
        let n: usize = self.entries.len();
        if n > 0 {
            let joined = cat2(text, self.entries[n - 1].as_str());
            self.entries[n - 1] = joined;
            assert(views(self.entries@) =~= old(self)@.entries.update(n - 1, joined@));
        } else {
            self.push(copy(text));
        }
        self.yank_index = 0;
    }

    /// Current yank text (front of ring adjusted by rotation).
    pub fn yank(&self) -> (r: Option<&str>)
        ensures
            match r {
                Some(s) => yanked(self@) == Some(s@),
                None => yanked(self@) is None,
            },
    {
        let n: usize = self.entries.len();
        if n == 0 {
            return None;
        }
        let back: usize = self.yank_index % n;
        Some(self.entries[n - 1 - back].as_str())
    }

    /// Rotate to the previous kill and return it (M-y).
    pub fn yank_pop(&mut self) -> (r: Option<&str>)
        ensures
            final(self)@ == rotated(old(self)@),
            match r {
                Some(s) => yanked(rotated(old(self)@)) == Some(s@),
                None => yanked(rotated(old(self)@)) is None,
            },
    {
        let n: usize = self.entries.len();
        if n == 0 {
            return None;
        }
        let back: usize = self.yank_index % n;
        proof {
            lemma_next_mod(self.yank_index as int, n as int);
        }
        self.yank_index = (back + 1) % n;
        assert(self@ == rotated(old(self)@));
        self.yank()
    }

    /// Go back to the newest kill.
    pub fn reset_rotation(&mut self)
        ensures
            final(self)@ == (RingModel { turned: 0, ..old(self)@ }),
    {
        self.yank_index = 0;
    }
}

proof fn lemma_next_mod(a: int, n: int)
    requires
        0 < n,
    ensures
        (a % n + 1) % n == (a + 1) % n,
{
    vstd::arithmetic::div_mod::lemma_add_mod_noop(a, 1, n);
    vstd::arithmetic::div_mod::lemma_add_mod_noop(a % n, 1, n);
    vstd::arithmetic::div_mod::lemma_mod_twice(a, n);
}

// ---- laws ------------------------------------------------------------------

/// A kill is what the next yank takes.
pub proof fn law_yank_takes_kill(r: RingModel, text: Seq<char>)
    requires
        text.len() > 0,
    ensures
        yanked(pushed(r, text)) == Some(text),
{
    vstd::arithmetic::div_mod::lemma_small_mod(0, pushed(r, text).entries.len());
}

/// The ring never grows past its limit.
pub proof fn law_ring_bounded(r: RingModel, text: Seq<char>)
    requires
        r.entries.len() <= MAX_ENTRIES,
    ensures
        pushed(r, text).entries.len() <= MAX_ENTRIES,
        grown(r, text).entries.len() <= MAX_ENTRIES,
        grown_front(r, text).entries.len() <= MAX_ENTRIES,
        rotated(r).entries.len() <= MAX_ENTRIES,
{
}

/// Kills in a row join into one entry: forward kills at its end, backward
/// kills at its front.
pub proof fn law_kills_join(r: RingModel, first: Seq<char>, more: Seq<char>)
    requires
        first.len() > 0,
    ensures
        yanked(grown(pushed(r, first), more)) == Some(first + more),
        yanked(grown_front(pushed(r, first), more)) == Some(more + first),
        grown(pushed(r, first), more).entries.len() == pushed(r, first).entries.len(),
{
    vstd::arithmetic::div_mod::lemma_small_mod(0, pushed(r, first).entries.len());
}

/// The ring turned `k` times.
pub open spec fn rotated_by(r: RingModel, k: nat) -> RingModel
    decreases k,
{
    if k == 0 {
        r
    } else {
        rotated(rotated_by(r, (k - 1) as nat))
    }
}

proof fn lemma_rotated_by(r: RingModel, k: nat)
    requires
        r.entries.len() > 0,
    ensures
        rotated_by(r, k).entries == r.entries,
        rotated_by(r, k).turned % (r.entries.len() as int) == (r.turned + k) % (
        r.entries.len() as int),
    decreases k,
{
    if k > 0 {
        lemma_rotated_by(r, (k - 1) as nat);
        let q = rotated_by(r, (k - 1) as nat);
        let n = r.entries.len() as int;
        vstd::arithmetic::div_mod::lemma_mod_twice(q.turned + 1, n);
        lemma_next_mod(q.turned, n);
        lemma_next_mod(r.turned + k - 1, n);
    }
}

/// The index of the entry that a yank takes.
pub open spec fn yank_place(r: RingModel) -> int {
    r.entries.len() - 1 - r.turned % r.entries.len() as int
}

/// Rotating goes through the whole ring: each turn takes the next older entry,
/// after the oldest the newest, each entry comes up once in a round, and a round
/// comes back to where it started.
pub proof fn law_rotation_cycles(r: RingModel, k: nat, j: nat)
    requires
        r.entries.len() > 0,
    ensures
        yanked(r) == Some(r.entries[yank_place(r)]),
        0 <= yank_place(r) < r.entries.len(),
        yank_place(rotated(r)) == if yank_place(r) > 0 {
            yank_place(r) - 1
        } else {
            r.entries.len() - 1
        },
        k < j < r.entries.len() ==> yank_place(rotated_by(r, k)) != yank_place(rotated_by(r, j)),
        rotated_by(r, r.entries.len()).entries == r.entries,
        yank_place(rotated_by(r, r.entries.len())) == yank_place(r),
        yanked(rotated_by(r, r.entries.len())) == yanked(r),
{
    let n = r.entries.len() as int;
    lemma_rotated_by(r, r.entries.len());
    lemma_rotated_by(r, k);
    lemma_rotated_by(r, j);
    lemma_rotated_by(r, 1);
    assert(rotated_by(r, 1) == rotated(r)) by {
        assert(rotated_by(r, 0) == r);
    }
    vstd::arithmetic::div_mod::lemma_mod_add_multiples_vanish(r.turned, n);
    assert((r.turned + 1) % n == if r.turned % n == n - 1 {
        0
    } else {
        r.turned % n + 1
    }) by (nonlinear_arith)
        requires
            n > 0,
    ;
    if k < j < n {
        let d = j - k;
        assert((r.turned + k + d) % n != (r.turned + k) % n) by (nonlinear_arith)
            requires
                0 < d < n,
        ;
    }
}

} // verus!
