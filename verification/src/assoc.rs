//! Tables keyed by strings, kept in the order in which the keys came.

use crate::strings::same;
use vstd::prelude::*;

verus! {

/// The index of the first pair with this key at or after `i`, or the length.
pub open spec fn find_key<V>(s: Seq<(Seq<char>, V)>, key: Seq<char>, i: int) -> int
    decreases s.len() - i,
{
    if 0 <= i < s.len() && s[i].0 != key {
        find_key(s, key, i + 1)
    } else {
        i
    }
}

/// The value of a key.
pub open spec fn lookup<V>(s: Seq<(Seq<char>, V)>, key: Seq<char>) -> Option<V> {
    let i = find_key(s, key, 0);
    if i < s.len() {
        Some(s[i].1)
    } else {
        None
    }
}

/// The table with `key` set to `value`: in the place of the key where it is
/// known, else at the end.
pub open spec fn with_key<V>(s: Seq<(Seq<char>, V)>, key: Seq<char>, value: V) -> Seq<
    (Seq<char>, V),
> {
    let i = find_key(s, key, 0);
    if i < s.len() {
        s.update(i, (key, value))
    } else {
        s.push((key, value))
    }
}

/// Where a key is found, it is the first with that key.
pub proof fn lemma_find_key<V>(s: Seq<(Seq<char>, V)>, key: Seq<char>, i: int)
    requires
        0 <= i <= s.len(),
    ensures
        i <= find_key(s, key, i) <= s.len(),
        find_key(s, key, i) < s.len() ==> s[find_key(s, key, i)].0 == key,
        forall|j: int| i <= j < find_key(s, key, i) ==> (#[trigger] s[j]).0 != key,
    decreases s.len() - i,
{
    if i < s.len() && s[i].0 != key {
        lemma_find_key(s, key, i + 1);
    }
}

proof fn lemma_find_key_is<V>(s: Seq<(Seq<char>, V)>, key: Seq<char>, i: int, k: int)
    requires
        0 <= i <= k <= s.len(),
        forall|j: int| i <= j < k ==> (#[trigger] s[j]).0 != key,
        k < s.len() ==> s[k].0 == key,
    ensures
        find_key(s, key, i) == k,
    decreases k - i,
{
    if i < k {
        assert(s[i].0 != key);
        lemma_find_key_is(s, key, i + 1, k);
    }
}

/// Setting a key changes what that key gives and nothing else.
pub proof fn law_with_key<V>(s: Seq<(Seq<char>, V)>, key: Seq<char>, value: V, other: Seq<char>)
    ensures
        lookup(with_key(s, key, value), key) == Some(value),
        other != key ==> lookup(with_key(s, key, value), other) == lookup(s, other),
{
    let t = with_key(s, key, value);
    let i = find_key(s, key, 0);
    lemma_find_key(s, key, 0);
    assert(forall|j: int| 0 <= j < i ==> (#[trigger] t[j]).0 == s[j].0);
    lemma_find_key_is(t, key, 0, i);
    if other != key {
        let k = find_key(s, other, 0);
        lemma_find_key(s, other, 0);
        assert(forall|j: int| 0 <= j < k ==> (#[trigger] t[j]).0 == s[j].0);
        if k < s.len() {
            lemma_find_key_is(t, other, 0, k);
        } else {
            lemma_find_key_is(t, other, 0, t.len() as int);
        }
    }
}

/// A table from strings to values.
#[derive(Debug)]
pub struct Assoc<T> {
    pub items: Vec<(String, T)>,
}

/// What each pair of a table holds.
pub open spec fn pairs<T: View>(s: Seq<(String, T)>) -> Seq<(Seq<char>, T::V)> {
    Seq::new(s.len(), |i: int| (s[i].0@, s[i].1@))
}

impl<T: View> View for Assoc<T> {
    type V = Seq<(Seq<char>, T::V)>;

    open spec fn view(&self) -> Seq<(Seq<char>, T::V)> {
        pairs(self.items@)
    }
}

impl<T: View> Assoc<T> {
    /// An empty table.
    pub fn new() -> (r: Self)
        ensures
            r@ == Seq::<(Seq<char>, T::V)>::empty(),
    {
        let r = Assoc { items: Vec::new() };
        assert(r@ =~= Seq::<(Seq<char>, T::V)>::empty());
        r
    }

    /// The index of a key.
    pub fn position(&self, key: &str) -> (r: Option<usize>)
        ensures
            match r {
                Some(i) => i < self@.len() && i == find_key(self@, key@, 0),
                None => find_key(self@, key@, 0) >= self@.len(),
            },
    {
        let mut i: usize = 0;
        while i < self.items.len()
            invariant
                i <= self.items@.len(),
                find_key(self@, key@, 0) == find_key(self@, key@, i as int),
            decreases self.items@.len() - i,
        {
            assert(self@[i as int].0 == self.items@[i as int].0@);
            if same(self.items[i].0.as_str(), key) {
                return Some(i);
            }
            i = i + 1;
        }
        None
    }

    /// The value of a key.
    pub fn get(&self, key: &str) -> (r: Option<&T>)
        ensures
            match r {
                Some(v) => lookup(self@, key@) == Some(v@),
                None => lookup(self@, key@) is None,
            },
    {
        match self.position(key) {
            Some(i) => Some(&self.items[i].1),
            None => None,
        }
    }

    /// Whether a key is known.
    pub fn contains_key(&self, key: &str) -> (b: bool)
        ensures
            b == (lookup(self@, key@) is Some),
    {
        match self.position(key) {
            Some(_) => true,
            None => false,
        }
    }

    /// Set a key.
    pub fn insert(&mut self, key: String, value: T)
        ensures
            final(self)@ == with_key(old(self)@, key@, value@),
    {
        match self.position(key.as_str()) {
            Some(i) => {
                self.items[i] = (key, value);
            },
            None => {
                self.items.push((key, value));
            },
        }
        assert(self@ =~= with_key(old(self)@, key@, value@));
    }
}

} // verus!
