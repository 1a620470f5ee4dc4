//! Putting things in order.

use crate::strings::{copy, to_chars, views};
use vstd::prelude::*;

verus! {

/// Whether `a` comes before `b` in the order of chars, or is `b`, from index
/// `i` on.
pub open spec fn lex_le(a: Seq<char>, b: Seq<char>, i: int) -> bool
    decreases a.len() - i,
{
    if i < 0 || i >= a.len() {
        true
    } else if i >= b.len() {
        false
    } else if a[i] == b[i] {
        lex_le(a, b, i + 1)
    } else {
        a[i] < b[i]
    }
}

/// The list with an item put in behind all that may stand before it, counted
/// from the end.
pub open spec fn put_in<T>(s: Seq<T>, x: T, le: spec_fn(T, T) -> bool) -> Seq<T>
    decreases s.len(),
{
    if s.len() == 0 || le(s.last(), x) {
        s.push(x)
    } else {
        put_in(s.drop_last(), x, le).push(s.last())
    }
}

/// The list sorted, items that are equal in the order staying as they were.
pub open spec fn in_order<T>(s: Seq<T>, le: spec_fn(T, T) -> bool) -> Seq<T>
    decreases s.len(),
{
    if s.len() == 0 {
        s
    } else {
        put_in(in_order(s.drop_last(), le), s.last(), le)
    }
}

/// Whether each item of a list may stand before all that follow it.
pub open spec fn is_ordered<T>(s: Seq<T>, le: spec_fn(T, T) -> bool) -> bool {
    forall|i: int, j: int| 0 <= i < j < s.len() ==> le(#[trigger] s[i], #[trigger] s[j])
}

/// Whether any two items can be ordered, and orders chain.
pub open spec fn orders<T>(le: spec_fn(T, T) -> bool) -> bool {
    &&& forall|a: T, b: T| #[trigger] le(a, b) || le(b, a)
    &&& forall|a: T, b: T, c: T| #[trigger] le(a, b) && #[trigger] le(b, c) ==> le(a, c)
}

proof fn lemma_put_in<T>(s: Seq<T>, x: T, le: spec_fn(T, T) -> bool)
    requires
        orders(le),
        is_ordered(s, le),
    ensures
        is_ordered(put_in(s, x, le), le),
        put_in(s, x, le).len() == s.len() + 1,
        put_in(s, x, le).to_multiset() == s.to_multiset().insert(x),
    decreases s.len(),
{
    broadcast use vstd::seq_lib::group_to_multiset_ensures;

    let r = put_in(s, x, le);
    if s.len() == 0 || le(s.last(), x) {
        assert forall|i: int, j: int| 0 <= i < j < r.len() implies le(
            #[trigger] r[i],
            #[trigger] r[j],
        ) by {
            if j == s.len() {
                if i < s.len() - 1 {
                    assert(le(s[i], s[s.len() - 1]));
                }
            }
        }
    } else {
        let t = s.drop_last();
        let p = put_in(t, x, le);
        lemma_put_in(t, x, le);
        assert(le(x, s.last()));
        lemma_put_in_members(t, x, le);
        assert forall|i: int, j: int| 0 <= i < j < r.len() implies le(
            #[trigger] r[i],
            #[trigger] r[j],
        ) by {
            if j == p.len() {
                assert(p[i] == x || t.contains(p[i]));
                if p[i] != x {
                    let k = t.index_of(p[i]);
                    assert(s[k] == p[i]);
                    assert(le(s[k], s[s.len() - 1]));
                }
            }
        }
        assert(s =~= t.push(s.last()));
        assert(r.to_multiset() =~= s.to_multiset().insert(x));
    }
}

proof fn lemma_put_in_members<T>(s: Seq<T>, x: T, le: spec_fn(T, T) -> bool)
    ensures
        put_in(s, x, le).len() == s.len() + 1,
        forall|i: int|
            0 <= i < put_in(s, x, le).len() ==> (#[trigger] put_in(s, x, le)[i]) == x
                || s.contains(put_in(s, x, le)[i]),
    decreases s.len(),
{
    let r = put_in(s, x, le);
    if s.len() == 0 || le(s.last(), x) {
        assert forall|i: int| 0 <= i < r.len() implies (#[trigger] r[i]) == x || s.contains(
            r[i],
        ) by {
            if i < s.len() {
                assert(s[i] == r[i]);
            }
        }
    } else {
        let t = s.drop_last();
        lemma_put_in_members(t, x, le);
        let p = put_in(t, x, le);
        assert forall|i: int| 0 <= i < r.len() implies (#[trigger] r[i]) == x || s.contains(
            r[i],
        ) by {
            if i < p.len() {
                assert(p[i] == x || t.contains(p[i]));
                if t.contains(p[i]) {
                    assert(s[t.index_of(p[i])] == p[i]);
                }
            } else {
                assert(s[s.len() - 1] == r[i]);
            }
        }
    }
}

/// Sorting orders a list and neither adds nor loses an item.
pub proof fn law_in_order<T>(s: Seq<T>, le: spec_fn(T, T) -> bool)
    requires
        orders(le),
    ensures
        is_ordered(in_order(s, le), le),
        in_order(s, le).to_multiset() == s.to_multiset(),
    decreases s.len(),
{
    broadcast use vstd::seq_lib::group_to_multiset_ensures;

    if s.len() > 0 {
        let t = s.drop_last();
        law_in_order(t, le);
        lemma_put_in(in_order(t, le), s.last(), le);
        assert(s =~= t.push(s.last()));
    }
}

/// The order of names.
pub open spec fn name_le() -> spec_fn(Seq<char>, Seq<char>) -> bool {
    |a: Seq<char>, b: Seq<char>| lex_le(a, b, 0)
}

proof fn lemma_lex_total(a: Seq<char>, b: Seq<char>, i: int)
    requires
        0 <= i,
    ensures
        lex_le(a, b, i) || lex_le(b, a, i),
    decreases a.len() - i,
{
    if i < a.len() && i < b.len() && a[i] == b[i] {
        lemma_lex_total(a, b, i + 1);
    }
}

proof fn lemma_lex_chain(a: Seq<char>, b: Seq<char>, c: Seq<char>, i: int)
    requires
        0 <= i,
        lex_le(a, b, i),
        lex_le(b, c, i),
    ensures
        lex_le(a, c, i),
    decreases a.len() - i,
{
    if i < a.len() && i < b.len() && i < c.len() && a[i] == b[i] && b[i] == c[i] {
        lemma_lex_chain(a, b, c, i + 1);
    }
}

/// Names can be ordered.
pub proof fn law_names_order()
    ensures
        orders(name_le()),
{
    let le = name_le();
    assert forall|a: Seq<char>, b: Seq<char>| #[trigger] le(a, b) || le(b, a) by {
        lemma_lex_total(a, b, 0);
    }
    assert forall|a: Seq<char>, b: Seq<char>, c: Seq<char>| #[trigger]
        le(a, b) && #[trigger] le(b, c) implies le(a, c) by {
        lemma_lex_chain(a, b, c, 0);
    }
}

/// Whether `a` comes before `b` in the order of chars, or is `b`.
pub fn lex_not_after(a: &str, b: &str) -> (r: bool)
    ensures
        r == lex_le(a@, b@, 0),
{
    let v = to_chars(a);
    let w = to_chars(b);
    let mut i: usize = 0;
    while i < v.len()
        invariant
            i <= v@.len(),
            v@ == a@,
            w@ == b@,
            lex_le(a@, b@, 0) == lex_le(a@, b@, i as int),
        decreases v@.len() - i,
    {
        if i >= w.len() {
            return false;
        }
        if v[i] != w[i] {
            return v[i] < w[i];
        }
        i = i + 1;
    }
    true
}

fn insert_name(s: &mut Vec<String>, x: String)
    ensures
        views(final(s)@) == put_in(views(old(s)@), x@, name_le()),
{
    let ghost all = views(s@);
    let ghost le = name_le();
    let mut i: usize = s.len();
    assert(all.take(i as int) =~= all);
    assert(put_in(all, x@, le) =~= put_in(all.take(i as int), x@, le) + all.skip(i as int));
    while i > 0 && !lex_not_after(s[i - 1].as_str(), x.as_str())
        invariant
            i <= s@.len(),
            s@ == old(s)@,
            all == views(s@),
            le == name_le(),
            put_in(all, x@, le) == put_in(all.take(i as int), x@, le) + all.skip(i as int),
        decreases i,
    {
        assert(all.take(i as int).drop_last() =~= all.take(i - 1));
        assert(all.take(i as int).last() == all[i - 1]);
        assert(put_in(all.take(i - 1), x@, le).push(all[i - 1]) + all.skip(i as int) =~= put_in(
            all.take(i - 1),
            x@,
            le,
        ) + all.skip(i - 1));
        i = i - 1;
    }
    assert(i > 0 ==> all.take(i as int).last() == all[i - 1]);
    s.insert(i, x);
    assert(views(s@) =~= all.take(i as int).push(x@) + all.skip(i as int));
}

/// Names in order.
pub fn sort_names(names: &Vec<String>) -> (r: Vec<String>)
    ensures
        views(r@) == in_order(views(names@), name_le()),
{
    let ghost all = views(names@);
    let mut r: Vec<String> = Vec::new();
    assert(views(r@) =~= Seq::<Seq<char>>::empty());
    assert(all.take(0) =~= Seq::<Seq<char>>::empty());
    for i in 0..names.len()
        invariant
            all == views(names@),
            views(r@) == in_order(all.take(i as int), name_le()),
    {
        assert(all.take(i + 1).drop_last() =~= all.take(i as int));
        assert(all.take(i + 1).last() == names@[i as int]@);
        insert_name(&mut r, copy(names[i].as_str()));
    }
    assert(all.take(all.len() as int) =~= all);
    r
}

} // verus!
