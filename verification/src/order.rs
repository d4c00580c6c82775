//! Orderings used across the crate and a stable insertion sort.
//!
//! `lex_lt` is the order of `String`/`str` (`Ord`): lexicographic by code
//! point, a proper prefix first. `sort_seq` is the stable sort by a
//! `KeyOrder`: each element is inserted after every earlier element that is
//! not greater than it.

use vstd::prelude::*;

verus! {

/// Lexicographic `<` on character sequences (the `Ord` of `str`).
pub open spec fn lex_lt(a: Seq<char>, b: Seq<char>) -> bool
    decreases a.len(),
{
    if a.len() == 0 {
        b.len() > 0
    } else if b.len() == 0 {
        false
    } else if a[0] != b[0] {
        (a[0] as int) < (b[0] as int)
    } else {
        lex_lt(a.drop_first(), b.drop_first())
    }
}

/// Lexicographic `<=`.
pub open spec fn lex_le(a: Seq<char>, b: Seq<char>) -> bool {
    a == b || lex_lt(a, b)
}

/// `lex_lt` is irreflexive and asymmetric, and any two distinct sequences
/// are ordered one way.
pub proof fn lemma_lex_total(a: Seq<char>, b: Seq<char>)
    ensures
        !lex_lt(a, a),
        lex_lt(a, b) ==> !lex_lt(b, a),
        a != b ==> lex_lt(a, b) || lex_lt(b, a),
    decreases a.len(),
{
    if a.len() > 0 {
        lemma_lex_total(a.drop_first(), a.drop_first());
        if b.len() > 0 {
            lemma_lex_total(a.drop_first(), b.drop_first());
            if a[0] == b[0] && a != b {
                assert(a.drop_first() != b.drop_first()) by {
                    if a.drop_first() == b.drop_first() {
                        assert(a =~= seq![a[0]] + a.drop_first());
                        assert(b =~= seq![b[0]] + b.drop_first());
                    }
                }
            }
        }
    } else {
        if b.len() == 0 {
            assert(a =~= b);
        }
    }
}

/// `lex_lt` is transitive.
pub proof fn lemma_lex_trans(a: Seq<char>, b: Seq<char>, c: Seq<char>)
    requires
        lex_lt(a, b),
        lex_lt(b, c),
    ensures
        lex_lt(a, c),
    decreases a.len(),
{
    if a.len() > 0 && b.len() > 0 && c.len() > 0 && a[0] == b[0] && b[0] == c[0] {
        lemma_lex_trans(a.drop_first(), b.drop_first(), c.drop_first());
    }
}

/// Exec `lex_lt`.
pub fn lex_less(a: &[char], b: &[char]) -> (r: bool)
    ensures
        r == lex_lt(a@, b@),
{
    let mut i: usize = 0;
    assert(a@.skip(0) =~= a@);
    assert(b@.skip(0) =~= b@);
    while i < a.len() && i < b.len()
        invariant
            i <= a@.len(),
            i <= b@.len(),
            lex_lt(a@, b@) == lex_lt(a@.skip(i as int), b@.skip(i as int)),
        decreases a.len() - i,
    {
        if a[i] != b[i] {
            assert(a@.skip(i as int)[0] == a@[i as int]);
            assert(b@.skip(i as int)[0] == b@[i as int]);
            return a[i] < b[i];
        }
        assert(a@.skip(i as int).drop_first() =~= a@.skip(i + 1));
        assert(b@.skip(i as int).drop_first() =~= b@.skip(i + 1));
        i = i + 1;
    }
    i < b.len()
}

/// A key order for the stable sort: `le` is the "not greater than" test.
pub trait KeyOrder: Sized {
    /// `a` does not sort after `b`.
    spec fn key_le(a: Self, b: Self) -> bool;

    /// Exec `le`.
    fn le_exec(&self, other: &Self) -> (r: bool)
        ensures
            r == Self::key_le(*self, *other),
    ;
}

/// Insert `x` into `t` after the last position whose element is `le` `x`
/// (scanning from the right).
pub open spec fn insert_by<T: KeyOrder>(t: Seq<T>, x: T) -> Seq<T>
    decreases t.len(),
{
    if t.len() == 0 {
        seq![x]
    } else if T::key_le(t.last(), x) {
        t.push(x)
    } else {
        insert_by(t.drop_last(), x).push(t.last())
    }
}

/// Stable insertion sort of `s`.
pub open spec fn sort_seq<T: KeyOrder>(s: Seq<T>) -> Seq<T>
    decreases s.len(),
{
    if s.len() == 0 {
        s
    } else {
        insert_by(sort_seq(s.drop_last()), s.last())
    }
}

/// `insert_by` is `Seq::insert` at the first position from the right whose
/// left neighbour is `le` `x`.
pub proof fn lemma_insert_by_pos<T: KeyOrder>(t: Seq<T>, x: T, p: int)
    requires
        0 <= p <= t.len(),
        p == 0 || T::key_le(t[p - 1], x),
        forall|k: int| p <= k < t.len() ==> !T::key_le(#[trigger] t[k], x),
    ensures
        insert_by(t, x) == t.insert(p, x),
    decreases t.len(),
{
    if t.len() == 0 {
        assert(t.insert(p, x) =~= seq![x]);
    } else if p == t.len() {
        assert(t.insert(p, x) =~= t.push(x));
    } else {
        assert(!T::key_le(t[t.len() - 1], x));
        lemma_insert_by_pos(t.drop_last(), x, p);
        assert(t.drop_last().insert(p, x).push(t.last()) =~= t.insert(p, x));
    }
}

/// `insert_by` keeps every element and adds `x`.
pub proof fn lemma_insert_by_elems<T: KeyOrder>(t: Seq<T>, x: T)
    ensures
        insert_by(t, x).len() == t.len() + 1,
        insert_by(t, x).to_multiset() == t.to_multiset().insert(x),
    decreases t.len(),
{
    broadcast use vstd::seq_lib::group_to_multiset_ensures;

    if t.len() > 0 && !T::key_le(t.last(), x) {
        lemma_insert_by_elems(t.drop_last(), x);
        assert(t.drop_last().push(t.last()) =~= t);
    }
}

/// `sort_seq` is a permutation.
pub proof fn lemma_sort_elems<T: KeyOrder>(s: Seq<T>)
    ensures
        sort_seq(s).len() == s.len(),
        sort_seq(s).to_multiset() == s.to_multiset(),
    decreases s.len(),
{
    broadcast use vstd::seq_lib::group_to_multiset_ensures;

    if s.len() > 0 {
        lemma_sort_elems(s.drop_last());
        lemma_insert_by_elems(sort_seq(s.drop_last()), s.last());
        assert(s.drop_last().push(s.last()) =~= s);
    }
}

/// Stable sort of a vector by its `KeyOrder`.
pub fn sort_stable<T: KeyOrder>(v: Vec<T>) -> (r: Vec<T>)
    ensures
        r@ == sort_seq(v@),
{
    let ghost orig = v@;
    let mut rest = v;
    let mut out: Vec<T> = Vec::new();
    let n = rest.len();
    let mut i: usize = 0;
    while i < n
        invariant
            i <= n == orig.len(),
            rest@ == orig.skip(i as int),
            out@ == sort_seq(orig.take(i as int)),
        decreases n - i,
    {
        let x = rest.remove(0);
        assert(x == orig[i as int]);
        assert(rest@ =~= orig.skip(i + 1));
        let mut p = out.len();
        while p > 0 && !out[p - 1].le_exec(&x)
            invariant
                p <= out@.len(),
                forall|k: int| p <= k < out@.len() ==> !T::key_le(#[trigger] out@[k], x),
            decreases p,
        {
            p = p - 1;
        }
        proof {
            lemma_insert_by_pos(out@, x, p as int);
            assert(orig.take(i + 1).drop_last() =~= orig.take(i as int));
        }
        out.insert(p, x);
        i = i + 1;
    }
    assert(orig.take(n as int) =~= orig);
    out
}

/// A key order that is total and transitive sorts into non-decreasing order.
pub open spec fn is_total_order<T: KeyOrder>() -> bool {
    &&& forall|a: T, b: T| T::key_le(a, b) || T::key_le(b, a)
    &&& forall|a: T, b: T, c: T| T::key_le(a, b) && T::key_le(b, c) ==> T::key_le(a, c)
}

/// `t` is non-decreasing under the key order.
pub open spec fn sorted_by<T: KeyOrder>(t: Seq<T>) -> bool {
    forall|i: int, j: int| 0 <= i < j < t.len() ==> T::key_le(t[i], t[j])
}

proof fn lemma_insert_sorted<T: KeyOrder>(t: Seq<T>, x: T)
    requires
        is_total_order::<T>(),
        sorted_by(t),
    ensures
        sorted_by(insert_by(t, x)),
    decreases t.len(),
{
    if t.len() == 0 {
    } else if T::key_le(t.last(), x) {
        let r = t.push(x);
        assert forall|i: int, j: int| 0 <= i < j < r.len() implies T::key_le(r[i], r[j]) by {
            if j == t.len() && i < t.len() - 1 {
                assert(T::key_le(t[i], t[t.len() - 1]));
            }
        }
    } else {
        let u = t.drop_last();
        lemma_insert_sorted(u, x);
        lemma_insert_by_elems(u, x);
        let w = insert_by(u, x);
        let r = w.push(t.last());
        assert(T::key_le(x, t.last()));
        assert forall|i: int, j: int| 0 <= i < j < r.len() implies T::key_le(r[i], r[j]) by {
            if j == w.len() {
                // every element of w is either x or an element of u
                broadcast use vstd::seq_lib::group_to_multiset_ensures;

                assert(w.to_multiset().count(w[i]) > 0);
                assert(w.to_multiset() == u.to_multiset().insert(x));
                if w[i] != x {
                    assert(u.to_multiset().count(w[i]) > 0);
                    assert(u.contains(w[i]));
                    let k = choose|k: int| 0 <= k < u.len() && u[k] == w[i];
                    assert(T::key_le(t[k], t[t.len() - 1]));
                }
            }
        }
    }
}

/// Under a total, transitive key order the stable sort is sorted.
pub proof fn lemma_sort_sorted<T: KeyOrder>(s: Seq<T>)
    requires
        is_total_order::<T>(),
    ensures
        sorted_by(sort_seq(s)),
    decreases s.len(),
{
    if s.len() > 0 {
        lemma_sort_sorted(s.drop_last());
        lemma_insert_sorted(sort_seq(s.drop_last()), s.last());
    }
}

impl KeyOrder for String {
    open spec fn key_le(a: String, b: String) -> bool {
        !lex_lt(b@, a@)
    }

    fn le_exec(&self, other: &String) -> (r: bool) {
        let a = crate::text::chars_of(self.as_str());
        let b = crate::text::chars_of(other.as_str());
        !lex_less(&b, &a)
    }
}

/// Insert `x` into `t` after the last string that does not sort after it.
pub open spec fn insert_lex(t: Seq<Seq<char>>, x: Seq<char>) -> Seq<Seq<char>>
    decreases t.len(),
{
    if t.len() == 0 {
        seq![x]
    } else if !lex_lt(x, t.last()) {
        t.push(x)
    } else {
        insert_lex(t.drop_last(), x).push(t.last())
    }
}

/// Strings sorted (stably) into lexicographic order: what `sort` on a
/// `Vec<String>` gives.
pub open spec fn sort_lex(s: Seq<Seq<char>>) -> Seq<Seq<char>>
    decreases s.len(),
{
    if s.len() == 0 {
        s
    } else {
        insert_lex(sort_lex(s.drop_last()), s.last())
    }
}

proof fn lemma_insert_lex_views(t: Seq<String>, x: String)
    ensures
        crate::scope::string_views(insert_by(t, x)) == insert_lex(crate::scope::string_views(t), x@),
    decreases t.len(),
{
    let tv = crate::scope::string_views(t);
    if t.len() == 0 {
        assert(crate::scope::string_views(seq![x]) =~= seq![x@]);
    } else {
        assert(tv.last() == t.last()@);
        assert(crate::scope::string_views(t.drop_last()) =~= tv.drop_last());
        if !lex_lt(x@, t.last()@) {
            assert(crate::scope::string_views(t.push(x)) =~= tv.push(x@));
        } else {
            lemma_insert_lex_views(t.drop_last(), x);
            assert(crate::scope::string_views(insert_by(t.drop_last(), x).push(t.last()))
                =~= crate::scope::string_views(insert_by(t.drop_last(), x)).push(t.last()@));
        }
    }
}

/// Sorting strings commutes with taking their views.
pub proof fn lemma_sort_string_views(s: Seq<String>)
    ensures
        crate::scope::string_views(sort_seq(s)) == sort_lex(crate::scope::string_views(s)),
    decreases s.len(),
{
    if s.len() > 0 {
        lemma_sort_string_views(s.drop_last());
        lemma_insert_lex_views(sort_seq(s.drop_last()), s.last());
        assert(crate::scope::string_views(s.drop_last()) =~= crate::scope::string_views(s).drop_last());
    }
}

/// Sort strings lexicographically (stable; equal strings are identical).
pub fn sort_strings(v: Vec<String>) -> (r: Vec<String>)
    ensures
        crate::scope::string_views(r@) == sort_lex(crate::scope::string_views(v@)),
{
    let r = sort_stable(v);
    proof {
        lemma_sort_string_views(v@);
    }
    r
}

} // verus!
