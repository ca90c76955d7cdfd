use vstd::prelude::*;

use crate::model::vec_view;
use crate::text::chars_of;

verus! {

/// An element type with an order for stable sorting: `goes_first(a, b)` holds when an element
/// viewed as `a` must be placed before one viewed as `b` (its key is strictly smaller).
pub trait SortKeyed: View + Sized {
    spec fn goes_first(a: Self::V, b: Self::V) -> bool;

    fn goes_first_exec(a: &Self, b: &Self) -> (r: bool)
        ensures
            r == Self::goes_first(a@, b@),
    ;
}

/// `s` with `x` inserted after every element that `x` does not have to precede.
pub open spec fn insert_stable<T: SortKeyed>(s: Seq<T::V>, x: T::V) -> Seq<T::V>
    decreases s.len(),
{
    if s.len() == 0 {
        seq![x]
    } else if T::goes_first(x, s.last()) {
        insert_stable::<T>(s.drop_last(), x).push(s.last())
    } else {
        s.push(x)
    }
}

/// The stable sort of `s` (elements with equal keys keep their order).
pub open spec fn sort_stable<T: SortKeyed>(s: Seq<T::V>) -> Seq<T::V>
    decreases s.len(),
{
    if s.len() == 0 {
        seq![]
    } else {
        insert_stable::<T>(sort_stable::<T>(s.drop_last()), s.last())
    }
}

proof fn lemma_insert_at<T: SortKeyed>(s: Seq<T::V>, x: T::V, p: int)
    requires
        0 <= p <= s.len(),
        forall|k: int| p <= k < s.len() ==> T::goes_first(x, #[trigger] s[k]),
        p == 0 || !T::goes_first(x, s[p - 1]),
    ensures
        insert_stable::<T>(s, x) == s.insert(p, x),
    decreases s.len(),
{
    if s.len() == 0 {
        assert(s.insert(p, x) =~= seq![x]);
    } else if p == s.len() {
        assert(s.insert(p, x) =~= s.push(x));
    } else {
        assert(T::goes_first(x, s[s.len() - 1]));
        let d = s.drop_last();
        assert forall|k: int| p <= k < d.len() implies T::goes_first(x, #[trigger] d[k]) by {
            assert(d[k] == s[k]);
        }
        lemma_insert_at::<T>(d, x, p);
        assert(d.insert(p, x).push(s.last()) =~= s.insert(p, x));
    }
}

proof fn lemma_insert_members<T: SortKeyed>(s: Seq<T::V>, x: T::V)
    ensures
        insert_stable::<T>(s, x).len() == s.len() + 1,
        forall|i: int|
            0 <= i < s.len() + 1 ==> #[trigger] insert_stable::<T>(s, x)[i] == x || s.contains(
                insert_stable::<T>(s, x)[i],
            ),
    decreases s.len(),
{
    if s.len() > 0 && T::goes_first(x, s.last()) {
        let d = s.drop_last();
        lemma_insert_members::<T>(d, x);
        assert forall|i: int| 0 <= i < s.len() + 1 implies #[trigger] insert_stable::<T>(s, x)[i]
            == x || s.contains(insert_stable::<T>(s, x)[i]) by {
            if i < s.len() {
                let y = insert_stable::<T>(d, x)[i];
                if y != x {
                    let j = choose|j: int| 0 <= j < d.len() && d[j] == y;
                    assert(s[j] == y);
                }
            } else {
                assert(s[s.len() - 1] == s.last());
            }
        }
    } else if s.len() > 0 {
        assert forall|i: int| 0 <= i < s.len() + 1 implies #[trigger] insert_stable::<T>(s, x)[i]
            == x || s.contains(insert_stable::<T>(s, x)[i]) by {
            if i < s.len() {
                assert(s.push(x)[i] == s[i]);
            }
        }
    }
}

/// Sorting keeps the length, and every element of the result is an element of the input.
pub proof fn sorting_keeps_members<T: SortKeyed>(s: Seq<T::V>)
    ensures
        sort_stable::<T>(s).len() == s.len(),
        forall|i: int| 0 <= i < s.len() ==> s.contains(#[trigger] sort_stable::<T>(s)[i]),
    decreases s.len(),
{
    if s.len() > 0 {
        let d = s.drop_last();
        sorting_keeps_members::<T>(d);
        lemma_insert_members::<T>(sort_stable::<T>(d), s.last());
        assert forall|i: int| 0 <= i < s.len() implies s.contains(#[trigger] sort_stable::<T>(s)[i]) by {
            let y = sort_stable::<T>(s)[i];
            if y == s.last() {
                assert(s[s.len() - 1] == y);
            } else {
                let j = choose|j: int| 0 <= j < d.len() && sort_stable::<T>(d)[j] == y;
                let k = choose|k: int| 0 <= k < d.len() && d[k] == y;
                assert(s[k] == y);
            }
        }
    }
}

proof fn lemma_insert_keeps<T: SortKeyed>(s: Seq<T::V>, x: T::V)
    ensures
        insert_stable::<T>(s, x).contains(x),
        forall|i: int| 0 <= i < s.len() ==> insert_stable::<T>(s, x).contains(#[trigger] s[i]),
    decreases s.len(),
{
    let r = insert_stable::<T>(s, x);
    if s.len() == 0 {
        assert(r[0] == x);
    } else if T::goes_first(x, s.last()) {
        let d = s.drop_last();
        lemma_insert_keeps::<T>(d, x);
        let rd = insert_stable::<T>(d, x);
        assert(r == rd.push(s.last()));
        let j = choose|j: int| 0 <= j < rd.len() && rd[j] == x;
        assert(r[j] == x);
        assert forall|i: int| 0 <= i < s.len() implies r.contains(#[trigger] s[i]) by {
            if i < d.len() {
                assert(d[i] == s[i]);
                let k = choose|k: int| 0 <= k < rd.len() && rd[k] == d[i];
                assert(r[k] == s[i]);
            } else {
                assert(r[rd.len() as int] == s[i]);
            }
        }
    } else {
        assert(r == s.push(x));
        assert(r[s.len() as int] == x);
        assert forall|i: int| 0 <= i < s.len() implies r.contains(#[trigger] s[i]) by {
            assert(r[i] == s[i]);
        }
    }
}

/// Sorting loses no element: every element of the input occurs in the result.
pub proof fn sorting_loses_nothing<T: SortKeyed>(s: Seq<T::V>)
    ensures
        forall|i: int| 0 <= i < s.len() ==> sort_stable::<T>(s).contains(#[trigger] s[i]),
    decreases s.len(),
{
    if s.len() > 0 {
        let d = s.drop_last();
        sorting_loses_nothing::<T>(d);
        let sd = sort_stable::<T>(d);
        lemma_insert_keeps::<T>(sd, s.last());
        assert forall|i: int| 0 <= i < s.len() implies sort_stable::<T>(s).contains(#[trigger] s[i]) by {
            if i < d.len() {
                assert(d[i] == s[i]);
                let k = choose|k: int| 0 <= k < sd.len() && sd[k] == d[i];
                assert(sd.contains(sd[k]));
            }
        }
    }
}

proof fn lemma_insert_mapped_multiset<T: SortKeyed, B>(s: Seq<T::V>, x: T::V, f: spec_fn(T::V) -> B)
    ensures
        insert_stable::<T>(s, x).map_values(f).to_multiset() =~= s.map_values(f).to_multiset().insert(
            f(x),
        ),
    decreases s.len(),
{
    broadcast use vstd::seq_lib::group_to_multiset_ensures;
    broadcast use vstd::multiset::group_multiset_axioms;

    if s.len() == 0 {
        assert(insert_stable::<T>(s, x).map_values(f) =~= s.map_values(f).push(f(x)));
    } else if T::goes_first(x, s.last()) {
        let d = s.drop_last();
        lemma_insert_mapped_multiset::<T, B>(d, x, f);
        assert(insert_stable::<T>(s, x).map_values(f) =~= insert_stable::<T>(d, x).map_values(f).push(
            f(s.last()),
        ));
        assert(s.map_values(f) =~= d.map_values(f).push(f(s.last())));
    } else {
        assert(insert_stable::<T>(s, x).map_values(f) =~= s.map_values(f).push(f(x)));
    }
}

/// Sorting keeps the multiset of any view of the elements.
pub proof fn sorting_keeps_mapped_multiset<T: SortKeyed, B>(s: Seq<T::V>, f: spec_fn(T::V) -> B)
    ensures
        sort_stable::<T>(s).map_values(f).to_multiset() =~= s.map_values(f).to_multiset(),
    decreases s.len(),
{
    broadcast use vstd::seq_lib::group_to_multiset_ensures;

    if s.len() > 0 {
        let d = s.drop_last();
        sorting_keeps_mapped_multiset::<T, B>(d, f);
        lemma_insert_mapped_multiset::<T, B>(sort_stable::<T>(d), s.last(), f);
        assert(s.map_values(f) =~= d.map_values(f).push(f(s.last())));
    } else {
        assert(s.map_values(f) =~= Seq::<B>::empty());
        assert(sort_stable::<T>(s).map_values(f) =~= Seq::<B>::empty());
    }
}

/// Sorts `v` stably by the order of `T`.
pub fn stable_sort<T: SortKeyed>(v: Vec<T>) -> (r: Vec<T>)
    ensures
        vec_view(r@) == sort_stable::<T>(vec_view(v@)),
{
    let ghost orig = vec_view(v@);
    let mut rest = v;
    let mut out: Vec<T> = Vec::new();
    let ghost mut i: int = 0;
    while rest.len() > 0
        invariant
            0 <= i <= orig.len(),
            vec_view(rest@) == orig.skip(i),
            vec_view(out@) == sort_stable::<T>(orig.take(i)),
        decreases rest@.len(),
    {
        let ghost rest0 = rest@;
        let x = rest.remove(0);
        proof {
            assert(vec_view(rest0).len() == rest0.len());
            assert(i < orig.len());
            assert(orig.skip(i)[0] == vec_view(rest0)[0]);
            assert(rest@ =~= rest0.drop_first());
            assert forall|k: int| 0 <= k < rest@.len() implies #[trigger] vec_view(rest@)[k]
                == orig.skip(i + 1)[k] by {
                assert(rest@[k] == rest0[k + 1]);
                assert(vec_view(rest0)[k + 1] == orig.skip(i)[k + 1]);
            }
            assert(vec_view(rest@) =~= orig.skip(i + 1));
            assert(orig.take(i + 1).drop_last() =~= orig.take(i));
            assert(orig.take(i + 1).last() == x@);
        }
        let mut p = out.len();
        while p > 0 && T::goes_first_exec(&x, &out[p - 1])
            invariant
                0 <= p <= out@.len(),
                forall|k: int| p <= k < out@.len() ==> T::goes_first(x@, #[trigger] out@[k]@),
            decreases p,
        {
            p = p - 1;
        }
        let ghost before = out@;
        proof {
            let vb = vec_view(before);
            assert forall|k: int| p <= k < vb.len() implies T::goes_first(x@, #[trigger] vb[k]) by {
                assert(vb[k] == before[k]@);
            }
            if p > 0 {
                assert(vb[p - 1] == before[p - 1]@);
            }
            lemma_insert_at::<T>(vb, x@, p as int);
        }
        out.insert(p, x);
        proof {
            assert(vec_view(out@) =~= vec_view(before).insert(p as int, x@));
            i = i + 1;
        }
    }
    assert(orig.take(i) =~= orig);
    out
}

/// No element must precede an element ahead of it.
pub open spec fn sorted_by<T: SortKeyed>(s: Seq<T::V>) -> bool {
    forall|i: int, j: int| 0 <= i < j < s.len() ==> !T::goes_first(#[trigger] s[j], #[trigger] s[i])
}

/// The order of `T` is a strict weak order: asymmetric, and an element that precedes `b`
/// precedes everything that `b` does not follow.
pub open spec fn strict_weak_order<T: SortKeyed>() -> bool {
    &&& forall|a: T::V, b: T::V| #[trigger] T::goes_first(a, b) ==> !T::goes_first(b, a)
    &&& forall|a: T::V, b: T::V, c: T::V|
        #[trigger] T::goes_first(a, b) && !#[trigger] T::goes_first(c, b) ==> T::goes_first(a, c)
}

proof fn lemma_insert_sorted<T: SortKeyed>(s: Seq<T::V>, x: T::V)
    requires
        strict_weak_order::<T>(),
        sorted_by::<T>(s),
    ensures
        sorted_by::<T>(insert_stable::<T>(s, x)),
    decreases s.len(),
{
    lemma_insert_members::<T>(s, x);
    let r = insert_stable::<T>(s, x);
    if s.len() == 0 {
        assert(r =~= seq![x]);
    } else if T::goes_first(x, s.last()) {
        let d = s.drop_last();
        assert(sorted_by::<T>(d)) by {
            assert forall|i: int, j: int| 0 <= i < j < d.len() implies !T::goes_first(
                #[trigger] d[j],
                #[trigger] d[i],
            ) by {
                assert(d[i] == s[i] && d[j] == s[j]);
            }
        }
        lemma_insert_sorted::<T>(d, x);
        lemma_insert_members::<T>(d, x);
        let p = insert_stable::<T>(d, x);
        assert(r == p.push(s.last()));
        assert forall|i: int, j: int| 0 <= i < j < r.len() implies !T::goes_first(
            #[trigger] r[j],
            #[trigger] r[i],
        ) by {
            if j == r.len() - 1 {
                assert(r[j] == s.last());
                assert(r[i] == p[i]);
                if p[i] != x {
                    let k = choose|k: int| 0 <= k < d.len() && d[k] == p[i];
                    assert(s[k] == p[i]);
                    assert(s[s.len() - 1] == s.last());
                }
            } else {
                assert(r[i] == p[i] && r[j] == p[j]);
            }
        }
    } else {
        assert(r == s.push(x));
        assert forall|i: int, j: int| 0 <= i < j < r.len() implies !T::goes_first(
            #[trigger] r[j],
            #[trigger] r[i],
        ) by {
            if j == r.len() - 1 {
                assert(r[j] == x && r[i] == s[i]);
                let l = s.last();
                assert(s[s.len() - 1] == l);
                if i < s.len() - 1 && T::goes_first(x, s[i]) {
                    assert(!T::goes_first(l, s[i]));
                    assert(T::goes_first(x, l));
                }
            } else {
                assert(r[i] == s[i] && r[j] == s[j]);
            }
        }
    }
}

/// Under a strict weak order, stable sorting leaves no element ahead of one it must precede.
pub proof fn sorting_sorts<T: SortKeyed>(s: Seq<T::V>)
    requires
        strict_weak_order::<T>(),
    ensures
        sorted_by::<T>(sort_stable::<T>(s)),
    decreases s.len(),
{
    if s.len() == 0 {
        assert(sort_stable::<T>(s) =~= Seq::<T::V>::empty());
    } else {
        sorting_sorts::<T>(s.drop_last());
        lemma_insert_sorted::<T>(sort_stable::<T>(s.drop_last()), s.last());
    }
}

/// Lexicographic order of character sequences, by code point.
pub open spec fn chars_lt(a: Seq<char>, b: Seq<char>) -> bool
    decreases a.len(),
{
    if a.len() == 0 {
        b.len() > 0
    } else if b.len() == 0 {
        false
    } else if a[0] != b[0] {
        (a[0] as int) < (b[0] as int)
    } else {
        chars_lt(a.drop_first(), b.drop_first())
    }
}

/// No sequence sorts strictly before itself.
pub proof fn lemma_chars_lt_irreflexive(a: Seq<char>)
    ensures
        !chars_lt(a, a),
    decreases a.len(),
{
    if a.len() > 0 {
        lemma_chars_lt_irreflexive(a.drop_first());
    }
}

/// The order of character sequences is transitive.
pub proof fn lemma_chars_lt_transitive(a: Seq<char>, b: Seq<char>, c: Seq<char>)
    requires
        chars_lt(a, b),
        chars_lt(b, c),
    ensures
        chars_lt(a, c),
    decreases a.len(),
{
    if a.len() > 0 && a[0] == b[0] && b[0] == c[0] {
        lemma_chars_lt_transitive(a.drop_first(), b.drop_first(), c.drop_first());
    }
}

/// Two different character sequences are ordered one way or the other.
pub proof fn lemma_chars_lt_total(a: Seq<char>, b: Seq<char>)
    requires
        a != b,
    ensures
        chars_lt(a, b) || chars_lt(b, a),
    decreases a.len(),
{
    if a.len() == 0 && b.len() == 0 {
        assert(a =~= b);
    } else if a.len() > 0 && b.len() > 0 && a[0] == b[0] {
        if a.drop_first() == b.drop_first() {
            assert(a =~= seq![a[0]] + a.drop_first());
            assert(b =~= seq![b[0]] + b.drop_first());
        }
        lemma_chars_lt_total(a.drop_first(), b.drop_first());
    } else if a.len() > 0 && b.len() > 0 {
        assert((a[0] as int) != (b[0] as int));
    }
}

/// At most one of two sequences sorts before the other.
pub proof fn lemma_chars_lt_asymmetric(a: Seq<char>, b: Seq<char>)
    requires
        chars_lt(a, b),
    ensures
        !chars_lt(b, a),
{
    if chars_lt(b, a) {
        lemma_chars_lt_transitive(a, b, a);
        lemma_chars_lt_irreflexive(a);
    }
}

/// Whether `a` sorts strictly before `b` as a string.
pub fn str_lt(a: &str, b: &str) -> (r: bool)
    ensures
        r == chars_lt(a@, b@),
{
    let x = chars_of(a);
    let y = chars_of(b);
    let mut i: usize = 0;
    assert(a@.skip(0) =~= a@);
    assert(b@.skip(0) =~= b@);
    while i < x.len() && i < y.len()
        invariant
            x@ == a@,
            y@ == b@,
            i <= x@.len(),
            i <= y@.len(),
            chars_lt(a@, b@) == chars_lt(a@.skip(i as int), b@.skip(i as int)),
        decreases x@.len() - i,
    {
        let ghost (sa, sb) = (a@.skip(i as int), b@.skip(i as int));
        assert(sa[0] == x@[i as int] && sb[0] == y@[i as int]);
        if x[i] != y[i] {
            return x[i] < y[i];
        }
        assert(sa.drop_first() =~= a@.skip(i + 1));
        assert(sb.drop_first() =~= b@.skip(i + 1));
        i = i + 1;
    }
    i < y.len()
}

} // verus!
