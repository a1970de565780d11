//! Stable insertion sort over a key order that the element type supplies.
use vstd::prelude::*;

verus! {

/// A total preorder on a type: `precedes(a, b)` lets `a` stand before `b`.
pub trait SpecOrder: Sized {
    spec fn precedes(&self, other: &Self) -> bool;

    proof fn lemma_total(a: &Self, b: &Self)
        ensures
            a.precedes(b) || b.precedes(a),
    ;

    proof fn lemma_transitive(a: &Self, b: &Self, c: &Self)
        requires
            a.precedes(b),
            b.precedes(c),
        ensures
            a.precedes(c),
    ;
}

/// A total preorder that running code can test.
pub trait SortOrder: SpecOrder {
    fn precedes_exec(&self, other: &Self) -> (r: bool)
        ensures
            r == self.precedes(other),
    ;
}

/// Inserts `x` after every trailing element that may stand before it.
pub open spec fn insert_sorted<T: SpecOrder>(s: Seq<T>, x: T) -> Seq<T>
    decreases s.len(),
{
    if s.len() == 0 || s.last().precedes(&x) {
        s.push(x)
    } else {
        insert_sorted(s.drop_last(), x).push(s.last())
    }
}

/// The stable sort of a sequence: elements are inserted in order, so equal
/// elements keep their relative order.
pub open spec fn sort_stable<T: SpecOrder>(s: Seq<T>) -> Seq<T>
    decreases s.len(),
{
    if s.len() == 0 {
        s
    } else {
        insert_sorted(sort_stable(s.drop_last()), s.last())
    }
}

/// Every element may stand before every later one.
pub open spec fn is_sorted<T: SpecOrder>(s: Seq<T>) -> bool {
    forall|i: int, j: int| 0 <= i < j < s.len() ==> s[i].precedes(&s[j])
}

proof fn lemma_insert_at<T: SpecOrder>(s: Seq<T>, x: T, j: int)
    requires
        0 <= j <= s.len(),
        j == 0 || s[j - 1].precedes(&x),
        forall|k: int| j <= k < s.len() ==> !#[trigger] s[k].precedes(&x),
    ensures
        insert_sorted(s, x) == s.insert(j, x),
    decreases s.len() - j,
{
    if j < s.len() {
        assert(!s[s.len() - 1].precedes(&x));
        lemma_insert_at(s.drop_last(), x, j);
        assert(s.drop_last().insert(j, x).push(s.last()) =~= s.insert(j, x));
    } else {
        assert(s.push(x) =~= s.insert(j, x));
    }
}

proof fn lemma_insert_sorted_keeps_sorted<T: SpecOrder>(s: Seq<T>, x: T)
    requires
        is_sorted(s),
    ensures
        is_sorted(insert_sorted(s, x)),
        insert_sorted(s, x).len() == s.len() + 1,
        forall|k: int| 0 <= k < s.len() + 1 ==> (#[trigger] insert_sorted(s, x)[k] == x || s.contains(insert_sorted(s, x)[k])),
    decreases s.len(),
{
    let r = insert_sorted(s, x);
    if s.len() == 0 {
    } else if s.last().precedes(&x) {
        assert forall|i: int, j: int| 0 <= i < j < r.len() implies r[i].precedes(&r[j]) by {
            if j == s.len() {
                if i < s.len() - 1 {
                    T::lemma_transitive(&s[i], &s.last(), &x);
                }
            }
        }
        assert forall|k: int| 0 <= k < s.len() + 1 implies (#[trigger] r[k] == x || s.contains(r[k])) by {
            if k < s.len() {
                assert(s[k] == r[k]);
            }
        }
    } else {
        let t = s.drop_last();
        lemma_insert_sorted_keeps_sorted(t, x);
        let rt = insert_sorted(t, x);
        T::lemma_total(&s.last(), &x);
        assert forall|k: int| 0 <= k < rt.len() implies #[trigger] rt[k].precedes(&s.last()) by {
            if rt[k] == x {
            } else {
                assert(t.contains(rt[k]));
                let m = choose|m: int| 0 <= m < t.len() && t[m] == rt[k];
                assert(s[m] == t[m]);
            }
        }
        assert forall|i: int, j: int| 0 <= i < j < r.len() implies r[i].precedes(&r[j]) by {
            if j == r.len() - 1 {
                assert(r[i] == rt[i]);
            } else {
                assert(r[i] == rt[i] && r[j] == rt[j]);
            }
        }
        assert forall|k: int| 0 <= k < s.len() + 1 implies (#[trigger] r[k] == x || s.contains(r[k])) by {
            if k == s.len() {
                assert(r[k] == s[s.len() - 1]);
            } else {
                assert(r[k] == rt[k]);
                if rt[k] != x {
                    let m = choose|m: int| 0 <= m < t.len() && t[m] == rt[k];
                    assert(s[m] == t[m]);
                }
            }
        }
    }
}

/// The stable sort orders its result.
pub proof fn lemma_sort_stable_sorted<T: SpecOrder>(s: Seq<T>)
    ensures
        is_sorted(sort_stable(s)),
        sort_stable(s).len() == s.len(),
    decreases s.len(),
{
    if s.len() > 0 {
        lemma_sort_stable_sorted(s.drop_last());
        lemma_insert_sorted_keeps_sorted(sort_stable(s.drop_last()), s.last());
    }
}

/// Every element of the stable sort comes from the input.
pub proof fn lemma_sort_stable_contains<T: SpecOrder>(s: Seq<T>)
    ensures
        sort_stable(s).len() == s.len(),
        forall|k: int| 0 <= k < s.len() ==> s.contains(#[trigger] sort_stable(s)[k]),
    decreases s.len(),
{
    if s.len() > 0 {
        let t = s.drop_last();
        lemma_sort_stable_contains(t);
        lemma_sort_stable_sorted(t);
        lemma_insert_sorted_keeps_sorted(sort_stable(t), s.last());
        let r = sort_stable(s);
        assert forall|k: int| 0 <= k < s.len() implies s.contains(#[trigger] r[k]) by {
            if r[k] == s.last() {
                assert(s[s.len() - 1] == r[k]);
            } else {
                assert(sort_stable(t).contains(r[k]));
                let m = choose|m: int| 0 <= m < sort_stable(t).len() && sort_stable(t)[m] == r[k];
                assert(t.contains(sort_stable(t)[m]));
                let n = choose|n: int| 0 <= n < t.len() && t[n] == sort_stable(t)[m];
                assert(s[n] == t[n]);
            }
        }
    }
}

/// Two sequences hold elements of equal views, position by position.
pub open spec fn view_eq_seq<T: View>(a: Seq<T>, b: Seq<T>) -> bool {
    a.len() == b.len() && forall|i: int| 0 <= i < a.len() ==> #[trigger] a[i]@ == b[i]@
}

/// The order looks at views only.
pub open spec fn order_by_view<T: SpecOrder + View>() -> bool {
    forall|x: T, y: T, x2: T, y2: T|
        x@ == x2@ && y@ == y2@ ==> #[trigger] x.precedes(&y) == #[trigger] x2.precedes(&y2)
}

proof fn lemma_insert_sorted_view<T: SpecOrder + View>(s: Seq<T>, t: Seq<T>, x: T, y: T)
    requires
        order_by_view::<T>(),
        view_eq_seq(s, t),
        x@ == y@,
    ensures
        view_eq_seq(insert_sorted(s, x), insert_sorted(t, y)),
    decreases s.len(),
{
    if s.len() > 0 {
        assert(s.last()@ == t.last()@);
        assert(s.last().precedes(&x) == t.last().precedes(&y));
        if s.last().precedes(&x) {
            assert forall|i: int| 0 <= i < s.len() + 1 implies #[trigger] s.push(x)[i]@ == t.push(y)[i]@ by {
                if i < s.len() {
                    assert(s[i]@ == t[i]@);
                }
            }
        } else {
            let (s1, t1) = (s.drop_last(), t.drop_last());
            assert forall|i: int| 0 <= i < s1.len() implies #[trigger] s1[i]@ == t1[i]@ by {
                assert(s[i]@ == t[i]@);
            }
            lemma_insert_sorted_view(s1, t1, x, y);
            let (a, b) = (insert_sorted(s1, x), insert_sorted(t1, y));
            assert forall|i: int| 0 <= i < a.len() + 1 implies #[trigger] a.push(s.last())[i]@ == b.push(t.last())[i]@ by {
                if i < a.len() {
                    assert(a[i]@ == b[i]@);
                }
            }
        }
    }
}

/// Stable sorts of sequences of equal views have equal views, when the order
/// looks at views only.
pub proof fn lemma_sort_stable_view<T: SpecOrder + View>(s: Seq<T>, t: Seq<T>)
    requires
        order_by_view::<T>(),
        view_eq_seq(s, t),
    ensures
        view_eq_seq(sort_stable(s), sort_stable(t)),
    decreases s.len(),
{
    if s.len() > 0 {
        let (s1, t1) = (s.drop_last(), t.drop_last());
        assert forall|i: int| 0 <= i < s1.len() implies #[trigger] s1[i]@ == t1[i]@ by {
            assert(s[i]@ == t[i]@);
        }
        lemma_sort_stable_view(s1, t1);
        assert(s.last()@ == t.last()@);
        lemma_insert_sorted_view(sort_stable(s1), sort_stable(t1), s.last(), t.last());
    }
}

/// The views of a sequence.
pub open spec fn seq_view<T: View>(s: Seq<T>) -> Seq<T::V> {
    s.map_values(|x: T| x@)
}

/// The order of values is the order of their views.
pub open spec fn order_is_view_order<T: SpecOrder + View>() -> bool where T::V: SpecOrder {
    forall|x: T, y: T| #[trigger] x.precedes(&y) == x@.precedes(&y@)
}

proof fn lemma_insert_sorted_map_view<T: SpecOrder + View>(s: Seq<T>, x: T) where T::V: SpecOrder
    requires
        order_is_view_order::<T>(),
    ensures
        seq_view(insert_sorted(s, x)) == insert_sorted(seq_view(s), x@),
    decreases s.len(),
{
    if s.len() == 0 {
        assert(seq_view(s.push(x)) =~= seq_view(s).push(x@));
    } else {
        assert(seq_view(s).last() == s.last()@);
        assert(s.last().precedes(&x) == s.last()@.precedes(&x@));
        if s.last().precedes(&x) {
            assert(seq_view(s.push(x)) =~= seq_view(s).push(x@));
        } else {
            lemma_insert_sorted_map_view(s.drop_last(), x);
            assert(seq_view(s.drop_last()) =~= seq_view(s).drop_last());
            let a = insert_sorted(s.drop_last(), x);
            assert(seq_view(a.push(s.last())) =~= seq_view(a).push(s.last()@));
        }
    }
}

/// Sorting commutes with taking views, when the order is the order of views.
pub proof fn lemma_sort_stable_map_view<T: SpecOrder + View>(s: Seq<T>) where T::V: SpecOrder
    requires
        order_is_view_order::<T>(),
    ensures
        seq_view(sort_stable(s)) == sort_stable(seq_view(s)),
    decreases s.len(),
{
    if s.len() == 0 {
        assert(seq_view(s) =~= Seq::<T::V>::empty());
    } else {
        lemma_sort_stable_map_view(s.drop_last());
        assert(seq_view(s.drop_last()) =~= seq_view(s).drop_last());
        assert(seq_view(s).last() == s.last()@);
        lemma_insert_sorted_map_view(sort_stable(s.drop_last()), s.last());
    }
}

/// A sorted sequence is its own stable sort.
pub proof fn lemma_sorted_is_fixed<T: SpecOrder>(s: Seq<T>)
    requires
        is_sorted(s),
    ensures
        sort_stable(s) == s,
    decreases s.len(),
{
    if s.len() > 0 {
        let t = s.drop_last();
        assert(is_sorted(t)) by {
            assert forall|i: int, j: int| 0 <= i < j < t.len() implies t[i].precedes(&t[j]) by {
                assert(s[i].precedes(&s[j]));
            }
        }
        lemma_sorted_is_fixed(t);
        if t.len() > 0 {
            assert(s[t.len() - 1].precedes(&s[s.len() - 1]));
        }
        assert(t.push(s.last()) =~= s);
    }
}

proof fn lemma_insert_sorted_has<T: SpecOrder>(s: Seq<T>, x: T)
    ensures
        insert_sorted(s, x).contains(x),
        forall|k: int| 0 <= k < s.len() ==> insert_sorted(s, x).contains(#[trigger] s[k]),
    decreases s.len(),
{
    let r = insert_sorted(s, x);
    if s.len() == 0 || s.last().precedes(&x) {
        assert(r[s.len() as int] == x);
        assert forall|k: int| 0 <= k < s.len() implies r.contains(#[trigger] s[k]) by {
            assert(r[k] == s[k]);
        }
    } else {
        let t = s.drop_last();
        lemma_insert_sorted_has(t, x);
        let a = insert_sorted(t, x);
        let i = choose|i: int| 0 <= i < a.len() && a[i] == x;
        assert(r[i] == x);
        assert(r[a.len() as int] == s.last());
        assert forall|k: int| 0 <= k < s.len() implies r.contains(#[trigger] s[k]) by {
            if k < t.len() {
                assert(a.contains(t[k]));
                let m = choose|m: int| 0 <= m < a.len() && a[m] == t[k];
                assert(r[m] == s[k]);
            }
        }
    }
}

/// Every element of a sequence is in its stable sort.
pub proof fn lemma_sort_stable_has<T: SpecOrder>(s: Seq<T>)
    ensures
        forall|k: int| 0 <= k < s.len() ==> sort_stable(s).contains(#[trigger] s[k]),
    decreases s.len(),
{
    if s.len() > 0 {
        let t = s.drop_last();
        lemma_sort_stable_has(t);
        lemma_insert_sorted_has(sort_stable(t), s.last());
        let st = sort_stable(t);
        assert forall|k: int| 0 <= k < s.len() implies sort_stable(s).contains(#[trigger] s[k]) by {
            if k < t.len() {
                assert(st.contains(t[k]));
                let m = choose|m: int| 0 <= m < st.len() && st[m] == t[k];
                assert(insert_sorted(st, s.last()).contains(st[m]));
            }
        }
    }
}

/// `a` and `b` share a rank: each may stand before the other.
pub open spec fn same_rank<T: SpecOrder>(a: T, b: T) -> bool {
    a.precedes(&b) && b.precedes(&a)
}

/// The test for sharing `c`'s rank.
pub open spec fn rank_of<T: SpecOrder>(c: T) -> spec_fn(T) -> bool {
    |y: T| same_rank(y, c)
}

proof fn lemma_insert_sorted_multiset<T: SpecOrder>(s: Seq<T>, x: T)
    ensures
        insert_sorted(s, x).to_multiset() == s.to_multiset().insert(x),
    decreases s.len(),
{
    broadcast use vstd::seq_lib::group_to_multiset_ensures;

    if !(s.len() == 0 || s.last().precedes(&x)) {
        let t = s.drop_last();
        lemma_insert_sorted_multiset(t, x);
        assert(t.push(s.last()) =~= s);
        assert(insert_sorted(t, x).push(s.last()).to_multiset() =~= s.to_multiset().insert(x));
    }
}

proof fn lemma_insert_sorted_rank<T: SpecOrder>(s: Seq<T>, x: T, c: T)
    ensures
        insert_sorted(s, x).filter(rank_of(c)) == s.push(x).filter(rank_of(c)),
    decreases s.len(),
{
    if !(s.len() == 0 || s.last().precedes(&x)) {
        let t = s.drop_last();
        let l = s.last();
        let p = rank_of(c);
        lemma_insert_sorted_rank(t, x, c);
        insert_sorted(t, x).lemma_filter_push(l, p);
        t.push(x).lemma_filter_push(l, p);
        t.lemma_filter_push(x, p);
        t.lemma_filter_push(l, p);
        t.push(l).lemma_filter_push(x, p);
        assert(t.push(l) =~= s);
        if p(l) && p(x) {
            T::lemma_transitive(&l, &c, &x);
        }
    }
}

/// Stable sorting only reorders: the result holds the input's elements, each
/// as often, in order, and elements of one rank in the order they came in.
pub proof fn law_sort_stable_permutes<T: SpecOrder>(s: Seq<T>, c: T)
    ensures
        sort_stable(s).to_multiset() == s.to_multiset(),
        is_sorted(sort_stable(s)),
        sort_stable(s).filter(rank_of(c)) == s.filter(rank_of(c)),
    decreases s.len(),
{
    broadcast use vstd::seq_lib::group_to_multiset_ensures;

    lemma_sort_stable_sorted(s);
    if s.len() > 0 {
        let t = s.drop_last();
        law_sort_stable_permutes(t, c);
        lemma_insert_sorted_multiset(sort_stable(t), s.last());
        lemma_insert_sorted_rank(sort_stable(t), s.last(), c);
        sort_stable(t).lemma_filter_push(s.last(), rank_of(c));
        t.lemma_filter_push(s.last(), rank_of(c));
        assert(t.push(s.last()) =~= s);
    }
}

/// Inserts `x` into a vector at its stable place.
pub fn insert_in_order<T: SortOrder>(v: &mut Vec<T>, x: T)
    ensures
        final(v)@ == insert_sorted(old(v)@, x),
{
    let mut j: usize = v.len();
    while j > 0 && !v[j - 1].precedes_exec(&x)
        invariant
            j <= v.len(),
            forall|k: int| j <= k < v.len() ==> !#[trigger] v@[k].precedes(&x),
        decreases j,
    {
        j = j - 1;
    }
    proof {
        lemma_insert_at(v@, x, j as int);
    }
    v.insert(j, x);
}

/// Sorts a vector stably.
pub fn stable_sort<T: SortOrder>(v: Vec<T>) -> (r: Vec<T>)
    ensures
        r@ == sort_stable(v@),
{
    let mut rest = v;
    let mut out: Vec<T> = Vec::new();
    let ghost orig = rest@;
    let ghost mut n: int = 0;
    assert(orig.take(0) =~= Seq::<T>::empty());
    while rest.len() > 0
        invariant
            0 <= n <= orig.len(),
            rest@ == orig.skip(n),
            out@ == sort_stable(orig.take(n)),
        decreases rest.len(),
    {
        let x = rest.remove(0);
        proof {
            assert(orig.take(n + 1).drop_last() =~= orig.take(n));
            assert(orig.take(n + 1).last() == x);
            assert(rest@ =~= orig.skip(n + 1));
            n = n + 1;
        }
        insert_in_order(&mut out, x);
    }
    assert(orig.take(orig.len() as int) =~= orig);
    out
}

} // verus!
