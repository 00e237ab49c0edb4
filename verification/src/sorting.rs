use vstd::prelude::*;

verus! {

/// An order in which rows are listed: `before(a, b)` holds when `a` must come
/// strictly before `b`.
pub trait RowOrder<T> {
    spec fn before(a: T, b: T) -> bool;

    fn exec_before(a: &T, b: &T) -> (r: bool)
        ensures
            r == Self::before(*a, *b);
}

/// The order `O` as a spec closure.
pub open spec fn order_of<T, O: RowOrder<T>>() -> spec_fn(T, T) -> bool {
    |a: T, b: T| O::before(a, b)
}

/// Inserts `x` into `s` in front of the first row that `x` must precede, so
/// that rows that tie keep the order in which they came.
pub open spec fn insert_sorted<T>(s: Seq<T>, x: T, before: spec_fn(T, T) -> bool) -> Seq<T>
    decreases s.len(),
{
    if s.len() == 0 {
        seq![x]
    } else if before(x, s[0]) {
        seq![x] + s
    } else {
        seq![s[0]] + insert_sorted(s.drop_first(), x, before)
    }
}

/// Stable insertion sort of `s`: the order in which a database lists rows
/// under an `ORDER BY`, ties kept in table order.
pub open spec fn sort_by<T>(s: Seq<T>, before: spec_fn(T, T) -> bool) -> Seq<T>
    decreases s.len(),
{
    if s.len() == 0 {
        s
    } else {
        insert_sorted(sort_by(s.drop_last(), before), s.last(), before)
    }
}

proof fn lemma_insert_at<T>(s: Seq<T>, x: T, before: spec_fn(T, T) -> bool, p: int)
    requires
        0 <= p <= s.len(),
        forall|j: int| 0 <= j < p ==> !before(x, #[trigger] s[j]),
        p == s.len() || before(x, s[p]),
    ensures
        insert_sorted(s, x, before) == s.insert(p, x),
    decreases p,
{
    if s.len() == 0 {
        assert(s.insert(p, x) =~= seq![x]);
    } else if p == 0 {
        assert(s.insert(p, x) =~= seq![x] + s);
    } else {
        let t = s.drop_first();
        assert forall|j: int| 0 <= j < p - 1 implies !before(x, #[trigger] t[j]) by {
            assert(t[j] == s[j + 1]);
        }
        if p < s.len() {
            assert(t[p - 1] == s[p]);
        }
        lemma_insert_at(t, x, before, p - 1);
        assert(s.insert(p, x) =~= seq![s[0]] + t.insert(p - 1, x));
    }
}

/// Sorts rows stably by the order `O`.
pub fn stable_sort<T, O: RowOrder<T>>(rows: Vec<T>) -> (r: Vec<T>)
    ensures
        r@ == sort_by(rows@, order_of::<T, O>()),
{
    let ghost orig = rows@;
    let ghost before = order_of::<T, O>();
    let n = rows.len();
    let mut rest = rows;
    let mut out: Vec<T> = Vec::new();
    let mut k: usize = 0;
    assert(orig.take(0) =~= Seq::<T>::empty());
    assert(orig.skip(0) =~= orig);
    while k < n
        invariant
            n == orig.len(),
            k <= n,
            rest@ == orig.skip(k as int),
            out@ == sort_by(orig.take(k as int), before),
            before == order_of::<T, O>(),
        decreases n - k,
    {
        assert(rest@.len() == n - k);
        let x = rest.remove(0);
        let mut p: usize = 0;
        while p < out.len()
            invariant
                p <= out@.len(),
                forall|j: int| 0 <= j < p ==> !before(x, #[trigger] out@[j]),
                before == order_of::<T, O>(),
            ensures
                p <= out@.len(),
                forall|j: int| 0 <= j < p ==> !before(x, #[trigger] out@[j]),
                p < out@.len() ==> before(x, out@[p as int]),
            decreases out@.len() - p,
        {
            if O::exec_before(&x, &out[p]) {
                break;
            }
            p = p + 1;
        }
        proof {
            lemma_insert_at(out@, x, before, p as int);
            assert(orig.take(k + 1).drop_last() =~= orig.take(k as int));
            assert(orig.take(k + 1).last() == x);
            assert(orig.skip(k as int).remove(0) =~= orig.skip(k + 1));
        }
        out.insert(p, x);
        k = k + 1;
    }
    assert(orig.take(n as int) =~= orig);
    out
}


proof fn lemma_insert_len<T>(s: Seq<T>, x: T, before: spec_fn(T, T) -> bool)
    ensures
        insert_sorted(s, x, before).len() == s.len() + 1,
    decreases s.len(),
{
    if s.len() > 0 && !before(x, s[0]) {
        lemma_insert_len(s.drop_first(), x, before);
    }
}

/// Sorting keeps the number of rows.
pub proof fn lemma_sort_len<T>(s: Seq<T>, before: spec_fn(T, T) -> bool)
    ensures
        sort_by(s, before).len() == s.len(),
    decreases s.len(),
{
    if s.len() > 0 {
        lemma_sort_len(s.drop_last(), before);
        lemma_insert_len(sort_by(s.drop_last(), before), s.last(), before);
    }
}


/// Where `insert_sorted` puts `x`: in front of the first row it must precede.
pub open spec fn insert_pos<T>(s: Seq<T>, x: T, before: spec_fn(T, T) -> bool) -> int
    decreases s.len(),
{
    if s.len() == 0 || before(x, s[0]) {
        0
    } else {
        1 + insert_pos(s.drop_first(), x, before)
    }
}

proof fn lemma_insert_pos<T>(s: Seq<T>, x: T, before: spec_fn(T, T) -> bool)
    ensures
        0 <= insert_pos(s, x, before) <= s.len(),
        forall|j: int| 0 <= j < insert_pos(s, x, before) ==> !before(x, #[trigger] s[j]),
        insert_pos(s, x, before) < s.len() ==> before(x, s[insert_pos(s, x, before)]),
        insert_sorted(s, x, before) == s.insert(insert_pos(s, x, before), x),
    decreases s.len(),
{
    if s.len() == 0 || before(x, s[0]) {
        lemma_insert_at(s, x, before, 0);
    } else {
        let t = s.drop_first();
        lemma_insert_pos(t, x, before);
        let p = insert_pos(s, x, before);
        assert forall|j: int| 0 <= j < p implies !before(x, #[trigger] s[j]) by {
            if j > 0 {
                assert(s[j] == t[j - 1]);
            }
        }
        if p < s.len() {
            assert(s[p] == t[p - 1]);
        }
        lemma_insert_at(s, x, before, p);
    }
}

/// Whether no row of `s` must come before a row that precedes it.
pub open spec fn is_sorted<T>(s: Seq<T>, before: spec_fn(T, T) -> bool) -> bool {
    forall|i: int, j: int| 0 <= i < j < s.len() ==> !before(#[trigger] s[j], #[trigger] s[i])
}

/// Whether `before` is a strict order: asymmetric and transitive.
pub open spec fn is_strict_order<T>(before: spec_fn(T, T) -> bool) -> bool {
    &&& forall|a: T, b: T| #[trigger] before(a, b) ==> !before(b, a)
    &&& forall|a: T, b: T, c: T| #[trigger] before(a, b) && #[trigger] before(b, c) ==> before(a, c)
}

proof fn lemma_insert_sorted_sorted<T>(s: Seq<T>, x: T, before: spec_fn(T, T) -> bool)
    requires
        is_sorted(s, before),
        is_strict_order(before),
    ensures
        is_sorted(insert_sorted(s, x, before), before),
{
    lemma_insert_pos(s, x, before);
    let p = insert_pos(s, x, before);
    let r = insert_sorted(s, x, before);
    s.insert_ensures(p, x);
    assert forall|i: int, j: int| 0 <= i < j < r.len() implies !before(#[trigger] r[j], #[trigger] r[i]) by {
        if j < p {
            assert(r[i] == s[i] && r[j] == s[j]);
        } else if j == p {
            assert(r[i] == s[i]);
            assert(r[j] == x);
        } else if i == p {
            assert(r[i] == x);
            assert(r[j] == s[j - 1]);
            if j - 1 > p {
                if before(s[j - 1], x) {
                    assert(before(s[j - 1], s[p]));
                }
            }
        } else if i < p {
            assert(r[i] == s[i]);
            assert(r[j] == s[j - 1]);
        } else {
            assert(r[i] == s[i - 1]);
            assert(r[j] == s[j - 1]);
        }
    }
}

/// A listing in order: under a strict order, no row of the sorted rows must
/// come before a row that precedes it.
pub proof fn lemma_sort_sorted<T>(s: Seq<T>, before: spec_fn(T, T) -> bool)
    requires
        is_strict_order(before),
    ensures
        is_sorted(sort_by(s, before), before),
    decreases s.len(),
{
    if s.len() > 0 {
        lemma_sort_sorted(s.drop_last(), before);
        lemma_insert_sorted_sorted(sort_by(s.drop_last(), before), s.last(), before);
    }
}

/// Sorting keeps exactly the rows it was given, each as many times.
pub proof fn lemma_sort_permutes<T>(s: Seq<T>, before: spec_fn(T, T) -> bool)
    ensures
        sort_by(s, before).to_multiset() == s.to_multiset(),
    decreases s.len(),
{
    broadcast use vstd::seq_lib::to_multiset_insert, vstd::seq_lib::to_multiset_build;

    if s.len() > 0 {
        let t = sort_by(s.drop_last(), before);
        lemma_sort_permutes(s.drop_last(), before);
        lemma_insert_pos(t, s.last(), before);
        assert(s.drop_last().push(s.last()) =~= s);
        assert(s.drop_last().push(s.last()).to_multiset() == s.drop_last().to_multiset().insert(s.last()));
    }
}

} // verus!
