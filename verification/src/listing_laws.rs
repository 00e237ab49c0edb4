use vstd::prelude::*;
use crate::models::{KnowledgePoint, Task};
use crate::queries::{
    KnowledgePointChapterOrder, KnowledgePointOrder, MAX_DRAW, MAX_PAGE_SIZE, clamp,
    drawable_in_order, drawn_tasks, find_task, has_id, is_drawable, knowledge_points_listed,
    lemma_last_match_index, listed_tasks, listed_tasks_by_id, of_chapter, page_end, page_start,
    task_page,
};
use crate::sorting::{is_sorted, is_strict_order, lemma_sort_len, lemma_sort_permutes, lemma_sort_sorted, order_of};
use crate::store::DbView;
use crate::text::{lemma_text_lt_asymmetric, lemma_text_lt_irreflexive, lemma_text_lt_transitive};

verus! {

broadcast use vstd::seq_lib::group_seq_properties, vstd::seq_lib::group_to_multiset_ensures;

/// The first `n` pages of a listing, `limit` tasks each, taken from offset 0
/// one after another.
pub open spec fn pages_joined(
    v: DbView,
    chapter_id: Seq<char>,
    difficulty: Option<String>,
    knowledge_point_id: Option<String>,
    limit: i64,
    n: nat,
) -> Seq<Task>
    decreases n,
{
    if n == 0 {
        Seq::empty()
    } else {
        pages_joined(v, chapter_id, difficulty, knowledge_point_id, limit, (n - 1) as nat)
            + task_page(v, chapter_id, difficulty, knowledge_point_id, ((n - 1) * limit) as i64, limit)
    }
}

/// Taking the pages of a listing one after another, at offsets 0, `limit`,
/// `2 * limit`, ..., gives the listing in id order without a gap or a
/// repeat: the first `n` pages are its first `n * limit` tasks, and once
/// `n * limit` reaches the number of tasks they are the whole listing.
pub proof fn law_pages_cover_listing(
    v: DbView,
    chapter_id: Seq<char>,
    difficulty: Option<String>,
    knowledge_point_id: Option<String>,
    limit: i64,
    n: nat,
)
    requires
        1 <= limit <= MAX_PAGE_SIZE,
        n * limit <= i64::MAX,
    ensures
        pages_joined(v, chapter_id, difficulty, knowledge_point_id, limit, n)
            == listed_tasks_by_id(v, chapter_id, difficulty, knowledge_point_id).take(
                if n * limit < listed_tasks(v, chapter_id, difficulty, knowledge_point_id).len() {
                    n * limit
                } else {
                    listed_tasks(v, chapter_id, difficulty, knowledge_point_id).len() as int
                },
            ),
        n * limit >= listed_tasks(v, chapter_id, difficulty, knowledge_point_id).len()
            ==> pages_joined(v, chapter_id, difficulty, knowledge_point_id, limit, n)
            == listed_tasks_by_id(v, chapter_id, difficulty, knowledge_point_id),
    decreases n,
{
    let all = listed_tasks_by_id(v, chapter_id, difficulty, knowledge_point_id);
    let len = all.len() as int;
    lemma_sort_len(
        listed_tasks(v, chapter_id, difficulty, knowledge_point_id),
        order_of::<Task, crate::queries::TaskIdOrder>(),
    );
    if n == 0 {
        assert(n * limit == 0) by (nonlinear_arith)
            requires
                n == 0,
        ;
        assert(all.take(0) =~= Seq::<Task>::empty());
        if len == 0 {
            assert(all =~= Seq::<Task>::empty());
        }
    } else {
        let m = (n - 1) as nat;
        assert(m * limit <= n * limit) by (nonlinear_arith)
            requires
                m + 1 == n,
                limit >= 1,
        ;
        assert(n * limit == m * limit + limit) by (nonlinear_arith)
            requires
                m + 1 == n,
        ;
        law_pages_cover_listing(v, chapter_id, difficulty, knowledge_point_id, limit, m);
        let off = (m * limit) as i64;
        assert(off == m * limit);
        assert(clamp(limit, 1, MAX_PAGE_SIZE) == limit);
        let start = page_start(off, len);
        let end = page_end(off, limit, len);
        let before = if m * limit < len { m * limit } else { len };
        let after = if n * limit < len { n * limit } else { len };
        assert(start == before);
        assert(end == after);
        assert(all.take(before) + all.subrange(start, end) =~= all.take(after));
        let joined = pages_joined(v, chapter_id, difficulty, knowledge_point_id, limit, n);
        assert(joined == pages_joined(v, chapter_id, difficulty, knowledge_point_id, limit, m)
            + task_page(v, chapter_id, difficulty, knowledge_point_id, off, limit));
        assert(task_page(v, chapter_id, difficulty, knowledge_point_id, off, limit) == all.subrange(start, end));
        assert(joined == all.take(after));
        if n * limit >= len {
            assert(all.take(len) =~= all);
        }
    }
}

/// Filtering a listing in order keeps it in order.
proof fn lemma_filter_sorted<T>(s: Seq<T>, p: spec_fn(T) -> bool, before: spec_fn(T, T) -> bool)
    requires
        is_sorted(s, before),
    ensures
        is_sorted(s.filter(p), before),
    decreases s.len(),
{
    if s.len() > 0 {
        let t = s.drop_last();
        assert(is_sorted(t, before)) by {
            assert forall|i: int, j: int| 0 <= i < j < t.len() implies !before(#[trigger] t[j], #[trigger] t[i]) by {
                assert(t[i] == s[i] && t[j] == s[j]);
            }
        }
        lemma_filter_sorted(t, p, before);
        assert(t.push(s.last()) =~= s);
        t.lemma_filter_push(s.last(), p);
        let ft = t.filter(p);
        let fs = s.filter(p);
        assert forall|i: int, j: int| 0 <= i < j < fs.len() implies !before(#[trigger] fs[j], #[trigger] fs[i]) by {
            if j < ft.len() {
                assert(fs[i] == ft[i] && fs[j] == ft[j]);
            } else {
                assert(fs[j] == s.last());
                assert(fs[i] == ft[i]);
                assert(ft.contains(ft[i]));
                t.lemma_filter_contains_rev(p, ft[i]);
                let k = choose|k: int| 0 <= k < t.len() && t[k] == ft[i];
                assert(s[k] == t[k]);
                assert(s[s.len() - 1] == s.last());
            }
        }
    }
}

/// How many times each value occurs in a filtered sequence.
proof fn lemma_filter_counts<T>(s: Seq<T>, p: spec_fn(T) -> bool)
    ensures
        forall|x: T| #[trigger] s.filter(p).to_multiset().count(x) == (if p(x) { s.to_multiset().count(x) } else { 0 }),
    decreases s.len(),
{
    broadcast use vstd::seq_lib::to_multiset_build;

    if s.len() == 0 {
        assert(s.filter(p).len() == 0) by {
            s.lemma_filter_len(p);
        }
        assert(s.filter(p) =~= Seq::<T>::empty());
    } else {
        let t = s.drop_last();
        lemma_filter_counts(t, p);
        assert(t.push(s.last()) =~= s);
        t.lemma_filter_push(s.last(), p);
    }
}

proof fn lemma_knowledge_point_orders_strict()
    ensures
        is_strict_order(order_of::<KnowledgePoint, KnowledgePointOrder>()),
        is_strict_order(order_of::<KnowledgePoint, KnowledgePointChapterOrder>()),
{
    let before = order_of::<KnowledgePoint, KnowledgePointChapterOrder>();
    assert forall|a: KnowledgePoint, b: KnowledgePoint| #[trigger] before(a, b) implies !before(b, a) by {
        lemma_text_lt_asymmetric(a.chapter_id@, b.chapter_id@);
        lemma_text_lt_irreflexive(a.chapter_id@);
    }
    assert forall|a: KnowledgePoint, b: KnowledgePoint, c: KnowledgePoint|
        #[trigger] before(a, b) && #[trigger] before(b, c) implies before(a, c) by {
        lemma_text_lt_transitive(a.chapter_id@, b.chapter_id@, c.chapter_id@);
    }
}

/// The knowledge points listed for one chapter are those of the full
/// listing that belong to the chapter, each as many times, and both lists
/// run by non-decreasing order index; so the two are the same up to the
/// order of entries with equal order index.
pub proof fn law_chapter_knowledge_points_in_full_listing(v: DbView, chapter_id: String)
    ensures
        ({
            let one = knowledge_points_listed(v, Some(chapter_id));
            let from_all = knowledge_points_listed(v, None).filter(of_chapter(chapter_id@));
            &&& one.to_multiset() == from_all.to_multiset()
            &&& forall|i: int, j: int| 0 <= i < j < one.len() ==> #[trigger] one[i].order_index <= #[trigger] one[j].order_index
            &&& forall|i: int, j: int| 0 <= i < j < from_all.len() ==> #[trigger] from_all[i].order_index <= #[trigger] from_all[j].order_index
            &&& forall|i: int| 0 <= i < from_all.len() ==> #[trigger] from_all[i].chapter_id@ == chapter_id@
        }),
{
    let p = of_chapter(chapter_id@);
    let by_index = order_of::<KnowledgePoint, KnowledgePointOrder>();
    let by_chapter = order_of::<KnowledgePoint, KnowledgePointChapterOrder>();
    let kps = v.knowledge_points;
    let one = knowledge_points_listed(v, Some(chapter_id));
    let all = knowledge_points_listed(v, None);
    let from_all = all.filter(p);
    lemma_knowledge_point_orders_strict();
    // the same elements
    lemma_sort_permutes(kps.filter(p), by_index);
    lemma_sort_permutes(kps, by_chapter);
    lemma_filter_counts(kps, p);
    lemma_filter_counts(all, p);
    assert(one.to_multiset() =~= from_all.to_multiset());
    // both in order index order
    lemma_sort_sorted(kps.filter(p), by_index);
    lemma_sort_sorted(kps, by_chapter);
    lemma_filter_sorted(all, p, by_chapter);
    assert forall|i: int| 0 <= i < from_all.len() implies #[trigger] from_all[i].chapter_id@ == chapter_id@ by {
        all.lemma_filter_pred(p, i);
    }
    assert forall|i: int, j: int| 0 <= i < j < from_all.len() implies #[trigger] from_all[i].order_index
        <= #[trigger] from_all[j].order_index by {
        all.lemma_filter_pred(p, i);
        all.lemma_filter_pred(p, j);
        lemma_text_lt_irreflexive(chapter_id@);
        assert(!by_chapter(from_all[j], from_all[i]));
    }
    assert forall|i: int, j: int| 0 <= i < j < one.len() implies #[trigger] one[i].order_index
        <= #[trigger] one[j].order_index by {
        assert(!by_index(one[j], one[i]));
    }
}

/// The ids of a sequence of tasks.
pub open spec fn ids_of(tasks: Seq<Task>) -> Seq<Seq<char>> {
    tasks.map_values(|t: Task| t.id@)
}

/// Whether `ids` names every task of `v` exactly once and nothing else.
pub open spec fn names_each_task_once(v: DbView, ids: Seq<String>) -> bool {
    &&& forall|i: int, j: int| 0 <= i < j < ids.len() ==> #[trigger] ids[i]@ != #[trigger] ids[j]@
    &&& forall|i: int| 0 <= i < ids.len() ==> v.has_task(#[trigger] ids[i]@)
    &&& forall|k: int| 0 <= k < v.tasks.len() ==> exists|i: int| 0 <= i < ids.len() && #[trigger] ids[i]@ == #[trigger] v.tasks[k].id@
}

/// The tasks that can be drawn, in table order.
pub open spec fn drawable_tasks(
    v: DbView,
    chapter_id: Option<String>,
    difficulty: Option<String>,
    only_weak: bool,
) -> Seq<Task> {
    v.tasks.filter(|t: Task| is_drawable(v, t, chapter_id, difficulty, only_weak))
}

proof fn lemma_find_task(v: DbView, id: Seq<char>)
    ensures
        find_task(v, id) matches Some(t) ==> t.id@ == id && v.tasks.contains(t),
        find_task(v, id) is None ==> !v.has_task(id),
        v.keys_unique() ==> forall|k: int| 0 <= k < v.tasks.len() && #[trigger] v.tasks[k].id@ == id
            ==> find_task(v, id) == Some(v.tasks[k]),
{
    lemma_last_match_index(v.tasks, has_id(id));
    if let Some(t) = find_task(v, id) {
        let q = choose|q: int| 0 <= q < v.tasks.len() && v.tasks[q] == t && t.id@ == id
            && forall|j: int| q < j < v.tasks.len() ==> !(#[trigger] v.tasks[j].id@ == id);
        assert(v.tasks[q] == t);
        if v.keys_unique() {
            assert forall|k: int| 0 <= k < v.tasks.len() && #[trigger] v.tasks[k].id@ == id implies find_task(v, id) == Some(v.tasks[k]) by {
                if k < q {
                    assert(v.tasks[k].id@ != v.tasks[q].id@);
                }
                if k > q {
                    assert(!(v.tasks[k].id@ == id));
                }
            }
        }
    } else {
        if v.has_task(id) {
            let k = choose|k: int| 0 <= k < v.tasks.len() && #[trigger] v.tasks[k].id@ == id;
            assert(!(v.tasks[k].id@ == id));
        }
    }
}

proof fn lemma_drawable_rows(
    v: DbView,
    ids: Seq<String>,
    chapter_id: Option<String>,
    difficulty: Option<String>,
    only_weak: bool,
)
    ensures
        ({
            let all = drawable_in_order(v, ids, chapter_id, difficulty, only_weak);
            &&& forall|k: int| 0 <= k < all.len() ==> exists|i: int|
                0 <= i < ids.len() && #[trigger] ids[i]@ == #[trigger] all[k].id@
                    && find_task(v, ids[i]@) == Some(all[k])
                    && is_drawable(v, all[k], chapter_id, difficulty, only_weak)
            &&& forall|i: int| 0 <= i < ids.len() ==> (find_task(v, #[trigger] ids[i]@) matches Some(t)
                ==> (is_drawable(v, t, chapter_id, difficulty, only_weak) ==> all.contains(t)))
            &&& (forall|i: int, j: int| 0 <= i < j < ids.len() ==> #[trigger] ids[i]@ != #[trigger] ids[j]@)
                ==> forall|a: int, b: int| 0 <= a < b < all.len() ==> #[trigger] all[a].id@ != #[trigger] all[b].id@
        }),
    decreases ids.len(),
{
    if ids.len() > 0 {
        let rest = ids.drop_last();
        lemma_drawable_rows(v, rest, chapter_id, difficulty, only_weak);
        let prev = drawable_in_order(v, rest, chapter_id, difficulty, only_weak);
        let all = drawable_in_order(v, ids, chapter_id, difficulty, only_weak);
        let last = ids.len() - 1;
        assert(ids[last] == ids.last());
        lemma_find_task(v, ids.last()@);
        assert forall|k: int| 0 <= k < all.len() implies exists|i: int|
            0 <= i < ids.len() && #[trigger] ids[i]@ == #[trigger] all[k].id@
                && find_task(v, ids[i]@) == Some(all[k])
                && is_drawable(v, all[k], chapter_id, difficulty, only_weak) by {
            if k < prev.len() {
                assert(all[k] == prev[k]);
                let i = choose|i: int|
                    0 <= i < rest.len() && #[trigger] rest[i]@ == #[trigger] prev[k].id@
                        && find_task(v, rest[i]@) == Some(prev[k])
                        && is_drawable(v, prev[k], chapter_id, difficulty, only_weak);
                assert(ids[i] == rest[i]);
            } else {
                assert(ids[last]@ == all[k].id@);
            }
        }
        assert forall|i: int| 0 <= i < ids.len() implies (find_task(v, #[trigger] ids[i]@) matches Some(t)
            ==> (is_drawable(v, t, chapter_id, difficulty, only_weak) ==> all.contains(t))) by {
            if let Some(t) = find_task(v, ids[i]@) {
                if is_drawable(v, t, chapter_id, difficulty, only_weak) {
                    if i < last {
                        assert(rest[i] == ids[i]);
                        assert(prev.contains(t));
                        let k = choose|k: int| 0 <= k < prev.len() && prev[k] == t;
                        assert(all[k] == prev[k]);
                    } else {
                        assert(all[all.len() - 1] == t);
                    }
                }
            }
        }
        if forall|i: int, j: int| 0 <= i < j < ids.len() ==> #[trigger] ids[i]@ != #[trigger] ids[j]@ {
            assert forall|i: int, j: int| 0 <= i < j < rest.len() implies #[trigger] rest[i]@ != #[trigger] rest[j]@ by {
                assert(rest[i] == ids[i] && rest[j] == ids[j]);
            }
            assert forall|a: int, b: int| 0 <= a < b < all.len() implies #[trigger] all[a].id@ != #[trigger] all[b].id@ by {
                assert(all[a] == prev[a]);
                if b < prev.len() {
                    assert(all[b] == prev[b]);
                } else {
                    let i = choose|i: int|
                        0 <= i < rest.len() && #[trigger] rest[i]@ == #[trigger] prev[a].id@
                            && find_task(v, rest[i]@) == Some(prev[a])
                            && is_drawable(v, prev[a], chapter_id, difficulty, only_weak);
                    assert(ids[i] == rest[i]);
                    assert(all[b].id@ == ids[last]@);
                }
            }
        }
    }
}

proof fn lemma_distinct_ids_len(s: Seq<Task>)
    requires
        forall|a: int, b: int| 0 <= a < b < s.len() ==> #[trigger] s[a].id@ != #[trigger] s[b].id@,
    ensures
        ids_of(s).to_set().len() == s.len(),
{
    let m = ids_of(s);
    assert forall|a: int, b: int| 0 <= a < m.len() && 0 <= b < m.len() && a != b implies m[a] != m[b] by {
        if a < b {
            assert(s[a].id@ != s[b].id@);
        } else {
            assert(s[b].id@ != s[a].id@);
        }
    }
    assert(m.no_duplicates());
    m.unique_seq_to_set();
}

/// A random draw over an order that names every task exactly once holds
/// as many tasks as were asked for (clamped to `[1, 20]`), or every task
/// that can be drawn when there are fewer, and no task twice.
pub proof fn law_random_draw_size(
    v: DbView,
    ids: Seq<String>,
    chapter_id: Option<String>,
    difficulty: Option<String>,
    count: i64,
    only_weak: bool,
)
    requires
        v.keys_unique(),
        names_each_task_once(v, ids),
    ensures
        ({
            let drawn = drawn_tasks(v, ids, chapter_id, difficulty, count, only_weak);
            let n = clamp(count, 1, MAX_DRAW) as int;
            let available = drawable_tasks(v, chapter_id, difficulty, only_weak).len();
            &&& drawn.len() == (if n < available { n } else { available as int })
            &&& forall|a: int, b: int| 0 <= a < b < drawn.len() ==> #[trigger] drawn[a].id@ != #[trigger] drawn[b].id@
        }),
{
    let all = drawable_in_order(v, ids, chapter_id, difficulty, only_weak);
    let p = |t: Task| is_drawable(v, t, chapter_id, difficulty, only_weak);
    let dr = v.tasks.filter(p);
    lemma_drawable_rows(v, ids, chapter_id, difficulty, only_weak);
    // the drawable tasks have distinct ids
    let same_id = |a: Task, b: Task| a.id@ == b.id@;
    assert(is_sorted(v.tasks, same_id));
    lemma_filter_sorted(v.tasks, p, same_id);
    assert forall|a: int, b: int| 0 <= a < b < dr.len() implies #[trigger] dr[a].id@ != #[trigger] dr[b].id@ by {
        assert(!same_id(dr[b], dr[a]));
    }
    lemma_distinct_ids_len(dr);
    lemma_distinct_ids_len(all);
    // the two have the same ids
    let ia = ids_of(all).to_set();
    let id_ = ids_of(dr).to_set();
    assert forall|x: Seq<char>| ia.contains(x) implies id_.contains(x) by {
        let k = choose|k: int| 0 <= k < ids_of(all).len() && ids_of(all)[k] == x;
        let i = choose|i: int|
            0 <= i < ids.len() && #[trigger] ids[i]@ == #[trigger] all[k].id@
                && find_task(v, ids[i]@) == Some(all[k])
                && is_drawable(v, all[k], chapter_id, difficulty, only_weak);
        lemma_find_task(v, ids[i]@);
        let q = choose|q: int| 0 <= q < v.tasks.len() && v.tasks[q] == all[k];
        v.tasks.lemma_filter_contains(p, q);
        let r = choose|r: int| 0 <= r < dr.len() && dr[r] == all[k];
        assert(ids_of(dr)[r] == x);
    }
    assert forall|x: Seq<char>| id_.contains(x) implies ia.contains(x) by {
        let r = choose|r: int| 0 <= r < ids_of(dr).len() && ids_of(dr)[r] == x;
        let t = dr[r];
        v.tasks.lemma_filter_pred(p, r);
        assert(dr.contains(t));
        v.tasks.lemma_filter_contains_rev(p, t);
        let q = choose|q: int| 0 <= q < v.tasks.len() && v.tasks[q] == t;
        let i = choose|i: int| 0 <= i < ids.len() && #[trigger] ids[i]@ == #[trigger] v.tasks[q].id@;
        lemma_find_task(v, ids[i]@);
        assert(find_task(v, ids[i]@) == Some(t));
        assert(all.contains(t));
        let k = choose|k: int| 0 <= k < all.len() && all[k] == t;
        assert(ids_of(all)[k] == x);
    }
    assert(ia =~= id_);
    let drawn = drawn_tasks(v, ids, chapter_id, difficulty, count, only_weak);
    assert forall|a: int, b: int| 0 <= a < b < drawn.len() implies #[trigger] drawn[a].id@ != #[trigger] drawn[b].id@ by {
        assert(drawn[a] == all[a] && drawn[b] == all[b]);
    }
}

} // verus!
