use vstd::prelude::*;
use crate::models::{Chapter, Task, TaskAssessment};
use crate::practice::assess_task_expected;
use crate::queries::{lemma_last_match_index, latest_task_assessment};
use crate::stats::{count_indices, count_latest, counted_latest, superseded, tasks_of_chapter};
use crate::store::{DbView, DbWrite, apply_write, apply_writes, lemma_apply_single};

verus! {

broadcast use vstd::seq_lib::group_seq_properties;

proof fn lemma_count_ext(n: int, f: spec_fn(int) -> bool, g: spec_fn(int) -> bool)
    requires
        forall|i: int| 0 <= i < n ==> #[trigger] f(i) == g(i),
    ensures
        count_indices(n, f) == count_indices(n, g),
    decreases n,
{
    if n > 0 {
        lemma_count_ext(n - 1, f, g);
    }
}

proof fn lemma_count_split(n: int, f: spec_fn(int) -> bool, g: spec_fn(int) -> bool, h: spec_fn(int) -> bool)
    requires
        forall|i: int| 0 <= i < n ==> #[trigger] f(i) == (g(i) || h(i)),
        forall|i: int| 0 <= i < n ==> !(#[trigger] g(i) && h(i)),
    ensures
        count_indices(n, f) == count_indices(n, g) + count_indices(n, h),
    decreases n,
{
    if n > 0 {
        lemma_count_split(n - 1, f, g, h);
    }
}

proof fn lemma_count_at_most_one(n: int, h: spec_fn(int) -> bool, k: int)
    requires
        forall|i: int| 0 <= i < n && #[trigger] h(i) ==> i == k,
    ensures
        count_indices(n, h) == (if 0 <= k < n && h(k) { 1nat } else { 0nat }),
    decreases n,
{
    if n > 0 {
        lemma_count_at_most_one(n - 1, h, k);
    }
}

proof fn lemma_count_none(n: int, h: spec_fn(int) -> bool)
    requires
        forall|i: int| 0 <= i < n ==> !#[trigger] h(i),
    ensures
        count_indices(n, h) == 0,
    decreases n,
{
    if n > 0 {
        lemma_count_none(n - 1, h);
    }
}

/// Whether a self-assessment is counted by a count that is narrowed to the
/// chapter (when one is given) and to the status (when one is given).
pub open spec fn counted_by(a: TaskAssessment, chapter_id: Option<Seq<char>>, status: Option<Seq<char>>) -> bool {
    &&& (chapter_id matches Some(c) ==> a.chapter_id@ == c)
    &&& (status matches Some(s) ==> a.assessment@ == s)
}

/// The number, 0 or 1, that a task's latest self-assessment adds to a count.
pub open spec fn latest_counted(v: DbView, task_id: Seq<char>, chapter_id: Option<Seq<char>>, status: Option<Seq<char>>) -> nat {
    if latest_task_assessment(v, task_id) matches Some(a) && counted_by(a, chapter_id, status) {
        1
    } else {
        0
    }
}

/// A new self-assessment of a task replaces the task's previous latest one
/// in every count: the counts lose what the previous one added and gain what
/// the new one adds, and nothing else changes.
pub proof fn law_assessment_replaces_latest(
    v: DbView,
    x: TaskAssessment,
    chapter_id: Option<Seq<char>>,
    status: Option<Seq<char>>,
)
    ensures
        count_latest(apply_write(v, DbWrite::InsertTaskAssessment(x)), chapter_id, status)
            + latest_counted(v, x.task_id@, chapter_id, status)
            == count_latest(v, chapter_id, status) + (if counted_by(x, chapter_id, status) { 1nat } else { 0nat }),
{
    let recs = v.task_assessments;
    let n = recs.len() as int;
    let recs2 = recs.push(x);
    let t = x.task_id@;
    let f = |i: int| counted_latest(recs, i, chapter_id, status);
    let f2 = |i: int| counted_latest(recs2, i, chapter_id, status);
    let g = |i: int| counted_latest(recs, i, chapter_id, status) && recs[i].task_id@ != t;
    let h = |i: int| counted_latest(recs, i, chapter_id, status) && recs[i].task_id@ == t;
    assert(apply_write(v, DbWrite::InsertTaskAssessment(x)).task_assessments == recs2);
    // the old rows: one is counted after the write when it was counted before
    // and is not of the task
    assert forall|i: int| 0 <= i < n implies #[trigger] f2(i) == g(i) by {
        assert(recs2[i] == recs[i]);
        if superseded(recs, i) {
            let j = choose|j: int| i < j < recs.len() && #[trigger] recs[j].task_id@ == recs[i].task_id@;
            assert(recs2[j] == recs[j]);
        }
        if recs[i].task_id@ == t {
            assert(recs2[n].task_id@ == recs2[i].task_id@);
        }
        if superseded(recs2, i) && recs[i].task_id@ != t {
            let j = choose|j: int| i < j < recs2.len() && #[trigger] recs2[j].task_id@ == recs2[i].task_id@;
            assert(j < n);
            assert(recs2[j] == recs[j]);
        }
    }
    lemma_count_ext(n, f2, g);
    assert(!superseded(recs2, n));
    assert(recs2[n] == x);
    lemma_count_split(n, f, g, h);
    lemma_last_match_index(recs, |a: TaskAssessment| a.task_id@ == x.task_id@);
    match latest_task_assessment(v, x.task_id@) {
        Some(a) => {
            let k = choose|k: int|
                0 <= k < recs.len() && recs[k] == a && a.task_id@ == x.task_id@ && forall|j: int|
                    k < j < recs.len() ==> !(#[trigger] recs[j].task_id@ == x.task_id@);
            assert forall|i: int| 0 <= i < n && #[trigger] h(i) implies i == k by {
                if i < k {
                    assert(recs[k].task_id@ == recs[i].task_id@);
                }
            }
            lemma_count_at_most_one(n, h, k);
            assert(!superseded(recs, k));
        },
        None => {
            lemma_count_none(n, h);
        },
    }
}

/// A task that had no self-assessment and is then self-assessed twice under
/// the same chapter is counted once in that chapter, by its second
/// assessment; the chapter's tasks stay as they were.
pub proof fn law_reassessed_task_counts_once(v: DbView, task_id: String, chapter_id: String, first: String, second: String)
    requires
        latest_task_assessment(v, task_id@) is None,
    ensures
        assess_task_expected(v, task_id, chapter_id, first) matches Ok(ws1) ==> {
            let v1 = apply_writes(v, ws1);
            assess_task_expected(v1, task_id, chapter_id, second) matches Ok(ws2) ==> {
                let v2 = apply_writes(v1, ws2);
                &&& tasks_of_chapter(v2, chapter_id@) == tasks_of_chapter(v, chapter_id@)
                &&& count_latest(v2, Some(chapter_id@), None) == count_latest(v, Some(chapter_id@), None) + 1
                &&& forall|s: Seq<char>| #[trigger] count_latest(v2, Some(chapter_id@), Some(s))
                    == count_latest(v, Some(chapter_id@), Some(s)) + (if second@ == s { 1nat } else { 0nat })
            }
        },
{
    let x1 = TaskAssessment { task_id, chapter_id, assessment: first };
    let x2 = TaskAssessment { task_id, chapter_id, assessment: second };
    let w1 = DbWrite::InsertTaskAssessment(x1);
    let w2 = DbWrite::InsertTaskAssessment(x2);
    if let Ok(ws1) = assess_task_expected(v, task_id, chapter_id, first) {
        lemma_apply_single(v, w1);
        let v1 = apply_writes(v, ws1);
        assert(v1 == apply_write(v, w1));
        assert(v1.task_assessments == v.task_assessments.push(x1));
        assert(v1.task_assessments.drop_last() =~= v.task_assessments);
        assert(latest_task_assessment(v1, task_id@) == Some(x1));
        if let Ok(ws2) = assess_task_expected(v1, task_id, chapter_id, second) {
            lemma_apply_single(v1, w2);
            let v2 = apply_writes(v1, ws2);
            assert(v2 == apply_write(v1, w2));
            law_assessment_replaces_latest(v, x1, Some(chapter_id@), None);
            law_assessment_replaces_latest(v1, x2, Some(chapter_id@), None);
            assert forall|s: Seq<char>| #[trigger] count_latest(v2, Some(chapter_id@), Some(s))
                == count_latest(v, Some(chapter_id@), Some(s)) + (if second@ == s { 1nat } else { 0nat }) by {
                law_assessment_replaces_latest(v, x1, Some(chapter_id@), Some(s));
                law_assessment_replaces_latest(v1, x2, Some(chapter_id@), Some(s));
            }
        }
    }
}

/// The sum of `g` over the ids of the chapters.
pub open spec fn sum_over_chapters(chapters: Seq<Chapter>, g: spec_fn(Seq<char>) -> nat) -> nat
    decreases chapters.len(),
{
    if chapters.len() == 0 {
        0
    } else {
        sum_over_chapters(chapters.drop_last(), g) + g(chapters.last().id@)
    }
}

/// How many of the indices `0..n` satisfy `f` and have key `c`.
pub open spec fn count_with_key(n: int, f: spec_fn(int) -> bool, key: spec_fn(int) -> Seq<char>, c: Seq<char>) -> nat
    decreases n,
{
    if n <= 0 {
        0
    } else {
        count_with_key(n - 1, f, key, c) + (if f(n - 1) && key(n - 1) == c { 1nat } else { 0nat })
    }
}

proof fn lemma_count_with_key(n: int, f: spec_fn(int) -> bool, key: spec_fn(int) -> Seq<char>, c: Seq<char>, g: spec_fn(int) -> bool)
    requires
        forall|i: int| 0 <= i < n ==> #[trigger] g(i) == (f(i) && key(i) == c),
    ensures
        count_with_key(n, f, key, c) == count_indices(n, g),
    decreases n,
{
    if n > 0 {
        lemma_count_with_key(n - 1, f, key, c, g);
    }
}

spec fn names_chapter(chapters: Seq<Chapter>, id: Seq<char>) -> bool {
    exists|j: int| 0 <= j < chapters.len() && #[trigger] chapters[j].id@ == id
}

proof fn lemma_sum_over_chapters(n: int, f: spec_fn(int) -> bool, key: spec_fn(int) -> Seq<char>, chapters: Seq<Chapter>)
    requires
        forall|a: int, b: int| 0 <= a < b < chapters.len() ==> #[trigger] chapters[a].id@ != #[trigger] chapters[b].id@,
    ensures
        count_indices(n, |i: int| f(i) && names_chapter(chapters, key(i)))
            == sum_over_chapters(chapters, |c: Seq<char>| count_with_key(n, f, key, c)),
    decreases chapters.len(),
{
    let both = |i: int| f(i) && names_chapter(chapters, key(i));
    lemma_count_ext(n, both, |i: int| f(i) && names_chapter(chapters, key(i)));
    if chapters.len() == 0 {
        lemma_count_none(n, both);
    } else {
        let rest = chapters.drop_last();
        let last = chapters.last().id@;
        lemma_sum_over_chapters(n, f, key, rest);
        let before = |i: int| f(i) && names_chapter(rest, key(i));
        let here = |i: int| f(i) && key(i) == last;
        assert forall|i: int| 0 <= i < n implies #[trigger] both(i) == (before(i) || here(i)) by {
            if names_chapter(chapters, key(i)) && key(i) != last {
                let j = choose|j: int| 0 <= j < chapters.len() && #[trigger] chapters[j].id@ == key(i);
                assert(rest[j] == chapters[j]);
            }
            if names_chapter(rest, key(i)) {
                let j = choose|j: int| 0 <= j < rest.len() && #[trigger] rest[j].id@ == key(i);
                assert(chapters[j] == rest[j]);
            }
            if key(i) == last {
                assert(chapters[chapters.len() - 1].id@ == last);
            }
        }
        assert forall|i: int| 0 <= i < n implies !(#[trigger] before(i) && here(i)) by {
            if before(i) && here(i) {
                let j = choose|j: int| 0 <= j < rest.len() && #[trigger] rest[j].id@ == key(i);
                assert(chapters[j] == rest[j]);
                assert(chapters[j].id@ == chapters[chapters.len() - 1].id@);
            }
        }
        lemma_count_split(n, both, before, here);
        lemma_count_ext(n, before, |i: int| f(i) && names_chapter(rest, key(i)));
        lemma_count_with_key(n, f, key, last, here);
        let g = |c: Seq<char>| count_with_key(n, f, key, c);
        assert(g(last) == count_with_key(n, f, key, last));
        assert(sum_over_chapters(chapters, g) == sum_over_chapters(rest, g) + g(last));
    }
}

proof fn lemma_sum_ext(chapters: Seq<Chapter>, g: spec_fn(Seq<char>) -> nat, h: spec_fn(Seq<char>) -> nat)
    requires
        forall|c: Seq<char>| #[trigger] g(c) == h(c),
    ensures
        sum_over_chapters(chapters, g) == sum_over_chapters(chapters, h),
    decreases chapters.len(),
{
    if chapters.len() > 0 {
        lemma_sum_ext(chapters.drop_last(), g, h);
    }
}

proof fn lemma_filter_count<T>(s: Seq<T>, p: spec_fn(T) -> bool)
    ensures
        s.filter(p).len() == count_indices(s.len() as int, |i: int| p(s[i])),
    decreases s.len(),
{
    if s.len() > 0 {
        let t = s.drop_last();
        lemma_filter_count(t, p);
        assert(t.push(s.last()) =~= s);
        t.lemma_filter_push(s.last(), p);
        lemma_count_ext(t.len() as int, |i: int| p(t[i]), |i: int| p(s[i]));
    }
}

proof fn lemma_count_all(n: int)
    requires
        n >= 0,
    ensures
        count_indices(n, |i: int| true) == n,
    decreases n,
{
    if n > 0 {
        lemma_count_all(n - 1);
    }
}

/// When every task and every self-assessment names a chapter that exists,
/// and chapter ids are unique, the overall counts are the sums of the
/// per-chapter counts: the number of tasks, and for each status (or none)
/// the number of tasks whose latest self-assessment has it.
pub proof fn law_overall_is_sum_of_chapters(v: DbView)
    requires
        v.keys_unique(),
        forall|i: int| 0 <= i < v.tasks.len() ==> v.has_chapter(#[trigger] v.tasks[i].chapter_id@),
        forall|i: int| 0 <= i < v.task_assessments.len() ==> v.has_chapter(#[trigger] v.task_assessments[i].chapter_id@),
    ensures
        v.tasks.len() == sum_over_chapters(v.chapters, |c: Seq<char>| tasks_of_chapter(v, c).len()),
        forall|status: Option<Seq<char>>| #[trigger] count_latest(v, None, status)
            == sum_over_chapters(v.chapters, |c: Seq<char>| count_latest(v, Some(c), status)),
{
    let chs = v.chapters;
    // tasks
    let tn = v.tasks.len() as int;
    let tkey = |i: int| v.tasks[i].chapter_id@;
    let yes = |i: int| true;
    lemma_sum_over_chapters(tn, yes, tkey, chs);
    assert forall|i: int| 0 <= i < tn implies #[trigger] yes(i) == (yes(i) && names_chapter(chs, tkey(i))) by {
        assert(v.has_chapter(v.tasks[i].chapter_id@));
    }
    lemma_count_ext(tn, yes, |i: int| yes(i) && names_chapter(chs, tkey(i)));
    lemma_count_all(tn);
    let g1 = |c: Seq<char>| count_with_key(tn, yes, tkey, c);
    let g2 = |c: Seq<char>| tasks_of_chapter(v, c).len();
    assert forall|c: Seq<char>| #[trigger] g1(c) == g2(c) by {
        lemma_filter_count(v.tasks, |t: Task| t.chapter_id@ == c);
        lemma_count_with_key(tn, yes, tkey, c, |i: int| (|t: Task| t.chapter_id@ == c)(v.tasks[i]));
    }
    lemma_sum_ext(chs, g1, g2);
    // latest self-assessments
    let recs = v.task_assessments;
    let n = recs.len() as int;
    let akey = |i: int| recs[i].chapter_id@;
    assert forall|status: Option<Seq<char>>| #[trigger] count_latest(v, None, status)
        == sum_over_chapters(v.chapters, |c: Seq<char>| count_latest(v, Some(c), status)) by {
        let f = |i: int| counted_latest(recs, i, None, status);
        lemma_sum_over_chapters(n, f, akey, chs);
        assert forall|i: int| 0 <= i < n implies #[trigger] f(i) == (f(i) && names_chapter(chs, akey(i))) by {
            assert(v.has_chapter(recs[i].chapter_id@));
        }
        lemma_count_ext(n, f, |i: int| f(i) && names_chapter(chs, akey(i)));
        let h1 = |c: Seq<char>| count_with_key(n, f, akey, c);
        let h2 = |c: Seq<char>| count_latest(v, Some(c), status);
        assert forall|c: Seq<char>| #[trigger] h1(c) == h2(c) by {
            lemma_count_with_key(n, f, akey, c, |i: int| counted_latest(recs, i, Some(c), status));
        }
        lemma_sum_ext(chs, h1, h2);
        lemma_count_ext(n, f, |i: int| counted_latest(v.task_assessments, i, None, status));
    }
}

} // verus!
