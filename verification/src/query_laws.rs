use vstd::prelude::*;
use crate::models::{Task, TaskAssessment, TaskKnowledgePoint, TaskSource};
use crate::queries::{
    drawable_in_order, drawn_tasks, is_drawable, lemma_last_match_index, latest_task_assessment,
    listed_tasks, sources_of, task_page,
};
use crate::stats::{mastered_links_to, mastered_tasks_of_outcome};
use crate::store::{DbView, DbWrite, apply_write};

verus! {

broadcast use vstd::seq_lib::group_seq_properties, vstd::seq_lib::group_to_multiset_ensures;

// ─── Helpers on sequences ────────────────────────────────

proof fn lemma_filter_ext<T>(s: Seq<T>, p: spec_fn(T) -> bool, q: spec_fn(T) -> bool)
    requires
        forall|x: T| #[trigger] p(x) == q(x),
    ensures
        s.filter(p) == s.filter(q),
    decreases s.len(),
{
    if s.len() > 0 {
        let t = s.drop_last();
        lemma_filter_ext(t, p, q);
        assert(t.push(s.last()) =~= s);
        t.lemma_filter_push(s.last(), p);
        t.lemma_filter_push(s.last(), q);
    }
}

proof fn lemma_filter_filter<T>(s: Seq<T>, p: spec_fn(T) -> bool, q: spec_fn(T) -> bool, r: spec_fn(T) -> bool)
    requires
        forall|x: T| #[trigger] r(x) == (p(x) && q(x)),
    ensures
        s.filter(p).filter(q) == s.filter(r),
    decreases s.len(),
{
    if s.len() > 0 {
        let t = s.drop_last();
        lemma_filter_filter(t, p, q, r);
        assert(t.push(s.last()) =~= s);
        t.lemma_filter_push(s.last(), p);
        t.lemma_filter_push(s.last(), r);
        if p(s.last()) {
            t.filter(p).lemma_filter_push(s.last(), q);
        }
    }
}

/// The number of source rows of the task `task_id`.
pub open spec fn count_source_rows(rows: Seq<TaskSource>, task_id: Seq<char>) -> nat
    decreases rows.len(),
{
    if rows.len() == 0 {
        0
    } else {
        count_source_rows(rows.drop_last(), task_id) + (if rows.last().task_id@ == task_id { 1nat } else { 0nat })
    }
}

proof fn lemma_filter_len_counts(rows: Seq<TaskSource>, p: spec_fn(TaskSource) -> bool, task_id: Seq<char>)
    requires
        forall|x: TaskSource| #[trigger] p(x) == (x.task_id@ == task_id),
    ensures
        rows.filter(p).len() == count_source_rows(rows, task_id),
    decreases rows.len(),
{
    if rows.len() > 0 {
        let t = rows.drop_last();
        lemma_filter_len_counts(t, p, task_id);
        assert(t.push(rows.last()) =~= rows);
        t.lemma_filter_push(rows.last(), p);
    }
}

// ─── Weak-spot draws ─────────────────────────────────────

/// A weak-spot draw holds only tasks that were self-assessed as needing
/// work at least once: each drawn task has a task self-assessment row whose
/// assessment is "needs_work". A task whose self-assessments are all
/// "mastered" (or that has none) is never drawn.
pub proof fn law_weak_draw_needs_work(
    v: DbView,
    ids: Seq<String>,
    chapter_id: Option<String>,
    difficulty: Option<String>,
    count: i64,
)
    ensures
        ({
            let drawn = drawn_tasks(v, ids, chapter_id, difficulty, count, true);
            forall|i: int| 0 <= i < drawn.len() ==> exists|j: int|
                0 <= j < v.task_assessments.len() && #[trigger] v.task_assessments[j].task_id@ == #[trigger] drawn[i].id@
                    && v.task_assessments[j].assessment@ == "needs_work"@
        }),
        forall|t: Task|
            (forall|j: int| 0 <= j < v.task_assessments.len() && #[trigger] v.task_assessments[j].task_id@ == t.id@
                ==> v.task_assessments[j].assessment@ == "mastered"@)
            ==> !drawn_tasks(v, ids, chapter_id, difficulty, count, true).contains(t),
{
    let all = drawable_in_order(v, ids, chapter_id, difficulty, true);
    let drawn = drawn_tasks(v, ids, chapter_id, difficulty, count, true);
    crate::laws::law_random_draw(v, ids, chapter_id, difficulty, count, true);
    assert forall|i: int| 0 <= i < drawn.len() implies exists|j: int|
        0 <= j < v.task_assessments.len() && #[trigger] v.task_assessments[j].task_id@ == #[trigger] drawn[i].id@
            && v.task_assessments[j].assessment@ == "needs_work"@ by {
        assert(is_drawable(v, drawn[i], chapter_id, difficulty, true));
    }
    assert forall|t: Task|
        (forall|j: int| 0 <= j < v.task_assessments.len() && #[trigger] v.task_assessments[j].task_id@ == t.id@
            ==> v.task_assessments[j].assessment@ == "mastered"@)
        implies !drawn.contains(t) by {
        if drawn.contains(t) {
            reveal_strlit("needs_work");
            reveal_strlit("mastered");
            let i = choose|i: int| 0 <= i < drawn.len() && drawn[i] == t;
            assert(is_drawable(v, drawn[i], chapter_id, difficulty, true));
            let j = choose|j: int|
                0 <= j < v.task_assessments.len() && #[trigger] v.task_assessments[j].task_id@ == t.id@
                    && v.task_assessments[j].assessment@ == "needs_work"@;
            assert(v.task_assessments[j].assessment@ == "mastered"@);
        }
    }
}

// ─── Task listings ───────────────────────────────────────

/// Whether a task matches a listing, spelled out over the tables: it is in
/// the chapter, it has the difficulty when one is given, and a link row ties
/// it to the knowledge point when one is given.
pub open spec fn matches_listing(
    v: DbView,
    t: Task,
    chapter_id: Seq<char>,
    difficulty: Option<String>,
    knowledge_point_id: Option<String>,
) -> bool {
    &&& t.chapter_id@ == chapter_id
    &&& (difficulty matches Some(d) ==> t.difficulty@ == d@)
    &&& (knowledge_point_id matches Some(k) ==> exists|j: int|
        0 <= j < v.task_knowledge_points.len() && #[trigger] v.task_knowledge_points[j].task_id@ == t.id@
            && v.task_knowledge_points[j].knowledge_point_id@ == k@)
}

/// A task listing counts and lists exactly the tasks of the table that are
/// in the chapter, have the difficulty when one is given and are linked to
/// the knowledge point when one is given; each filter applies whether or not
/// the other is given. Every task on a page matches too.
pub proof fn law_listing_filters(
    v: DbView,
    chapter_id: Seq<char>,
    difficulty: Option<String>,
    knowledge_point_id: Option<String>,
    offset: i64,
    limit: i64,
)
    ensures
        forall|i: int| 0 <= i < listed_tasks(v, chapter_id, difficulty, knowledge_point_id).len()
            ==> matches_listing(v, #[trigger] listed_tasks(v, chapter_id, difficulty, knowledge_point_id)[i], chapter_id, difficulty, knowledge_point_id),
        forall|k: int| 0 <= k < v.tasks.len() && matches_listing(v, #[trigger] v.tasks[k], chapter_id, difficulty, knowledge_point_id)
            ==> listed_tasks(v, chapter_id, difficulty, knowledge_point_id).contains(v.tasks[k]),
        forall|i: int| 0 <= i < task_page(v, chapter_id, difficulty, knowledge_point_id, offset, limit).len()
            ==> matches_listing(v, #[trigger] task_page(v, chapter_id, difficulty, knowledge_point_id, offset, limit)[i], chapter_id, difficulty, knowledge_point_id),
{
    let listed = listed_tasks(v, chapter_id, difficulty, knowledge_point_id);
    let p = |t: Task| crate::queries::is_listed(v, t, chapter_id, difficulty, knowledge_point_id);
    assert forall|i: int| 0 <= i < listed.len() implies matches_listing(v, #[trigger] listed[i], chapter_id, difficulty, knowledge_point_id) by {
        v.tasks.lemma_filter_pred(p, i);
    }
    assert forall|k: int| 0 <= k < v.tasks.len() && matches_listing(v, #[trigger] v.tasks[k], chapter_id, difficulty, knowledge_point_id)
        implies listed.contains(v.tasks[k]) by {
        v.tasks.lemma_filter_contains(p, k);
    }
    crate::laws::law_task_listing(v, chapter_id, difficulty, knowledge_point_id, offset, limit);
    let page = task_page(v, chapter_id, difficulty, knowledge_point_id, offset, limit);
    assert forall|i: int| 0 <= i < page.len() implies matches_listing(v, #[trigger] page[i], chapter_id, difficulty, knowledge_point_id) by {
        assert(crate::queries::is_listed(v, page[i], chapter_id, difficulty, knowledge_point_id));
    }
}

// ─── Task details ────────────────────────────────────────

/// A task detail's sources are every source row of the task and nothing
/// else: each belongs to the task, each source row of the task is among
/// them, and there are as many as the table has rows for the task.
pub proof fn law_detail_sources_are_all_rows_of_task(v: DbView, task_id: Seq<char>)
    ensures
        forall|i: int| 0 <= i < sources_of(v, task_id).len() ==> (#[trigger] sources_of(v, task_id)[i]).task_id@ == task_id,
        forall|k: int| 0 <= k < v.task_sources.len() && (#[trigger] v.task_sources[k]).task_id@ == task_id
            ==> sources_of(v, task_id).contains(v.task_sources[k]),
        sources_of(v, task_id).len() == count_source_rows(v.task_sources, task_id),
{
    let key = (task_id, 0int);
    let p = |s: TaskSource| s.task_id@ == key.0;
    assert(sources_of(v, key.0) == v.task_sources.filter(p));
    assert forall|i: int| 0 <= i < sources_of(v, task_id).len() implies (#[trigger] sources_of(v, task_id)[i]).task_id@ == task_id by {
        v.task_sources.lemma_filter_pred(p, i);
    }
    assert forall|k: int| 0 <= k < v.task_sources.len() && (#[trigger] v.task_sources[k]).task_id@ == task_id
        implies sources_of(v, task_id).contains(v.task_sources[k]) by {
        v.task_sources.lemma_filter_contains(p, k);
    }
    lemma_filter_len_counts(v.task_sources, p, task_id);
}

// ─── Mastery counts ──────────────────────────────────────

/// Whether the last self-assessment row recorded for the task has the
/// status: some row of the task has it, and no row of the task comes after.
pub open spec fn last_status_is(v: DbView, task_id: Seq<char>, status: Seq<char>) -> bool {
    exists|j: int|
        0 <= j < v.task_assessments.len() && #[trigger] v.task_assessments[j].task_id@ == task_id
            && v.task_assessments[j].assessment@ == status && forall|k: int|
            j < k < v.task_assessments.len() ==> #[trigger] v.task_assessments[k].task_id@ != task_id
}

proof fn lemma_last_status(v: DbView, task_id: Seq<char>, status: Seq<char>)
    ensures
        last_status_is(v, task_id, status) <==> (latest_task_assessment(v, task_id) matches Some(a)
            && a.assessment@ == status),
{
    let recs = v.task_assessments;
    let key = (task_id, 0int);
    lemma_last_match_index(recs, |a: TaskAssessment| a.task_id@ == key.0);
    assert(latest_task_assessment(v, task_id) == latest_task_assessment(v, key.0));
    match latest_task_assessment(v, key.0) {
        Some(a) => {
            let q = choose|q: int|
                0 <= q < recs.len() && recs[q] == a && a.task_id@ == task_id && forall|j: int|
                    q < j < recs.len() ==> !(#[trigger] recs[j].task_id@ == task_id);
            assert forall|k: int| q < k < recs.len() implies #[trigger] recs[k].task_id@ != task_id by {
                assert(!(recs[k].task_id@ == task_id));
            }
            if last_status_is(v, task_id, status) {
                let j = choose|j: int|
                    0 <= j < recs.len() && #[trigger] recs[j].task_id@ == task_id
                        && recs[j].assessment@ == status && forall|k: int|
                        j < k < recs.len() ==> #[trigger] recs[k].task_id@ != task_id;
                if j < q {
                    assert(recs[q].task_id@ != task_id);
                }
                if j > q {
                    assert(!(recs[j].task_id@ == task_id));
                }
            }
            if a.assessment@ == status {
                assert(recs[q].task_id@ == task_id);
            }
        },
        None => {
            if last_status_is(v, task_id, status) {
                let j = choose|j: int|
                    0 <= j < recs.len() && #[trigger] recs[j].task_id@ == task_id
                        && recs[j].assessment@ == status && forall|k: int|
                        j < k < recs.len() ==> #[trigger] recs[k].task_id@ != task_id;
                assert(!(recs[j].task_id@ == task_id));
            }
        },
    }
}

/// Whether a link is to the knowledge point and its task's last
/// self-assessment is "mastered".
pub open spec fn link_mastered_at_last(v: DbView, kp_id: Seq<char>) -> spec_fn(TaskKnowledgePoint) -> bool {
    |l: TaskKnowledgePoint| l.knowledge_point_id@ == kp_id && last_status_is(v, l.task_id@, "mastered"@)
}

/// Whether a task is of the course outcome and its last self-assessment is
/// "mastered".
pub open spec fn task_mastered_at_last(v: DbView, outcome_id: Seq<char>) -> spec_fn(Task) -> bool {
    |t: Task| t.course_outcome_id@ == outcome_id && last_status_is(v, t.id@, "mastered"@)
}

/// The mastered count of a knowledge point counts exactly its links whose
/// task's last recorded self-assessment is "mastered"; that of a course
/// outcome counts exactly its tasks whose last recorded self-assessment is
/// "mastered". An earlier "mastered" that a later assessment replaced does
/// not count.
pub proof fn law_mastered_means_last_assessed_mastered(v: DbView, id: Seq<char>)
    ensures
        mastered_links_to(v, id) == v.task_knowledge_points.filter(link_mastered_at_last(v, id)),
        mastered_tasks_of_outcome(v, id) == v.tasks.filter(task_mastered_at_last(v, id)),
{
    assert forall|l: TaskKnowledgePoint| #[trigger] crate::stats::is_mastered_link_to(v, id)(l)
        == link_mastered_at_last(v, id)(l) by {
        lemma_last_status(v, l.task_id@, "mastered"@);
    }
    lemma_filter_ext(v.task_knowledge_points, crate::stats::is_mastered_link_to(v, id), link_mastered_at_last(v, id));
    assert forall|t: Task| #[trigger] crate::stats::is_mastered_task_of_outcome(v, id)(t)
        == task_mastered_at_last(v, id)(t) by {
        lemma_last_status(v, t.id@, "mastered"@);
    }
    lemma_filter_ext(v.tasks, crate::stats::is_mastered_task_of_outcome(v, id), task_mastered_at_last(v, id));
}

/// Whether a link is not to the task.
pub open spec fn link_not_of_task(task_id: Seq<char>) -> spec_fn(TaskKnowledgePoint) -> bool {
    |l: TaskKnowledgePoint| l.task_id@ != task_id
}

/// Whether a task does not have the id.
pub open spec fn task_not_with_id(task_id: Seq<char>) -> spec_fn(Task) -> bool {
    |t: Task| t.id@ != task_id
}

/// Recording a "needs_work" self-assessment of a task takes that task out of
/// every mastered count and leaves the rest as they were: the mastered
/// links of a knowledge point become those that were mastered and are not
/// to the task, and likewise the mastered tasks of a course outcome.
pub proof fn law_needs_work_unmasters(v: DbView, x: TaskAssessment, id: Seq<char>)
    requires
        x.assessment@ == "needs_work"@,
    ensures
        ({
            let w = apply_write(v, DbWrite::InsertTaskAssessment(x));
            &&& mastered_links_to(w, id) == mastered_links_to(v, id).filter(link_not_of_task(x.task_id@))
            &&& mastered_tasks_of_outcome(w, id) == mastered_tasks_of_outcome(v, id).filter(task_not_with_id(x.task_id@))
        }),
{
    let w = apply_write(v, DbWrite::InsertTaskAssessment(x));
    let recs = v.task_assessments;
    let n = recs.len() as int;
    assert(w.task_assessments == recs.push(x));
    assert forall|t: Seq<char>| last_status_is(w, t, "mastered"@) == (t != x.task_id@ && last_status_is(v, t, "mastered"@)) by {
        let wr = w.task_assessments;
        if last_status_is(w, t, "mastered"@) {
            let j = choose|j: int|
                0 <= j < wr.len() && #[trigger] wr[j].task_id@ == t && wr[j].assessment@ == "mastered"@
                    && forall|k: int| j < k < wr.len() ==> #[trigger] wr[k].task_id@ != t;
            reveal_strlit("needs_work");
            reveal_strlit("mastered");
            assert(wr[n] == x);
            assert("needs_work"@.len() != "mastered"@.len());
            assert(j != n);
            assert(wr[j] == recs[j]);
            if t == x.task_id@ {
                assert(wr[n].task_id@ != t);
            }
            assert forall|k: int| j < k < recs.len() implies #[trigger] recs[k].task_id@ != t by {
                assert(wr[k] == recs[k]);
            }
        }
        if t != x.task_id@ && last_status_is(v, t, "mastered"@) {
            let j = choose|j: int|
                0 <= j < recs.len() && #[trigger] recs[j].task_id@ == t && recs[j].assessment@ == "mastered"@
                    && forall|k: int| j < k < recs.len() ==> #[trigger] recs[k].task_id@ != t;
            assert(wr[j] == recs[j]);
            assert forall|k: int| j < k < wr.len() implies #[trigger] wr[k].task_id@ != t by {
                if k < n {
                    assert(wr[k] == recs[k]);
                }
            }
        }
    }
    law_mastered_means_last_assessed_mastered(v, id);
    law_mastered_means_last_assessed_mastered(w, id);
    assert(w.task_knowledge_points == v.task_knowledge_points);
    assert(w.tasks == v.tasks);
    assert forall|l: TaskKnowledgePoint| #[trigger] link_mastered_at_last(w, id)(l)
        == (link_mastered_at_last(v, id)(l) && link_not_of_task(x.task_id@)(l)) by {}
    lemma_filter_filter(v.task_knowledge_points, link_mastered_at_last(v, id), link_not_of_task(x.task_id@), link_mastered_at_last(w, id));
    assert forall|t: Task| #[trigger] task_mastered_at_last(w, id)(t)
        == (task_mastered_at_last(v, id)(t) && task_not_with_id(x.task_id@)(t)) by {}
    lemma_filter_filter(v.tasks, task_mastered_at_last(v, id), task_not_with_id(x.task_id@), task_mastered_at_last(w, id));
}

} // verus!
