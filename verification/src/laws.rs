use vstd::prelude::*;
use crate::import::{
    ImportAcc, StmtResult, chapter_stmt, chapter_steps, import_batch, import_task_steps,
    knowledge_point_steps, knowledge_point_stmt, link_steps, link_stmt, outcome_steps,
    outcome_stmt, requirement_steps, requirement_stmt, run_steps, seed_batch,
    seed_import_expected, seed_task_steps, source_steps, source_stmt, start, step, task_body,
    task_row, task_stmt, version_stmt,
};
use crate::models::{
    AnswerRecord, Chapter, CourseOutcome, RequirementAssessment, SeedChapter, SeedCourseOutcome,
    SeedData, SeedKnowledgePoint, SeedTask, SeedTaskSource, Task, TaskAssessment,
    TaskKnowledgePoint,
};
use crate::practice::{
    assess_requirement_expected, assess_task_expected, current_version, run_migrations_expected,
    save_answer_expected,
};
use crate::queries::{
    ChapterOrder, OutcomeOrder, TaskIdOrder, MAX_DRAW, MAX_PAGE_SIZE, chapters_in_order,
    drawable_in_order, drawn_tasks, is_drawable, is_listed, last_match, latest_answer,
    latest_requirement_assessment, latest_task_assessment, listed_tasks, listed_tasks_by_id,
    outcomes_in_order, page_start, requirement_status, task_page,
};
use crate::sorting::{
    is_sorted, is_strict_order, lemma_sort_len, lemma_sort_permutes, lemma_sort_sorted, order_of,
};
use crate::stats::{
    count_indices, count_latest, counted_latest, is_link_to, is_mastered_link_to,
    is_mastered_task_of_outcome, is_task_of_outcome, links_to, mastered_links_to,
    mastered_tasks_of_outcome, tasks_of_outcome,
};
use crate::store::{
    DbView, DbWrite, SCHEMA_VERSION, apply_write, apply_writes, is_difficulty, is_status,
    lemma_apply_none, lemma_apply_single, lemma_apply_writes_push,
};
use crate::text::{lemma_text_lt_asymmetric, lemma_text_lt_transitive};

verus! {

broadcast use vstd::seq_lib::group_seq_properties, vstd::seq_lib::group_to_multiset_ensures;

/// The chapter listing holds every chapter, each once per row, by
/// non-decreasing order index.
pub proof fn law_chapter_listing(v: DbView)
    ensures
        chapters_in_order(v).to_multiset() == v.chapters.to_multiset(),
        forall|i: int, j: int|
            0 <= i < j < chapters_in_order(v).len() ==> #[trigger] chapters_in_order(v)[i].order_index
                <= #[trigger] chapters_in_order(v)[j].order_index,
{
    let before = order_of::<Chapter, ChapterOrder>();
    assert(is_strict_order(before));
    lemma_sort_sorted(v.chapters, before);
    lemma_sort_permutes(v.chapters, before);
}

/// The course outcome listing holds every course outcome, each once per
/// row, by non-decreasing order index.
pub proof fn law_outcome_listing(v: DbView)
    ensures
        outcomes_in_order(v).to_multiset() == v.course_outcomes.to_multiset(),
        forall|i: int, j: int|
            0 <= i < j < outcomes_in_order(v).len() ==> #[trigger] outcomes_in_order(v)[i].order_index
                <= #[trigger] outcomes_in_order(v)[j].order_index,
{
    let before = order_of::<CourseOutcome, OutcomeOrder>();
    assert(is_strict_order(before));
    lemma_sort_sorted(v.course_outcomes, before);
    lemma_sort_permutes(v.course_outcomes, before);
}

proof fn lemma_task_id_order_strict()
    ensures
        is_strict_order(order_of::<Task, TaskIdOrder>()),
{
    let before = order_of::<Task, TaskIdOrder>();
    assert forall|a: Task, b: Task| #[trigger] before(a, b) implies !before(b, a) by {
        lemma_text_lt_asymmetric(a.id@, b.id@);
    }
    assert forall|a: Task, b: Task, c: Task| #[trigger] before(a, b) && #[trigger] before(b, c) implies before(a, c) by {
        lemma_text_lt_transitive(a.id@, b.id@, c.id@);
    }
}

/// A task listing holds exactly the tasks that match it, in id order, and
/// each page is a run of at most 500 of them, all matching.
pub proof fn law_task_listing(
    v: DbView,
    chapter_id: Seq<char>,
    difficulty: Option<String>,
    knowledge_point_id: Option<String>,
    offset: i64,
    limit: i64,
)
    ensures
        listed_tasks_by_id(v, chapter_id, difficulty, knowledge_point_id).to_multiset()
            == listed_tasks(v, chapter_id, difficulty, knowledge_point_id).to_multiset(),
        is_sorted(listed_tasks_by_id(v, chapter_id, difficulty, knowledge_point_id), order_of::<Task, TaskIdOrder>()),
        ({
            let page = task_page(v, chapter_id, difficulty, knowledge_point_id, offset, limit);
            &&& page.len() <= MAX_PAGE_SIZE
            &&& page.len() <= listed_tasks(v, chapter_id, difficulty, knowledge_point_id).len()
            &&& forall|i: int| 0 <= i < page.len() ==> is_listed(v, #[trigger] page[i], chapter_id, difficulty, knowledge_point_id)
        }),
{
    let before = order_of::<Task, TaskIdOrder>();
    let listed = listed_tasks(v, chapter_id, difficulty, knowledge_point_id);
    let sorted = listed_tasks_by_id(v, chapter_id, difficulty, knowledge_point_id);
    let p = |t: Task| is_listed(v, t, chapter_id, difficulty, knowledge_point_id);
    lemma_task_id_order_strict();
    lemma_sort_sorted(listed, before);
    lemma_sort_permutes(listed, before);
    lemma_sort_len(listed, before);
    let page = task_page(v, chapter_id, difficulty, knowledge_point_id, offset, limit);
    let s = page_start(offset, sorted.len() as int);
    assert forall|i: int| 0 <= i < page.len() implies is_listed(v, #[trigger] page[i], chapter_id, difficulty, knowledge_point_id) by {
        let t = page[i];
        assert(t == sorted[s + i]);
        assert(sorted.contains(t));
        assert(sorted.to_multiset().count(t) > 0);
        assert(listed.contains(t));
        let k = choose|k: int| 0 <= k < listed.len() && listed[k] == t;
        v.tasks.lemma_filter_pred(p, k);
    }
}

/// A random draw holds at most 20 tasks and at least one, when any task
/// can be drawn; every task in it can be drawn.
pub proof fn law_random_draw(
    v: DbView,
    ids: Seq<String>,
    chapter_id: Option<String>,
    difficulty: Option<String>,
    count: i64,
    only_weak: bool,
)
    ensures
        ({
            let drawn = drawn_tasks(v, ids, chapter_id, difficulty, count, only_weak);
            let all = drawable_in_order(v, ids, chapter_id, difficulty, only_weak);
            &&& drawn.len() <= MAX_DRAW
            &&& (all.len() > 0 ==> drawn.len() > 0)
            &&& drawn.len() <= count || drawn.len() <= 1
            &&& forall|i: int| 0 <= i < drawn.len() ==> is_drawable(v, #[trigger] drawn[i], chapter_id, difficulty, only_weak)
        }),
{
    lemma_drawable_in_order(v, ids, chapter_id, difficulty, only_weak);
}

proof fn lemma_drawable_in_order(
    v: DbView,
    ids: Seq<String>,
    chapter_id: Option<String>,
    difficulty: Option<String>,
    only_weak: bool,
)
    ensures
        forall|i: int|
            0 <= i < drawable_in_order(v, ids, chapter_id, difficulty, only_weak).len()
                ==> is_drawable(v, #[trigger] drawable_in_order(v, ids, chapter_id, difficulty, only_weak)[i], chapter_id, difficulty, only_weak),
    decreases ids.len(),
{
    if ids.len() > 0 {
        let prev = drawable_in_order(v, ids.drop_last(), chapter_id, difficulty, only_weak);
        lemma_drawable_in_order(v, ids.drop_last(), chapter_id, difficulty, only_weak);
        let all = drawable_in_order(v, ids, chapter_id, difficulty, only_weak);
        assert forall|i: int| 0 <= i < all.len() implies is_drawable(v, #[trigger] all[i], chapter_id, difficulty, only_weak) by {
            if i < prev.len() {
                assert(all[i] == prev[i]);
            }
        }
    }
}


proof fn lemma_last_match_push<T>(s: Seq<T>, x: T, p: spec_fn(T) -> bool)
    ensures
        last_match(s.push(x), p) == (if p(x) {
            Some(x)
        } else {
            last_match(s, p)
        }),
{
    assert(s.push(x).drop_last() =~= s);
}

/// Once an answer is saved, it is the latest answer to its task, and saving
/// the same text again writes nothing.
pub proof fn law_saved_answer_reads_back(v: DbView, task_id: String, chapter_id: String, answer_text: String)
    ensures
        save_answer_expected(v, task_id, chapter_id, answer_text) matches Ok(ws) ==> {
            let w = apply_writes(v, ws);
            &&& latest_answer(w, task_id@) matches Some(a) && a.answer_text@ == answer_text@
            &&& save_answer_expected(w, task_id, chapter_id, answer_text) == Ok::<Seq<DbWrite>, (Seq<char>, Seq<char>)>(Seq::empty())
        },
{
    match save_answer_expected(v, task_id, chapter_id, answer_text) {
        Ok(ws) => {
            if ws.len() == 0 {
                lemma_apply_none(v);
            } else {
                let rec = AnswerRecord { task_id, chapter_id, answer_text };
                lemma_apply_single(v, DbWrite::InsertAnswer(rec));
                lemma_last_match_push(v.answer_records, rec, |a: AnswerRecord| a.task_id@ == task_id@);
            }
        },
        Err(_) => {},
    }
}

/// Once a task is self-assessed, that is its latest self-assessment.
pub proof fn law_task_assessment_reads_back(v: DbView, task_id: String, chapter_id: String, assessment: String)
    ensures
        assess_task_expected(v, task_id, chapter_id, assessment) matches Ok(ws) ==> (
            latest_task_assessment(apply_writes(v, ws), task_id@) matches Some(a)
                && a.assessment@ == assessment@ && a.chapter_id@ == chapter_id@
        ),
{
    if assess_task_expected(v, task_id, chapter_id, assessment) is Ok {
        let rec = TaskAssessment { task_id, chapter_id, assessment };
        lemma_apply_single(v, DbWrite::InsertTaskAssessment(rec));
        lemma_last_match_push(v.task_assessments, rec, |a: TaskAssessment| a.task_id@ == task_id@);
    }
}

/// Once a requirement is self-assessed, that is its status.
pub proof fn law_requirement_assessment_reads_back(v: DbView, task_id: String, req_index: i64, status: String)
    ensures
        assess_requirement_expected(v, task_id, req_index, status) matches Ok(ws) ==>
            requirement_status(apply_writes(v, ws), task_id@, req_index) == status@,
{
    if assess_requirement_expected(v, task_id, req_index, status) is Ok {
        let rec = RequirementAssessment { task_id, req_index, status };
        lemma_apply_single(v, DbWrite::InsertRequirementAssessment(rec));
        lemma_last_match_push(
            v.requirement_assessments,
            rec,
            |a: RequirementAssessment| a.task_id@ == task_id@ && a.req_index == req_index,
        );
    }
}

/// A rejected status or assessment changes nothing: it is refused before
/// any write.
pub proof fn law_invalid_status_refused(v: DbView, task_id: String, chapter_id: String, req_index: i64, status: String)
    requires
        !is_status(status@),
    ensures
        assess_requirement_expected(v, task_id, req_index, status) matches Err((code, _)) && code == "VALIDATION"@,
        assess_task_expected(v, task_id, chapter_id, status) matches Err((code, _)) && code == "VALIDATION"@,
{
}

/// After a reset no task has an answer or a self-assessment, every
/// requirement is unassessed, every count of assessed tasks is 0, and the
/// question bank is as it was.
pub proof fn law_reset_clears_progress(v: DbView)
    ensures
        ({
            let w = apply_write(v, DbWrite::ClearProgress);
            &&& forall|task_id: Seq<char>| #[trigger] latest_answer(w, task_id) is None
            &&& forall|task_id: Seq<char>| #[trigger] latest_task_assessment(w, task_id) is None
            &&& forall|task_id: Seq<char>, req_index: i64| #[trigger] requirement_status(w, task_id, req_index) == "unassessed"@
            &&& forall|chapter_id: Option<Seq<char>>, status: Option<Seq<char>>| #[trigger] count_latest(w, chapter_id, status) == 0
            &&& w.course_outcomes == v.course_outcomes
            &&& w.chapters == v.chapters
            &&& w.knowledge_points == v.knowledge_points
            &&& w.tasks == v.tasks
            &&& w.task_knowledge_points == v.task_knowledge_points
            &&& w.task_requirements == v.task_requirements
            &&& w.task_sources == v.task_sources
        }),
{
    let w = apply_write(v, DbWrite::ClearProgress);
    assert forall|task_id: Seq<char>, req_index: i64| #[trigger] requirement_status(w, task_id, req_index) == "unassessed"@ by {
        assert(latest_requirement_assessment(w, task_id, req_index) is None);
    }
}

/// Resetting twice is the same as resetting once.
pub proof fn law_reset_idempotent(v: DbView)
    ensures
        apply_write(apply_write(v, DbWrite::ClearProgress), DbWrite::ClearProgress) == apply_write(v, DbWrite::ClearProgress),
{
    assert(apply_write(apply_write(v, DbWrite::ClearProgress), DbWrite::ClearProgress) =~= apply_write(v, DbWrite::ClearProgress));
}

proof fn lemma_count_split(n: int, f: spec_fn(int) -> bool, g: spec_fn(int) -> bool, h: spec_fn(int) -> bool)
    requires
        forall|i: int| 0 <= i < n ==> #[trigger] f(i) == (g(i) || h(i)),
        forall|i: int| 0 <= i < n ==> !(#[trigger] g(i) && h(i)),
    ensures
        count_indices(n, f) == count_indices(n, g) + count_indices(n, h),
    decreases n,
{
    if n > 0 {
        lemma_count_split(n - 1, f, g, h);
        assert(f(n - 1) == (g(n - 1) || h(n - 1)));
        assert(!(g(n - 1) && h(n - 1)));
    }
}

/// Every latest self-assessment is "mastered" or "needs_work", so these two
/// counts add up to the number of assessed tasks.
pub proof fn law_progress_counts_add_up(v: DbView, chapter_id: Option<Seq<char>>)
    requires
        v.wf(),
    ensures
        count_latest(v, chapter_id, Some("mastered"@)) + count_latest(v, chapter_id, Some("needs_work"@))
            == count_latest(v, chapter_id, None),
{
    reveal_strlit("mastered");
    reveal_strlit("needs_work");
    let recs = v.task_assessments;
    let f = |i: int| counted_latest(recs, i, chapter_id, None);
    let g = |i: int| counted_latest(recs, i, chapter_id, Some("mastered"@));
    let h = |i: int| counted_latest(recs, i, chapter_id, Some("needs_work"@));
    assert("mastered"@.len() == 8);
    assert("needs_work"@.len() == 10);
    assert forall|i: int| 0 <= i < recs.len() implies #[trigger] f(i) == (g(i) || h(i)) by {
        assert(is_status(recs[i].assessment@));
    }
    lemma_count_split(recs.len() as int, f, g, h);
}

proof fn lemma_filter_len_mono<T>(s: Seq<T>, p: spec_fn(T) -> bool, q: spec_fn(T) -> bool)
    requires
        forall|x: T| #[trigger] q(x) ==> p(x),
    ensures
        s.filter(q).len() <= s.filter(p).len(),
    decreases s.len(),
{
    if s.len() > 0 {
        let t = s.drop_last();
        lemma_filter_len_mono(t, p, q);
        assert(t.push(s.last()) =~= s);
        t.lemma_filter_push(s.last(), p);
        t.lemma_filter_push(s.last(), q);
    }
}

/// A knowledge point or a course outcome never has more mastered tasks than
/// tasks.
pub proof fn law_mastered_at_most_total(v: DbView, id: Seq<char>)
    ensures
        mastered_links_to(v, id).len() <= links_to(v, id).len(),
        mastered_tasks_of_outcome(v, id).len() <= tasks_of_outcome(v, id).len(),
{
    let p1 = is_link_to(id);
    let q1 = is_mastered_link_to(v, id);
    assert forall|x: TaskKnowledgePoint| #[trigger] q1(x) implies p1(x) by {}
    lemma_filter_len_mono(v.task_knowledge_points, p1, q1);
    let p2 = is_task_of_outcome(id);
    let q2 = is_mastered_task_of_outcome(v, id);
    assert forall|x: Task| #[trigger] q2(x) implies p2(x) by {}
    lemma_filter_len_mono(v.tasks, p2, q2);
}


proof fn lemma_run_steps_preserves(
    acc: ImportAcc,
    n: int,
    f: spec_fn(ImportAcc, int) -> Result<ImportAcc, Seq<char>>,
    inv: spec_fn(ImportAcc) -> bool,
)
    requires
        inv(acc),
        forall|a: ImportAcc, i: int| inv(a) && (#[trigger] f(a, i)) is Ok ==> inv(f(a, i)->Ok_0),
    ensures
        run_steps(acc, n, f) is Ok ==> inv(run_steps(acc, n, f)->Ok_0),
    decreases n,
{
    if n > 0 {
        lemma_run_steps_preserves(acc, n - 1, f, inv);
    }
}

/// What every statement keeps: the counts, the writes replayed on the
/// base giving the database, and no table shrinking.
pub open spec fn kept(base: DbView, imported: int, skipped: int, tasks: nat) -> spec_fn(ImportAcc) -> bool {
    |a: ImportAcc|
        a.imported == imported && a.skipped == skipped && a.view == apply_writes(base, a.writes)
            && a.view.tasks.len() >= tasks
}

proof fn lemma_step_keeps(base: DbView, imported: int, skipped: int, tasks: nat, a: ImportAcc, r: StmtResult)
    requires
        kept(base, imported, skipped, tasks)(a),
    ensures
        step(a, r) is Ok ==> kept(base, imported, skipped, tasks)(step(a, r)->Ok_0),
{
    match r {
        Ok(Some(w)) => {
            lemma_apply_writes_push(base, a.writes, w);
        },
        _ => {},
    }
}

proof fn lemma_task_body_keeps(base: DbView, imported: int, skipped: int, tasks0: nat, tasks1: nat, a: ImportAcc, t: SeedTask)
    requires
        kept(base, imported, skipped, tasks0)(a),
        step(a, task_stmt(a.view, t)) is Ok ==> (step(a, task_stmt(a.view, t))->Ok_0).view.tasks.len() >= tasks1,
    ensures
        task_body(a, t) is Ok ==> kept(base, imported, skipped, tasks1)(task_body(a, t)->Ok_0),
{
    let inv = kept(base, imported, skipped, tasks1);
    lemma_step_keeps(base, imported, skipped, tasks0, a, task_stmt(a.view, t));
    if step(a, task_stmt(a.view, t)) is Ok {
        let a1 = step(a, task_stmt(a.view, t))->Ok_0;
        assert(inv(a1));
        let f = requirement_steps(t);
        assert forall|x: ImportAcc, i: int| inv(x) && (#[trigger] f(x, i)) is Ok implies inv(f(x, i)->Ok_0) by {
            lemma_step_keeps(base, imported, skipped, tasks1, x, requirement_stmt(x.view, t.id, i as i64, t.requirements@[i]));
        }
        lemma_run_steps_preserves(a1, t.requirements@.len() as int, f, inv);
        if run_steps(a1, t.requirements@.len() as int, f) is Ok {
            let a2 = run_steps(a1, t.requirements@.len() as int, f)->Ok_0;
            let g = link_steps(t);
            assert forall|x: ImportAcc, i: int| inv(x) && (#[trigger] g(x, i)) is Ok implies inv(g(x, i)->Ok_0) by {
                lemma_step_keeps(base, imported, skipped, tasks1, x, link_stmt(x.view, t.id, t.knowledgePointIds@[i]));
            }
            lemma_run_steps_preserves(a2, t.knowledgePointIds@.len() as int, g, inv);
            if run_steps(a2, t.knowledgePointIds@.len() as int, g) is Ok {
                let a3 = run_steps(a2, t.knowledgePointIds@.len() as int, g)->Ok_0;
                let h = source_steps(t);
                assert forall|x: ImportAcc, i: int| inv(x) && (#[trigger] h(x, i)) is Ok implies inv(h(x, i)->Ok_0) by {
                    lemma_step_keeps(base, imported, skipped, tasks1, x, source_stmt(x.view, t.id, t.sources@[i]));
                }
                lemma_run_steps_preserves(a3, t.sources@.len() as int, h, inv);
            }
        }
    }
}

proof fn lemma_import_batch_counts(v: DbView, s: SeedData, n: int)
    requires
        0 <= n <= s.tasks@.len(),
    ensures
        run_steps(start(v), n, import_task_steps(s)) matches Ok(acc) ==> {
            &&& acc.imported >= 0
            &&& acc.skipped >= 0
            &&& acc.imported + acc.skipped == n
            &&& acc.view == apply_writes(v, acc.writes)
        },
    decreases n,
{
    if n == 0 {
        lemma_apply_none(v);
    } else {
        lemma_import_batch_counts(v, s, n - 1);
        let f = import_task_steps(s);
        if run_steps(start(v), n - 1, f) is Ok {
            let c = run_steps(start(v), n - 1, f)->Ok_0;
            let t = s.tasks@[n - 1];
            if !c.view.has_task(t.id@) {
                lemma_task_body_keeps(v, c.imported, c.skipped, 0, 0, c, t);
            }
        }
    }
}

/// A successful task import counts every task of the seed once, as
/// imported or as skipped, and its writes replayed on the old database give
/// the new one.
pub proof fn law_import_counts(v: DbView, s: SeedData)
    ensures
        import_batch(v, s) matches Ok(acc) ==> {
            &&& acc.imported >= 0
            &&& acc.skipped >= 0
            &&& acc.imported + acc.skipped == s.tasks@.len()
            &&& acc.view == apply_writes(v, acc.writes)
        },
{
    lemma_import_batch_counts(v, s, s.tasks@.len() as int);
}

proof fn lemma_seed_tasks_fill(base: DbView, a3: ImportAcc, s: SeedData, n: int)
    requires
        0 <= n <= s.tasks@.len(),
        kept(base, 0, 0, 0)(a3),
    ensures
        run_steps(a3, n, seed_task_steps(s)) is Ok ==> {
            let b = run_steps(a3, n, seed_task_steps(s))->Ok_0;
            &&& kept(base, 0, 0, 0)(b)
            &&& (exists|i: int| 0 <= i < n && is_difficulty(#[trigger] s.tasks@[i].difficulty@)) ==> b.view.tasks.len() > 0
        },
    decreases n,
{
    if n > 0 {
        lemma_seed_tasks_fill(base, a3, s, n - 1);
        let f = seed_task_steps(s);
        if run_steps(a3, n - 1, f) is Ok {
            let c = run_steps(a3, n - 1, f)->Ok_0;
            let t = s.tasks@[n - 1];
            lemma_step_keeps(base, 0, 0, 0, c, task_stmt(c.view, t));
            lemma_task_body_keeps(base, 0, 0, 0, 0, c, t);
            if exists|i: int| 0 <= i < n - 1 && is_difficulty(#[trigger] s.tasks@[i].difficulty@) {
                lemma_step_keeps(base, 0, 0, c.view.tasks.len(), c, task_stmt(c.view, t));
                lemma_task_body_keeps(base, 0, 0, c.view.tasks.len(), c.view.tasks.len(), c, t);
            } else if is_difficulty(t.difficulty@) {
                lemma_task_body_keeps(base, 0, 0, 0, 1, c, t);
            }
        }
    }
}

/// A successful seed import of a seed with a task of a known difficulty
/// leaves tasks in the database.
pub proof fn law_seed_import_fills(v: DbView, s: SeedData)
    requires
        exists|i: int| 0 <= i < s.tasks@.len() && is_difficulty(#[trigger] s.tasks@[i].difficulty@),
    ensures
        seed_batch(v, s) matches Ok(acc) ==> acc.view.tasks.len() > 0 && acc.view == apply_writes(v, acc.writes),
{
    let inv = kept(v, 0, 0, 0);
    let a0 = start(v);
    lemma_apply_none(v);
    let f1 = outcome_steps(s);
    assert forall|x: ImportAcc, i: int| inv(x) && (#[trigger] f1(x, i)) is Ok implies inv(f1(x, i)->Ok_0) by {
        lemma_step_keeps(v, 0, 0, 0, x, outcome_stmt(x.view, s.courseOutcomes@[i]));
    }
    lemma_run_steps_preserves(a0, s.courseOutcomes@.len() as int, f1, inv);
    if let Ok(a1) = run_steps(a0, s.courseOutcomes@.len() as int, f1) {
        let f2 = chapter_steps(s);
        assert forall|x: ImportAcc, i: int| inv(x) && (#[trigger] f2(x, i)) is Ok implies inv(f2(x, i)->Ok_0) by {
            lemma_step_keeps(v, 0, 0, 0, x, chapter_stmt(x.view, s.chapters@[i]));
        }
        lemma_run_steps_preserves(a1, s.chapters@.len() as int, f2, inv);
        if let Ok(a2) = run_steps(a1, s.chapters@.len() as int, f2) {
            let f3 = knowledge_point_steps(s);
            assert forall|x: ImportAcc, i: int| inv(x) && (#[trigger] f3(x, i)) is Ok implies inv(f3(x, i)->Ok_0) by {
                lemma_step_keeps(v, 0, 0, 0, x, knowledge_point_stmt(x.view, s.knowledgePoints@[i]));
            }
            lemma_run_steps_preserves(a2, s.knowledgePoints@.len() as int, f3, inv);
            if let Ok(a3) = run_steps(a2, s.knowledgePoints@.len() as int, f3) {
                lemma_seed_tasks_fill(v, a3, s, s.tasks@.len() as int);
                if let Ok(a4) = run_steps(a3, s.tasks@.len() as int, seed_task_steps(s)) {
                    lemma_step_keeps(v, 0, 0, a4.view.tasks.len(), a4, version_stmt(a4.view));
                }
            }
        }
    }
}

proof fn lemma_write_keeps_task(v: DbView, w: DbWrite, id: Seq<char>)
    requires
        v.has_task(id),
    ensures
        apply_write(v, w).has_task(id),
{
    let i = choose|i: int| 0 <= i < v.tasks.len() && #[trigger] v.tasks[i].id@ == id;
    assert(apply_write(v, w).tasks[i] == v.tasks[i]);
}

/// The batch states whose database holds a task with id `id`.
spec fn holds_task(id: Seq<char>) -> spec_fn(ImportAcc) -> bool {
    |a: ImportAcc| a.view.has_task(id)
}

proof fn lemma_steps_keep_task(acc: ImportAcc, n: int, f: spec_fn(ImportAcc, int) -> Result<ImportAcc, Seq<char>>, id: Seq<char>)
    requires
        acc.view.has_task(id),
        forall|a: ImportAcc, i: int| (#[trigger] f(a, i)) is Ok ==> exists|r: StmtResult| f(a, i) == step(a, r),
    ensures
        run_steps(acc, n, f) is Ok ==> (run_steps(acc, n, f)->Ok_0).view.has_task(id),
{
    let inv = holds_task(id);
    assert forall|a: ImportAcc, i: int| inv(a) && (#[trigger] f(a, i)) is Ok implies inv(f(a, i)->Ok_0) by {
        let r = choose|r: StmtResult| f(a, i) == step(a, r);
        if let Ok(Some(w)) = r {
            lemma_write_keeps_task(a.view, w, id);
        }
    }
    lemma_run_steps_preserves(acc, n, f, inv);
}

proof fn lemma_task_body_keeps_task(a: ImportAcc, t: SeedTask, id: Seq<char>)
    requires
        a.view.has_task(id),
    ensures
        task_body(a, t) is Ok ==> (task_body(a, t)->Ok_0).view.has_task(id),
{
    let r0 = task_stmt(a.view, t);
    if let Ok(Some(w)) = r0 {
        lemma_write_keeps_task(a.view, w, id);
    }
    if let Ok(a1) = step(a, r0) {
        let f = requirement_steps(t);
        assert forall|x: ImportAcc, i: int| (#[trigger] f(x, i)) is Ok implies exists|r: StmtResult| f(x, i) == step(x, r) by {
            assert(f(x, i) == step(x, requirement_stmt(x.view, t.id, i as i64, t.requirements@[i])));
        }
        lemma_steps_keep_task(a1, t.requirements@.len() as int, f, id);
        if let Ok(a2) = run_steps(a1, t.requirements@.len() as int, f) {
            let g = link_steps(t);
            assert forall|x: ImportAcc, i: int| (#[trigger] g(x, i)) is Ok implies exists|r: StmtResult| g(x, i) == step(x, r) by {
                assert(g(x, i) == step(x, link_stmt(x.view, t.id, t.knowledgePointIds@[i])));
            }
            lemma_steps_keep_task(a2, t.knowledgePointIds@.len() as int, g, id);
            if let Ok(a3) = run_steps(a2, t.knowledgePointIds@.len() as int, g) {
                let h = source_steps(t);
                assert forall|x: ImportAcc, i: int| (#[trigger] h(x, i)) is Ok implies exists|r: StmtResult| h(x, i) == step(x, r) by {
                    assert(h(x, i) == step(x, source_stmt(x.view, t.id, t.sources@[i])));
                }
                lemma_steps_keep_task(a3, t.sources@.len() as int, h, id);
            }
        }
    }
}

proof fn lemma_task_body_adds_task(a: ImportAcc, t: SeedTask)
    requires
        is_difficulty(t.difficulty@),
    ensures
        task_body(a, t) is Ok ==> (task_body(a, t)->Ok_0).view.has_task(t.id@),
{
    let r0 = task_stmt(a.view, t);
    if let Ok(a1) = step(a, r0) {
        if !a.view.has_task(t.id@) {
            let w = DbWrite::InsertTask(task_row(t));
            assert(r0 == Ok::<Option<DbWrite>, Seq<char>>(Some(w)));
            let n = a.view.tasks.len() as int;
            assert(a1.view.tasks[n].id@ == t.id@);
        }
        lemma_task_body_keeps_task(a1, t, t.id@);
        assert(a1.view.has_task(t.id@));
        let f = requirement_steps(t);
        assert forall|x: ImportAcc, i: int| (#[trigger] f(x, i)) is Ok implies exists|r: StmtResult| f(x, i) == step(x, r) by {
            assert(f(x, i) == step(x, requirement_stmt(x.view, t.id, i as i64, t.requirements@[i])));
        }
        lemma_steps_keep_task(a1, t.requirements@.len() as int, f, t.id@);
        if let Ok(a2) = run_steps(a1, t.requirements@.len() as int, f) {
            let g = link_steps(t);
            assert forall|x: ImportAcc, i: int| (#[trigger] g(x, i)) is Ok implies exists|r: StmtResult| g(x, i) == step(x, r) by {
                assert(g(x, i) == step(x, link_stmt(x.view, t.id, t.knowledgePointIds@[i])));
            }
            lemma_steps_keep_task(a2, t.knowledgePointIds@.len() as int, g, t.id@);
            if let Ok(a3) = run_steps(a2, t.knowledgePointIds@.len() as int, g) {
                let h = source_steps(t);
                assert forall|x: ImportAcc, i: int| (#[trigger] h(x, i)) is Ok implies exists|r: StmtResult| h(x, i) == step(x, r) by {
                    assert(h(x, i) == step(x, source_stmt(x.view, t.id, t.sources@[i])));
                }
                lemma_steps_keep_task(a3, t.sources@.len() as int, h, t.id@);
            }
        }
    }
}

proof fn lemma_import_leaves_tasks(v: DbView, s: SeedData, n: int)
    requires
        0 <= n <= s.tasks@.len(),
        forall|i: int| 0 <= i < s.tasks@.len() ==> is_difficulty(#[trigger] s.tasks@[i].difficulty@),
    ensures
        run_steps(start(v), n, import_task_steps(s)) matches Ok(acc) ==> forall|j: int|
            0 <= j < n ==> acc.view.has_task(#[trigger] s.tasks@[j].id@),
    decreases n,
{
    if n > 0 {
        lemma_import_leaves_tasks(v, s, n - 1);
        let f = import_task_steps(s);
        if let Ok(c) = run_steps(start(v), n - 1, f) {
            let t = s.tasks@[n - 1];
            if !c.view.has_task(t.id@) {
                assert(is_difficulty(t.difficulty@));
                lemma_task_body_adds_task(c, t);
                if let Ok(b) = task_body(c, t) {
                    assert forall|j: int| 0 <= j < n - 1 implies b.view.has_task(#[trigger] s.tasks@[j].id@) by {
                        lemma_task_body_keeps_task(c, t, s.tasks@[j].id@);
                    }
                }
            }
        }
    }
}

proof fn lemma_import_skips_all(w: DbView, s: SeedData, k: int)
    requires
        0 <= k <= s.tasks@.len(),
        forall|j: int| 0 <= j < s.tasks@.len() ==> w.has_task(#[trigger] s.tasks@[j].id@),
    ensures
        run_steps(start(w), k, import_task_steps(s)) == Ok::<ImportAcc, Seq<char>>(
            ImportAcc { view: w, writes: Seq::empty(), imported: 0, skipped: k },
        ),
    decreases k,
{
    if k > 0 {
        lemma_import_skips_all(w, s, k - 1);
        assert(w.has_task(s.tasks@[k - 1].id@));
    }
}

/// Importing the same tasks again after an import that succeeded imports
/// nothing and writes nothing: every task of the seed is then in the
/// database, so each one is skipped.
pub proof fn law_import_tasks_idempotent(v: DbView, s: SeedData)
    requires
        forall|i: int| 0 <= i < s.tasks@.len() ==> is_difficulty(#[trigger] s.tasks@[i].difficulty@),
    ensures
        import_batch(v, s) matches Ok(acc) ==> import_batch(acc.view, s) == Ok::<ImportAcc, Seq<char>>(
            ImportAcc { view: acc.view, writes: Seq::empty(), imported: 0, skipped: s.tasks@.len() as int },
        ),
{
    lemma_import_leaves_tasks(v, s, s.tasks@.len() as int);
    if let Ok(acc) = import_batch(v, s) {
        lemma_import_skips_all(acc.view, s, s.tasks@.len() as int);
    }
}

/// Whether a write adds a row whose key no row holds yet, and, for a row
/// with an automatic id, whether it gets the next id.
spec fn fresh(v: DbView, w: DbWrite) -> bool {
    match w {
        DbWrite::InsertCourseOutcome(x) => !v.has_outcome(x.id@),
        DbWrite::InsertChapter(x) => !v.has_chapter(x.id@),
        DbWrite::InsertKnowledgePoint(x) => !v.has_knowledge_point(x.id@),
        DbWrite::InsertTask(x) => !v.has_task(x.id@),
        DbWrite::InsertRequirement(x) => !v.has_requirement(x.task_id@, x.req_index) && x.id
            == v.last_requirement_id + 1,
        DbWrite::InsertTaskKnowledgePoint(x) => !v.has_link(x.task_id@, x.knowledge_point_id@),
        DbWrite::InsertSource(x) => x.id == v.last_source_id + 1,
        DbWrite::InsertSchemaVersion(x) => !v.has_version(x),
        _ => true,
    }
}

proof fn lemma_fresh_write_keeps_keys(v: DbView, w: DbWrite)
    requires
        v.keys_unique(),
        fresh(v, w),
    ensures
        apply_write(v, w).keys_unique(),
{
    let u = apply_write(v, w);
    match w {
        DbWrite::InsertCourseOutcome(x) => {
            assert forall|i: int, j: int| 0 <= i < j < u.course_outcomes.len() implies #[trigger] u.course_outcomes[i].id@
                != #[trigger] u.course_outcomes[j].id@ by {
                if j == v.course_outcomes.len() {
                    if u.course_outcomes[i].id@ == x.id@ {
                        assert(v.course_outcomes[i].id@ == x.id@);
                    }
                } else {
                    assert(u.course_outcomes[i] == v.course_outcomes[i]);
                    assert(u.course_outcomes[j] == v.course_outcomes[j]);
                }
            }
        },
        DbWrite::InsertChapter(x) => {
            assert forall|i: int, j: int| 0 <= i < j < u.chapters.len() implies #[trigger] u.chapters[i].id@
                != #[trigger] u.chapters[j].id@ by {
                if j == v.chapters.len() {
                    if u.chapters[i].id@ == x.id@ {
                        assert(v.chapters[i].id@ == x.id@);
                    }
                } else {
                    assert(u.chapters[i] == v.chapters[i]);
                    assert(u.chapters[j] == v.chapters[j]);
                }
            }
        },
        DbWrite::InsertKnowledgePoint(x) => {
            assert forall|i: int, j: int| 0 <= i < j < u.knowledge_points.len() implies #[trigger] u.knowledge_points[i].id@
                != #[trigger] u.knowledge_points[j].id@ by {
                if j == v.knowledge_points.len() {
                    if u.knowledge_points[i].id@ == x.id@ {
                        assert(v.knowledge_points[i].id@ == x.id@);
                    }
                } else {
                    assert(u.knowledge_points[i] == v.knowledge_points[i]);
                    assert(u.knowledge_points[j] == v.knowledge_points[j]);
                }
            }
        },
        DbWrite::InsertTask(x) => {
            assert forall|i: int, j: int| 0 <= i < j < u.tasks.len() implies #[trigger] u.tasks[i].id@
                != #[trigger] u.tasks[j].id@ by {
                if j == v.tasks.len() {
                    if u.tasks[i].id@ == x.id@ {
                        assert(v.tasks[i].id@ == x.id@);
                    }
                } else {
                    assert(u.tasks[i] == v.tasks[i]);
                    assert(u.tasks[j] == v.tasks[j]);
                }
            }
        },
        DbWrite::InsertRequirement(x) => {
            let r = u.task_requirements;
            assert forall|i: int, j: int| 0 <= i < j < r.len() implies #[trigger] r[i].id != #[trigger] r[j].id
                && !(r[i].task_id@ == r[j].task_id@ && r[i].req_index == r[j].req_index) by {
                if j == v.task_requirements.len() {
                    assert(r[i] == v.task_requirements[i]);
                    assert(v.task_requirements[i].id <= v.last_requirement_id);
                    if r[i].task_id@ == x.task_id@ && r[i].req_index == x.req_index {
                        assert(v.task_requirements[i].task_id@ == x.task_id@);
                    }
                } else {
                    assert(r[i] == v.task_requirements[i]);
                    assert(r[j] == v.task_requirements[j]);
                }
            }
            assert forall|i: int| 0 <= i < r.len() implies #[trigger] r[i].id <= u.last_requirement_id by {
                if i < v.task_requirements.len() {
                    assert(r[i] == v.task_requirements[i]);
                }
            }
        },
        DbWrite::InsertTaskKnowledgePoint(x) => {
            let l = u.task_knowledge_points;
            assert forall|i: int, j: int| 0 <= i < j < l.len() implies !(#[trigger] l[i].task_id@ == #[trigger] l[j].task_id@
                && l[i].knowledge_point_id@ == l[j].knowledge_point_id@) by {
                if j == v.task_knowledge_points.len() {
                    assert(l[i] == v.task_knowledge_points[i]);
                    if l[i].task_id@ == x.task_id@ && l[i].knowledge_point_id@ == x.knowledge_point_id@ {
                        assert(v.task_knowledge_points[i].task_id@ == x.task_id@);
                    }
                } else {
                    assert(l[i] == v.task_knowledge_points[i]);
                    assert(l[j] == v.task_knowledge_points[j]);
                }
            }
        },
        DbWrite::InsertSource(x) => {
            let r = u.task_sources;
            assert forall|i: int, j: int| 0 <= i < j < r.len() implies #[trigger] r[i].id != #[trigger] r[j].id by {
                assert(r[i] == v.task_sources[i]);
                assert(v.task_sources[i].id <= v.last_source_id);
                if j < v.task_sources.len() {
                    assert(r[j] == v.task_sources[j]);
                }
            }
            assert forall|i: int| 0 <= i < r.len() implies #[trigger] r[i].id <= u.last_source_id by {
                if i < v.task_sources.len() {
                    assert(r[i] == v.task_sources[i]);
                }
            }
        },
        DbWrite::InsertSchemaVersion(x) => {
            let sv = u.schema_versions;
            assert forall|i: int, j: int| 0 <= i < j < sv.len() implies #[trigger] sv[i] != #[trigger] sv[j] by {
                assert(sv[i] == v.schema_versions[i]);
                if j < v.schema_versions.len() {
                    assert(sv[j] == v.schema_versions[j]);
                }
            }
        },
        _ => {},
    }
}

/// Whether a statement's result adds only rows with fresh keys.
spec fn fresh_result(v: DbView, r: StmtResult) -> bool {
    r matches Ok(Some(w)) ==> fresh(v, w)
}

proof fn lemma_statements_are_fresh(
    v: DbView,
    co: SeedCourseOutcome,
    ch: SeedChapter,
    kp: SeedKnowledgePoint,
    t: SeedTask,
    req_index: i64,
    content: String,
    kp_id: String,
    src: SeedTaskSource,
)
    ensures
        fresh_result(v, outcome_stmt(v, co)),
        fresh_result(v, chapter_stmt(v, ch)),
        fresh_result(v, knowledge_point_stmt(v, kp)),
        fresh_result(v, task_stmt(v, t)),
        fresh_result(v, requirement_stmt(v, t.id, req_index, content)),
        fresh_result(v, link_stmt(v, t.id, kp_id)),
        fresh_result(v, source_stmt(v, t.id, src)),
        fresh_result(v, version_stmt(v)),
{
}

/// The batch states whose database holds each key at most once.
spec fn unique_keys() -> spec_fn(ImportAcc) -> bool {
    |a: ImportAcc| a.view.keys_unique()
}

proof fn lemma_step_keeps_keys(a: ImportAcc, r: StmtResult)
    requires
        a.view.keys_unique(),
        fresh_result(a.view, r),
    ensures
        step(a, r) is Ok ==> (step(a, r)->Ok_0).view.keys_unique(),
{
    if let Ok(Some(w)) = r {
        lemma_fresh_write_keeps_keys(a.view, w);
    }
}

proof fn lemma_task_body_keeps_keys(a: ImportAcc, t: SeedTask)
    requires
        a.view.keys_unique(),
    ensures
        task_body(a, t) is Ok ==> (task_body(a, t)->Ok_0).view.keys_unique(),
{
    let inv = unique_keys();
    let any_co = arbitrary::<SeedCourseOutcome>();
    let any_ch = arbitrary::<SeedChapter>();
    let any_kp = arbitrary::<SeedKnowledgePoint>();
    let any_src = arbitrary::<SeedTaskSource>();
    lemma_statements_are_fresh(a.view, any_co, any_ch, any_kp, t, 0, t.id, t.id, any_src);
    lemma_step_keeps_keys(a, task_stmt(a.view, t));
    if let Ok(a1) = step(a, task_stmt(a.view, t)) {
        let f = requirement_steps(t);
        assert forall|x: ImportAcc, i: int| inv(x) && (#[trigger] f(x, i)) is Ok implies inv(f(x, i)->Ok_0) by {
            lemma_statements_are_fresh(x.view, any_co, any_ch, any_kp, t, i as i64, t.requirements@[i], t.id, any_src);
            lemma_step_keeps_keys(x, requirement_stmt(x.view, t.id, i as i64, t.requirements@[i]));
        }
        lemma_run_steps_preserves(a1, t.requirements@.len() as int, f, inv);
        if let Ok(a2) = run_steps(a1, t.requirements@.len() as int, f) {
            let g = link_steps(t);
            assert forall|x: ImportAcc, i: int| inv(x) && (#[trigger] g(x, i)) is Ok implies inv(g(x, i)->Ok_0) by {
                lemma_statements_are_fresh(x.view, any_co, any_ch, any_kp, t, 0, t.id, t.knowledgePointIds@[i], any_src);
                lemma_step_keeps_keys(x, link_stmt(x.view, t.id, t.knowledgePointIds@[i]));
            }
            lemma_run_steps_preserves(a2, t.knowledgePointIds@.len() as int, g, inv);
            if let Ok(a3) = run_steps(a2, t.knowledgePointIds@.len() as int, g) {
                let h = source_steps(t);
                assert forall|x: ImportAcc, i: int| inv(x) && (#[trigger] h(x, i)) is Ok implies inv(h(x, i)->Ok_0) by {
                    lemma_statements_are_fresh(x.view, any_co, any_ch, any_kp, t, 0, t.id, t.id, t.sources@[i]);
                    lemma_step_keeps_keys(x, source_stmt(x.view, t.id, t.sources@[i]));
                }
                lemma_run_steps_preserves(a3, t.sources@.len() as int, h, inv);
            }
        }
    }
}

/// A task import and a seed import each leave every key of the schema on
/// at most one row, when that held before.
pub proof fn law_imports_keep_keys_unique(v: DbView, s: SeedData)
    requires
        v.keys_unique(),
    ensures
        import_batch(v, s) matches Ok(acc) ==> acc.view.keys_unique(),
        seed_batch(v, s) matches Ok(acc) ==> acc.view.keys_unique(),
{
    let inv = unique_keys();
    let any_co = arbitrary::<SeedCourseOutcome>();
    let any_ch = arbitrary::<SeedChapter>();
    let any_kp = arbitrary::<SeedKnowledgePoint>();
    let any_t = arbitrary::<SeedTask>();
    let any_src = arbitrary::<SeedTaskSource>();
    let f = import_task_steps(s);
    assert forall|x: ImportAcc, i: int| inv(x) && (#[trigger] f(x, i)) is Ok implies inv(f(x, i)->Ok_0) by {
        lemma_task_body_keeps_keys(x, s.tasks@[i]);
    }
    lemma_run_steps_preserves(start(v), s.tasks@.len() as int, f, inv);

    let f1 = outcome_steps(s);
    assert forall|x: ImportAcc, i: int| inv(x) && (#[trigger] f1(x, i)) is Ok implies inv(f1(x, i)->Ok_0) by {
        lemma_statements_are_fresh(x.view, s.courseOutcomes@[i], any_ch, any_kp, any_t, 0, any_t.id, any_t.id, any_src);
        lemma_step_keeps_keys(x, outcome_stmt(x.view, s.courseOutcomes@[i]));
    }
    lemma_run_steps_preserves(start(v), s.courseOutcomes@.len() as int, f1, inv);
    if let Ok(a1) = run_steps(start(v), s.courseOutcomes@.len() as int, f1) {
        let f2 = chapter_steps(s);
        assert forall|x: ImportAcc, i: int| inv(x) && (#[trigger] f2(x, i)) is Ok implies inv(f2(x, i)->Ok_0) by {
            lemma_statements_are_fresh(x.view, any_co, s.chapters@[i], any_kp, any_t, 0, any_t.id, any_t.id, any_src);
            lemma_step_keeps_keys(x, chapter_stmt(x.view, s.chapters@[i]));
        }
        lemma_run_steps_preserves(a1, s.chapters@.len() as int, f2, inv);
        if let Ok(a2) = run_steps(a1, s.chapters@.len() as int, f2) {
            let f3 = knowledge_point_steps(s);
            assert forall|x: ImportAcc, i: int| inv(x) && (#[trigger] f3(x, i)) is Ok implies inv(f3(x, i)->Ok_0) by {
                lemma_statements_are_fresh(x.view, any_co, any_ch, s.knowledgePoints@[i], any_t, 0, any_t.id, any_t.id, any_src);
                lemma_step_keeps_keys(x, knowledge_point_stmt(x.view, s.knowledgePoints@[i]));
            }
            lemma_run_steps_preserves(a2, s.knowledgePoints@.len() as int, f3, inv);
            if let Ok(a3) = run_steps(a2, s.knowledgePoints@.len() as int, f3) {
                let f4 = seed_task_steps(s);
                assert forall|x: ImportAcc, i: int| inv(x) && (#[trigger] f4(x, i)) is Ok implies inv(f4(x, i)->Ok_0) by {
                    lemma_task_body_keeps_keys(x, s.tasks@[i]);
                }
                lemma_run_steps_preserves(a3, s.tasks@.len() as int, f4, inv);
                if let Ok(a4) = run_steps(a3, s.tasks@.len() as int, f4) {
                    lemma_statements_are_fresh(a4.view, any_co, any_ch, any_kp, any_t, 0, any_t.id, any_t.id, any_src);
                    lemma_step_keeps_keys(a4, version_stmt(a4.view));
                }
            }
        }
    }
}

proof fn lemma_current_version_is_max(versions: Seq<i64>)
    ensures
        forall|i: int| 0 <= i < versions.len() ==> #[trigger] versions[i] <= current_version(versions),
    decreases versions.len(),
{
    if versions.len() > 0 {
        lemma_current_version_is_max(versions.drop_last());
        assert forall|i: int| 0 <= i < versions.len() implies #[trigger] versions[i] <= current_version(versions) by {
            if i < versions.len() - 1 {
                assert(versions.drop_last()[i] == versions[i]);
            }
        }
    }
}

/// Saving an answer, self-assessing, resetting and migrating leave every
/// key of the schema on at most one row, when that held before.
pub proof fn law_progress_keeps_keys_unique(
    v: DbView,
    task_id: String,
    chapter_id: String,
    text: String,
    req_index: i64,
)
    requires
        v.keys_unique(),
    ensures
        save_answer_expected(v, task_id, chapter_id, text) matches Ok(ws) ==> apply_writes(v, ws).keys_unique(),
        assess_requirement_expected(v, task_id, req_index, text) matches Ok(ws) ==> apply_writes(v, ws).keys_unique(),
        assess_task_expected(v, task_id, chapter_id, text) matches Ok(ws) ==> apply_writes(v, ws).keys_unique(),
        apply_write(v, DbWrite::ClearProgress).keys_unique(),
        run_migrations_expected(v) matches Ok(ws) ==> apply_writes(v, ws).keys_unique(),
{
    lemma_apply_none(v);
    let wa = DbWrite::InsertAnswer(AnswerRecord { task_id, chapter_id, answer_text: text });
    lemma_apply_single(v, wa);
    lemma_fresh_write_keeps_keys(v, wa);
    let wr = DbWrite::InsertRequirementAssessment(RequirementAssessment { task_id, req_index, status: text });
    lemma_apply_single(v, wr);
    lemma_fresh_write_keeps_keys(v, wr);
    let wt = DbWrite::InsertTaskAssessment(TaskAssessment { task_id, chapter_id, assessment: text });
    lemma_apply_single(v, wt);
    lemma_fresh_write_keeps_keys(v, wt);
    lemma_fresh_write_keeps_keys(v, DbWrite::ClearProgress);
    let wv = DbWrite::InsertSchemaVersion(SCHEMA_VERSION);
    lemma_apply_single(v, wv);
    lemma_current_version_is_max(v.schema_versions);
    if current_version(v.schema_versions) < SCHEMA_VERSION {
        lemma_fresh_write_keeps_keys(v, wv);
    }
}

/// Importing the seed a second time, after an import that left tasks in the
/// database, does nothing: the seed is only ever imported once.
pub proof fn law_seed_import_idempotent(v: DbView, parsed: Result<SeedData, String>)
    requires
        parsed matches Ok(s) ==> exists|i: int| 0 <= i < s.tasks@.len() && is_difficulty(#[trigger] s.tasks@[i].difficulty@),
    ensures
        seed_import_expected(v, parsed) matches Ok(ws) ==> {
            let w = apply_writes(v, ws);
            &&& w.tasks.len() > 0
            &&& seed_import_expected(w, parsed) == Ok::<Seq<DbWrite>, (Seq<char>, Seq<char>)>(Seq::empty())
        },
{
    if v.tasks.len() > 0 {
        lemma_apply_none(v);
    } else {
        match parsed {
            Ok(s) => {
                law_seed_import_fills(v, s);
            },
            Err(_) => {},
        }
    }
}

} // verus!
