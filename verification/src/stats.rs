use vstd::prelude::*;
use crate::models::{
    ChapterTally, CourseOutcome, KnowledgePoint, KnowledgePointTally, OutcomeTally, OverallTally,
    Task, TaskAssessment, TaskKnowledgePoint,
};
use crate::queries::{
    knowledge_points_listed, latest_assessment_for,
    latest_task_assessment, list_course_outcomes, list_knowledge_points, outcomes_in_order,
};
use crate::store::{DbView, MAX_ROWS, StudyDb};
use crate::text::{text_eq, text_is};

verus! {

broadcast use vstd::seq_lib::group_seq_properties;

/// How many of the indices `0..n` satisfy `f`.
pub open spec fn count_indices(n: int, f: spec_fn(int) -> bool) -> nat
    decreases n,
{
    if n <= 0 {
        0
    } else {
        count_indices(n - 1, f) + (if f(n - 1) { 1nat } else { 0nat })
    }
}

/// Whether a later self-assessment of the same task replaces the one at `i`.
pub open spec fn superseded(recs: Seq<TaskAssessment>, i: int) -> bool {
    exists|j: int| i < j < recs.len() && #[trigger] recs[j].task_id@ == recs[i].task_id@
}

/// Whether the self-assessment at `i` is the latest of its task, belongs to
/// the chapter when one is given, and has the status when one is given.
pub open spec fn counted_latest(
    recs: Seq<TaskAssessment>,
    i: int,
    chapter_id: Option<Seq<char>>,
    status: Option<Seq<char>>,
) -> bool {
    &&& !superseded(recs, i)
    &&& (chapter_id matches Some(c) ==> recs[i].chapter_id@ == c)
    &&& (status matches Some(s) ==> recs[i].assessment@ == s)
}

/// The number of tasks whose latest self-assessment was recorded under the
/// chapter (when one is given) with the status (when one is given).
pub open spec fn count_latest(
    v: DbView,
    chapter_id: Option<Seq<char>>,
    status: Option<Seq<char>>,
) -> nat {
    count_indices(
        v.task_assessments.len() as int,
        |i: int| counted_latest(v.task_assessments, i, chapter_id, status),
    )
}

/// Whether the latest self-assessment of a task is "mastered".
pub open spec fn is_mastered(v: DbView, task_id: Seq<char>) -> bool {
    latest_task_assessment(v, task_id) matches Some(a) && a.assessment@ == "mastered"@
}

/// Whether a link is to the knowledge point.
pub open spec fn is_link_to(kp_id: Seq<char>) -> spec_fn(TaskKnowledgePoint) -> bool {
    |l: TaskKnowledgePoint| l.knowledge_point_id@ == kp_id
}

/// Whether a link is to the knowledge point and its task is mastered.
pub open spec fn is_mastered_link_to(v: DbView, kp_id: Seq<char>) -> spec_fn(TaskKnowledgePoint) -> bool {
    |l: TaskKnowledgePoint| l.knowledge_point_id@ == kp_id && is_mastered(v, l.task_id@)
}

/// The links of a knowledge point.
pub open spec fn links_to(v: DbView, kp_id: Seq<char>) -> Seq<TaskKnowledgePoint> {
    v.task_knowledge_points.filter(is_link_to(kp_id))
}

/// The links of a knowledge point whose task is mastered.
pub open spec fn mastered_links_to(v: DbView, kp_id: Seq<char>) -> Seq<TaskKnowledgePoint> {
    v.task_knowledge_points.filter(is_mastered_link_to(v, kp_id))
}

/// The tasks of a chapter.
pub open spec fn tasks_of_chapter(v: DbView, chapter_id: Seq<char>) -> Seq<Task> {
    v.tasks.filter(|t: Task| t.chapter_id@ == chapter_id)
}

/// Whether a task belongs to the course outcome.
pub open spec fn is_task_of_outcome(outcome_id: Seq<char>) -> spec_fn(Task) -> bool {
    |t: Task| t.course_outcome_id@ == outcome_id
}

/// Whether a task belongs to the course outcome and is mastered.
pub open spec fn is_mastered_task_of_outcome(v: DbView, outcome_id: Seq<char>) -> spec_fn(Task) -> bool {
    |t: Task| t.course_outcome_id@ == outcome_id && is_mastered(v, t.id@)
}

/// The tasks of a course outcome.
pub open spec fn tasks_of_outcome(v: DbView, outcome_id: Seq<char>) -> Seq<Task> {
    v.tasks.filter(is_task_of_outcome(outcome_id))
}

/// The mastered tasks of a course outcome.
pub open spec fn mastered_tasks_of_outcome(v: DbView, outcome_id: Seq<char>) -> Seq<Task> {
    v.tasks.filter(is_mastered_task_of_outcome(v, outcome_id))
}

/// Whether `t` is the tally of knowledge point `k`.
pub open spec fn is_kp_tally(v: DbView, k: KnowledgePoint, t: KnowledgePointTally) -> bool {
    &&& t.knowledge_point_id == k.id
    &&& t.name == k.name
    &&& t.total_tasks == links_to(v, k.id@).len()
    &&& t.mastered == mastered_links_to(v, k.id@).len()
}

/// Whether `t` is the tally of course outcome `o`.
pub open spec fn is_outcome_tally(v: DbView, o: CourseOutcome, t: OutcomeTally) -> bool {
    &&& t.outcome_id == o.id
    &&& t.code == o.code
    &&& t.description == o.description
    &&& t.total_tasks == tasks_of_outcome(v, o.id@).len()
    &&& t.mastered == mastered_tasks_of_outcome(v, o.id@).len()
}

proof fn lemma_count_indices_le(n: int, f: spec_fn(int) -> bool)
    ensures
        count_indices(n, f) <= if n < 0 { 0 } else { n },
    decreases n,
{
    if n > 0 {
        lemma_count_indices_le(n - 1, f);
    }
}

fn is_superseded(recs: &Vec<TaskAssessment>, i: usize) -> (r: bool)
    requires
        i < recs@.len(),
    ensures
        r == superseded(recs@, i as int),
{
    let n = recs.len();
    let mut j: usize = i + 1;
    while j < recs.len()
        invariant
            i < j <= recs@.len(),
            forall|k: int| i < k < j ==> #[trigger] recs@[k].task_id@ != recs@[i as int].task_id@,
        decreases recs@.len() - j,
    {
        if text_eq(&recs[j].task_id, &recs[i].task_id) {
            return true;
        }
        j = j + 1;
    }
    false
}

/// Counts the latest self-assessments: all of them, the "mastered" ones and
/// the "needs_work" ones, within the chapter when one is given.
fn latest_counts(db: &StudyDb, chapter_id: &Option<String>) -> (r: (i64, i64, i64))
    requires
        db@.wf(),
    ensures
        ({
            let c = match chapter_id {
                Some(c) => Some(c@),
                None => None,
            };
            &&& r.0 == count_latest(db@, c, None)
            &&& r.1 == count_latest(db@, c, Some("mastered"@))
            &&& r.2 == count_latest(db@, c, Some("needs_work"@))
        }),
{
    let recs = db.task_assessments();
    let ghost c = match chapter_id {
        Some(c) => Some(c@),
        None => None,
    };
    let ghost fa = |i: int| counted_latest(recs@, i, c, None);
    let ghost fm = |i: int| counted_latest(recs@, i, c, Some("mastered"@));
    let ghost fn_ = |i: int| counted_latest(recs@, i, c, Some("needs_work"@));
    let mut all: i64 = 0;
    let mut mastered: i64 = 0;
    let mut needs_work: i64 = 0;
    let mut i: usize = 0;
    while i < recs.len()
        invariant
            recs@ == db@.task_assessments,
            recs@.len() <= MAX_ROWS,
            i <= recs@.len(),
            c == (match chapter_id {
                Some(c) => Some(c@),
                None => None,
            }),
            fa == (|i: int| counted_latest(recs@, i, c, None)),
            fm == (|i: int| counted_latest(recs@, i, c, Some("mastered"@))),
            fn_ == (|i: int| counted_latest(recs@, i, c, Some("needs_work"@))),
            all == count_indices(i as int, fa),
            mastered == count_indices(i as int, fm),
            needs_work == count_indices(i as int, fn_),
        decreases recs@.len() - i,
    {
        proof {
            lemma_count_indices_le(i as int, fa);
            lemma_count_indices_le(i as int, fm);
            lemma_count_indices_le(i as int, fn_);
        }
        let latest = !is_superseded(recs, i);
        let in_scope = match chapter_id {
            Some(c) => text_eq(&recs[i].chapter_id, c),
            None => true,
        };
        if latest && in_scope {
            all = all + 1;
            if text_is(&recs[i].assessment, "mastered") {
                mastered = mastered + 1;
            }
            if text_is(&recs[i].assessment, "needs_work") {
                needs_work = needs_work + 1;
            }
        }
        i = i + 1;
    }
    (all, mastered, needs_work)
}

fn is_mastered_exec(db: &StudyDb, task_id: &String) -> (r: bool)
    ensures
        r == is_mastered(db@, task_id@),
{
    match latest_assessment_for(db, task_id) {
        Some(a) => text_is(&a, "mastered"),
        None => false,
    }
}

fn tally_knowledge_point(db: &StudyDb, k: &KnowledgePoint) -> (r: KnowledgePointTally)
    requires
        db@.wf(),
    ensures
        is_kp_tally(db@, *k, r),
{
    let links = db.task_knowledge_points();
    let ghost p = is_link_to(k.id@);
    let ghost q = is_mastered_link_to(db@, k.id@);
    let mut total: i64 = 0;
    let mut mastered: i64 = 0;
    let mut i: usize = 0;
    while i < links.len()
        invariant
            links@ == db@.task_knowledge_points,
            links@.len() <= MAX_ROWS,
            i <= links@.len(),
            p == is_link_to(k.id@),
            q == is_mastered_link_to(db@, k.id@),
            total == links@.take(i as int).filter(p).len(),
            mastered == links@.take(i as int).filter(q).len(),
        decreases links@.len() - i,
    {
        assert(links@.take(i + 1) =~= links@.take(i as int).push(links@[i as int]));
        proof {
            links@.take(i as int).lemma_filter_push(links@[i as int], p);
            links@.take(i as int).lemma_filter_push(links@[i as int], q);
            links@.take(i as int).lemma_filter_len(p);
            links@.take(i as int).lemma_filter_len(q);
        }
        if text_eq(&links[i].knowledge_point_id, &k.id) {
            total = total + 1;
            if is_mastered_exec(db, &links[i].task_id) {
                mastered = mastered + 1;
            }
        }
        i = i + 1;
    }
    assert(links@.take(links@.len() as int) =~= links@);
    KnowledgePointTally {
        knowledge_point_id: k.id.clone(),
        name: k.name.clone(),
        total_tasks: total,
        mastered,
    }
}

fn count_tasks_where_chapter(db: &StudyDb, chapter_id: &String) -> (r: i64)
    requires
        db@.wf(),
    ensures
        r == tasks_of_chapter(db@, chapter_id@).len(),
{
    let rows = db.tasks();
    let ghost p = |t: Task| t.chapter_id@ == chapter_id@;
    let mut n: i64 = 0;
    let mut i: usize = 0;
    while i < rows.len()
        invariant
            rows@ == db@.tasks,
            rows@.len() <= MAX_ROWS,
            i <= rows@.len(),
            p == (|t: Task| t.chapter_id@ == chapter_id@),
            n == rows@.take(i as int).filter(p).len(),
        decreases rows@.len() - i,
    {
        assert(rows@.take(i + 1) =~= rows@.take(i as int).push(rows@[i as int]));
        proof {
            rows@.take(i as int).lemma_filter_push(rows@[i as int], p);
            rows@.take(i as int).lemma_filter_len(p);
        }
        if text_eq(&rows[i].chapter_id, chapter_id) {
            n = n + 1;
        }
        i = i + 1;
    }
    assert(rows@.take(rows@.len() as int) =~= rows@);
    n
}

fn tally_outcome(db: &StudyDb, o: &CourseOutcome) -> (r: OutcomeTally)
    requires
        db@.wf(),
    ensures
        is_outcome_tally(db@, *o, r),
{
    let rows = db.tasks();
    let ghost p = is_task_of_outcome(o.id@);
    let ghost q = is_mastered_task_of_outcome(db@, o.id@);
    let mut total: i64 = 0;
    let mut mastered: i64 = 0;
    let mut i: usize = 0;
    while i < rows.len()
        invariant
            rows@ == db@.tasks,
            rows@.len() <= MAX_ROWS,
            i <= rows@.len(),
            p == is_task_of_outcome(o.id@),
            q == is_mastered_task_of_outcome(db@, o.id@),
            total == rows@.take(i as int).filter(p).len(),
            mastered == rows@.take(i as int).filter(q).len(),
        decreases rows@.len() - i,
    {
        assert(rows@.take(i + 1) =~= rows@.take(i as int).push(rows@[i as int]));
        proof {
            rows@.take(i as int).lemma_filter_push(rows@[i as int], p);
            rows@.take(i as int).lemma_filter_push(rows@[i as int], q);
            rows@.take(i as int).lemma_filter_len(p);
            rows@.take(i as int).lemma_filter_len(q);
        }
        if text_eq(&rows[i].course_outcome_id, &o.id) {
            total = total + 1;
            if is_mastered_exec(db, &rows[i].id) {
                mastered = mastered + 1;
            }
        }
        i = i + 1;
    }
    assert(rows@.take(rows@.len() as int) =~= rows@);
    OutcomeTally {
        outcome_id: o.id.clone(),
        code: o.code.clone(),
        description: o.description.clone(),
        total_tasks: total,
        mastered,
    }
}

/// The progress of a chapter: its tasks; the tasks whose latest
/// self-assessment was recorded under it, all, "mastered" and
/// "needs_work"; and, for each of its knowledge points by order index, its
/// linked tasks and the mastered ones among them.
pub fn get_chapter_progress(db: &StudyDb, chapter_id: String) -> (r: ChapterTally)
    requires
        db@.wf(),
    ensures
        r.total_tasks == tasks_of_chapter(db@, chapter_id@).len(),
        r.assessed == count_latest(db@, Some(chapter_id@), None),
        r.mastered == count_latest(db@, Some(chapter_id@), Some("mastered"@)),
        r.needs_work == count_latest(db@, Some(chapter_id@), Some("needs_work"@)),
        ({
            let kps = knowledge_points_listed(db@, Some(chapter_id));
            &&& r.knowledge_points@.len() == kps.len()
            &&& forall|i: int| 0 <= i < kps.len() ==> is_kp_tally(db@, kps[i], #[trigger] r.knowledge_points@[i])
        }),
{
    let total_tasks = count_tasks_where_chapter(db, &chapter_id);
    let scope = Some(chapter_id.clone());
    let (assessed, mastered, needs_work) = latest_counts(db, &scope);
    let kps = list_knowledge_points(db, Some(chapter_id.clone()));
    let mut tallies: Vec<KnowledgePointTally> = Vec::new();
    let mut i: usize = 0;
    while i < kps.len()
        invariant
            db@.wf(),
            kps@ == knowledge_points_listed(db@, Some(chapter_id)),
            i <= kps@.len(),
            tallies@.len() == i,
            forall|j: int| 0 <= j < i ==> is_kp_tally(db@, kps@[j], #[trigger] tallies@[j]),
        decreases kps@.len() - i,
    {
        tallies.push(tally_knowledge_point(db, &kps[i]));
        i = i + 1;
    }
    ChapterTally { total_tasks, assessed, mastered, needs_work, knowledge_points: tallies }
}

/// The progress over all tasks: every task; the tasks whose latest
/// self-assessment is "mastered" and "needs_work"; and, for each course
/// outcome by order index, its tasks and the mastered ones among them.
pub fn get_overall_progress(db: &StudyDb) -> (r: OverallTally)
    requires
        db@.wf(),
    ensures
        r.total_tasks == db@.tasks.len(),
        r.mastered == count_latest(db@, None, Some("mastered"@)),
        r.needs_work == count_latest(db@, None, Some("needs_work"@)),
        ({
            let outcomes = outcomes_in_order(db@);
            &&& r.outcomes@.len() == outcomes.len()
            &&& forall|i: int| 0 <= i < outcomes.len() ==> is_outcome_tally(db@, outcomes[i], #[trigger] r.outcomes@[i])
        }),
{
    let total_tasks = db.tasks().len() as i64;
    let (_, mastered, needs_work) = latest_counts(db, &None);
    let outcomes = list_course_outcomes(db);
    let mut tallies: Vec<OutcomeTally> = Vec::new();
    let mut i: usize = 0;
    while i < outcomes.len()
        invariant
            db@.wf(),
            outcomes@ == outcomes_in_order(db@),
            i <= outcomes@.len(),
            tallies@.len() == i,
            forall|j: int| 0 <= j < i ==> is_outcome_tally(db@, outcomes@[j], #[trigger] tallies@[j]),
        decreases outcomes@.len() - i,
    {
        tallies.push(tally_outcome(db, &outcomes[i]));
        i = i + 1;
    }
    OverallTally { total_tasks, mastered, needs_work, outcomes: tallies }
}

} // verus!
