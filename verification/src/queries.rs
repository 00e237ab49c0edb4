use vstd::prelude::*;
use crate::errors::AppError;
use crate::models::{
    Chapter, CourseOutcome, KnowledgePoint, ReqStatus, Task, TaskAssessment, TaskDetail,
    TaskKnowledgePoint, TaskPage, TaskRequirement, TaskSource, AnswerRecord,
    RequirementAssessment,
};
use crate::sorting::{RowOrder, order_of, sort_by, stable_sort};
use crate::store::{DbView, StudyDb};
use crate::text::{text_eq, text_is, text_less, text_lt};
use vstd::string::*;

verus! {

broadcast use vstd::seq_lib::group_seq_properties;

/// Chapters and course outcomes are listed by their order index.
pub struct ChapterOrder;

pub struct OutcomeOrder;

/// Knowledge points of one chapter are listed by their order index.
pub struct KnowledgePointOrder;

/// All knowledge points are listed by chapter id, then by order index.
pub struct KnowledgePointChapterOrder;

/// Tasks are listed by id.
pub struct TaskIdOrder;

/// Requirements are listed by their index.
pub struct RequirementOrder;

impl RowOrder<Chapter> for ChapterOrder {
    open spec fn before(a: Chapter, b: Chapter) -> bool {
        a.order_index < b.order_index
    }

    fn exec_before(a: &Chapter, b: &Chapter) -> (r: bool) {
        a.order_index < b.order_index
    }
}

impl RowOrder<CourseOutcome> for OutcomeOrder {
    open spec fn before(a: CourseOutcome, b: CourseOutcome) -> bool {
        a.order_index < b.order_index
    }

    fn exec_before(a: &CourseOutcome, b: &CourseOutcome) -> (r: bool) {
        a.order_index < b.order_index
    }
}

impl RowOrder<KnowledgePoint> for KnowledgePointOrder {
    open spec fn before(a: KnowledgePoint, b: KnowledgePoint) -> bool {
        a.order_index < b.order_index
    }

    fn exec_before(a: &KnowledgePoint, b: &KnowledgePoint) -> (r: bool) {
        a.order_index < b.order_index
    }
}

impl RowOrder<KnowledgePoint> for KnowledgePointChapterOrder {
    open spec fn before(a: KnowledgePoint, b: KnowledgePoint) -> bool {
        text_lt(a.chapter_id@, b.chapter_id@) || (a.chapter_id@ == b.chapter_id@ && a.order_index
            < b.order_index)
    }

    fn exec_before(a: &KnowledgePoint, b: &KnowledgePoint) -> (r: bool) {
        text_less(&a.chapter_id, &b.chapter_id) || (text_eq(&a.chapter_id, &b.chapter_id)
            && a.order_index < b.order_index)
    }
}

impl RowOrder<Task> for TaskIdOrder {
    open spec fn before(a: Task, b: Task) -> bool {
        text_lt(a.id@, b.id@)
    }

    fn exec_before(a: &Task, b: &Task) -> (r: bool) {
        text_less(&a.id, &b.id)
    }
}

impl RowOrder<TaskRequirement> for RequirementOrder {
    open spec fn before(a: TaskRequirement, b: TaskRequirement) -> bool {
        a.req_index < b.req_index
    }

    fn exec_before(a: &TaskRequirement, b: &TaskRequirement) -> (r: bool) {
        a.req_index < b.req_index
    }
}

/// The last row of `s` that satisfies `p`.
pub open spec fn last_match<T>(s: Seq<T>, p: spec_fn(T) -> bool) -> Option<T>
    decreases s.len(),
{
    if s.len() == 0 {
        None
    } else if p(s.last()) {
        Some(s.last())
    } else {
        last_match(s.drop_last(), p)
    }
}

/// Where the last row that satisfies `p` stands.
pub proof fn lemma_last_match_index<T>(s: Seq<T>, p: spec_fn(T) -> bool)
    ensures
        last_match(s, p) is None ==> forall|i: int| 0 <= i < s.len() ==> !p(#[trigger] s[i]),
        last_match(s, p) matches Some(a) ==> exists|k: int|
            0 <= k < s.len() && s[k] == a && p(a) && forall|j: int| k < j < s.len() ==> !p(#[trigger] s[j]),
    decreases s.len(),
{
    if s.len() > 0 {
        let t = s.drop_last();
        lemma_last_match_index(t, p);
        if !p(s.last()) {
            if let Some(a) = last_match(t, p) {
                let k = choose|k: int|
                    0 <= k < t.len() && t[k] == a && p(a) && forall|j: int| k < j < t.len() ==> !p(#[trigger] t[j]);
                assert forall|j: int| k < j < s.len() implies !p(#[trigger] s[j]) by {
                    if j < t.len() {
                        assert(s[j] == t[j]);
                    }
                }
                assert(s[k] == a);
            } else {
                assert forall|i: int| 0 <= i < s.len() implies !p(#[trigger] s[i]) by {
                    if i < t.len() {
                        assert(s[i] == t[i]);
                    }
                }
            }
        } else {
            assert(s[s.len() - 1] == s.last());
        }
    }
}

/// Chapters in the order in which they are listed.
pub open spec fn chapters_in_order(v: DbView) -> Seq<Chapter> {
    sort_by(v.chapters, order_of::<Chapter, ChapterOrder>())
}

/// Course outcomes in the order in which they are listed.
pub open spec fn outcomes_in_order(v: DbView) -> Seq<CourseOutcome> {
    sort_by(v.course_outcomes, order_of::<CourseOutcome, OutcomeOrder>())
}

/// Whether a knowledge point belongs to the chapter.
pub open spec fn of_chapter(chapter_id: Seq<char>) -> spec_fn(KnowledgePoint) -> bool {
    |k: KnowledgePoint| k.chapter_id@ == chapter_id
}

/// The knowledge points of a chapter, in table order.
pub open spec fn chapter_knowledge_points(v: DbView, chapter_id: Seq<char>) -> Seq<KnowledgePoint> {
    v.knowledge_points.filter(of_chapter(chapter_id))
}

/// The knowledge points that `list_knowledge_points` returns.
pub open spec fn knowledge_points_listed(v: DbView, chapter_id: Option<String>) -> Seq<
    KnowledgePoint,
> {
    match chapter_id {
        Some(c) => sort_by(
            chapter_knowledge_points(v, c@),
            order_of::<KnowledgePoint, KnowledgePointOrder>(),
        ),
        None => sort_by(
            v.knowledge_points,
            order_of::<KnowledgePoint, KnowledgePointChapterOrder>(),
        ),
    }
}

/// The requirements of a task, by requirement index.
pub open spec fn requirements_of(v: DbView, task_id: Seq<char>) -> Seq<TaskRequirement> {
    sort_by(
        v.task_requirements.filter(|r: TaskRequirement| r.task_id@ == task_id),
        order_of::<TaskRequirement, RequirementOrder>(),
    )
}

/// The knowledge points with the given id, in table order.
pub open spec fn knowledge_points_with_id(kps: Seq<KnowledgePoint>, id: Seq<char>) -> Seq<
    KnowledgePoint,
> {
    kps.filter(|k: KnowledgePoint| k.id@ == id)
}

/// The join of knowledge points with links: for each link in turn, the
/// knowledge points it names.
pub open spec fn joined_knowledge_points(
    kps: Seq<KnowledgePoint>,
    links: Seq<TaskKnowledgePoint>,
) -> Seq<KnowledgePoint>
    decreases links.len(),
{
    if links.len() == 0 {
        Seq::empty()
    } else {
        joined_knowledge_points(kps, links.drop_last()) + knowledge_points_with_id(
            kps,
            links.last().knowledge_point_id@,
        )
    }
}

/// The links of a task, in table order.
pub open spec fn links_of(v: DbView, task_id: Seq<char>) -> Seq<TaskKnowledgePoint> {
    v.task_knowledge_points.filter(|l: TaskKnowledgePoint| l.task_id@ == task_id)
}

/// The knowledge points of a task, by order index.
pub open spec fn task_knowledge_points_of(v: DbView, task_id: Seq<char>) -> Seq<KnowledgePoint> {
    sort_by(
        joined_knowledge_points(v.knowledge_points, links_of(v, task_id)),
        order_of::<KnowledgePoint, KnowledgePointOrder>(),
    )
}

/// The sources of a task, in table order.
pub open spec fn sources_of(v: DbView, task_id: Seq<char>) -> Seq<TaskSource> {
    v.task_sources.filter(|s: TaskSource| s.task_id@ == task_id)
}

/// The latest self-assessment of a whole task.
pub open spec fn latest_task_assessment(v: DbView, task_id: Seq<char>) -> Option<TaskAssessment> {
    last_match(v.task_assessments, |a: TaskAssessment| a.task_id@ == task_id)
}

/// The latest answer to a task.
pub open spec fn latest_answer(v: DbView, task_id: Seq<char>) -> Option<AnswerRecord> {
    last_match(v.answer_records, |a: AnswerRecord| a.task_id@ == task_id)
}

/// The latest self-assessment of one requirement of a task.
pub open spec fn latest_requirement_assessment(
    v: DbView,
    task_id: Seq<char>,
    req_index: i64,
) -> Option<RequirementAssessment> {
    last_match(
        v.requirement_assessments,
        |a: RequirementAssessment| a.task_id@ == task_id && a.req_index == req_index,
    )
}

/// The status of one requirement: its latest self-assessment, or
/// `"unassessed"` when it has none.
pub open spec fn requirement_status(v: DbView, task_id: Seq<char>, req_index: i64) -> Seq<char> {
    match latest_requirement_assessment(v, task_id, req_index) {
        Some(a) => a.status@,
        None => "unassessed"@,
    }
}

/// Whether `d` is the detail of task `t`: its requirements, knowledge
/// points and sources, its latest self-assessment and answer, and the status
/// of each requirement.
pub open spec fn is_detail_of(v: DbView, t: Task, d: TaskDetail) -> bool {
    let reqs = requirements_of(v, t.id@);
    &&& d.task == t
    &&& d.requirements@ == reqs
    &&& d.knowledge_points@ == task_knowledge_points_of(v, t.id@)
    &&& d.sources@ == sources_of(v, t.id@)
    &&& d.latest_assessment == (match latest_task_assessment(v, t.id@) {
        Some(a) => Some(a.assessment),
        None => None,
    })
    &&& d.latest_answer == (match latest_answer(v, t.id@) {
        Some(a) => Some(a.answer_text),
        None => None,
    })
    &&& d.requirement_statuses@.len() == reqs.len()
    &&& forall|i: int|
        0 <= i < reqs.len() ==> {
            &&& (#[trigger] d.requirement_statuses@[i]).req_index == reqs[i].req_index
            &&& d.requirement_statuses@[i].status@ == requirement_status(
                v,
                t.id@,
                reqs[i].req_index,
            )
        }
}

/// Every chapter, by order index.
pub fn list_chapters(db: &StudyDb) -> (r: Vec<Chapter>)
    ensures
        r@ == chapters_in_order(db@),
{
    let rows = db.chapters();
    let mut out: Vec<Chapter> = Vec::new();
    let mut i: usize = 0;
    while i < rows.len()
        invariant
            rows@ == db@.chapters,
            i <= rows@.len(),
            out@ == rows@.take(i as int),
        decreases rows@.len() - i,
    {
        out.push(rows[i].clone());
        assert(rows@.take(i + 1) =~= rows@.take(i as int).push(rows@[i as int]));
        i = i + 1;
    }
    assert(rows@.take(rows@.len() as int) =~= rows@);
    stable_sort::<Chapter, ChapterOrder>(out)
}

/// Every course outcome, by order index.
pub fn list_course_outcomes(db: &StudyDb) -> (r: Vec<CourseOutcome>)
    ensures
        r@ == outcomes_in_order(db@),
{
    let rows = db.course_outcomes();
    let mut out: Vec<CourseOutcome> = Vec::new();
    let mut i: usize = 0;
    while i < rows.len()
        invariant
            rows@ == db@.course_outcomes,
            i <= rows@.len(),
            out@ == rows@.take(i as int),
        decreases rows@.len() - i,
    {
        out.push(rows[i].clone());
        assert(rows@.take(i + 1) =~= rows@.take(i as int).push(rows@[i as int]));
        i = i + 1;
    }
    assert(rows@.take(rows@.len() as int) =~= rows@);
    stable_sort::<CourseOutcome, OutcomeOrder>(out)
}

/// The knowledge points of one chapter by order index, or, with no
/// chapter, every knowledge point by chapter id and order index.
pub fn list_knowledge_points(db: &StudyDb, chapter_id: Option<String>) -> (r: Vec<KnowledgePoint>)
    ensures
        r@ == knowledge_points_listed(db@, chapter_id),
{
    let rows = db.knowledge_points();
    let mut out: Vec<KnowledgePoint> = Vec::new();
    match chapter_id {
        Some(c) => {
            let ghost p = |k: KnowledgePoint| k.chapter_id@ == c@;
            let mut i: usize = 0;
            while i < rows.len()
                invariant
                    rows@ == db@.knowledge_points,
                    i <= rows@.len(),
                    p == (|k: KnowledgePoint| k.chapter_id@ == c@),
                    out@ == rows@.take(i as int).filter(p),
                decreases rows@.len() - i,
            {
                assert(rows@.take(i + 1) =~= rows@.take(i as int).push(rows@[i as int]));
                proof {
                    rows@.take(i as int).lemma_filter_push(rows@[i as int], p);
                }
                if text_eq(&rows[i].chapter_id, &c) {
                    out.push(rows[i].clone());
                }
                i = i + 1;
            }
            assert(rows@.take(rows@.len() as int) =~= rows@);
            stable_sort::<KnowledgePoint, KnowledgePointOrder>(out)
        },
        None => {
            let mut i: usize = 0;
            while i < rows.len()
                invariant
                    rows@ == db@.knowledge_points,
                    i <= rows@.len(),
                    out@ == rows@.take(i as int),
                decreases rows@.len() - i,
            {
                out.push(rows[i].clone());
                assert(rows@.take(i + 1) =~= rows@.take(i as int).push(rows@[i as int]));
                i = i + 1;
            }
            assert(rows@.take(rows@.len() as int) =~= rows@);
            stable_sort::<KnowledgePoint, KnowledgePointChapterOrder>(out)
        },
    }
}


proof fn lemma_last_match_step<T>(s: Seq<T>, p: spec_fn(T) -> bool, i: int)
    requires
        0 <= i < s.len(),
    ensures
        last_match(s.take(i + 1), p) == (if p(s[i]) {
            Some(s[i])
        } else {
            last_match(s.take(i), p)
        }),
{
    assert(s.take(i + 1).drop_last() =~= s.take(i));
}

/// The requirements of a task, by requirement index.
pub fn requirements_for(db: &StudyDb, task_id: &String) -> (r: Vec<TaskRequirement>)
    ensures
        r@ == requirements_of(db@, task_id@),
{
    let rows = db.task_requirements();
    let ghost p = |x: TaskRequirement| x.task_id@ == task_id@;
    let mut out: Vec<TaskRequirement> = Vec::new();
    let mut i: usize = 0;
    while i < rows.len()
        invariant
            rows@ == db@.task_requirements,
            i <= rows@.len(),
            p == (|x: TaskRequirement| x.task_id@ == task_id@),
            out@ == rows@.take(i as int).filter(p),
        decreases rows@.len() - i,
    {
        assert(rows@.take(i + 1) =~= rows@.take(i as int).push(rows@[i as int]));
        proof {
            rows@.take(i as int).lemma_filter_push(rows@[i as int], p);
        }
        if text_eq(&rows[i].task_id, task_id) {
            out.push(rows[i].clone());
        }
        i = i + 1;
    }
    assert(rows@.take(rows@.len() as int) =~= rows@);
    stable_sort::<TaskRequirement, RequirementOrder>(out)
}

/// The knowledge points linked to a task, by order index.
pub fn knowledge_points_for(db: &StudyDb, task_id: &String) -> (r: Vec<KnowledgePoint>)
    ensures
        r@ == task_knowledge_points_of(db@, task_id@),
{
    let links = db.task_knowledge_points();
    let kps = db.knowledge_points();
    let ghost p = |l: TaskKnowledgePoint| l.task_id@ == task_id@;
    let mut out: Vec<KnowledgePoint> = Vec::new();
    let mut i: usize = 0;
    while i < links.len()
        invariant
            links@ == db@.task_knowledge_points,
            kps@ == db@.knowledge_points,
            i <= links@.len(),
            p == (|l: TaskKnowledgePoint| l.task_id@ == task_id@),
            out@ == joined_knowledge_points(kps@, links@.take(i as int).filter(p)),
        decreases links@.len() - i,
    {
        assert(links@.take(i + 1) =~= links@.take(i as int).push(links@[i as int]));
        proof {
            links@.take(i as int).lemma_filter_push(links@[i as int], p);
        }
        if text_eq(&links[i].task_id, task_id) {
            let kp_id = &links[i].knowledge_point_id;
            let ghost prev = out@;
            let ghost q = |k: KnowledgePoint| k.id@ == kp_id@;
            let mut j: usize = 0;
            while j < kps.len()
                invariant
                    kps@ == db@.knowledge_points,
                    j <= kps@.len(),
                    q == (|k: KnowledgePoint| k.id@ == kp_id@),
                    out@ == prev + kps@.take(j as int).filter(q),
                decreases kps@.len() - j,
            {
                assert(kps@.take(j + 1) =~= kps@.take(j as int).push(kps@[j as int]));
                proof {
                    kps@.take(j as int).lemma_filter_push(kps@[j as int], q);
                }
                if text_eq(&kps[j].id, kp_id) {
                    out.push(kps[j].clone());
                    assert(out@ =~= prev + kps@.take(j + 1).filter(q));
                }
                j = j + 1;
            }
            assert(kps@.take(kps@.len() as int) =~= kps@);
            proof {
                let f = links@.take(i + 1).filter(p);
                assert(f.drop_last() =~= links@.take(i as int).filter(p));
            }
        }
        i = i + 1;
    }
    assert(links@.take(links@.len() as int) =~= links@);
    stable_sort::<KnowledgePoint, KnowledgePointOrder>(out)
}

/// The sources of a task, in table order.
pub fn sources_for(db: &StudyDb, task_id: &String) -> (r: Vec<TaskSource>)
    ensures
        r@ == sources_of(db@, task_id@),
{
    let rows = db.task_sources();
    let ghost p = |x: TaskSource| x.task_id@ == task_id@;
    let mut out: Vec<TaskSource> = Vec::new();
    let mut i: usize = 0;
    while i < rows.len()
        invariant
            rows@ == db@.task_sources,
            i <= rows@.len(),
            p == (|x: TaskSource| x.task_id@ == task_id@),
            out@ == rows@.take(i as int).filter(p),
        decreases rows@.len() - i,
    {
        assert(rows@.take(i + 1) =~= rows@.take(i as int).push(rows@[i as int]));
        proof {
            rows@.take(i as int).lemma_filter_push(rows@[i as int], p);
        }
        if text_eq(&rows[i].task_id, task_id) {
            out.push(rows[i].clone());
        }
        i = i + 1;
    }
    assert(rows@.take(rows@.len() as int) =~= rows@);
    out
}

/// The latest self-assessment of a whole task.
pub fn latest_assessment_for(db: &StudyDb, task_id: &String) -> (r: Option<String>)
    ensures
        r == (match latest_task_assessment(db@, task_id@) {
            Some(a) => Some(a.assessment),
            None => None,
        }),
{
    let rows = db.task_assessments();
    let ghost p = |a: TaskAssessment| a.task_id@ == task_id@;
    let mut found: Option<String> = None;
    let mut i: usize = 0;
    assert(rows@.take(0) =~= Seq::<TaskAssessment>::empty());
    while i < rows.len()
        invariant
            rows@ == db@.task_assessments,
            i <= rows@.len(),
            p == (|a: TaskAssessment| a.task_id@ == task_id@),
            found == (match last_match(rows@.take(i as int), p) {
                Some(a) => Some(a.assessment),
                None => None,
            }),
        decreases rows@.len() - i,
    {
        proof {
            lemma_last_match_step(rows@, p, i as int);
        }
        if text_eq(&rows[i].task_id, task_id) {
            found = Some(rows[i].assessment.clone());
        }
        i = i + 1;
    }
    assert(rows@.take(rows@.len() as int) =~= rows@);
    found
}

/// The latest answer to a task.
pub fn latest_answer_for(db: &StudyDb, task_id: &String) -> (r: Option<String>)
    ensures
        r == (match latest_answer(db@, task_id@) {
            Some(a) => Some(a.answer_text),
            None => None,
        }),
{
    let rows = db.answer_records();
    let ghost p = |a: AnswerRecord| a.task_id@ == task_id@;
    let mut found: Option<String> = None;
    let mut i: usize = 0;
    assert(rows@.take(0) =~= Seq::<AnswerRecord>::empty());
    while i < rows.len()
        invariant
            rows@ == db@.answer_records,
            i <= rows@.len(),
            p == (|a: AnswerRecord| a.task_id@ == task_id@),
            found == (match last_match(rows@.take(i as int), p) {
                Some(a) => Some(a.answer_text),
                None => None,
            }),
        decreases rows@.len() - i,
    {
        proof {
            lemma_last_match_step(rows@, p, i as int);
        }
        if text_eq(&rows[i].task_id, task_id) {
            found = Some(rows[i].answer_text.clone());
        }
        i = i + 1;
    }
    assert(rows@.take(rows@.len() as int) =~= rows@);
    found
}

/// The status of one requirement of a task.
pub fn requirement_status_for(db: &StudyDb, task_id: &String, req_index: i64) -> (r: String)
    ensures
        r@ == requirement_status(db@, task_id@, req_index),
{
    let rows = db.requirement_assessments();
    let ghost p = |a: RequirementAssessment| a.task_id@ == task_id@ && a.req_index == req_index;
    let mut found: Option<String> = None;
    let mut i: usize = 0;
    assert(rows@.take(0) =~= Seq::<RequirementAssessment>::empty());
    while i < rows.len()
        invariant
            rows@ == db@.requirement_assessments,
            i <= rows@.len(),
            p == (|a: RequirementAssessment| a.task_id@ == task_id@ && a.req_index == req_index),
            found == (match last_match(rows@.take(i as int), p) {
                Some(a) => Some(a.status),
                None => None,
            }),
        decreases rows@.len() - i,
    {
        proof {
            lemma_last_match_step(rows@, p, i as int);
        }
        if text_eq(&rows[i].task_id, task_id) && rows[i].req_index == req_index {
            found = Some(rows[i].status.clone());
        }
        i = i + 1;
    }
    assert(rows@.take(rows@.len() as int) =~= rows@);
    match found {
        Some(s) => s,
        None => String::from_str("unassessed"),
    }
}

/// A task with its requirements, knowledge points, sources, latest
/// self-assessment and answer, and the status of each requirement.
pub fn build_task_detail(db: &StudyDb, task: &Task) -> (r: TaskDetail)
    ensures
        is_detail_of(db@, *task, r),
{
    let task_id = &task.id;
    let requirements = requirements_for(db, task_id);
    let knowledge_points = knowledge_points_for(db, task_id);
    let sources = sources_for(db, task_id);
    let latest_assessment = latest_assessment_for(db, task_id);
    let latest_answer = latest_answer_for(db, task_id);
    let mut statuses: Vec<ReqStatus> = Vec::new();
    let mut i: usize = 0;
    while i < requirements.len()
        invariant
            requirements@ == requirements_of(db@, task_id@),
            i <= requirements@.len(),
            statuses@.len() == i,
            forall|j: int|
                0 <= j < i ==> {
                    &&& (#[trigger] statuses@[j]).req_index == requirements@[j].req_index
                    &&& statuses@[j].status@ == requirement_status(
                        db@,
                        task_id@,
                        requirements@[j].req_index,
                    )
                },
        decreases requirements@.len() - i,
    {
        let idx = requirements[i].req_index;
        let status = requirement_status_for(db, task_id, idx);
        statuses.push(ReqStatus { req_index: idx, status });
        i = i + 1;
    }
    TaskDetail {
        task: task.clone(),
        requirements,
        knowledge_points,
        sources,
        latest_assessment,
        latest_answer,
        requirement_statuses: statuses,
    }
}


/// The task with the given id (the last one, should there be several).
pub open spec fn find_task(v: DbView, id: Seq<char>) -> Option<Task> {
    last_match(v.tasks, has_id(id))
}

/// Whether a task has the id.
pub open spec fn has_id(id: Seq<char>) -> spec_fn(Task) -> bool {
    |t: Task| t.id@ == id
}

/// The message the storage layer reports when a single-row query finds no row.
pub open spec fn no_rows_message() -> Seq<char> {
    "Query returned no rows"@
}

fn find_task_index(db: &StudyDb, id: &String) -> (r: Option<usize>)
    ensures
        match find_task(db@, id@) {
            Some(t) => r matches Some(k) && k < db@.tasks.len() && db@.tasks[k as int] == t,
            None => r is None,
        },
{
    let rows = db.tasks();
    let ghost p = |t: Task| t.id@ == id@;
    let mut found: Option<usize> = None;
    let mut i: usize = 0;
    assert(rows@.take(0) =~= Seq::<Task>::empty());
    while i < rows.len()
        invariant
            rows@ == db@.tasks,
            i <= rows@.len(),
            p == (|t: Task| t.id@ == id@),
            match last_match(rows@.take(i as int), p) {
                Some(t) => found matches Some(k) && k < i && rows@[k as int] == t,
                None => found is None,
            },
        decreases rows@.len() - i,
    {
        proof {
            lemma_last_match_step(rows@, p, i as int);
        }
        if text_eq(&rows[i].id, id) {
            found = Some(i);
        }
        i = i + 1;
    }
    assert(rows@.take(rows@.len() as int) =~= rows@);
    found
}

/// The detail of one task; the storage layer's "no rows" error when no task
/// has that id.
pub fn get_task_detail(db: &StudyDb, task_id: String) -> (r: Result<TaskDetail, AppError>)
    ensures
        match find_task(db@, task_id@) {
            Some(t) => r matches Ok(d) && is_detail_of(db@, t, d),
            None => r matches Err(e) && e.code@ == "DB_ERROR"@ && e.message@ == no_rows_message(),
        },
{
    match find_task_index(db, &task_id) {
        Some(k) => Ok(build_task_detail(db, &db.tasks()[k])),
        None => Err(AppError::db_error("Query returned no rows")),
    }
}

/// The largest page that `list_tasks` returns.
pub const MAX_PAGE_SIZE: i64 = 500i64;

/// The largest number of tasks that `get_random_tasks` draws.
pub const MAX_DRAW: i64 = 20i64;

/// `x` clamped to `[lo, hi]`.
pub open spec fn clamp(x: i64, lo: i64, hi: i64) -> i64 {
    if x < lo {
        lo
    } else if x > hi {
        hi
    } else {
        x
    }
}

fn clamp_exec(x: i64, lo: i64, hi: i64) -> (r: i64)
    requires
        lo <= hi,
    ensures
        r == clamp(x, lo, hi),
{
    if x < lo {
        lo
    } else if x > hi {
        hi
    } else {
        x
    }
}

/// Whether a task belongs in a listing of a chapter, optionally narrowed to
/// one difficulty and to the tasks linked to one knowledge point.
pub open spec fn is_listed(
    v: DbView,
    t: Task,
    chapter_id: Seq<char>,
    difficulty: Option<String>,
    knowledge_point_id: Option<String>,
) -> bool {
    &&& t.chapter_id@ == chapter_id
    &&& (difficulty matches Some(d) ==> t.difficulty@ == d@)
    &&& (knowledge_point_id matches Some(k) ==> v.has_link(t.id@, k@))
}

/// The tasks of a listing, in table order.
pub open spec fn listed_tasks(
    v: DbView,
    chapter_id: Seq<char>,
    difficulty: Option<String>,
    knowledge_point_id: Option<String>,
) -> Seq<Task> {
    v.tasks.filter(|t: Task| is_listed(v, t, chapter_id, difficulty, knowledge_point_id))
}

/// The tasks of a listing, by id.
pub open spec fn listed_tasks_by_id(
    v: DbView,
    chapter_id: Seq<char>,
    difficulty: Option<String>,
    knowledge_point_id: Option<String>,
) -> Seq<Task> {
    sort_by(
        listed_tasks(v, chapter_id, difficulty, knowledge_point_id),
        order_of::<Task, TaskIdOrder>(),
    )
}

/// The first index of a page: the offset, at least 0, at most the count.
pub open spec fn page_start(offset: i64, len: int) -> int {
    let off = if offset < 0 { 0 } else { offset as int };
    if off < len { off } else { len }
}

/// One past the last index of a page.
pub open spec fn page_end(offset: i64, limit: i64, len: int) -> int {
    let start = page_start(offset, len);
    let lim = clamp(limit, 1, MAX_PAGE_SIZE) as int;
    if start + lim < len { start + lim } else { len }
}

/// The tasks of one page of a listing.
pub open spec fn task_page(
    v: DbView,
    chapter_id: Seq<char>,
    difficulty: Option<String>,
    knowledge_point_id: Option<String>,
    offset: i64,
    limit: i64,
) -> Seq<Task> {
    let all = listed_tasks_by_id(v, chapter_id, difficulty, knowledge_point_id);
    all.subrange(page_start(offset, all.len() as int), page_end(offset, limit, all.len() as int))
}

fn filter_listed(
    db: &StudyDb,
    chapter_id: &String,
    difficulty: &Option<String>,
    knowledge_point_id: &Option<String>,
) -> (r: Vec<Task>)
    ensures
        r@ == listed_tasks(db@, chapter_id@, *difficulty, *knowledge_point_id),
{
    let rows = db.tasks();
    let ghost p = |t: Task| is_listed(db@, t, chapter_id@, *difficulty, *knowledge_point_id);
    let mut out: Vec<Task> = Vec::new();
    let mut i: usize = 0;
    while i < rows.len()
        invariant
            rows@ == db@.tasks,
            i <= rows@.len(),
            p == (|t: Task| is_listed(db@, t, chapter_id@, *difficulty, *knowledge_point_id)),
            out@ == rows@.take(i as int).filter(p),
        decreases rows@.len() - i,
    {
        assert(rows@.take(i + 1) =~= rows@.take(i as int).push(rows@[i as int]));
        proof {
            rows@.take(i as int).lemma_filter_push(rows@[i as int], p);
        }
        let t = &rows[i];
        let mut keep = text_eq(&t.chapter_id, chapter_id);
        if keep {
            match difficulty {
                Some(d) => {
                    keep = text_eq(&t.difficulty, d);
                },
                None => {},
            }
        }
        if keep {
            match knowledge_point_id {
                Some(k) => {
                    keep = db.has_link(&t.id, k);
                },
                None => {},
            }
        }
        assert(keep == p(rows@[i as int]));
        if keep {
            out.push(t.clone());
        }
        i = i + 1;
    }
    assert(rows@.take(rows@.len() as int) =~= rows@);
    out
}

fn details_of(db: &StudyDb, tasks: &Vec<Task>, start: usize, end: usize) -> (r: Vec<TaskDetail>)
    requires
        start <= end <= tasks@.len(),
    ensures
        r@.len() == end - start,
        forall|i: int| 0 <= i < end - start ==> is_detail_of(db@, tasks@[start + i], #[trigger] r@[i]),
{
    let mut out: Vec<TaskDetail> = Vec::new();
    let mut k: usize = start;
    while k < end
        invariant
            start <= k <= end,
            end <= tasks@.len(),
            out@.len() == k - start,
            forall|i: int| 0 <= i < k - start ==> is_detail_of(db@, tasks@[start + i], #[trigger] out@[i]),
        decreases end - k,
    {
        out.push(build_task_detail(db, &tasks[k]));
        k = k + 1;
    }
    out
}

/// One page of the tasks of a chapter, by id, optionally narrowed to one
/// difficulty and to the tasks of one knowledge point. The limit is clamped
/// to `[1, 500]`, a negative offset counts as 0, and `total` counts every
/// task of the listing.
pub fn list_tasks(
    db: &StudyDb,
    chapter_id: String,
    difficulty: Option<String>,
    knowledge_point_id: Option<String>,
    offset: i64,
    limit: i64,
) -> (r: TaskPage)
    requires
        db@.wf(),
    ensures
        ({
            let page = task_page(db@, chapter_id@, difficulty, knowledge_point_id, offset, limit);
            &&& r.total == listed_tasks(db@, chapter_id@, difficulty, knowledge_point_id).len()
            &&& r.offset == (if offset < 0 { 0 } else { offset })
            &&& r.items@.len() == page.len()
            &&& forall|i: int| 0 <= i < page.len() ==> is_detail_of(db@, page[i], #[trigger] r.items@[i])
        }),
{
    let lim = clamp_exec(limit, 1, MAX_PAGE_SIZE);
    let off: i64 = if offset < 0 { 0 } else { offset };
    let matching = filter_listed(db, &chapter_id, &difficulty, &knowledge_point_id);
    proof {
        db@.tasks.lemma_filter_len(|t: Task| is_listed(db@, t, chapter_id@, difficulty, knowledge_point_id));
    }
    let total = matching.len() as i64;
    let ordered = stable_sort::<Task, TaskIdOrder>(matching);
    proof {
        crate::sorting::lemma_sort_len(matching@, order_of::<Task, TaskIdOrder>());
    }
    let len = ordered.len();
    let start: usize = if (off as u64) < (len as u64) { off as usize } else { len };
    let remaining = len - start;
    let count: usize = if (lim as u64) < (remaining as u64) { lim as usize } else { remaining };
    let items = details_of(db, &ordered, start, start + count);
    let ghost page = task_page(db@, chapter_id@, difficulty, knowledge_point_id, offset, limit);
    assert(start == page_start(offset, len as int));
    assert(start + count == page_end(offset, limit, len as int));
    assert forall|i: int| 0 <= i < page.len() implies is_detail_of(db@, page[i], #[trigger] items@[i]) by {
        assert(page[i] == ordered@[start + i]);
    }
    TaskPage { items, total, offset: off }
}

/// Whether a task has ever been self-assessed as needing work.
pub open spec fn ever_needed_work(v: DbView, task_id: Seq<char>) -> bool {
    exists|i: int|
        0 <= i < v.task_assessments.len() && #[trigger] v.task_assessments[i].task_id@ == task_id
            && v.task_assessments[i].assessment@ == "needs_work"@
}

/// Whether a task can be drawn: in the chapter and of the difficulty when
/// they are given, and, for weak-spot practice, once self-assessed as
/// needing work.
pub open spec fn is_drawable(
    v: DbView,
    t: Task,
    chapter_id: Option<String>,
    difficulty: Option<String>,
    only_weak: bool,
) -> bool {
    &&& (chapter_id matches Some(c) ==> t.chapter_id@ == c@)
    &&& (difficulty matches Some(d) ==> t.difficulty@ == d@)
    &&& (only_weak ==> ever_needed_work(v, t.id@))
}

/// The drawable tasks, in the order in which `ids` names them.
pub open spec fn drawable_in_order(
    v: DbView,
    ids: Seq<String>,
    chapter_id: Option<String>,
    difficulty: Option<String>,
    only_weak: bool,
) -> Seq<Task>
    decreases ids.len(),
{
    if ids.len() == 0 {
        Seq::empty()
    } else {
        let prev = drawable_in_order(v, ids.drop_last(), chapter_id, difficulty, only_weak);
        match find_task(v, ids.last()@) {
            Some(t) => if is_drawable(v, t, chapter_id, difficulty, only_weak) {
                prev.push(t)
            } else {
                prev
            },
            None => prev,
        }
    }
}

/// The tasks that `get_random_tasks` returns for a given order of the task ids.
pub open spec fn drawn_tasks(
    v: DbView,
    ids: Seq<String>,
    chapter_id: Option<String>,
    difficulty: Option<String>,
    count: i64,
    only_weak: bool,
) -> Seq<Task> {
    let all = drawable_in_order(v, ids, chapter_id, difficulty, only_weak);
    let n = clamp(count, 1, MAX_DRAW) as int;
    all.take(if n < all.len() { n } else { all.len() as int })
}

fn ever_needed_work_exec(db: &StudyDb, task_id: &String) -> (r: bool)
    ensures
        r == ever_needed_work(db@, task_id@),
{
    let rows = db.task_assessments();
    let mut i: usize = 0;
    while i < rows.len()
        invariant
            rows@ == db@.task_assessments,
            i <= rows@.len(),
            forall|j: int|
                0 <= j < i ==> !(#[trigger] rows@[j].task_id@ == task_id@ && rows@[j].assessment@
                    == "needs_work"@),
        decreases rows@.len() - i,
    {
        if text_eq(&rows[i].task_id, task_id) && text_is(&rows[i].assessment, "needs_work") {
            assert(db@.task_assessments[i as int].task_id@ == task_id@);
            return true;
        }
        i = i + 1;
    }
    false
}

/// A random draw of tasks: `ids` is the order in which the tasks were
/// shuffled (every task id once, in random order); the result is the first
/// drawable tasks in that order, as many as `count` clamped to `[1, 20]`,
/// each with its detail.
pub fn get_random_tasks(
    db: &StudyDb,
    chapter_id: Option<String>,
    difficulty: Option<String>,
    count: i64,
    only_weak: bool,
    ids: &Vec<String>,
) -> (r: Vec<TaskDetail>)
    ensures
        ({
            let drawn = drawn_tasks(db@, ids@, chapter_id, difficulty, count, only_weak);
            &&& r@.len() == drawn.len()
            &&& forall|i: int| 0 <= i < drawn.len() ==> is_detail_of(db@, drawn[i], #[trigger] r@[i])
        }),
{
    let mut cands: Vec<Task> = Vec::new();
    let mut i: usize = 0;
    assert(ids@.take(0) =~= Seq::<String>::empty());
    while i < ids.len()
        invariant
            i <= ids@.len(),
            cands@ == drawable_in_order(db@, ids@.take(i as int), chapter_id, difficulty, only_weak),
        decreases ids@.len() - i,
    {
        assert(ids@.take(i + 1).drop_last() =~= ids@.take(i as int));
        match find_task_index(db, &ids[i]) {
            Some(k) => {
                let t = &db.tasks()[k];
                let mut keep = true;
                match &chapter_id {
                    Some(c) => {
                        keep = text_eq(&t.chapter_id, c);
                    },
                    None => {},
                }
                if keep {
                    match &difficulty {
                        Some(d) => {
                            keep = text_eq(&t.difficulty, d);
                        },
                        None => {},
                    }
                }
                if keep && only_weak {
                    keep = ever_needed_work_exec(db, &t.id);
                }
                assert(keep == is_drawable(db@, *t, chapter_id, difficulty, only_weak));
                if keep {
                    cands.push(t.clone());
                }
            },
            None => {},
        }
        i = i + 1;
    }
    assert(ids@.take(ids@.len() as int) =~= ids@);
    let n = clamp_exec(count, 1, MAX_DRAW);
    let take: usize = if (n as u64) < (cands.len() as u64) { n as usize } else { cands.len() };
    let out = details_of(db, &cands, 0, take);
    let ghost drawn = drawn_tasks(db@, ids@, chapter_id, difficulty, count, only_weak);
    assert forall|j: int| 0 <= j < drawn.len() implies is_detail_of(db@, drawn[j], #[trigger] out@[j]) by {
        assert(drawn[j] == cands@[0 + j]);
    }
    out
}

} // verus!
