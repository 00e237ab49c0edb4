use vstd::prelude::*;
use crate::errors::AppError;
use crate::models::{AnswerRecord, Chapter, CourseOutcome, KnowledgePoint, RequirementAssessment, Task, TaskAssessment, TaskKnowledgePoint, TaskRequirement, TaskSource};
use crate::text::{text_eq, text_is};

verus! {

/// The largest number of rows a table can hold (the largest row id).
pub const MAX_ROWS: u64 = 9223372036854775807u64;

/// The schema version that this library writes.
pub const SCHEMA_VERSION: i64 = 1i64;

/// Whether a text is one of the two self-assessment statuses.
pub open spec fn is_status(s: Seq<char>) -> bool {
    s == "mastered"@ || s == "needs_work"@
}

/// Whether a text is one of the three task difficulties.
pub open spec fn is_difficulty(s: Seq<char>) -> bool {
    s == "foundation"@ || s == "applied"@ || s == "advanced"@
}

/// Whether a text is one of the four exam types of a task source.
pub open spec fn is_exam_type(s: Seq<char>) -> bool {
    s == "final"@ || s == "postgraduate"@ || s == "obe"@ || s == "adapted"@
}

/// The content of every table of the study database.
pub struct DbView {
    pub course_outcomes: Seq<CourseOutcome>,
    pub chapters: Seq<Chapter>,
    pub knowledge_points: Seq<KnowledgePoint>,
    pub tasks: Seq<Task>,
    pub task_knowledge_points: Seq<TaskKnowledgePoint>,
    pub task_requirements: Seq<TaskRequirement>,
    pub task_sources: Seq<TaskSource>,
    pub answer_records: Seq<AnswerRecord>,
    pub requirement_assessments: Seq<RequirementAssessment>,
    pub task_assessments: Seq<TaskAssessment>,
    pub schema_versions: Seq<i64>,
    /// The largest requirement id ever handed out (0 when none was).
    pub last_requirement_id: i64,
    /// The largest source id ever handed out (0 when none was).
    pub last_source_id: i64,
}

impl DbView {
    /// What every state of the database satisfies: no table is over its row
    /// limit, every stored status is one of the two statuses, and every id
    /// is at most the last id handed out.
    pub open spec fn wf(self) -> bool {
        &&& self.course_outcomes.len() <= MAX_ROWS
        &&& self.chapters.len() <= MAX_ROWS
        &&& self.knowledge_points.len() <= MAX_ROWS
        &&& self.tasks.len() <= MAX_ROWS
        &&& self.task_knowledge_points.len() <= MAX_ROWS
        &&& self.task_requirements.len() <= MAX_ROWS
        &&& self.task_sources.len() <= MAX_ROWS
        &&& self.answer_records.len() <= MAX_ROWS
        &&& self.requirement_assessments.len() <= MAX_ROWS
        &&& self.task_assessments.len() <= MAX_ROWS
        &&& self.schema_versions.len() <= MAX_ROWS
        &&& forall|i: int|
            0 <= i < self.task_assessments.len() ==> is_status(
                #[trigger] self.task_assessments[i].assessment@,
            )
        &&& forall|i: int|
            0 <= i < self.requirement_assessments.len() ==> is_status(
                #[trigger] self.requirement_assessments[i].status@,
            )
        &&& 0 <= self.last_requirement_id
        &&& 0 <= self.last_source_id
        &&& forall|i: int|
            0 <= i < self.task_requirements.len() ==> #[trigger] self.task_requirements[i].id
                <= self.last_requirement_id
        &&& forall|i: int|
            0 <= i < self.task_sources.len() ==> #[trigger] self.task_sources[i].id
                <= self.last_source_id
    }

    /// Whether every key of the schema is held by at most one row: the ids
    /// of course outcomes, chapters, knowledge points, tasks, requirements
    /// and sources, each (task, requirement index) pair, each link between a
    /// task and a knowledge point, and each schema version. No requirement
    /// or source id is above the last one handed out.
    pub open spec fn keys_unique(self) -> bool {
        &&& forall|i: int, j: int|
            0 <= i < j < self.course_outcomes.len() ==> #[trigger] self.course_outcomes[i].id@
                != #[trigger] self.course_outcomes[j].id@
        &&& forall|i: int, j: int|
            0 <= i < j < self.chapters.len() ==> #[trigger] self.chapters[i].id@
                != #[trigger] self.chapters[j].id@
        &&& forall|i: int, j: int|
            0 <= i < j < self.knowledge_points.len() ==> #[trigger] self.knowledge_points[i].id@
                != #[trigger] self.knowledge_points[j].id@
        &&& forall|i: int, j: int|
            0 <= i < j < self.tasks.len() ==> #[trigger] self.tasks[i].id@ != #[trigger] self.tasks[j].id@
        &&& forall|i: int, j: int|
            0 <= i < j < self.task_knowledge_points.len() ==> !(#[trigger] self.task_knowledge_points[i].task_id@
                == #[trigger] self.task_knowledge_points[j].task_id@
                && self.task_knowledge_points[i].knowledge_point_id@
                == self.task_knowledge_points[j].knowledge_point_id@)
        &&& forall|i: int, j: int|
            0 <= i < j < self.task_requirements.len() ==> #[trigger] self.task_requirements[i].id
                != #[trigger] self.task_requirements[j].id && !(self.task_requirements[i].task_id@
                == self.task_requirements[j].task_id@ && self.task_requirements[i].req_index
                == self.task_requirements[j].req_index)
        &&& forall|i: int, j: int|
            0 <= i < j < self.task_sources.len() ==> #[trigger] self.task_sources[i].id
                != #[trigger] self.task_sources[j].id
        &&& forall|i: int, j: int|
            0 <= i < j < self.schema_versions.len() ==> #[trigger] self.schema_versions[i]
                != #[trigger] self.schema_versions[j]
        &&& forall|i: int|
            0 <= i < self.task_requirements.len() ==> #[trigger] self.task_requirements[i].id
                <= self.last_requirement_id
        &&& forall|i: int|
            0 <= i < self.task_sources.len() ==> #[trigger] self.task_sources[i].id
                <= self.last_source_id
    }

    pub open spec fn has_outcome(self, id: Seq<char>) -> bool {
        exists|i: int| 0 <= i < self.course_outcomes.len() && #[trigger] self.course_outcomes[i].id@ == id
    }

    pub open spec fn has_chapter(self, id: Seq<char>) -> bool {
        exists|i: int| 0 <= i < self.chapters.len() && #[trigger] self.chapters[i].id@ == id
    }

    pub open spec fn has_knowledge_point(self, id: Seq<char>) -> bool {
        exists|i: int|
            0 <= i < self.knowledge_points.len() && #[trigger] self.knowledge_points[i].id@ == id
    }

    pub open spec fn has_task(self, id: Seq<char>) -> bool {
        exists|i: int| 0 <= i < self.tasks.len() && #[trigger] self.tasks[i].id@ == id
    }

    pub open spec fn has_requirement(self, task_id: Seq<char>, req_index: i64) -> bool {
        exists|i: int|
            0 <= i < self.task_requirements.len() && #[trigger] self.task_requirements[i].task_id@
                == task_id && self.task_requirements[i].req_index == req_index
    }

    pub open spec fn has_link(self, task_id: Seq<char>, kp_id: Seq<char>) -> bool {
        exists|i: int|
            0 <= i < self.task_knowledge_points.len()
                && #[trigger] self.task_knowledge_points[i].task_id@ == task_id
                && self.task_knowledge_points[i].knowledge_point_id@ == kp_id
    }

    pub open spec fn has_version(self, version: i64) -> bool {
        exists|i: int| 0 <= i < self.schema_versions.len() && #[trigger] self.schema_versions[i] == version
    }
}

/// One change to the database, as the storage layer must replay it.
#[derive(Debug, PartialEq, Eq)]
pub enum DbWrite {
    InsertCourseOutcome(CourseOutcome),
    InsertChapter(Chapter),
    InsertKnowledgePoint(KnowledgePoint),
    InsertTask(Task),
    InsertRequirement(TaskRequirement),
    InsertTaskKnowledgePoint(TaskKnowledgePoint),
    InsertSource(TaskSource),
    InsertAnswer(AnswerRecord),
    InsertRequirementAssessment(RequirementAssessment),
    InsertTaskAssessment(TaskAssessment),
    InsertSchemaVersion(i64),
    /// Deletes every answer and every self-assessment.
    ClearProgress,
}

impl Clone for DbWrite {
    fn clone(&self) -> (r: Self)
        ensures
            r == *self,
    {
        match self {
            DbWrite::InsertCourseOutcome(x) => DbWrite::InsertCourseOutcome(x.clone()),
            DbWrite::InsertChapter(x) => DbWrite::InsertChapter(x.clone()),
            DbWrite::InsertKnowledgePoint(x) => DbWrite::InsertKnowledgePoint(x.clone()),
            DbWrite::InsertTask(x) => DbWrite::InsertTask(x.clone()),
            DbWrite::InsertRequirement(x) => DbWrite::InsertRequirement(x.clone()),
            DbWrite::InsertTaskKnowledgePoint(x) => DbWrite::InsertTaskKnowledgePoint(x.clone()),
            DbWrite::InsertSource(x) => DbWrite::InsertSource(x.clone()),
            DbWrite::InsertAnswer(x) => DbWrite::InsertAnswer(x.clone()),
            DbWrite::InsertRequirementAssessment(x) => DbWrite::InsertRequirementAssessment(
                x.clone(),
            ),
            DbWrite::InsertTaskAssessment(x) => DbWrite::InsertTaskAssessment(x.clone()),
            DbWrite::InsertSchemaVersion(v) => DbWrite::InsertSchemaVersion(*v),
            DbWrite::ClearProgress => DbWrite::ClearProgress,
        }
    }
}

/// The database after one write.
pub open spec fn apply_write(v: DbView, w: DbWrite) -> DbView {
    match w {
        DbWrite::InsertCourseOutcome(x) => DbView { course_outcomes: v.course_outcomes.push(x), ..v },
        DbWrite::InsertChapter(x) => DbView { chapters: v.chapters.push(x), ..v },
        DbWrite::InsertKnowledgePoint(x) => DbView {
            knowledge_points: v.knowledge_points.push(x),
            ..v
        },
        DbWrite::InsertTask(x) => DbView { tasks: v.tasks.push(x), ..v },
        DbWrite::InsertRequirement(x) => DbView {
            task_requirements: v.task_requirements.push(x),
            last_requirement_id: x.id,
            ..v
        },
        DbWrite::InsertTaskKnowledgePoint(x) => DbView {
            task_knowledge_points: v.task_knowledge_points.push(x),
            ..v
        },
        DbWrite::InsertSource(x) => DbView {
            task_sources: v.task_sources.push(x),
            last_source_id: x.id,
            ..v
        },
        DbWrite::InsertAnswer(x) => DbView { answer_records: v.answer_records.push(x), ..v },
        DbWrite::InsertRequirementAssessment(x) => DbView {
            requirement_assessments: v.requirement_assessments.push(x),
            ..v
        },
        DbWrite::InsertTaskAssessment(x) => DbView {
            task_assessments: v.task_assessments.push(x),
            ..v
        },
        DbWrite::InsertSchemaVersion(x) => DbView { schema_versions: v.schema_versions.push(x), ..v },
        DbWrite::ClearProgress => DbView {
            answer_records: Seq::empty(),
            requirement_assessments: Seq::empty(),
            task_assessments: Seq::empty(),
            ..v
        },
    }
}

/// The database after a sequence of writes, applied in order.
pub open spec fn apply_writes(v: DbView, ws: Seq<DbWrite>) -> DbView
    decreases ws.len(),
{
    if ws.len() == 0 {
        v
    } else {
        apply_write(apply_writes(v, ws.drop_last()), ws.last())
    }
}

/// Whether the table that `w` writes to has room for it, and, for a row with
/// an automatic id, whether one more id can be handed out.
pub open spec fn has_room(v: DbView, w: DbWrite) -> bool {
    match w {
        DbWrite::InsertCourseOutcome(_) => v.course_outcomes.len() < MAX_ROWS,
        DbWrite::InsertChapter(_) => v.chapters.len() < MAX_ROWS,
        DbWrite::InsertKnowledgePoint(_) => v.knowledge_points.len() < MAX_ROWS,
        DbWrite::InsertTask(_) => v.tasks.len() < MAX_ROWS,
        DbWrite::InsertRequirement(_) => v.task_requirements.len() < MAX_ROWS
            && v.last_requirement_id < i64::MAX,
        DbWrite::InsertTaskKnowledgePoint(_) => v.task_knowledge_points.len() < MAX_ROWS,
        DbWrite::InsertSource(_) => v.task_sources.len() < MAX_ROWS && v.last_source_id < i64::MAX,
        DbWrite::InsertAnswer(_) => v.answer_records.len() < MAX_ROWS,
        DbWrite::InsertRequirementAssessment(_) => v.requirement_assessments.len() < MAX_ROWS,
        DbWrite::InsertTaskAssessment(_) => v.task_assessments.len() < MAX_ROWS,
        DbWrite::InsertSchemaVersion(_) => v.schema_versions.len() < MAX_ROWS,
        DbWrite::ClearProgress => true,
    }
}

/// Whether a write keeps the database well formed: stored statuses are
/// valid, and a row with an automatic id gets the next id.
pub open spec fn write_fits(v: DbView, w: DbWrite) -> bool {
    match w {
        DbWrite::InsertRequirement(x) => x.id == v.last_requirement_id + 1,
        DbWrite::InsertSource(x) => x.id == v.last_source_id + 1,
        DbWrite::InsertRequirementAssessment(x) => is_status(x.status@),
        DbWrite::InsertTaskAssessment(x) => is_status(x.assessment@),
        _ => true,
    }
}

/// The message the storage layer reports for a missing referenced row.
pub open spec fn foreign_key_message() -> Seq<char> {
    "FOREIGN KEY constraint failed"@
}

/// The message the storage layer reports when a table is full.
pub open spec fn full_message() -> Seq<char> {
    "database or disk is full"@
}

pub fn foreign_key_error() -> (e: AppError)
    ensures
        e.code@ == "DB_ERROR"@,
        e.message@ == foreign_key_message(),
{
    AppError::db_error("FOREIGN KEY constraint failed")
}

pub fn full_error() -> (e: AppError)
    ensures
        e.code@ == "DB_ERROR"@,
        e.message@ == full_message(),
{
    AppError::db_error("database or disk is full")
}

/// The study database, held in memory: every table of the application.
pub struct StudyDb {
    course_outcomes: Vec<CourseOutcome>,
    chapters: Vec<Chapter>,
    knowledge_points: Vec<KnowledgePoint>,
    tasks: Vec<Task>,
    task_knowledge_points: Vec<TaskKnowledgePoint>,
    task_requirements: Vec<TaskRequirement>,
    task_sources: Vec<TaskSource>,
    answer_records: Vec<AnswerRecord>,
    requirement_assessments: Vec<RequirementAssessment>,
    task_assessments: Vec<TaskAssessment>,
    schema_versions: Vec<i64>,
    last_requirement_id: i64,
    last_source_id: i64,
}

impl View for StudyDb {
    type V = DbView;

    closed spec fn view(&self) -> DbView {
        DbView {
            course_outcomes: self.course_outcomes@,
            chapters: self.chapters@,
            knowledge_points: self.knowledge_points@,
            tasks: self.tasks@,
            task_knowledge_points: self.task_knowledge_points@,
            task_requirements: self.task_requirements@,
            task_sources: self.task_sources@,
            answer_records: self.answer_records@,
            requirement_assessments: self.requirement_assessments@,
            task_assessments: self.task_assessments@,
            schema_versions: self.schema_versions@,
            last_requirement_id: self.last_requirement_id,
            last_source_id: self.last_source_id,
        }
    }
}

/// The empty database.
pub open spec fn empty_view() -> DbView {
    DbView {
        course_outcomes: Seq::empty(),
        chapters: Seq::empty(),
        knowledge_points: Seq::empty(),
        tasks: Seq::empty(),
        task_knowledge_points: Seq::empty(),
        task_requirements: Seq::empty(),
        task_sources: Seq::empty(),
        answer_records: Seq::empty(),
        requirement_assessments: Seq::empty(),
        task_assessments: Seq::empty(),
        schema_versions: Seq::empty(),
        last_requirement_id: 0,
        last_source_id: 0,
    }
}

fn fits_rows(n: usize) -> (r: bool)
    ensures
        r == ((n as nat) <= MAX_ROWS),
{
    (n as u64) <= MAX_ROWS
}

fn has_room_rows(n: usize) -> (r: bool)
    ensures
        r == ((n as nat) < MAX_ROWS),
{
    (n as u64) < MAX_ROWS
}

fn all_statuses_valid_ta(rows: &Vec<TaskAssessment>) -> (r: bool)
    ensures
        r == (forall|i: int| 0 <= i < rows@.len() ==> is_status(#[trigger] rows@[i].assessment@)),
{
    let mut i: usize = 0;
    while i < rows.len()
        invariant
            i <= rows@.len(),
            forall|j: int| 0 <= j < i ==> is_status(#[trigger] rows@[j].assessment@),
        decreases rows@.len() - i,
    {
        let a = &rows[i].assessment;
        if !text_is(a, "mastered") && !text_is(a, "needs_work") {
            return false;
        }
        i = i + 1;
    }
    true
}

fn all_statuses_valid_ra(rows: &Vec<RequirementAssessment>) -> (r: bool)
    ensures
        r == (forall|i: int| 0 <= i < rows@.len() ==> is_status(#[trigger] rows@[i].status@)),
{
    let mut i: usize = 0;
    while i < rows.len()
        invariant
            i <= rows@.len(),
            forall|j: int| 0 <= j < i ==> is_status(#[trigger] rows@[j].status@),
        decreases rows@.len() - i,
    {
        let a = &rows[i].status;
        if !text_is(a, "mastered") && !text_is(a, "needs_work") {
            return false;
        }
        i = i + 1;
    }
    true
}

/// The largest requirement id, or 0 when there is none.
pub open spec fn max_requirement_id(rows: Seq<TaskRequirement>) -> i64
    decreases rows.len(),
{
    if rows.len() == 0 {
        0
    } else {
        let m = max_requirement_id(rows.drop_last());
        if rows.last().id > m {
            rows.last().id
        } else {
            m
        }
    }
}

/// The largest source id, or 0 when there is none.
pub open spec fn max_source_id(rows: Seq<TaskSource>) -> i64
    decreases rows.len(),
{
    if rows.len() == 0 {
        0
    } else {
        let m = max_source_id(rows.drop_last());
        if rows.last().id > m {
            rows.last().id
        } else {
            m
        }
    }
}

fn compute_max_requirement_id(rows: &Vec<TaskRequirement>) -> (r: i64)
    ensures
        r == max_requirement_id(rows@),
        0 <= r,
        forall|i: int| 0 <= i < rows@.len() ==> #[trigger] rows@[i].id <= r,
{
    let mut m: i64 = 0;
    let mut i: usize = 0;
    assert(rows@.take(0) =~= Seq::<TaskRequirement>::empty());
    while i < rows.len()
        invariant
            i <= rows@.len(),
            m == max_requirement_id(rows@.take(i as int)),
            0 <= m,
            forall|j: int| 0 <= j < i ==> #[trigger] rows@[j].id <= m,
        decreases rows@.len() - i,
    {
        assert(rows@.take(i + 1).drop_last() =~= rows@.take(i as int));
        if rows[i].id > m {
            m = rows[i].id;
        }
        i = i + 1;
    }
    assert(rows@.take(rows@.len() as int) =~= rows@);
    m
}

fn compute_max_source_id(rows: &Vec<TaskSource>) -> (r: i64)
    ensures
        r == max_source_id(rows@),
        0 <= r,
        forall|i: int| 0 <= i < rows@.len() ==> #[trigger] rows@[i].id <= r,
{
    let mut m: i64 = 0;
    let mut i: usize = 0;
    assert(rows@.take(0) =~= Seq::<TaskSource>::empty());
    while i < rows.len()
        invariant
            i <= rows@.len(),
            m == max_source_id(rows@.take(i as int)),
            0 <= m,
            forall|j: int| 0 <= j < i ==> #[trigger] rows@[j].id <= m,
        decreases rows@.len() - i,
    {
        assert(rows@.take(i + 1).drop_last() =~= rows@.take(i as int));
        if rows[i].id > m {
            m = rows[i].id;
        }
        i = i + 1;
    }
    assert(rows@.take(rows@.len() as int) =~= rows@);
    m
}

/// The database as the storage layer handed its tables over: rows in the
/// order of their ids.
pub open spec fn loaded_view(
    course_outcomes: Seq<CourseOutcome>,
    chapters: Seq<Chapter>,
    knowledge_points: Seq<KnowledgePoint>,
    tasks: Seq<Task>,
    task_knowledge_points: Seq<TaskKnowledgePoint>,
    task_requirements: Seq<TaskRequirement>,
    task_sources: Seq<TaskSource>,
    answer_records: Seq<AnswerRecord>,
    requirement_assessments: Seq<RequirementAssessment>,
    task_assessments: Seq<TaskAssessment>,
    schema_versions: Seq<i64>,
) -> DbView {
    DbView {
        course_outcomes,
        chapters,
        knowledge_points,
        tasks,
        task_knowledge_points,
        task_requirements,
        task_sources,
        answer_records,
        requirement_assessments,
        task_assessments,
        schema_versions,
        last_requirement_id: max_requirement_id(task_requirements),
        last_source_id: max_source_id(task_sources),
    }
}

impl StudyDb {
    /// An empty database.
    pub fn new() -> (db: StudyDb)
        ensures
            db@ == empty_view(),
            db@.wf(),
    {
        StudyDb {
            course_outcomes: Vec::new(),
            chapters: Vec::new(),
            knowledge_points: Vec::new(),
            tasks: Vec::new(),
            task_knowledge_points: Vec::new(),
            task_requirements: Vec::new(),
            task_sources: Vec::new(),
            answer_records: Vec::new(),
            requirement_assessments: Vec::new(),
            task_assessments: Vec::new(),
            schema_versions: Vec::new(),
            last_requirement_id: 0,
            last_source_id: 0,
        }
    }

    /// A database holding the given tables; `None` when they are not a state
    /// that the storage layer can hold (a stored status that is not one of
    /// the two statuses, or a table over its row limit).
    pub fn from_tables(
        course_outcomes: Vec<CourseOutcome>,
        chapters: Vec<Chapter>,
        knowledge_points: Vec<KnowledgePoint>,
        tasks: Vec<Task>,
        task_knowledge_points: Vec<TaskKnowledgePoint>,
        task_requirements: Vec<TaskRequirement>,
        task_sources: Vec<TaskSource>,
        answer_records: Vec<AnswerRecord>,
        requirement_assessments: Vec<RequirementAssessment>,
        task_assessments: Vec<TaskAssessment>,
        schema_versions: Vec<i64>,
    ) -> (r: Option<StudyDb>)
        ensures
            ({
                let v = loaded_view(
                    course_outcomes@,
                    chapters@,
                    knowledge_points@,
                    tasks@,
                    task_knowledge_points@,
                    task_requirements@,
                    task_sources@,
                    answer_records@,
                    requirement_assessments@,
                    task_assessments@,
                    schema_versions@,
                );
                &&& r is Some <==> v.wf()
                &&& r matches Some(db) ==> db@ == v
            }),
    {
        let ghost v = loaded_view(
            course_outcomes@,
            chapters@,
            knowledge_points@,
            tasks@,
            task_knowledge_points@,
            task_requirements@,
            task_sources@,
            answer_records@,
            requirement_assessments@,
            task_assessments@,
            schema_versions@,
        );
        let last_requirement_id = compute_max_requirement_id(&task_requirements);
        let last_source_id = compute_max_source_id(&task_sources);
        if !(fits_rows(course_outcomes.len()) && fits_rows(chapters.len()) && fits_rows(
            knowledge_points.len(),
        ) && fits_rows(tasks.len()) && fits_rows(task_knowledge_points.len()) && fits_rows(
            task_requirements.len(),
        ) && fits_rows(task_sources.len()) && fits_rows(answer_records.len()) && fits_rows(
            requirement_assessments.len(),
        ) && fits_rows(task_assessments.len()) && fits_rows(schema_versions.len())) {
            return None;
        }
        if !all_statuses_valid_ta(&task_assessments) || !all_statuses_valid_ra(
            &requirement_assessments,
        ) {
            return None;
        }
        let db = StudyDb {
            course_outcomes,
            chapters,
            knowledge_points,
            tasks,
            task_knowledge_points,
            task_requirements,
            task_sources,
            answer_records,
            requirement_assessments,
            task_assessments,
            schema_versions,
            last_requirement_id,
            last_source_id,
        };
        assert(db@ == v);
        Some(db)
    }

    pub fn course_outcomes(&self) -> (r: &Vec<CourseOutcome>)
        ensures
            r@ == self@.course_outcomes,
    {
        &self.course_outcomes
    }

    pub fn chapters(&self) -> (r: &Vec<Chapter>)
        ensures
            r@ == self@.chapters,
    {
        &self.chapters
    }

    pub fn knowledge_points(&self) -> (r: &Vec<KnowledgePoint>)
        ensures
            r@ == self@.knowledge_points,
    {
        &self.knowledge_points
    }

    pub fn tasks(&self) -> (r: &Vec<Task>)
        ensures
            r@ == self@.tasks,
    {
        &self.tasks
    }

    pub fn task_knowledge_points(&self) -> (r: &Vec<TaskKnowledgePoint>)
        ensures
            r@ == self@.task_knowledge_points,
    {
        &self.task_knowledge_points
    }

    pub fn task_requirements(&self) -> (r: &Vec<TaskRequirement>)
        ensures
            r@ == self@.task_requirements,
    {
        &self.task_requirements
    }

    pub fn task_sources(&self) -> (r: &Vec<TaskSource>)
        ensures
            r@ == self@.task_sources,
    {
        &self.task_sources
    }

    pub fn answer_records(&self) -> (r: &Vec<AnswerRecord>)
        ensures
            r@ == self@.answer_records,
    {
        &self.answer_records
    }

    pub fn requirement_assessments(&self) -> (r: &Vec<RequirementAssessment>)
        ensures
            r@ == self@.requirement_assessments,
    {
        &self.requirement_assessments
    }

    pub fn task_assessments(&self) -> (r: &Vec<TaskAssessment>)
        ensures
            r@ == self@.task_assessments,
    {
        &self.task_assessments
    }

    pub fn schema_versions(&self) -> (r: &Vec<i64>)
        ensures
            r@ == self@.schema_versions,
    {
        &self.schema_versions
    }

    pub fn last_requirement_id(&self) -> (r: i64)
        ensures
            r == self@.last_requirement_id,
    {
        self.last_requirement_id
    }

    pub fn last_source_id(&self) -> (r: i64)
        ensures
            r == self@.last_source_id,
    {
        self.last_source_id
    }

    /// Whether the table that `w` writes to has room for it.
    pub fn room_for(&self, w: &DbWrite) -> (r: bool)
        ensures
            r == has_room(self@, *w),
    {
        match w {
            DbWrite::InsertCourseOutcome(_) => has_room_rows(self.course_outcomes.len()),
            DbWrite::InsertChapter(_) => has_room_rows(self.chapters.len()),
            DbWrite::InsertKnowledgePoint(_) => has_room_rows(self.knowledge_points.len()),
            DbWrite::InsertTask(_) => has_room_rows(self.tasks.len()),
            DbWrite::InsertRequirement(_) => has_room_rows(self.task_requirements.len())
                && self.last_requirement_id < i64::MAX,
            DbWrite::InsertTaskKnowledgePoint(_) => has_room_rows(self.task_knowledge_points.len()),
            DbWrite::InsertSource(_) => has_room_rows(self.task_sources.len())
                && self.last_source_id < i64::MAX,
            DbWrite::InsertAnswer(_) => has_room_rows(self.answer_records.len()),
            DbWrite::InsertRequirementAssessment(_) => has_room_rows(
                self.requirement_assessments.len(),
            ),
            DbWrite::InsertTaskAssessment(_) => has_room_rows(self.task_assessments.len()),
            DbWrite::InsertSchemaVersion(_) => has_room_rows(self.schema_versions.len()),
            DbWrite::ClearProgress => true,
        }
    }

    /// Applies one write and records it in `log`.
    pub fn record(&mut self, w: DbWrite, log: &mut Vec<DbWrite>)
        requires
            old(self)@.wf(),
            has_room(old(self)@, w),
            write_fits(old(self)@, w),
        ensures
            final(self)@ == apply_write(old(self)@, w),
            final(self)@.wf(),
            final(log)@ == old(log)@.push(w),
    {
        let copy = w.clone();
        match w {
            DbWrite::InsertCourseOutcome(x) => self.course_outcomes.push(x),
            DbWrite::InsertChapter(x) => self.chapters.push(x),
            DbWrite::InsertKnowledgePoint(x) => self.knowledge_points.push(x),
            DbWrite::InsertTask(x) => self.tasks.push(x),
            DbWrite::InsertRequirement(x) => {
                self.last_requirement_id = x.id;
                self.task_requirements.push(x);
            },
            DbWrite::InsertTaskKnowledgePoint(x) => self.task_knowledge_points.push(x),
            DbWrite::InsertSource(x) => {
                self.last_source_id = x.id;
                self.task_sources.push(x);
            },
            DbWrite::InsertAnswer(x) => self.answer_records.push(x),
            DbWrite::InsertRequirementAssessment(x) => self.requirement_assessments.push(x),
            DbWrite::InsertTaskAssessment(x) => self.task_assessments.push(x),
            DbWrite::InsertSchemaVersion(x) => self.schema_versions.push(x),
            DbWrite::ClearProgress => {
                self.answer_records.clear();
                self.requirement_assessments.clear();
                self.task_assessments.clear();
            },
        }
        log.push(copy);
        assert(self@ =~= apply_write(old(self)@, w));
    }

    pub fn has_outcome(&self, id: &String) -> (r: bool)
        ensures
            r == self@.has_outcome(id@),
    {
        let mut i: usize = 0;
        while i < self.course_outcomes.len()
            invariant
                i <= self.course_outcomes@.len(),
                forall|j: int| 0 <= j < i ==> #[trigger] self.course_outcomes@[j].id@ != id@,
            decreases self.course_outcomes@.len() - i,
        {
            if text_eq(&self.course_outcomes[i].id, id) {
                assert(self@.course_outcomes[i as int].id@ == id@);
                return true;
            }
            i = i + 1;
        }
        false
    }

    pub fn has_chapter(&self, id: &String) -> (r: bool)
        ensures
            r == self@.has_chapter(id@),
    {
        let mut i: usize = 0;
        while i < self.chapters.len()
            invariant
                i <= self.chapters@.len(),
                forall|j: int| 0 <= j < i ==> #[trigger] self.chapters@[j].id@ != id@,
            decreases self.chapters@.len() - i,
        {
            if text_eq(&self.chapters[i].id, id) {
                assert(self@.chapters[i as int].id@ == id@);
                return true;
            }
            i = i + 1;
        }
        false
    }

    pub fn has_knowledge_point(&self, id: &String) -> (r: bool)
        ensures
            r == self@.has_knowledge_point(id@),
    {
        let mut i: usize = 0;
        while i < self.knowledge_points.len()
            invariant
                i <= self.knowledge_points@.len(),
                forall|j: int| 0 <= j < i ==> #[trigger] self.knowledge_points@[j].id@ != id@,
            decreases self.knowledge_points@.len() - i,
        {
            if text_eq(&self.knowledge_points[i].id, id) {
                assert(self@.knowledge_points[i as int].id@ == id@);
                return true;
            }
            i = i + 1;
        }
        false
    }

    pub fn has_task(&self, id: &String) -> (r: bool)
        ensures
            r == self@.has_task(id@),
    {
        let mut i: usize = 0;
        while i < self.tasks.len()
            invariant
                i <= self.tasks@.len(),
                forall|j: int| 0 <= j < i ==> #[trigger] self.tasks@[j].id@ != id@,
            decreases self.tasks@.len() - i,
        {
            if text_eq(&self.tasks[i].id, id) {
                assert(self@.tasks[i as int].id@ == id@);
                return true;
            }
            i = i + 1;
        }
        false
    }

    pub fn has_requirement(&self, task_id: &String, req_index: i64) -> (r: bool)
        ensures
            r == self@.has_requirement(task_id@, req_index),
    {
        let mut i: usize = 0;
        while i < self.task_requirements.len()
            invariant
                i <= self.task_requirements@.len(),
                forall|j: int|
                    0 <= j < i ==> !(#[trigger] self.task_requirements@[j].task_id@ == task_id@
                        && self.task_requirements@[j].req_index == req_index),
            decreases self.task_requirements@.len() - i,
        {
            if text_eq(&self.task_requirements[i].task_id, task_id)
                && self.task_requirements[i].req_index == req_index {
                assert(self@.task_requirements[i as int].task_id@ == task_id@);
                return true;
            }
            i = i + 1;
        }
        false
    }

    pub fn has_link(&self, task_id: &String, kp_id: &String) -> (r: bool)
        ensures
            r == self@.has_link(task_id@, kp_id@),
    {
        let mut i: usize = 0;
        while i < self.task_knowledge_points.len()
            invariant
                i <= self.task_knowledge_points@.len(),
                forall|j: int|
                    0 <= j < i ==> !(#[trigger] self.task_knowledge_points@[j].task_id@ == task_id@
                        && self.task_knowledge_points@[j].knowledge_point_id@ == kp_id@),
            decreases self.task_knowledge_points@.len() - i,
        {
            if text_eq(&self.task_knowledge_points[i].task_id, task_id) && text_eq(
                &self.task_knowledge_points[i].knowledge_point_id,
                kp_id,
            ) {
                assert(self@.task_knowledge_points[i as int].task_id@ == task_id@);
                return true;
            }
            i = i + 1;
        }
        false
    }

    pub fn has_version(&self, version: i64) -> (r: bool)
        ensures
            r == self@.has_version(version),
    {
        let mut i: usize = 0;
        while i < self.schema_versions.len()
            invariant
                i <= self.schema_versions@.len(),
                forall|j: int| 0 <= j < i ==> #[trigger] self.schema_versions@[j] != version,
            decreases self.schema_versions@.len() - i,
        {
            if self.schema_versions[i] == version {
                assert(self@.schema_versions[i as int] == version);
                return true;
            }
            i = i + 1;
        }
        false
    }
}


/// Whether a write only adds a row.
pub open spec fn is_insert(w: DbWrite) -> bool {
    !(w is ClearProgress)
}

/// Whether every write of a sequence only adds a row.
pub open spec fn inserts_only(ws: Seq<DbWrite>) -> bool {
    forall|i: int| 0 <= i < ws.len() ==> is_insert(#[trigger] ws[i])
}

/// Whether `s` starts with `p`.
pub open spec fn starts_with<T>(s: Seq<T>, p: Seq<T>) -> bool {
    p.len() <= s.len() && s.subrange(0, p.len() as int) == p
}

/// Whether every table of `new` starts with the rows of the same table of `old`.
pub open spec fn extends(new: DbView, old: DbView) -> bool {
    &&& starts_with(new.course_outcomes, old.course_outcomes)
    &&& starts_with(new.chapters, old.chapters)
    &&& starts_with(new.knowledge_points, old.knowledge_points)
    &&& starts_with(new.tasks, old.tasks)
    &&& starts_with(new.task_knowledge_points, old.task_knowledge_points)
    &&& starts_with(new.task_requirements, old.task_requirements)
    &&& starts_with(new.task_sources, old.task_sources)
    &&& starts_with(new.answer_records, old.answer_records)
    &&& starts_with(new.requirement_assessments, old.requirement_assessments)
    &&& starts_with(new.task_assessments, old.task_assessments)
    &&& starts_with(new.schema_versions, old.schema_versions)
}

proof fn lemma_starts_with_push<T>(s: Seq<T>, p: Seq<T>, x: T)
    requires
        starts_with(s, p),
    ensures
        starts_with(s.push(x), p),
{
    assert(s.push(x).subrange(0, p.len() as int) =~= s.subrange(0, p.len() as int));
}

proof fn lemma_starts_with_refl<T>(s: Seq<T>)
    ensures
        starts_with(s, s),
{
    assert(s.subrange(0, s.len() as int) =~= s);
}

/// Applying writes that only add rows extends every table.
pub proof fn lemma_inserts_extend(base: DbView, ws: Seq<DbWrite>)
    requires
        inserts_only(ws),
    ensures
        extends(apply_writes(base, ws), base),
    decreases ws.len(),
{
    if ws.len() == 0 {
        lemma_starts_with_refl(base.course_outcomes);
        lemma_starts_with_refl(base.chapters);
        lemma_starts_with_refl(base.knowledge_points);
        lemma_starts_with_refl(base.tasks);
        lemma_starts_with_refl(base.task_knowledge_points);
        lemma_starts_with_refl(base.task_requirements);
        lemma_starts_with_refl(base.task_sources);
        lemma_starts_with_refl(base.answer_records);
        lemma_starts_with_refl(base.requirement_assessments);
        lemma_starts_with_refl(base.task_assessments);
        lemma_starts_with_refl(base.schema_versions);
    } else {
        let prev = ws.drop_last();
        assert(inserts_only(prev)) by {
            assert forall|i: int| 0 <= i < prev.len() implies is_insert(#[trigger] prev[i]) by {
                assert(prev[i] == ws[i]);
            }
        }
        lemma_inserts_extend(base, prev);
        let v = apply_writes(base, prev);
        let w = ws.last();
        assert(is_insert(ws[ws.len() - 1]));
        match w {
            DbWrite::InsertCourseOutcome(x) => lemma_starts_with_push(v.course_outcomes, base.course_outcomes, x),
            DbWrite::InsertChapter(x) => lemma_starts_with_push(v.chapters, base.chapters, x),
            DbWrite::InsertKnowledgePoint(x) => lemma_starts_with_push(v.knowledge_points, base.knowledge_points, x),
            DbWrite::InsertTask(x) => lemma_starts_with_push(v.tasks, base.tasks, x),
            DbWrite::InsertRequirement(x) => lemma_starts_with_push(v.task_requirements, base.task_requirements, x),
            DbWrite::InsertTaskKnowledgePoint(x) => lemma_starts_with_push(v.task_knowledge_points, base.task_knowledge_points, x),
            DbWrite::InsertSource(x) => lemma_starts_with_push(v.task_sources, base.task_sources, x),
            DbWrite::InsertAnswer(x) => lemma_starts_with_push(v.answer_records, base.answer_records, x),
            DbWrite::InsertRequirementAssessment(x) => lemma_starts_with_push(v.requirement_assessments, base.requirement_assessments, x),
            DbWrite::InsertTaskAssessment(x) => lemma_starts_with_push(v.task_assessments, base.task_assessments, x),
            DbWrite::InsertSchemaVersion(x) => lemma_starts_with_push(v.schema_versions, base.schema_versions, x),
            DbWrite::ClearProgress => {},
        }
    }
}

/// Applying one more write after a sequence of writes.
pub proof fn lemma_apply_writes_push(base: DbView, ws: Seq<DbWrite>, w: DbWrite)
    ensures
        apply_writes(base, ws.push(w)) == apply_write(apply_writes(base, ws), w),
{
    assert(ws.push(w).drop_last() =~= ws);
}

/// The sizes of every table and the last ids handed out, taken so that a
/// failed batch of inserts can be undone.
pub(crate) struct Snapshot {
    course_outcomes: usize,
    chapters: usize,
    knowledge_points: usize,
    tasks: usize,
    task_knowledge_points: usize,
    task_requirements: usize,
    task_sources: usize,
    answer_records: usize,
    requirement_assessments: usize,
    task_assessments: usize,
    schema_versions: usize,
    last_requirement_id: i64,
    last_source_id: i64,
}

impl Snapshot {
    pub(crate) closed spec fn of(self, v: DbView) -> bool {
        &&& self.course_outcomes == v.course_outcomes.len()
        &&& self.chapters == v.chapters.len()
        &&& self.knowledge_points == v.knowledge_points.len()
        &&& self.tasks == v.tasks.len()
        &&& self.task_knowledge_points == v.task_knowledge_points.len()
        &&& self.task_requirements == v.task_requirements.len()
        &&& self.task_sources == v.task_sources.len()
        &&& self.answer_records == v.answer_records.len()
        &&& self.requirement_assessments == v.requirement_assessments.len()
        &&& self.task_assessments == v.task_assessments.len()
        &&& self.schema_versions == v.schema_versions.len()
        &&& self.last_requirement_id == v.last_requirement_id
        &&& self.last_source_id == v.last_source_id
    }
}

impl StudyDb {
    /// The sizes of the tables, to undo a batch of inserts with.
    pub(crate) fn snapshot(&self) -> (s: Snapshot)
        ensures
            s.of(self@),
    {
        Snapshot {
            course_outcomes: self.course_outcomes.len(),
            chapters: self.chapters.len(),
            knowledge_points: self.knowledge_points.len(),
            tasks: self.tasks.len(),
            task_knowledge_points: self.task_knowledge_points.len(),
            task_requirements: self.task_requirements.len(),
            task_sources: self.task_sources.len(),
            answer_records: self.answer_records.len(),
            requirement_assessments: self.requirement_assessments.len(),
            task_assessments: self.task_assessments.len(),
            schema_versions: self.schema_versions.len(),
            last_requirement_id: self.last_requirement_id,
            last_source_id: self.last_source_id,
        }
    }

    /// Undoes every insert made since the snapshot of `base` was taken.
    pub(crate) fn roll_back(&mut self, s: &Snapshot, Ghost(base): Ghost<DbView>)
        requires
            s.of(base),
            extends(old(self)@, base),
        ensures
            final(self)@ == base,
    {
        self.course_outcomes.truncate(s.course_outcomes);
        self.chapters.truncate(s.chapters);
        self.knowledge_points.truncate(s.knowledge_points);
        self.tasks.truncate(s.tasks);
        self.task_knowledge_points.truncate(s.task_knowledge_points);
        self.task_requirements.truncate(s.task_requirements);
        self.task_sources.truncate(s.task_sources);
        self.answer_records.truncate(s.answer_records);
        self.requirement_assessments.truncate(s.requirement_assessments);
        self.task_assessments.truncate(s.task_assessments);
        self.schema_versions.truncate(s.schema_versions);
        self.last_requirement_id = s.last_requirement_id;
        self.last_source_id = s.last_source_id;
        assert(self@ =~= base);
    }
}


/// Applying a single write.
pub proof fn lemma_apply_single(v: DbView, w: DbWrite)
    ensures
        apply_writes(v, seq![w]) == apply_write(v, w),
{
    let e = seq![w].drop_last();
    assert(e =~= Seq::<DbWrite>::empty());
    assert(apply_writes(v, e) == v);
    assert(seq![w].last() == w);
}

/// Applying no write.
pub proof fn lemma_apply_none(v: DbView)
    ensures
        apply_writes(v, Seq::<DbWrite>::empty()) == v,
{
}

} // verus!
