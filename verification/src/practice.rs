use vstd::prelude::*;
use crate::errors::AppError;
use crate::models::{AnswerRecord, RequirementAssessment, TaskAssessment};
use crate::queries::{latest_answer, latest_answer_for};
use crate::store::{
    DbView, DbWrite, StudyDb, SCHEMA_VERSION, apply_write, apply_writes, foreign_key_error,
    foreign_key_message, full_error, full_message, has_room, is_status,
};
use crate::text::{text_eq, text_is};
use vstd::string::*;

verus! {

/// What an operation owes: the writes it makes, or the error code and
/// message with which it refuses.
pub type Expected = Result<Seq<DbWrite>, (Seq<char>, Seq<char>)>;

/// The storage layer's failure with the given message.
pub open spec fn db_failure(message: Seq<char>) -> Expected {
    Err(("DB_ERROR"@, message))
}

/// Whether an operation that returned `r`, taking the database from `old` to
/// `new`, did what `expected` says: on success it returned the writes and
/// applied them; on failure it returned that error and changed nothing.
pub open spec fn did(
    r: Result<Vec<DbWrite>, AppError>,
    old: DbView,
    new: DbView,
    expected: Expected,
) -> bool {
    match expected {
        Ok(ws) => r matches Ok(w) && w@ == ws && new == apply_writes(old, ws),
        Err((code, message)) => r matches Err(e) && e.code@ == code && e.message@ == message && new
            == old,
    }
}

/// What `save_answer` owes: nothing to write when the latest answer to the
/// task is the same text; otherwise one new answer, unless the task or the
/// chapter does not exist or the table is full.
pub open spec fn save_answer_expected(
    v: DbView,
    task_id: String,
    chapter_id: String,
    answer_text: String,
) -> Expected {
    let w = DbWrite::InsertAnswer(AnswerRecord { task_id, chapter_id, answer_text });
    if latest_answer(v, task_id@) matches Some(a) && a.answer_text@ == answer_text@ {
        Ok(Seq::empty())
    } else if !v.has_task(task_id@) || !v.has_chapter(chapter_id@) {
        db_failure(foreign_key_message())
    } else if !has_room(v, w) {
        db_failure(full_message())
    } else {
        Ok(seq![w])
    }
}

/// The message with which an unknown requirement status is refused.
pub open spec fn status_message(status: Seq<char>) -> Seq<char> {
    "status 必须为 mastered 或 needs_work，收到: "@ + status
}

/// The message with which an unknown task assessment is refused.
pub open spec fn assessment_message(assessment: Seq<char>) -> Seq<char> {
    "assessment 必须为 mastered 或 needs_work，收到: "@ + assessment
}

/// What `assess_requirement` owes: one new self-assessment of the
/// requirement, unless the status is neither "mastered" nor "needs_work",
/// the task does not exist, or the table is full.
pub open spec fn assess_requirement_expected(
    v: DbView,
    task_id: String,
    req_index: i64,
    status: String,
) -> Expected {
    let w = DbWrite::InsertRequirementAssessment(
        RequirementAssessment { task_id, req_index, status },
    );
    if !is_status(status@) {
        Err(("VALIDATION"@, status_message(status@)))
    } else if !v.has_task(task_id@) {
        db_failure(foreign_key_message())
    } else if !has_room(v, w) {
        db_failure(full_message())
    } else {
        Ok(seq![w])
    }
}

/// What `assess_task` owes: one new self-assessment of the task, unless the
/// assessment is neither "mastered" nor "needs_work", the task or the chapter
/// does not exist, or the table is full.
pub open spec fn assess_task_expected(
    v: DbView,
    task_id: String,
    chapter_id: String,
    assessment: String,
) -> Expected {
    let w = DbWrite::InsertTaskAssessment(TaskAssessment { task_id, chapter_id, assessment });
    if !is_status(assessment@) {
        Err(("VALIDATION"@, assessment_message(assessment@)))
    } else if !v.has_task(task_id@) || !v.has_chapter(chapter_id@) {
        db_failure(foreign_key_message())
    } else if !has_room(v, w) {
        db_failure(full_message())
    } else {
        Ok(seq![w])
    }
}

/// Saves an answer to a task, unless it is the same text as the latest
/// answer to that task.
pub fn save_answer(
    db: &mut StudyDb,
    task_id: String,
    chapter_id: String,
    answer_text: String,
) -> (r: Result<Vec<DbWrite>, AppError>)
    requires
        old(db)@.wf(),
    ensures
        final(db)@.wf(),
        did(r, old(db)@, final(db)@, save_answer_expected(old(db)@, task_id, chapter_id, answer_text)),
{
    let mut log: Vec<DbWrite> = Vec::new();
    match latest_answer_for(db, &task_id) {
        Some(latest) => {
            if text_eq(&latest, &answer_text) {
                assert(log@ =~= Seq::<DbWrite>::empty());
                return Ok(log);
            }
        },
        None => {},
    }
    if !db.has_task(&task_id) || !db.has_chapter(&chapter_id) {
        return Err(foreign_key_error());
    }
    let w = DbWrite::InsertAnswer(AnswerRecord { task_id, chapter_id, answer_text });
    if !db.room_for(&w) {
        return Err(full_error());
    }
    let ghost gw = w;
    db.record(w, &mut log);
    proof {
        crate::store::lemma_apply_single(old(db)@, gw);
        assert(log@ =~= seq![gw]);
    }
    Ok(log)
}

fn invalid_status_error(prefix: &str, value: &String) -> (e: AppError)
    ensures
        e.code@ == "VALIDATION"@,
        e.message@ == prefix@ + value@,
{
    let mut message = String::from_str(prefix);
    message.append(value.as_str());
    AppError::validation(message.as_str())
}

/// Records a self-assessment of one requirement of a task.
pub fn assess_requirement(
    db: &mut StudyDb,
    task_id: String,
    req_index: i64,
    status: String,
) -> (r: Result<Vec<DbWrite>, AppError>)
    requires
        old(db)@.wf(),
    ensures
        final(db)@.wf(),
        did(r, old(db)@, final(db)@, assess_requirement_expected(old(db)@, task_id, req_index, status)),
{
    if !text_is(&status, "mastered") && !text_is(&status, "needs_work") {
        return Err(invalid_status_error("status 必须为 mastered 或 needs_work，收到: ", &status));
    }
    if !db.has_task(&task_id) {
        return Err(foreign_key_error());
    }
    let w = DbWrite::InsertRequirementAssessment(RequirementAssessment { task_id, req_index, status });
    if !db.room_for(&w) {
        return Err(full_error());
    }
    let ghost gw = w;
    let mut log: Vec<DbWrite> = Vec::new();
    db.record(w, &mut log);
    proof {
        crate::store::lemma_apply_single(old(db)@, gw);
        assert(log@ =~= seq![gw]);
    }
    Ok(log)
}

/// Records a self-assessment of a whole task.
pub fn assess_task(
    db: &mut StudyDb,
    task_id: String,
    chapter_id: String,
    assessment: String,
) -> (r: Result<Vec<DbWrite>, AppError>)
    requires
        old(db)@.wf(),
    ensures
        final(db)@.wf(),
        did(r, old(db)@, final(db)@, assess_task_expected(old(db)@, task_id, chapter_id, assessment)),
{
    if !text_is(&assessment, "mastered") && !text_is(&assessment, "needs_work") {
        return Err(invalid_status_error("assessment 必须为 mastered 或 needs_work，收到: ", &assessment));
    }
    if !db.has_task(&task_id) || !db.has_chapter(&chapter_id) {
        return Err(foreign_key_error());
    }
    let w = DbWrite::InsertTaskAssessment(TaskAssessment { task_id, chapter_id, assessment });
    if !db.room_for(&w) {
        return Err(full_error());
    }
    let ghost gw = w;
    let mut log: Vec<DbWrite> = Vec::new();
    db.record(w, &mut log);
    proof {
        crate::store::lemma_apply_single(old(db)@, gw);
        assert(log@ =~= seq![gw]);
    }
    Ok(log)
}

/// Deletes every answer and every self-assessment; the question bank stays.
pub fn reset_progress(db: &mut StudyDb) -> (r: Vec<DbWrite>)
    requires
        old(db)@.wf(),
    ensures
        final(db)@.wf(),
        r@ == seq![DbWrite::ClearProgress],
        final(db)@ == apply_write(old(db)@, DbWrite::ClearProgress),
{
    let mut log: Vec<DbWrite> = Vec::new();
    db.record(DbWrite::ClearProgress, &mut log);
    assert(log@ =~= seq![DbWrite::ClearProgress]);
    log
}

/// The largest schema version recorded, or 0 when none is.
pub open spec fn current_version(versions: Seq<i64>) -> int
    decreases versions.len(),
{
    if versions.len() == 0 {
        0
    } else {
        let m = current_version(versions.drop_last());
        if versions.last() > m {
            versions.last() as int
        } else {
            m
        }
    }
}

/// What `run_migrations` owes: to record the current schema version when
/// the recorded one is older.
pub open spec fn run_migrations_expected(v: DbView) -> Expected {
    let w = DbWrite::InsertSchemaVersion(SCHEMA_VERSION);
    if current_version(v.schema_versions) >= SCHEMA_VERSION {
        Ok(Seq::empty())
    } else if !has_room(v, w) {
        db_failure(full_message())
    } else {
        Ok(seq![w])
    }
}

/// Brings the recorded schema version up to the current one.
pub fn run_migrations(db: &mut StudyDb) -> (r: Result<Vec<DbWrite>, AppError>)
    requires
        old(db)@.wf(),
    ensures
        final(db)@.wf(),
        did(r, old(db)@, final(db)@, run_migrations_expected(old(db)@)),
{
    let versions = db.schema_versions();
    let mut current: i64 = 0;
    let mut i: usize = 0;
    assert(versions@.take(0) =~= Seq::<i64>::empty());
    while i < versions.len()
        invariant
            versions@ == db@.schema_versions,
            i <= versions@.len(),
            current == current_version(versions@.take(i as int)),
        decreases versions@.len() - i,
    {
        assert(versions@.take(i + 1).drop_last() =~= versions@.take(i as int));
        if versions[i] > current {
            current = versions[i];
        }
        i = i + 1;
    }
    assert(versions@.take(versions@.len() as int) =~= versions@);
    let mut log: Vec<DbWrite> = Vec::new();
    if current >= SCHEMA_VERSION {
        assert(log@ =~= Seq::<DbWrite>::empty());
        return Ok(log);
    }
    let w = DbWrite::InsertSchemaVersion(SCHEMA_VERSION);
    if !db.room_for(&w) {
        return Err(full_error());
    }
    db.record(w, &mut log);
    proof {
        crate::store::lemma_apply_single(old(db)@, DbWrite::InsertSchemaVersion(SCHEMA_VERSION));
        assert(log@ =~= seq![DbWrite::InsertSchemaVersion(SCHEMA_VERSION)]);
    }
    Ok(log)
}

} // verus!
