use vstd::prelude::*;
use crate::errors::AppError;
use crate::models::{
    Chapter, CourseOutcome, ImportResult, KnowledgePoint, SeedChapter, SeedCourseOutcome,
    SeedData, SeedKnowledgePoint, SeedTask, SeedTaskSource, Task, TaskKnowledgePoint,
    TaskRequirement, TaskSource,
};
use crate::practice::{Expected, did, run_migrations, run_migrations_expected};
use crate::store::{
    DbView, DbWrite, StudyDb, SCHEMA_VERSION, apply_write, apply_writes, foreign_key_error,
    foreign_key_message, full_error, full_message, has_room, inserts_only, is_difficulty,
    is_exam_type, is_insert, lemma_apply_writes_push, lemma_inserts_extend,
};
use crate::text::{clone_opt_text, text_is};

verus! {

/// The state of a batch of inserts: the database so far, the writes made so
/// far, and how many tasks were imported and skipped.
pub struct ImportAcc {
    pub view: DbView,
    pub writes: Seq<DbWrite>,
    pub imported: int,
    pub skipped: int,
}

/// What one insert statement does: the row it adds, nothing (the row is
/// ignored), or the message of the error it fails with.
pub type StmtResult = Result<Option<DbWrite>, Seq<char>>;

/// A batch after one more statement.
pub open spec fn step(acc: ImportAcc, r: StmtResult) -> Result<ImportAcc, Seq<char>> {
    match r {
        Err(m) => Err(m),
        Ok(None) => Ok(acc),
        Ok(Some(w)) => Ok(
            ImportAcc { view: apply_write(acc.view, w), writes: acc.writes.push(w), ..acc },
        ),
    }
}

/// A batch after steps `f(_, 0)`, ..., `f(_, n - 1)`, stopping at the first error.
pub open spec fn run_steps(
    acc: ImportAcc,
    n: int,
    f: spec_fn(ImportAcc, int) -> Result<ImportAcc, Seq<char>>,
) -> Result<ImportAcc, Seq<char>>
    decreases n,
{
    if n <= 0 {
        Ok(acc)
    } else {
        match run_steps(acc, n - 1, f) {
            Err(m) => Err(m),
            Ok(a) => f(a, n - 1),
        }
    }
}

proof fn lemma_run_steps_err(
    acc: ImportAcc,
    k: int,
    n: int,
    f: spec_fn(ImportAcc, int) -> Result<ImportAcc, Seq<char>>,
    m: Seq<char>,
)
    requires
        0 <= k <= n,
        run_steps(acc, k, f) == Err::<ImportAcc, Seq<char>>(m),
    ensures
        run_steps(acc, n, f) == Err::<ImportAcc, Seq<char>>(m),
    decreases n - k,
{
    if k < n {
        lemma_run_steps_err(acc, k + 1, n, f, m);
    }
}

/// The message with which a source of an unknown exam type is refused.
pub open spec fn exam_type_message() -> Seq<char> {
    "CHECK constraint failed: exam_type IN ('final','postgraduate','obe','adapted')"@
}

/// The message with which a second record of a schema version is refused.
pub open spec fn version_message() -> Seq<char> {
    "UNIQUE constraint failed: schema_version.version"@
}

/// `INSERT OR IGNORE` of a course outcome.
pub open spec fn outcome_stmt(v: DbView, co: SeedCourseOutcome) -> StmtResult {
    let w = DbWrite::InsertCourseOutcome(
        CourseOutcome {
            id: co.id,
            code: co.code,
            description: co.description,
            order_index: co.orderIndex,
        },
    );
    if v.has_outcome(co.id@) {
        Ok(None)
    } else if !has_room(v, w) {
        Err(full_message())
    } else {
        Ok(Some(w))
    }
}

/// `INSERT OR IGNORE` of a chapter.
pub open spec fn chapter_stmt(v: DbView, ch: SeedChapter) -> StmtResult {
    let w = DbWrite::InsertChapter(
        Chapter {
            id: ch.id,
            title: ch.title,
            description: ch.description,
            order_index: ch.orderIndex,
            course_outcome_id: ch.courseOutcomeId,
        },
    );
    if v.has_chapter(ch.id@) {
        Ok(None)
    } else if !v.has_outcome(ch.courseOutcomeId@) {
        Err(foreign_key_message())
    } else if !has_room(v, w) {
        Err(full_message())
    } else {
        Ok(Some(w))
    }
}

/// `INSERT OR IGNORE` of a knowledge point.
pub open spec fn knowledge_point_stmt(v: DbView, kp: SeedKnowledgePoint) -> StmtResult {
    let w = DbWrite::InsertKnowledgePoint(
        KnowledgePoint {
            id: kp.id,
            chapter_id: kp.chapterId,
            name: kp.name,
            order_index: kp.orderIndex,
        },
    );
    if v.has_knowledge_point(kp.id@) {
        Ok(None)
    } else if !v.has_chapter(kp.chapterId@) {
        Err(foreign_key_message())
    } else if !has_room(v, w) {
        Err(full_message())
    } else {
        Ok(Some(w))
    }
}

/// The task row of a seed task.
pub open spec fn task_row(t: SeedTask) -> Task {
    Task {
        id: t.id,
        chapter_id: t.chapterId,
        course_outcome_id: t.courseOutcomeId,
        difficulty: t.difficulty,
        scenario: t.scenario,
        reference: t.reference,
        source: None,
    }
}

/// `INSERT OR IGNORE` of a task: a task of an unknown difficulty, or with an
/// id that is taken, is ignored.
pub open spec fn task_stmt(v: DbView, t: SeedTask) -> StmtResult {
    let w = DbWrite::InsertTask(task_row(t));
    if !is_difficulty(t.difficulty@) {
        Ok(None)
    } else if v.has_task(t.id@) {
        Ok(None)
    } else if !v.has_chapter(t.chapterId@) || !v.has_outcome(t.courseOutcomeId@) {
        Err(foreign_key_message())
    } else if !has_room(v, w) {
        Err(full_message())
    } else {
        Ok(Some(w))
    }
}

/// `INSERT OR IGNORE` of a requirement, which gets the next requirement id.
pub open spec fn requirement_stmt(v: DbView, task_id: String, req_index: i64, content: String) -> StmtResult {
    let w = DbWrite::InsertRequirement(
        TaskRequirement { id: (v.last_requirement_id + 1) as i64, task_id, req_index, content },
    );
    if v.has_requirement(task_id@, req_index) {
        Ok(None)
    } else if !v.has_task(task_id@) {
        Err(foreign_key_message())
    } else if !has_room(v, w) {
        Err(full_message())
    } else {
        Ok(Some(w))
    }
}

/// `INSERT OR IGNORE` of a link between a task and a knowledge point.
pub open spec fn link_stmt(v: DbView, task_id: String, kp_id: String) -> StmtResult {
    let w = DbWrite::InsertTaskKnowledgePoint(
        TaskKnowledgePoint { task_id, knowledge_point_id: kp_id },
    );
    if v.has_link(task_id@, kp_id@) {
        Ok(None)
    } else if !v.has_task(task_id@) || !v.has_knowledge_point(kp_id@) {
        Err(foreign_key_message())
    } else if !has_room(v, w) {
        Err(full_message())
    } else {
        Ok(Some(w))
    }
}

/// `INSERT` of a task source, which gets the next source id.
pub open spec fn source_stmt(v: DbView, task_id: String, s: SeedTaskSource) -> StmtResult {
    let w = DbWrite::InsertSource(
        TaskSource {
            id: (v.last_source_id + 1) as i64,
            task_id,
            university: s.university,
            year: s.year,
            exam_type: s.examType,
            original_text: s.originalText,
            note: s.note,
        },
    );
    if !is_exam_type(s.examType@) {
        Err(exam_type_message())
    } else if !v.has_task(task_id@) {
        Err(foreign_key_message())
    } else if !has_room(v, w) {
        Err(full_message())
    } else {
        Ok(Some(w))
    }
}

/// `INSERT` of the current schema version.
pub open spec fn version_stmt(v: DbView) -> StmtResult {
    let w = DbWrite::InsertSchemaVersion(SCHEMA_VERSION);
    if v.has_version(SCHEMA_VERSION) {
        Err(version_message())
    } else if !has_room(v, w) {
        Err(full_message())
    } else {
        Ok(Some(w))
    }
}

pub open spec fn requirement_steps(t: SeedTask) -> spec_fn(ImportAcc, int) -> Result<ImportAcc, Seq<char>> {
    |a: ImportAcc, i: int| step(a, requirement_stmt(a.view, t.id, i as i64, t.requirements@[i]))
}

pub open spec fn link_steps(t: SeedTask) -> spec_fn(ImportAcc, int) -> Result<ImportAcc, Seq<char>> {
    |a: ImportAcc, i: int| step(a, link_stmt(a.view, t.id, t.knowledgePointIds@[i]))
}

pub open spec fn source_steps(t: SeedTask) -> spec_fn(ImportAcc, int) -> Result<ImportAcc, Seq<char>> {
    |a: ImportAcc, i: int| step(a, source_stmt(a.view, t.id, t.sources@[i]))
}

/// The inserts for one seed task: the task, then its requirements (indexed
/// from 0), its knowledge point links and its sources.
pub open spec fn task_body(acc: ImportAcc, t: SeedTask) -> Result<ImportAcc, Seq<char>> {
    match step(acc, task_stmt(acc.view, t)) {
        Err(m) => Err(m),
        Ok(a1) => match run_steps(a1, t.requirements@.len() as int, requirement_steps(t)) {
            Err(m) => Err(m),
            Ok(a2) => match run_steps(a2, t.knowledgePointIds@.len() as int, link_steps(t)) {
                Err(m) => Err(m),
                Ok(a3) => run_steps(a3, t.sources@.len() as int, source_steps(t)),
            },
        },
    }
}

/// Whether every requirement index of a seed task fits in an `i64`.
pub open spec fn seed_task_fits(t: SeedTask) -> bool {
    t.requirements@.len() <= i64::MAX
}

/// Whether every count and index of a seed fits in an `i64`.
pub open spec fn seed_fits(s: SeedData) -> bool {
    &&& s.tasks@.len() <= i64::MAX
    &&& forall|i: int| 0 <= i < s.tasks@.len() ==> seed_task_fits(#[trigger] s.tasks@[i])
}

/// The start of a batch on database `v`.
pub open spec fn start(v: DbView) -> ImportAcc {
    ImportAcc { view: v, writes: Seq::empty(), imported: 0, skipped: 0 }
}

/// Whether the exec state tracks the batch state `acc`.
pub open spec fn tracks(acc: ImportAcc, v: DbView, log: Seq<DbWrite>, imported: int, skipped: int) -> bool {
    acc == ImportAcc { view: v, writes: log, imported, skipped }
}

/// What every step of a batch keeps: the database is the base with the
/// batch's writes applied, and they only add rows.
pub open spec fn in_batch(base: DbView, v: DbView, log: Seq<DbWrite>) -> bool {
    &&& v.wf()
    &&& v == apply_writes(base, log)
    &&& inserts_only(log)
}

/// Result of an exec statement, as `step` describes it.
pub open spec fn stmt_done(
    r: Result<(), AppError>,
    expected: StmtResult,
    old_v: DbView,
    new_v: DbView,
    old_log: Seq<DbWrite>,
    new_log: Seq<DbWrite>,
) -> bool {
    match expected {
        Err(m) => r matches Err(e) && e.code@ == "DB_ERROR"@ && e.message@ == m,
        Ok(None) => r is Ok && new_v == old_v && new_log == old_log,
        Ok(Some(w)) => r is Ok && new_v == apply_write(old_v, w) && new_log == old_log.push(w),
    }
}

fn commit(db: &mut StudyDb, w: DbWrite, log: &mut Vec<DbWrite>, Ghost(base): Ghost<DbView>)
    requires
        in_batch(base, old(db)@, old(log)@),
        has_room(old(db)@, w),
        crate::store::write_fits(old(db)@, w),
        is_insert(w),
    ensures
        in_batch(base, final(db)@, final(log)@),
        final(db)@ == apply_write(old(db)@, w),
        final(log)@ == old(log)@.push(w),
{
    let ghost gw = w;
    db.record(w, log);
    proof {
        lemma_apply_writes_push(base, old(log)@, gw);
        assert forall|i: int| 0 <= i < log@.len() implies is_insert(#[trigger] log@[i]) by {
            if i < old(log)@.len() {
                assert(log@[i] == old(log)@[i]);
            }
        }
    }
}

fn exec_outcome(db: &mut StudyDb, co: &SeedCourseOutcome, log: &mut Vec<DbWrite>, Ghost(base): Ghost<DbView>) -> (r: Result<(), AppError>)
    requires
        in_batch(base, old(db)@, old(log)@),
    ensures
        in_batch(base, final(db)@, final(log)@),
        stmt_done(r, outcome_stmt(old(db)@, *co), old(db)@, final(db)@, old(log)@, final(log)@),
{
    if db.has_outcome(&co.id) {
        return Ok(());
    }
    let w = DbWrite::InsertCourseOutcome(
        CourseOutcome {
            id: co.id.clone(),
            code: co.code.clone(),
            description: co.description.clone(),
            order_index: co.orderIndex,
        },
    );
    if !db.room_for(&w) {
        return Err(full_error());
    }
    commit(db, w, log, Ghost(base));
    Ok(())
}

fn exec_chapter(db: &mut StudyDb, ch: &SeedChapter, log: &mut Vec<DbWrite>, Ghost(base): Ghost<DbView>) -> (r: Result<(), AppError>)
    requires
        in_batch(base, old(db)@, old(log)@),
    ensures
        in_batch(base, final(db)@, final(log)@),
        stmt_done(r, chapter_stmt(old(db)@, *ch), old(db)@, final(db)@, old(log)@, final(log)@),
{
    if db.has_chapter(&ch.id) {
        return Ok(());
    }
    if !db.has_outcome(&ch.courseOutcomeId) {
        return Err(foreign_key_error());
    }
    let w = DbWrite::InsertChapter(
        Chapter {
            id: ch.id.clone(),
            title: ch.title.clone(),
            description: ch.description.clone(),
            order_index: ch.orderIndex,
            course_outcome_id: ch.courseOutcomeId.clone(),
        },
    );
    if !db.room_for(&w) {
        return Err(full_error());
    }
    commit(db, w, log, Ghost(base));
    Ok(())
}

fn exec_knowledge_point(db: &mut StudyDb, kp: &SeedKnowledgePoint, log: &mut Vec<DbWrite>, Ghost(base): Ghost<DbView>) -> (r: Result<(), AppError>)
    requires
        in_batch(base, old(db)@, old(log)@),
    ensures
        in_batch(base, final(db)@, final(log)@),
        stmt_done(r, knowledge_point_stmt(old(db)@, *kp), old(db)@, final(db)@, old(log)@, final(log)@),
{
    if db.has_knowledge_point(&kp.id) {
        return Ok(());
    }
    if !db.has_chapter(&kp.chapterId) {
        return Err(foreign_key_error());
    }
    let w = DbWrite::InsertKnowledgePoint(
        KnowledgePoint {
            id: kp.id.clone(),
            chapter_id: kp.chapterId.clone(),
            name: kp.name.clone(),
            order_index: kp.orderIndex,
        },
    );
    if !db.room_for(&w) {
        return Err(full_error());
    }
    commit(db, w, log, Ghost(base));
    Ok(())
}

fn is_difficulty_exec(s: &String) -> (r: bool)
    ensures
        r == is_difficulty(s@),
{
    text_is(s, "foundation") || text_is(s, "applied") || text_is(s, "advanced")
}

fn is_exam_type_exec(s: &String) -> (r: bool)
    ensures
        r == is_exam_type(s@),
{
    text_is(s, "final") || text_is(s, "postgraduate") || text_is(s, "obe") || text_is(s, "adapted")
}

fn exec_task(db: &mut StudyDb, t: &SeedTask, log: &mut Vec<DbWrite>, Ghost(base): Ghost<DbView>) -> (r: Result<(), AppError>)
    requires
        in_batch(base, old(db)@, old(log)@),
    ensures
        in_batch(base, final(db)@, final(log)@),
        stmt_done(r, task_stmt(old(db)@, *t), old(db)@, final(db)@, old(log)@, final(log)@),
{
    if !is_difficulty_exec(&t.difficulty) {
        return Ok(());
    }
    if db.has_task(&t.id) {
        return Ok(());
    }
    if !db.has_chapter(&t.chapterId) || !db.has_outcome(&t.courseOutcomeId) {
        return Err(foreign_key_error());
    }
    let w = DbWrite::InsertTask(
        Task {
            id: t.id.clone(),
            chapter_id: t.chapterId.clone(),
            course_outcome_id: t.courseOutcomeId.clone(),
            difficulty: t.difficulty.clone(),
            scenario: t.scenario.clone(),
            reference: t.reference.clone(),
            source: None,
        },
    );
    if !db.room_for(&w) {
        return Err(full_error());
    }
    commit(db, w, log, Ghost(base));
    Ok(())
}

fn exec_requirement(db: &mut StudyDb, task_id: &String, req_index: i64, content: &String, log: &mut Vec<DbWrite>, Ghost(base): Ghost<DbView>) -> (r: Result<(), AppError>)
    requires
        in_batch(base, old(db)@, old(log)@),
    ensures
        in_batch(base, final(db)@, final(log)@),
        stmt_done(r, requirement_stmt(old(db)@, *task_id, req_index, *content), old(db)@, final(db)@, old(log)@, final(log)@),
{
    if db.has_requirement(task_id, req_index) {
        return Ok(());
    }
    if !db.has_task(task_id) {
        return Err(foreign_key_error());
    }
    let last = db.last_requirement_id();
    if last == i64::MAX {
        return Err(full_error());
    }
    let w = DbWrite::InsertRequirement(
        TaskRequirement { id: last + 1, task_id: task_id.clone(), req_index, content: content.clone() },
    );
    if !db.room_for(&w) {
        return Err(full_error());
    }
    commit(db, w, log, Ghost(base));
    Ok(())
}

fn exec_link(db: &mut StudyDb, task_id: &String, kp_id: &String, log: &mut Vec<DbWrite>, Ghost(base): Ghost<DbView>) -> (r: Result<(), AppError>)
    requires
        in_batch(base, old(db)@, old(log)@),
    ensures
        in_batch(base, final(db)@, final(log)@),
        stmt_done(r, link_stmt(old(db)@, *task_id, *kp_id), old(db)@, final(db)@, old(log)@, final(log)@),
{
    if db.has_link(task_id, kp_id) {
        return Ok(());
    }
    if !db.has_task(task_id) || !db.has_knowledge_point(kp_id) {
        return Err(foreign_key_error());
    }
    let w = DbWrite::InsertTaskKnowledgePoint(
        TaskKnowledgePoint { task_id: task_id.clone(), knowledge_point_id: kp_id.clone() },
    );
    if !db.room_for(&w) {
        return Err(full_error());
    }
    commit(db, w, log, Ghost(base));
    Ok(())
}

fn exam_type_error() -> (e: AppError)
    ensures
        e.code@ == "DB_ERROR"@,
        e.message@ == exam_type_message(),
{
    AppError::db_error("CHECK constraint failed: exam_type IN ('final','postgraduate','obe','adapted')")
}

fn exec_source(db: &mut StudyDb, task_id: &String, s: &SeedTaskSource, log: &mut Vec<DbWrite>, Ghost(base): Ghost<DbView>) -> (r: Result<(), AppError>)
    requires
        in_batch(base, old(db)@, old(log)@),
    ensures
        in_batch(base, final(db)@, final(log)@),
        stmt_done(r, source_stmt(old(db)@, *task_id, *s), old(db)@, final(db)@, old(log)@, final(log)@),
{
    if !is_exam_type_exec(&s.examType) {
        return Err(exam_type_error());
    }
    if !db.has_task(task_id) {
        return Err(foreign_key_error());
    }
    let last = db.last_source_id();
    if last == i64::MAX {
        return Err(full_error());
    }
    let w = DbWrite::InsertSource(
        TaskSource {
            id: last + 1,
            task_id: task_id.clone(),
            university: s.university.clone(),
            year: clone_opt_text(&s.year),
            exam_type: s.examType.clone(),
            original_text: clone_opt_text(&s.originalText),
            note: clone_opt_text(&s.note),
        },
    );
    if !db.room_for(&w) {
        return Err(full_error());
    }
    commit(db, w, log, Ghost(base));
    Ok(())
}

fn version_error() -> (e: AppError)
    ensures
        e.code@ == "DB_ERROR"@,
        e.message@ == version_message(),
{
    AppError::db_error("UNIQUE constraint failed: schema_version.version")
}

fn exec_version(db: &mut StudyDb, log: &mut Vec<DbWrite>, Ghost(base): Ghost<DbView>) -> (r: Result<(), AppError>)
    requires
        in_batch(base, old(db)@, old(log)@),
    ensures
        in_batch(base, final(db)@, final(log)@),
        stmt_done(r, version_stmt(old(db)@), old(db)@, final(db)@, old(log)@, final(log)@),
{
    if db.has_version(SCHEMA_VERSION) {
        return Err(version_error());
    }
    let w = DbWrite::InsertSchemaVersion(SCHEMA_VERSION);
    if !db.room_for(&w) {
        return Err(full_error());
    }
    commit(db, w, log, Ghost(base));
    Ok(())
}

/// Runs the inserts for one seed task.
fn exec_task_body(
    db: &mut StudyDb,
    t: &SeedTask,
    log: &mut Vec<DbWrite>,
    Ghost(base): Ghost<DbView>,
    Ghost(acc): Ghost<ImportAcc>,
) -> (r: Result<(), AppError>)
    requires
        in_batch(base, old(db)@, old(log)@),
        acc.view == old(db)@,
        acc.writes == old(log)@,
        seed_task_fits(*t),
    ensures
        in_batch(base, final(db)@, final(log)@),
        match task_body(acc, *t) {
            Err(m) => r matches Err(e) && e.code@ == "DB_ERROR"@ && e.message@ == m,
            Ok(b) => r is Ok && tracks(b, final(db)@, final(log)@, acc.imported, acc.skipped),
        },
{
    let r0 = exec_task(db, t, log, Ghost(base));
    if r0.is_err() {
        return r0;
    }
    let ghost a1 = ImportAcc { view: db@, writes: log@, ..acc };
    assert(step(acc, task_stmt(acc.view, *t)) == Ok::<ImportAcc, Seq<char>>(a1));

    let ghost f = requirement_steps(*t);
    let n = t.requirements.len();
    let mut i: usize = 0;
    while i < n
        invariant
            n == t.requirements@.len(),
            n <= i64::MAX,
            i <= n,
            in_batch(base, db@, log@),
            f == requirement_steps(*t),
            step(acc, task_stmt(acc.view, *t)) == Ok::<ImportAcc, Seq<char>>(a1),
            run_steps(a1, i as int, f) == Ok::<ImportAcc, Seq<char>>(ImportAcc { view: db@, writes: log@, ..acc }),
        decreases n - i,
    {
        let ghost cur = ImportAcc { view: db@, writes: log@, ..acc };
        let r = exec_requirement(db, &t.id, i as i64, &t.requirements[i], log, Ghost(base));
        assert(f(cur, i as int) == step(cur, requirement_stmt(cur.view, t.id, i as i64, t.requirements@[i as int])));
        match r {
            Err(e) => {
                proof {
                    let m = e.message@;
                    lemma_run_steps_err(a1, i + 1, n as int, f, m);
                }
                return Err(e);
            },
            Ok(()) => {},
        }
        i = i + 1;
    }
    let ghost a2 = ImportAcc { view: db@, writes: log@, ..acc };

    let ghost g = link_steps(*t);
    let n = t.knowledgePointIds.len();
    let mut i: usize = 0;
    while i < n
        invariant
            n == t.knowledgePointIds@.len(),
            i <= n,
            in_batch(base, db@, log@),
            g == link_steps(*t),
            step(acc, task_stmt(acc.view, *t)) == Ok::<ImportAcc, Seq<char>>(a1),
            run_steps(a1, t.requirements@.len() as int, requirement_steps(*t)) == Ok::<ImportAcc, Seq<char>>(a2),
            run_steps(a2, i as int, g) == Ok::<ImportAcc, Seq<char>>(ImportAcc { view: db@, writes: log@, ..acc }),
        decreases n - i,
    {
        let ghost cur = ImportAcc { view: db@, writes: log@, ..acc };
        let r = exec_link(db, &t.id, &t.knowledgePointIds[i], log, Ghost(base));
        assert(g(cur, i as int) == step(cur, link_stmt(cur.view, t.id, t.knowledgePointIds@[i as int])));
        match r {
            Err(e) => {
                proof {
                    let m = e.message@;
                    lemma_run_steps_err(a2, i + 1, n as int, g, m);
                }
                return Err(e);
            },
            Ok(()) => {},
        }
        i = i + 1;
    }
    let ghost a3 = ImportAcc { view: db@, writes: log@, ..acc };

    let ghost h = source_steps(*t);
    let n = t.sources.len();
    let mut i: usize = 0;
    while i < n
        invariant
            n == t.sources@.len(),
            i <= n,
            in_batch(base, db@, log@),
            h == source_steps(*t),
            step(acc, task_stmt(acc.view, *t)) == Ok::<ImportAcc, Seq<char>>(a1),
            run_steps(a1, t.requirements@.len() as int, requirement_steps(*t)) == Ok::<ImportAcc, Seq<char>>(a2),
            run_steps(a2, t.knowledgePointIds@.len() as int, link_steps(*t)) == Ok::<ImportAcc, Seq<char>>(a3),
            run_steps(a3, i as int, h) == Ok::<ImportAcc, Seq<char>>(ImportAcc { view: db@, writes: log@, ..acc }),
        decreases n - i,
    {
        let ghost cur = ImportAcc { view: db@, writes: log@, ..acc };
        let r = exec_source(db, &t.id, &t.sources[i], log, Ghost(base));
        assert(h(cur, i as int) == step(cur, source_stmt(cur.view, t.id, t.sources@[i as int])));
        match r {
            Err(e) => {
                proof {
                    let m = e.message@;
                    lemma_run_steps_err(a3, i + 1, n as int, h, m);
                }
                return Err(e);
            },
            Ok(()) => {},
        }
        i = i + 1;
    }
    Ok(())
}


pub open spec fn outcome_steps(s: SeedData) -> spec_fn(ImportAcc, int) -> Result<ImportAcc, Seq<char>> {
    |a: ImportAcc, i: int| step(a, outcome_stmt(a.view, s.courseOutcomes@[i]))
}

pub open spec fn chapter_steps(s: SeedData) -> spec_fn(ImportAcc, int) -> Result<ImportAcc, Seq<char>> {
    |a: ImportAcc, i: int| step(a, chapter_stmt(a.view, s.chapters@[i]))
}

pub open spec fn knowledge_point_steps(s: SeedData) -> spec_fn(ImportAcc, int) -> Result<ImportAcc, Seq<char>> {
    |a: ImportAcc, i: int| step(a, knowledge_point_stmt(a.view, s.knowledgePoints@[i]))
}

pub open spec fn seed_task_steps(s: SeedData) -> spec_fn(ImportAcc, int) -> Result<ImportAcc, Seq<char>> {
    |a: ImportAcc, i: int| task_body(a, s.tasks@[i])
}

/// The whole seed import as one batch: course outcomes, chapters, knowledge
/// points and tasks (each ignored when its id is taken), then the schema
/// version; the first error ends it.
pub open spec fn seed_batch(v: DbView, s: SeedData) -> Result<ImportAcc, Seq<char>> {
    match run_steps(start(v), s.courseOutcomes@.len() as int, outcome_steps(s)) {
        Err(m) => Err(m),
        Ok(a1) => match run_steps(a1, s.chapters@.len() as int, chapter_steps(s)) {
            Err(m) => Err(m),
            Ok(a2) => match run_steps(a2, s.knowledgePoints@.len() as int, knowledge_point_steps(s)) {
                Err(m) => Err(m),
                Ok(a3) => match run_steps(a3, s.tasks@.len() as int, seed_task_steps(s)) {
                    Err(m) => Err(m),
                    Ok(a4) => step(a4, version_stmt(a4.view)),
                },
            },
        },
    }
}

/// What the seed import owes: nothing when the database already holds a
/// task; the parse error when the seed could not be read; otherwise the
/// writes of the whole batch, or, when a statement fails, its error and no
/// change at all.
pub open spec fn seed_import_expected(v: DbView, parsed: Result<SeedData, String>) -> Expected {
    if v.tasks.len() > 0 {
        Ok(Seq::empty())
    } else {
        match parsed {
            Err(e) => Err(("VALIDATION"@, e@)),
            Ok(s) => match seed_batch(v, s) {
                Err(m) => Err(("DB_ERROR"@, m)),
                Ok(acc) => Ok(acc.writes),
            },
        }
    }
}

fn run_seed(db: &mut StudyDb, seed: &SeedData, log: &mut Vec<DbWrite>, Ghost(base): Ghost<DbView>) -> (r: Result<(), AppError>)
    requires
        old(db)@ == base,
        old(log)@ == Seq::<DbWrite>::empty(),
        base.wf(),
        seed_fits(*seed),
    ensures
        in_batch(base, final(db)@, final(log)@),
        match seed_batch(base, *seed) {
            Err(m) => r matches Err(e) && e.code@ == "DB_ERROR"@ && e.message@ == m,
            Ok(acc) => r is Ok && acc.view == final(db)@ && acc.writes == final(log)@,
        },
{
    let ghost a0 = start(base);
    assert(apply_writes(base, log@) == base);
    assert(in_batch(base, db@, log@));

    let ghost f1 = outcome_steps(*seed);
    let n = seed.courseOutcomes.len();
    let mut i: usize = 0;
    while i < n
        invariant
            n == seed.courseOutcomes@.len(),
            i <= n,
            in_batch(base, db@, log@),
            f1 == outcome_steps(*seed),
            a0 == start(base),
            run_steps(a0, i as int, f1) == Ok::<ImportAcc, Seq<char>>(ImportAcc { view: db@, writes: log@, imported: 0, skipped: 0 }),
        decreases n - i,
    {
        let ghost cur = ImportAcc { view: db@, writes: log@, imported: 0, skipped: 0 };
        let r = exec_outcome(db, &seed.courseOutcomes[i], log, Ghost(base));
        assert(f1(cur, i as int) == step(cur, outcome_stmt(cur.view, seed.courseOutcomes@[i as int])));
        match r {
            Err(e) => {
                proof {
                    lemma_run_steps_err(a0, i + 1, n as int, f1, e.message@);
                }
                return Err(e);
            },
            Ok(()) => {},
        }
        i = i + 1;
    }
    let ghost a1 = ImportAcc { view: db@, writes: log@, imported: 0, skipped: 0 };

    let ghost f2 = chapter_steps(*seed);
    let n = seed.chapters.len();
    let mut i: usize = 0;
    while i < n
        invariant
            n == seed.chapters@.len(),
            i <= n,
            in_batch(base, db@, log@),
            f2 == chapter_steps(*seed),
            a0 == start(base),
            run_steps(a0, seed.courseOutcomes@.len() as int, outcome_steps(*seed)) == Ok::<ImportAcc, Seq<char>>(a1),
            run_steps(a1, i as int, f2) == Ok::<ImportAcc, Seq<char>>(ImportAcc { view: db@, writes: log@, imported: 0, skipped: 0 }),
        decreases n - i,
    {
        let ghost cur = ImportAcc { view: db@, writes: log@, imported: 0, skipped: 0 };
        let r = exec_chapter(db, &seed.chapters[i], log, Ghost(base));
        assert(f2(cur, i as int) == step(cur, chapter_stmt(cur.view, seed.chapters@[i as int])));
        match r {
            Err(e) => {
                proof {
                    lemma_run_steps_err(a1, i + 1, n as int, f2, e.message@);
                }
                return Err(e);
            },
            Ok(()) => {},
        }
        i = i + 1;
    }
    let ghost a2 = ImportAcc { view: db@, writes: log@, imported: 0, skipped: 0 };

    let ghost f3 = knowledge_point_steps(*seed);
    let n = seed.knowledgePoints.len();
    let mut i: usize = 0;
    while i < n
        invariant
            n == seed.knowledgePoints@.len(),
            i <= n,
            in_batch(base, db@, log@),
            f3 == knowledge_point_steps(*seed),
            a0 == start(base),
            run_steps(a0, seed.courseOutcomes@.len() as int, outcome_steps(*seed)) == Ok::<ImportAcc, Seq<char>>(a1),
            run_steps(a1, seed.chapters@.len() as int, chapter_steps(*seed)) == Ok::<ImportAcc, Seq<char>>(a2),
            run_steps(a2, i as int, f3) == Ok::<ImportAcc, Seq<char>>(ImportAcc { view: db@, writes: log@, imported: 0, skipped: 0 }),
        decreases n - i,
    {
        let ghost cur = ImportAcc { view: db@, writes: log@, imported: 0, skipped: 0 };
        let r = exec_knowledge_point(db, &seed.knowledgePoints[i], log, Ghost(base));
        assert(f3(cur, i as int) == step(cur, knowledge_point_stmt(cur.view, seed.knowledgePoints@[i as int])));
        match r {
            Err(e) => {
                proof {
                    lemma_run_steps_err(a2, i + 1, n as int, f3, e.message@);
                }
                return Err(e);
            },
            Ok(()) => {},
        }
        i = i + 1;
    }
    let ghost a3 = ImportAcc { view: db@, writes: log@, imported: 0, skipped: 0 };

    let ghost f4 = seed_task_steps(*seed);
    let n = seed.tasks.len();
    let mut i: usize = 0;
    while i < n
        invariant
            n == seed.tasks@.len(),
            seed_fits(*seed),
            i <= n,
            in_batch(base, db@, log@),
            f4 == seed_task_steps(*seed),
            a0 == start(base),
            run_steps(a0, seed.courseOutcomes@.len() as int, outcome_steps(*seed)) == Ok::<ImportAcc, Seq<char>>(a1),
            run_steps(a1, seed.chapters@.len() as int, chapter_steps(*seed)) == Ok::<ImportAcc, Seq<char>>(a2),
            run_steps(a2, seed.knowledgePoints@.len() as int, knowledge_point_steps(*seed)) == Ok::<ImportAcc, Seq<char>>(a3),
            run_steps(a3, i as int, f4) == Ok::<ImportAcc, Seq<char>>(ImportAcc { view: db@, writes: log@, imported: 0, skipped: 0 }),
        decreases n - i,
    {
        let ghost cur = ImportAcc { view: db@, writes: log@, imported: 0, skipped: 0 };
        assert(seed_task_fits(seed.tasks@[i as int]));
        let r = exec_task_body(db, &seed.tasks[i], log, Ghost(base), Ghost(cur));
        assert(f4(cur, i as int) == task_body(cur, seed.tasks@[i as int]));
        match r {
            Err(e) => {
                proof {
                    lemma_run_steps_err(a3, i + 1, n as int, f4, e.message@);
                }
                return Err(e);
            },
            Ok(()) => {},
        }
        i = i + 1;
    }
    exec_version(db, log, Ghost(base))
}

/// Fills an empty database from the seed: course outcomes, chapters,
/// knowledge points and tasks with their requirements, links and sources,
/// then the schema version. Nothing is done when the database already holds
/// a task; a seed that could not be read is reported as it was; when a
/// statement fails, nothing is kept.
pub fn import_seed_data_from_json(db: &mut StudyDb, parsed: Result<SeedData, String>) -> (r: Result<Vec<DbWrite>, AppError>)
    requires
        old(db)@.wf(),
        parsed matches Ok(s) ==> seed_fits(s),
    ensures
        final(db)@.wf(),
        did(r, old(db)@, final(db)@, seed_import_expected(old(db)@, parsed)),
{
    if db.tasks().len() > 0 {
        let none: Vec<DbWrite> = Vec::new();
        assert(none@ =~= Seq::<DbWrite>::empty());
        assert(apply_writes(old(db)@, none@) == old(db)@);
        return Ok(none);
    }
    let seed = match parsed {
        Err(e) => {
            return Err(AppError::validation(e.as_str()));
        },
        Ok(s) => s,
    };
    let ghost base = db@;
    let snap = db.snapshot();
    let mut log: Vec<DbWrite> = Vec::new();
    match run_seed(db, &seed, &mut log, Ghost(base)) {
        Err(e) => {
            proof {
                lemma_inserts_extend(base, log@);
            }
            db.roll_back(&snap, Ghost(base));
            Err(e)
        },
        Ok(()) => Ok(log),
    }
}

/// What opening the database does to its content: a new database (one for
/// which a seed is handed in) is filled from that seed; an existing one is
/// brought to the current schema version.
pub fn init_db(db: &mut StudyDb, seed: Option<Result<SeedData, String>>) -> (r: Result<Vec<DbWrite>, AppError>)
    requires
        old(db)@.wf(),
        seed matches Some(Ok(s)) ==> seed_fits(s),
    ensures
        final(db)@.wf(),
        did(
            r,
            old(db)@,
            final(db)@,
            match seed {
                Some(parsed) => seed_import_expected(old(db)@, parsed),
                None => run_migrations_expected(old(db)@),
            },
        ),
{
    match seed {
        Some(parsed) => import_seed_data_from_json(db, parsed),
        None => run_migrations(db),
    }
}

pub open spec fn import_task_steps(s: SeedData) -> spec_fn(ImportAcc, int) -> Result<ImportAcc, Seq<char>> {
    |a: ImportAcc, i: int|
        if a.view.has_task(s.tasks@[i].id@) {
            Ok(ImportAcc { skipped: a.skipped + 1, ..a })
        } else {
            match task_body(a, s.tasks@[i]) {
                Err(m) => Err(m),
                Ok(b) => Ok(ImportAcc { imported: b.imported + 1, ..b }),
            }
        }
}

/// A task import as one batch: each task whose id is taken is skipped, each
/// other one is inserted with its requirements, links and sources and
/// counted as imported; the first error ends it.
pub open spec fn import_batch(v: DbView, s: SeedData) -> Result<ImportAcc, Seq<char>> {
    run_steps(start(v), s.tasks@.len() as int, import_task_steps(s))
}

/// Imports the tasks of a seed, skipping those whose id is already taken.
/// A seed that could not be read is reported as it was; when a statement
/// fails, nothing is kept.
pub fn import_tasks(db: &mut StudyDb, parsed: Result<SeedData, String>) -> (r: Result<(ImportResult, Vec<DbWrite>), AppError>)
    requires
        old(db)@.wf(),
        parsed matches Ok(s) ==> seed_fits(s),
    ensures
        final(db)@.wf(),
        match parsed {
            Err(e) => r matches Err(x) && x.code@ == "VALIDATION"@ && x.message@ == e@ && final(db)@ == old(db)@,
            Ok(s) => match import_batch(old(db)@, s) {
                Err(m) => r matches Err(x) && x.code@ == "DB_ERROR"@ && x.message@ == m && final(db)@ == old(db)@,
                Ok(acc) => r matches Ok((res, ws)) && res.imported == acc.imported && res.skipped == acc.skipped
                    && ws@ == acc.writes && final(db)@ == acc.view && final(db)@ == apply_writes(old(db)@, ws@),
            },
        },
{
    let seed = match parsed {
        Err(e) => {
            return Err(AppError::validation(e.as_str()));
        },
        Ok(s) => s,
    };
    let ghost base = db@;
    let snap = db.snapshot();
    let mut log: Vec<DbWrite> = Vec::new();
    let ghost a0 = start(base);
    assert(apply_writes(base, log@) == base);
    let ghost f = import_task_steps(seed);
    let n = seed.tasks.len();
    let mut imported: i64 = 0;
    let mut skipped: i64 = 0;
    let mut i: usize = 0;
    while i < n
        invariant
            n == seed.tasks@.len(),
            seed_fits(seed),
            i <= n,
            in_batch(base, db@, log@),
            f == import_task_steps(seed),
            a0 == start(base),
            0 <= imported,
            0 <= skipped,
            imported + skipped == i,
            snap.of(base),
            base == old(db)@,
            base.wf(),
            parsed == Ok::<SeedData, String>(seed),
            run_steps(a0, i as int, f) == Ok::<ImportAcc, Seq<char>>(ImportAcc { view: db@, writes: log@, imported: imported as int, skipped: skipped as int }),
        decreases n - i,
    {
        let ghost cur = ImportAcc { view: db@, writes: log@, imported: imported as int, skipped: skipped as int };
        let t = &seed.tasks[i];
        if db.has_task(&t.id) {
            skipped = skipped + 1;
        } else {
            assert(seed_task_fits(seed.tasks@[i as int]));
            let r = exec_task_body(db, t, &mut log, Ghost(base), Ghost(cur));
            match r {
                Err(e) => {
                    proof {
                        lemma_run_steps_err(a0, i + 1, n as int, f, e.message@);
                        lemma_inserts_extend(base, log@);
                    }
                    db.roll_back(&snap, Ghost(base));
                    return Err(e);
                },
                Ok(()) => {},
            }
            imported = imported + 1;
        }
        i = i + 1;
    }
    Ok((ImportResult { imported, skipped }, log))
}

} // verus!
