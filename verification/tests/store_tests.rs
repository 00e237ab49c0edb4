use computer_organization_study_assistant::errors::AppError;
use computer_organization_study_assistant::import::{import_seed_data_from_json, import_tasks, init_db};
use computer_organization_study_assistant::models::{
    SeedChapter, SeedCourseOutcome, SeedData, SeedKnowledgePoint, SeedTask, SeedTaskSource,
};
use computer_organization_study_assistant::practice::{
    assess_requirement, assess_task, reset_progress, run_migrations, save_answer,
};
use computer_organization_study_assistant::queries::{
    get_random_tasks, get_task_detail, list_chapters, list_course_outcomes, list_knowledge_points,
    list_tasks,
};
use computer_organization_study_assistant::stats::{get_chapter_progress, get_overall_progress};
use computer_organization_study_assistant::store::{DbWrite, StudyDb};

fn s(x: &str) -> String {
    x.to_string()
}

fn outcome(id: &str, order: i64) -> SeedCourseOutcome {
    SeedCourseOutcome { id: s(id), code: format!("课程目标{id}"), description: format!("desc {id}"), orderIndex: order }
}

fn chapter(id: &str, order: i64, outcome: &str) -> SeedChapter {
    SeedChapter { id: s(id), title: format!("title {id}"), description: s(""), orderIndex: order, courseOutcomeId: s(outcome) }
}

fn kp(id: &str, chapter: &str, order: i64) -> SeedKnowledgePoint {
    SeedKnowledgePoint { id: s(id), chapterId: s(chapter), name: format!("kp {id}"), orderIndex: order }
}

fn task(id: &str, chapter: &str, outcome: &str, difficulty: &str, kps: &[&str], reqs: &[&str]) -> SeedTask {
    SeedTask {
        id: s(id),
        chapterId: s(chapter),
        courseOutcomeId: s(outcome),
        knowledgePointIds: kps.iter().map(|k| s(k)).collect(),
        difficulty: s(difficulty),
        scenario: format!("scenario {id}"),
        requirements: reqs.iter().map(|r| s(r)).collect(),
        reference: format!("reference {id}"),
        sources: vec![],
    }
}

fn source(exam_type: &str) -> SeedTaskSource {
    SeedTaskSource { university: s("某大学"), year: Some(s("2023")), examType: s(exam_type), originalText: None, note: Some(s("改编")) }
}

fn sample_seed() -> SeedData {
    let mut t1 = task("t2", "ch1", "co1", "foundation", &["kp1", "kp2"], &["req a", "req b"]);
    t1.sources.push(source("final"));
    SeedData {
        courseOutcomes: vec![outcome("co2", 2), outcome("co1", 1)],
        chapters: vec![chapter("ch2", 2, "co2"), chapter("ch1", 1, "co1")],
        knowledgePoints: vec![kp("kp2", "ch1", 2), kp("kp1", "ch1", 1), kp("kp3", "ch2", 1)],
        tasks: vec![
            t1,
            task("t10", "ch1", "co1", "applied", &["kp1"], &["only req"]),
            task("t3", "ch2", "co2", "advanced", &["kp3"], &[]),
        ],
    }
}

fn seeded() -> StudyDb {
    let mut db = StudyDb::new();
    import_seed_data_from_json(&mut db, Ok(sample_seed())).unwrap();
    db
}

#[test]
fn test_seed_import_empty_db() {
    let mut db = StudyDb::new();
    let result = import_seed_data_from_json(&mut db, Ok(sample_seed()));
    assert!(result.is_ok(), "Seed import should succeed on empty db");
    let task_count = db.tasks().len();
    assert!(task_count > 0, "Should have tasks after seed import");
}

#[test]
fn test_seed_import_idempotent() {
    let mut db = StudyDb::new();
    import_seed_data_from_json(&mut db, Ok(sample_seed())).unwrap();
    let first_count = db.tasks().len();
    let writes = import_seed_data_from_json(&mut db, Ok(sample_seed())).unwrap();
    let second_count = db.tasks().len();
    assert_eq!(first_count, second_count, "Second import should not duplicate data");
    assert!(writes.is_empty());
}

#[test]
fn seed_import_writes_every_row_and_the_version() {
    let mut db = StudyDb::new();
    let writes = import_seed_data_from_json(&mut db, Ok(sample_seed())).unwrap();
    assert_eq!(db.course_outcomes().len(), 2);
    assert_eq!(db.chapters().len(), 2);
    assert_eq!(db.knowledge_points().len(), 3);
    assert_eq!(db.tasks().len(), 3);
    assert_eq!(db.task_requirements().len(), 3);
    assert_eq!(db.task_knowledge_points().len(), 4);
    assert_eq!(db.task_sources().len(), 1);
    assert_eq!(db.schema_versions(), &vec![1]);
    assert_eq!(writes.len(), 2 + 2 + 3 + 3 + 3 + 4 + 1 + 1);
    assert_eq!(writes.last(), Some(&DbWrite::InsertSchemaVersion(1)));
    let req_ids: Vec<i64> = db.task_requirements().iter().map(|r| r.id).collect();
    assert_eq!(req_ids, vec![1, 2, 3]);
    assert_eq!(db.task_sources()[0].id, 1);
    assert_eq!(db.last_requirement_id(), 3);
}

#[test]
fn seed_import_with_unknown_outcome_keeps_nothing() {
    let mut seed = sample_seed();
    seed.chapters.push(chapter("ch9", 9, "missing"));
    let mut db = StudyDb::new();
    let err = import_seed_data_from_json(&mut db, Ok(seed)).unwrap_err();
    assert_eq!(err.code, "DB_ERROR");
    assert_eq!(err.message, "FOREIGN KEY constraint failed");
    assert_eq!(db.course_outcomes().len(), 0);
    assert_eq!(db.chapters().len(), 0);
}

#[test]
fn seed_import_reports_parse_error_only_on_empty_db() {
    let mut db = StudyDb::new();
    let err = import_seed_data_from_json(&mut db, Err(s("expected value at line 1 column 1"))).unwrap_err();
    assert_eq!(err.code, "VALIDATION");
    assert_eq!(err.message, "expected value at line 1 column 1");
    let mut db = seeded();
    let writes = import_seed_data_from_json(&mut db, Err(s("bad json"))).unwrap();
    assert!(writes.is_empty());
}

#[test]
fn seed_import_ignores_unknown_difficulty() {
    let mut seed = sample_seed();
    seed.tasks.push(task("t9", "ch1", "co1", "impossible", &[], &[]));
    let mut db = StudyDb::new();
    import_seed_data_from_json(&mut db, Ok(seed)).unwrap();
    assert_eq!(db.tasks().len(), 3);
}

#[test]
fn seed_import_with_bad_exam_type_fails() {
    let mut seed = sample_seed();
    seed.tasks[1].sources.push(source("quiz"));
    let mut db = StudyDb::new();
    let err = import_seed_data_from_json(&mut db, Ok(seed)).unwrap_err();
    assert_eq!(err.message, "CHECK constraint failed: exam_type IN ('final','postgraduate','obe','adapted')");
    assert_eq!(db.tasks().len(), 0);
}

#[test]
fn chapters_and_outcomes_are_listed_by_order_index() {
    let db = seeded();
    let chapters: Vec<String> = list_chapters(&db).into_iter().map(|c| c.id).collect();
    assert_eq!(chapters, vec![s("ch1"), s("ch2")]);
    let outcomes: Vec<String> = list_course_outcomes(&db).into_iter().map(|c| c.id).collect();
    assert_eq!(outcomes, vec![s("co1"), s("co2")]);
}

#[test]
fn chapters_with_equal_order_keep_table_order() {
    let mut seed = sample_seed();
    seed.chapters.push(chapter("ch0", 1, "co1"));
    let mut db = StudyDb::new();
    import_seed_data_from_json(&mut db, Ok(seed)).unwrap();
    let chapters: Vec<String> = list_chapters(&db).into_iter().map(|c| c.id).collect();
    assert_eq!(chapters, vec![s("ch1"), s("ch0"), s("ch2")]);
}

#[test]
fn knowledge_points_are_listed_per_chapter_or_all() {
    let db = seeded();
    let ch1: Vec<String> = list_knowledge_points(&db, Some(s("ch1"))).into_iter().map(|k| k.id).collect();
    assert_eq!(ch1, vec![s("kp1"), s("kp2")]);
    let all: Vec<String> = list_knowledge_points(&db, None).into_iter().map(|k| k.id).collect();
    assert_eq!(all, vec![s("kp1"), s("kp2"), s("kp3")]);
    assert!(list_knowledge_points(&db, Some(s("nowhere"))).is_empty());
}

#[test]
fn tasks_are_listed_by_id_text_with_paging() {
    let db = seeded();
    let page = list_tasks(&db, s("ch1"), None, None, 0, 20);
    assert_eq!(page.total, 2);
    assert_eq!(page.offset, 0);
    let ids: Vec<String> = page.items.iter().map(|d| d.task.id.clone()).collect();
    assert_eq!(ids, vec![s("t10"), s("t2")]);
    let page = list_tasks(&db, s("ch1"), None, None, 1, 0);
    assert_eq!(page.items.len(), 1);
    assert_eq!(page.items[0].task.id, "t2");
    let page = list_tasks(&db, s("ch1"), None, None, -5, 1);
    assert_eq!(page.offset, 0);
    assert_eq!(page.items[0].task.id, "t10");
    let page = list_tasks(&db, s("ch1"), None, None, 7, 10);
    assert_eq!(page.total, 2);
    assert!(page.items.is_empty());
}

#[test]
fn tasks_are_filtered_by_difficulty_and_knowledge_point() {
    let db = seeded();
    let page = list_tasks(&db, s("ch1"), Some(s("applied")), None, 0, 50);
    assert_eq!(page.total, 1);
    assert_eq!(page.items[0].task.id, "t10");
    let page = list_tasks(&db, s("ch1"), None, Some(s("kp2")), 0, 50);
    assert_eq!(page.total, 1);
    assert_eq!(page.items[0].task.id, "t2");
    let page = list_tasks(&db, s("ch1"), Some(s("advanced")), None, 0, 50);
    assert_eq!(page.total, 0);
}

#[test]
fn task_page_is_at_most_five_hundred() {
    let mut seed = sample_seed();
    for i in 0..510 {
        seed.tasks.push(task(&format!("x{i:04}"), "ch2", "co2", "applied", &[], &[]));
    }
    let mut db = StudyDb::new();
    import_seed_data_from_json(&mut db, Ok(seed)).unwrap();
    let page = list_tasks(&db, s("ch2"), None, None, 0, 10_000);
    assert_eq!(page.total, 511);
    assert_eq!(page.items.len(), 500);
}

#[test]
fn task_detail_gathers_everything_of_a_task() {
    let db = seeded();
    let detail = get_task_detail(&db, s("t2")).unwrap();
    assert_eq!(detail.task.id, "t2");
    assert_eq!(detail.task.source, None);
    let reqs: Vec<(i64, String)> = detail.requirements.iter().map(|r| (r.req_index, r.content.clone())).collect();
    assert_eq!(reqs, vec![(0, s("req a")), (1, s("req b"))]);
    let kps: Vec<String> = detail.knowledge_points.iter().map(|k| k.id.clone()).collect();
    assert_eq!(kps, vec![s("kp1"), s("kp2")]);
    assert_eq!(detail.sources.len(), 1);
    assert_eq!(detail.sources[0].exam_type, "final");
    assert_eq!(detail.latest_assessment, None);
    assert_eq!(detail.latest_answer, None);
    let statuses: Vec<(i64, String)> = detail.requirement_statuses.iter().map(|r| (r.req_index, r.status.clone())).collect();
    assert_eq!(statuses, vec![(0, s("unassessed")), (1, s("unassessed"))]);
}

#[test]
fn task_detail_of_unknown_task_is_no_rows() {
    let db = seeded();
    let err = get_task_detail(&db, s("nope")).unwrap_err();
    assert_eq!(err.code, "DB_ERROR");
    assert_eq!(err.message, "Query returned no rows");
}

#[test]
fn random_draw_follows_the_given_order_and_count() {
    let db = seeded();
    let order = vec![s("t3"), s("t10"), s("t2")];
    let ids: Vec<String> = get_random_tasks(&db, None, None, 2, false, &order).into_iter().map(|d| d.task.id).collect();
    assert_eq!(ids, vec![s("t3"), s("t10")]);
    let ids: Vec<String> = get_random_tasks(&db, Some(s("ch1")), None, 0, false, &order).into_iter().map(|d| d.task.id).collect();
    assert_eq!(ids, vec![s("t10")]);
    let ids: Vec<String> = get_random_tasks(&db, None, Some(s("foundation")), 100, false, &order).into_iter().map(|d| d.task.id).collect();
    assert_eq!(ids, vec![s("t2")]);
}

#[test]
fn weak_draw_takes_tasks_once_assessed_as_needing_work() {
    let mut db = seeded();
    let order = vec![s("t3"), s("t10"), s("t2")];
    assert!(get_random_tasks(&db, None, None, 5, true, &order).is_empty());
    assess_task(&mut db, s("t2"), s("ch1"), s("needs_work")).unwrap();
    assess_task(&mut db, s("t2"), s("ch1"), s("mastered")).unwrap();
    let ids: Vec<String> = get_random_tasks(&db, None, None, 5, true, &order).into_iter().map(|d| d.task.id).collect();
    assert_eq!(ids, vec![s("t2")]);
}

#[test]
fn saving_the_same_answer_twice_writes_once() {
    let mut db = seeded();
    let w1 = save_answer(&mut db, s("t2"), s("ch1"), s("my answer")).unwrap();
    assert_eq!(w1.len(), 1);
    let w2 = save_answer(&mut db, s("t2"), s("ch1"), s("my answer")).unwrap();
    assert!(w2.is_empty());
    let w3 = save_answer(&mut db, s("t2"), s("ch1"), s("")).unwrap();
    assert_eq!(w3.len(), 1);
    assert_eq!(db.answer_records().len(), 2);
    assert_eq!(get_task_detail(&db, s("t2")).unwrap().latest_answer, Some(s("")));
}

#[test]
fn saving_an_answer_to_an_unknown_task_fails() {
    let mut db = seeded();
    let err = save_answer(&mut db, s("nope"), s("ch1"), s("x")).unwrap_err();
    assert_eq!(err.code, "DB_ERROR");
    assert_eq!(err.message, "FOREIGN KEY constraint failed");
    let err = save_answer(&mut db, s("t2"), s("nochapter"), s("x")).unwrap_err();
    assert_eq!(err.message, "FOREIGN KEY constraint failed");
    assert!(db.answer_records().is_empty());
}

#[test]
fn requirement_assessment_validates_and_reads_back() {
    let mut db = seeded();
    let err = assess_requirement(&mut db, s("t2"), 0, s("perfect")).unwrap_err();
    assert_eq!(err.code, "VALIDATION");
    assert_eq!(err.message, "status 必须为 mastered 或 needs_work，收到: perfect");
    assess_requirement(&mut db, s("t2"), 1, s("needs_work")).unwrap();
    assess_requirement(&mut db, s("t2"), 1, s("mastered")).unwrap();
    let detail = get_task_detail(&db, s("t2")).unwrap();
    let statuses: Vec<String> = detail.requirement_statuses.iter().map(|r| r.status.clone()).collect();
    assert_eq!(statuses, vec![s("unassessed"), s("mastered")]);
    let err = assess_requirement(&mut db, s("nope"), 0, s("mastered")).unwrap_err();
    assert_eq!(err.message, "FOREIGN KEY constraint failed");
}

#[test]
fn task_assessment_validates_and_reads_back() {
    let mut db = seeded();
    let err = assess_task(&mut db, s("t2"), s("ch1"), s("great")).unwrap_err();
    assert_eq!(err.code, "VALIDATION");
    assert_eq!(err.message, "assessment 必须为 mastered 或 needs_work，收到: great");
    let writes = assess_task(&mut db, s("t2"), s("ch1"), s("mastered")).unwrap();
    assert_eq!(writes.len(), 1);
    assert_eq!(get_task_detail(&db, s("t2")).unwrap().latest_assessment, Some(s("mastered")));
}

#[test]
fn reset_clears_answers_and_assessments_only() {
    let mut db = seeded();
    save_answer(&mut db, s("t2"), s("ch1"), s("a")).unwrap();
    assess_task(&mut db, s("t2"), s("ch1"), s("mastered")).unwrap();
    assess_requirement(&mut db, s("t2"), 0, s("mastered")).unwrap();
    let writes = reset_progress(&mut db);
    assert_eq!(writes, vec![DbWrite::ClearProgress]);
    assert!(db.answer_records().is_empty());
    assert!(db.task_assessments().is_empty());
    assert!(db.requirement_assessments().is_empty());
    assert_eq!(db.tasks().len(), 3);
    let detail = get_task_detail(&db, s("t2")).unwrap();
    assert_eq!(detail.latest_answer, None);
    assert_eq!(detail.latest_assessment, None);
    assert_eq!(detail.requirement_statuses[0].status, "unassessed");
    let progress = get_chapter_progress(&db, s("ch1"));
    assert_eq!((progress.assessed, progress.mastered, progress.needs_work), (0, 0, 0));
}

#[test]
fn chapter_progress_counts_latest_assessments() {
    let mut db = seeded();
    assess_task(&mut db, s("t2"), s("ch1"), s("needs_work")).unwrap();
    assess_task(&mut db, s("t2"), s("ch1"), s("mastered")).unwrap();
    assess_task(&mut db, s("t10"), s("ch1"), s("needs_work")).unwrap();
    let p = get_chapter_progress(&db, s("ch1"));
    assert_eq!(p.total_tasks, 2);
    assert_eq!(p.assessed, 2);
    assert_eq!(p.mastered, 1);
    assert_eq!(p.needs_work, 1);
    let kps: Vec<(String, i64, i64)> = p.knowledge_points.iter().map(|k| (k.knowledge_point_id.clone(), k.total_tasks, k.mastered)).collect();
    assert_eq!(kps, vec![(s("kp1"), 2, 1), (s("kp2"), 1, 1)]);
    let p2 = get_chapter_progress(&db, s("ch2"));
    assert_eq!((p2.total_tasks, p2.assessed), (1, 0));
}

#[test]
fn overall_progress_counts_per_outcome() {
    let mut db = seeded();
    assess_task(&mut db, s("t2"), s("ch1"), s("mastered")).unwrap();
    assess_task(&mut db, s("t3"), s("ch2"), s("needs_work")).unwrap();
    let p = get_overall_progress(&db);
    assert_eq!(p.total_tasks, 3);
    assert_eq!(p.mastered, 1);
    assert_eq!(p.needs_work, 1);
    let outcomes: Vec<(String, i64, i64)> = p.outcomes.iter().map(|o| (o.outcome_id.clone(), o.total_tasks, o.mastered)).collect();
    assert_eq!(outcomes, vec![(s("co1"), 2, 1), (s("co2"), 1, 0)]);
}

#[test]
fn import_tasks_skips_existing_ids() {
    let mut db = seeded();
    let mut seed = sample_seed();
    seed.tasks.push(task("t4", "ch2", "co2", "applied", &["kp3"], &["r"]));
    let (result, writes) = import_tasks(&mut db, Ok(seed)).unwrap();
    assert_eq!((result.imported, result.skipped), (1, 3));
    assert_eq!(writes.len(), 3);
    assert_eq!(db.tasks().len(), 4);
    let (again, writes) = import_tasks(&mut db, Ok(sample_seed())).unwrap();
    assert_eq!((again.imported, again.skipped), (0, 3));
    assert!(writes.is_empty());
}

#[test]
fn import_tasks_counts_a_repeated_id_as_skipped() {
    let mut db = seeded();
    let seed = SeedData {
        courseOutcomes: vec![],
        chapters: vec![],
        knowledgePoints: vec![],
        tasks: vec![task("n1", "ch1", "co1", "applied", &[], &[]), task("n1", "ch1", "co1", "applied", &[], &[])],
    };
    let (result, _) = import_tasks(&mut db, Ok(seed)).unwrap();
    assert_eq!((result.imported, result.skipped), (1, 1));
}

#[test]
fn import_tasks_failure_keeps_nothing() {
    let mut db = seeded();
    let seed = SeedData {
        courseOutcomes: vec![],
        chapters: vec![],
        knowledgePoints: vec![],
        tasks: vec![
            task("n1", "ch1", "co1", "applied", &["kp1"], &["r"]),
            task("n2", "ch1", "co1", "applied", &["no-such-kp"], &[]),
        ],
    };
    let err = import_tasks(&mut db, Ok(seed)).unwrap_err();
    assert_eq!(err.message, "FOREIGN KEY constraint failed");
    assert_eq!(db.tasks().len(), 3);
    assert_eq!(db.task_requirements().len(), 3);
    assert_eq!(db.last_requirement_id(), 3);
}

#[test]
fn import_tasks_reports_unreadable_json() {
    let mut db = seeded();
    let err = import_tasks(&mut db, Err(s("EOF while parsing"))).unwrap_err();
    assert_eq!(err.code, "VALIDATION");
    assert_eq!(err.message, "EOF while parsing");
}

#[test]
fn migrations_record_the_schema_version_once() {
    let mut db = StudyDb::new();
    let writes = run_migrations(&mut db).unwrap();
    assert_eq!(writes, vec![DbWrite::InsertSchemaVersion(1)]);
    let writes = run_migrations(&mut db).unwrap();
    assert!(writes.is_empty());
    assert_eq!(db.schema_versions(), &vec![1]);
}

#[test]
fn app_error_constructors() {
    let e = AppError::not_found("任务", "t1");
    assert_eq!(e.code, "NOT_FOUND");
    assert_eq!(e.message, "任务 t1 不存在");
    let e = AppError::db_error("disk I/O error");
    assert_eq!((e.code.as_str(), e.message.as_str()), ("DB_ERROR", "disk I/O error"));
    let e = AppError::validation("bad");
    assert_eq!((e.code.as_str(), e.message.as_str()), ("VALIDATION", "bad"));
}

#[test]
fn seed_import_keeps_one_row_per_key() {
    let mut seed = sample_seed();
    seed.courseOutcomes.push(outcome("co1", 7));
    seed.chapters.push(chapter("ch1", 7, "co2"));
    seed.knowledgePoints.push(kp("kp1", "ch2", 7));
    seed.tasks.push(task("t2", "ch2", "co2", "advanced", &["kp1", "kp1"], &["other"]));
    let mut db = StudyDb::new();
    import_seed_data_from_json(&mut db, Ok(seed)).unwrap();
    assert_eq!(db.course_outcomes().len(), 2);
    assert_eq!(db.chapters().len(), 2);
    assert_eq!(db.knowledge_points().len(), 3);
    assert_eq!(db.tasks().len(), 3);
    let t2_links = db.task_knowledge_points().iter().filter(|l| l.task_id == "t2").count();
    assert_eq!(t2_links, 2);
    let t2_reqs: Vec<(i64, String)> = db
        .task_requirements()
        .iter()
        .filter(|r| r.task_id == "t2")
        .map(|r| (r.req_index, r.content.clone()))
        .collect();
    assert_eq!(t2_reqs, vec![(0, s("req a")), (1, s("req b"))]);
    let ids: Vec<i64> = db.task_requirements().iter().map(|r| r.id).collect();
    assert_eq!(ids, vec![1, 2, 3]);
}

#[test]
fn opening_a_new_database_imports_the_seed() {
    let mut db = StudyDb::new();
    let writes = init_db(&mut db, Some(Ok(sample_seed()))).unwrap();
    assert_eq!(db.tasks().len(), 3);
    assert_eq!(writes.last(), Some(&DbWrite::InsertSchemaVersion(1)));
}

#[test]
fn opening_an_existing_database_runs_migrations() {
    let mut db = seeded();
    let writes = init_db(&mut db, None).unwrap();
    assert!(writes.is_empty());
    let mut old = StudyDb::new();
    let writes = init_db(&mut old, None).unwrap();
    assert_eq!(writes, vec![DbWrite::InsertSchemaVersion(1)]);
    assert_eq!(old.schema_versions(), &vec![1]);
}

#[test]
fn reassessed_task_counts_once_by_its_latest_assessment() {
    let mut db = seeded();
    let before = get_chapter_progress(&db, s("ch1"));
    assess_task(&mut db, s("t2"), s("ch1"), s("needs_work")).unwrap();
    assess_task(&mut db, s("t2"), s("ch1"), s("mastered")).unwrap();
    let after = get_chapter_progress(&db, s("ch1"));
    assert_eq!(after.total_tasks, before.total_tasks);
    assert_eq!(after.assessed, before.assessed + 1);
    assert_eq!(after.mastered, before.mastered + 1);
    assert_eq!(after.needs_work, before.needs_work);
}

#[test]
fn overall_counts_are_the_sums_over_chapters() {
    let mut db = seeded();
    assess_task(&mut db, s("t2"), s("ch1"), s("mastered")).unwrap();
    assess_task(&mut db, s("t10"), s("ch1"), s("needs_work")).unwrap();
    assess_task(&mut db, s("t3"), s("ch2"), s("mastered")).unwrap();
    let overall = get_overall_progress(&db);
    let chapters: Vec<_> = ["ch1", "ch2"].iter().map(|c| get_chapter_progress(&db, s(c))).collect();
    assert_eq!(overall.total_tasks, chapters.iter().map(|p| p.total_tasks).sum::<i64>());
    assert_eq!(overall.mastered, chapters.iter().map(|p| p.mastered).sum::<i64>());
    assert_eq!(overall.needs_work, chapters.iter().map(|p| p.needs_work).sum::<i64>());
    assert_eq!((overall.total_tasks, overall.mastered, overall.needs_work), (3, 2, 1));
}

#[test]
fn pages_one_after_another_cover_the_listing_once() {
    let db = seeded();
    let whole = list_tasks(&db, s("ch1"), None, None, 0, 500);
    let mut joined = Vec::new();
    for k in 0..3 {
        let page = list_tasks(&db, s("ch1"), None, None, k, 1);
        assert_eq!(page.total, whole.total);
        joined.extend(page.items.into_iter().map(|d| d.task.id));
    }
    let ids: Vec<String> = whole.items.into_iter().map(|d| d.task.id).collect();
    assert_eq!(joined, ids);
    assert_eq!(ids, vec![s("t10"), s("t2")]);
}

#[test]
fn chapter_knowledge_points_are_the_full_listing_filtered() {
    let db = seeded();
    let one: Vec<String> = list_knowledge_points(&db, Some(s("ch1"))).into_iter().map(|k| k.id).collect();
    let from_all: Vec<String> = list_knowledge_points(&db, None)
        .into_iter()
        .filter(|k| k.chapter_id == "ch1")
        .map(|k| k.id)
        .collect();
    assert_eq!(one, from_all);
    assert_eq!(one, vec![s("kp1"), s("kp2")]);
}

#[test]
fn a_draw_over_every_task_holds_as_many_as_asked_or_available() {
    let db = seeded();
    let ids = vec![s("t3"), s("t10"), s("t2")];
    let drawn = get_random_tasks(&db, None, None, 2, false, &ids);
    assert_eq!(drawn.len(), 2);
    let drawn = get_random_tasks(&db, Some(s("ch1")), None, 20, false, &ids);
    let drawn_ids: Vec<String> = drawn.into_iter().map(|d| d.task.id).collect();
    assert_eq!(drawn_ids, vec![s("t10"), s("t2")]);
    let drawn = get_random_tasks(&db, None, None, 0, false, &ids);
    assert_eq!(drawn.len(), 1);
}
