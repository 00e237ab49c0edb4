use std::path::PathBuf;

use computer_organization_study_assistant::models::{
    AnswerRecord, Chapter, CourseOutcome, RequirementAssessment, Task, TaskAssessment, TaskRequirement,
};
use computer_organization_study_assistant::paths::{ensure_not_on_desktop, path_diagnostics, path_to_string};
use computer_organization_study_assistant::practice::{assess_task, reset_progress};
use computer_organization_study_assistant::queries::{get_task_detail, latest_assessment_for};
use computer_organization_study_assistant::store::{DbWrite, StudyDb};
use computer_organization_study_assistant::text::{text_eq, text_less};

fn s(x: &str) -> String {
    x.to_string()
}

fn one_task_tables(
    statuses: Vec<TaskAssessment>,
    requirement_statuses: Vec<RequirementAssessment>,
) -> Option<StudyDb> {
    StudyDb::from_tables(
        vec![CourseOutcome { id: s("co1"), code: s("C1"), description: s("d"), order_index: 1 }],
        vec![Chapter {
            id: s("ch1"),
            title: s("t"),
            description: s(""),
            order_index: 1,
            course_outcome_id: s("co1"),
        }],
        vec![],
        vec![Task {
            id: s("t1"),
            chapter_id: s("ch1"),
            course_outcome_id: s("co1"),
            difficulty: s("foundation"),
            scenario: s("sc"),
            reference: s("ref"),
            source: None,
        }],
        vec![],
        vec![
            TaskRequirement { id: 7, task_id: s("t1"), req_index: 0, content: s("a") },
            TaskRequirement { id: 3, task_id: s("t1"), req_index: 1, content: s("b") },
        ],
        vec![],
        vec![AnswerRecord { task_id: s("t1"), chapter_id: s("ch1"), answer_text: s("x") }],
        requirement_statuses,
        statuses,
        vec![1],
    )
}

#[test]
fn path_text_is_the_path_as_written() {
    assert_eq!(path_to_string(PathBuf::from("study-data/study.db")), "study-data/study.db");
    assert_eq!(path_to_string(PathBuf::from("计组备考助手")), "计组备考助手");
}

#[test]
fn loaded_tables_give_a_database_with_their_rows() {
    let db = one_task_tables(
        vec![TaskAssessment { task_id: s("t1"), chapter_id: s("ch1"), assessment: s("needs_work") }],
        vec![],
    )
    .expect("valid tables");
    assert_eq!(db.tasks().len(), 1);
    assert_eq!(db.last_requirement_id(), 7);
    assert_eq!(db.last_source_id(), 0);
    assert_eq!(latest_assessment_for(&db, &s("t1")), Some(s("needs_work")));
}

#[test]
fn loaded_tables_with_an_unknown_status_are_refused() {
    assert!(one_task_tables(
        vec![TaskAssessment { task_id: s("t1"), chapter_id: s("ch1"), assessment: s("maybe") }],
        vec![],
    )
    .is_none());
    assert!(one_task_tables(
        vec![],
        vec![RequirementAssessment { task_id: s("t1"), req_index: 0, status: s("done") }],
    )
    .is_none());
}

#[test]
fn latest_task_assessment_is_the_last_recorded() {
    let mut db = one_task_tables(vec![], vec![]).unwrap();
    assert_eq!(latest_assessment_for(&db, &s("t1")), None);
    assess_task(&mut db, s("t1"), s("ch1"), s("needs_work")).unwrap();
    assess_task(&mut db, s("t1"), s("ch1"), s("mastered")).unwrap();
    let detail = get_task_detail(&db, s("t1")).unwrap();
    assert_eq!(detail.latest_assessment, Some(s("mastered")));
    assert_eq!(detail.latest_answer, Some(s("x")));
}

#[test]
fn reset_twice_is_reset_once() {
    let mut db = one_task_tables(
        vec![TaskAssessment { task_id: s("t1"), chapter_id: s("ch1"), assessment: s("mastered") }],
        vec![],
    )
    .unwrap();
    assert_eq!(reset_progress(&mut db), vec![DbWrite::ClearProgress]);
    assert!(db.answer_records().is_empty());
    assert!(db.task_assessments().is_empty());
    assert_eq!(reset_progress(&mut db), vec![DbWrite::ClearProgress]);
    assert!(db.answer_records().is_empty());
    assert_eq!(db.tasks().len(), 1);
    assert_eq!(db.task_requirements().len(), 2);
}

#[test]
fn room_for_a_write_in_an_empty_database() {
    let db = StudyDb::new();
    assert!(db.room_for(&DbWrite::ClearProgress));
    assert!(db.room_for(&DbWrite::InsertSchemaVersion(1)));
    assert!(!db.has_task(&s("t1")));
    assert!(!db.has_version(1));
}

#[test]
fn text_order_is_by_code_point() {
    assert!(text_less(&s("t10"), &s("t2")));
    assert!(!text_less(&s("t2"), &s("t10")));
    assert!(text_less(&s("t1"), &s("t10")));
    assert!(!text_less(&s("t1"), &s("t1")));
    assert!(text_eq(&s("题"), &s("题")));
}

#[test]
fn data_directory_on_the_desktop_is_refused() {
    let desktop = PathBuf::from("/home/u/Desktop");
    let inside = PathBuf::from("/home/u/Desktop/study-data");
    assert_eq!(
        ensure_not_on_desktop(&inside, Some(desktop.clone())),
        Err(s("应用数据目录异常：/home/u/Desktop/study-data 位于桌面目录 /home/u/Desktop 下，已拒绝启动以避免污染桌面。"))
    );
    assert_eq!(ensure_not_on_desktop(&PathBuf::from("/home/u/Desktop2/x"), Some(desktop.clone())), Ok(()));
    assert_eq!(ensure_not_on_desktop(&PathBuf::from("/home/u/.local/share/app"), Some(desktop)), Ok(()));
    assert_eq!(ensure_not_on_desktop(&inside, None), Ok(()));
}

#[test]
fn path_diagnostics_list_one_directory_per_line() {
    let text = path_diagnostics("/a", "/b", "/c", "/d", "/b/study-data", "/b/study-data/study.db");
    assert_eq!(
        text,
        "product_name=计组备考助手\nidentifier=com.fanrenxiuluo.computer-organization-study-assistant\napp_data_dir=/a\napp_local_data_dir=/b\ndesktop_dir=/c\ncurrent_dir=/d\nstudy_data_dir=/b/study-data\ndb_path=/b/study-data/study.db\n"
    );
}
