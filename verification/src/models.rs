use vstd::prelude::*;
use crate::text::clone_opt_text;

verus! {

/// A course outcome of the syllabus.
#[derive(Debug, PartialEq, Eq)]
pub struct CourseOutcome {
    pub id: String,
    pub code: String,
    pub description: String,
    pub order_index: i64,
}

/// A chapter of the course.
#[derive(Debug, PartialEq, Eq)]
pub struct Chapter {
    pub id: String,
    pub title: String,
    pub description: String,
    pub order_index: i64,
    pub course_outcome_id: String,
}

/// A knowledge point of a chapter.
#[derive(Debug, PartialEq, Eq)]
pub struct KnowledgePoint {
    pub id: String,
    pub chapter_id: String,
    pub name: String,
    pub order_index: i64,
}

/// A practice task.
#[derive(Debug, PartialEq, Eq)]
pub struct Task {
    pub id: String,
    pub chapter_id: String,
    pub course_outcome_id: String,
    pub difficulty: String,
    pub scenario: String,
    pub reference: String,
    pub source: Option<String>,
}

/// One requirement of a task.
#[derive(Debug, PartialEq, Eq)]
pub struct TaskRequirement {
    pub id: i64,
    pub task_id: String,
    pub req_index: i64,
    pub content: String,
}

/// A link between a task and a knowledge point.
#[derive(Debug, PartialEq, Eq)]
pub struct TaskKnowledgePoint {
    pub task_id: String,
    pub knowledge_point_id: String,
}

/// Where a task comes from.
#[derive(Debug, PartialEq, Eq)]
pub struct TaskSource {
    pub id: i64,
    pub task_id: String,
    pub university: String,
    pub year: Option<String>,
    pub exam_type: String,
    pub original_text: Option<String>,
    pub note: Option<String>,
}

/// A saved answer to a task.
#[derive(Debug, PartialEq, Eq)]
pub struct AnswerRecord {
    pub task_id: String,
    pub chapter_id: String,
    pub answer_text: String,
}

/// A self-assessment of one requirement of a task.
#[derive(Debug, PartialEq, Eq)]
pub struct RequirementAssessment {
    pub task_id: String,
    pub req_index: i64,
    pub status: String,
}

/// A self-assessment of a whole task.
#[derive(Debug, PartialEq, Eq)]
pub struct TaskAssessment {
    pub task_id: String,
    pub chapter_id: String,
    pub assessment: String,
}

/// The latest self-assessment status of one requirement.
#[derive(Debug, PartialEq, Eq)]
pub struct ReqStatus {
    pub req_index: i64,
    pub status: String,
}

/// A task with everything that belongs to it.
#[derive(Debug, PartialEq, Eq)]
pub struct TaskDetail {
    pub task: Task,
    pub requirements: Vec<TaskRequirement>,
    pub knowledge_points: Vec<KnowledgePoint>,
    pub sources: Vec<TaskSource>,
    pub latest_assessment: Option<String>,
    pub latest_answer: Option<String>,
    pub requirement_statuses: Vec<ReqStatus>,
}

/// One page of a task listing.
#[derive(Debug, PartialEq, Eq)]
pub struct TaskPage {
    pub items: Vec<TaskDetail>,
    pub total: i64,
    pub offset: i64,
}

/// How many tasks of a knowledge point there are and how many are mastered.
#[derive(Debug, PartialEq, Eq)]
pub struct KnowledgePointTally {
    pub knowledge_point_id: String,
    pub name: String,
    pub total_tasks: i64,
    pub mastered: i64,
}

/// The progress counts of a chapter.
#[derive(Debug, PartialEq, Eq)]
pub struct ChapterTally {
    pub total_tasks: i64,
    pub assessed: i64,
    pub mastered: i64,
    pub needs_work: i64,
    pub knowledge_points: Vec<KnowledgePointTally>,
}

/// How many tasks of a course outcome there are and how many are mastered.
#[derive(Debug, PartialEq, Eq)]
pub struct OutcomeTally {
    pub outcome_id: String,
    pub code: String,
    pub description: String,
    pub total_tasks: i64,
    pub mastered: i64,
}

/// The progress counts over all tasks.
#[derive(Debug, PartialEq, Eq)]
pub struct OverallTally {
    pub total_tasks: i64,
    pub mastered: i64,
    pub needs_work: i64,
    pub outcomes: Vec<OutcomeTally>,
}

/// The outcome of importing a batch of tasks.
#[derive(Debug, PartialEq, Eq)]
pub struct ImportResult {
    pub imported: i64,
    pub skipped: i64,
}

/// A course outcome as the seed file writes it.
#[derive(Debug, PartialEq, Eq)]
#[allow(non_snake_case)]
pub struct SeedCourseOutcome {
    pub id: String,
    pub code: String,
    pub description: String,
    pub orderIndex: i64,
}

/// A chapter as the seed file writes it.
#[derive(Debug, PartialEq, Eq)]
#[allow(non_snake_case)]
pub struct SeedChapter {
    pub id: String,
    pub title: String,
    pub description: String,
    pub orderIndex: i64,
    pub courseOutcomeId: String,
}

/// A knowledge point as the seed file writes it.
#[derive(Debug, PartialEq, Eq)]
#[allow(non_snake_case)]
pub struct SeedKnowledgePoint {
    pub id: String,
    pub chapterId: String,
    pub name: String,
    pub orderIndex: i64,
}

/// A task source as the seed file writes it.
#[derive(Debug, PartialEq, Eq)]
#[allow(non_snake_case)]
pub struct SeedTaskSource {
    pub university: String,
    pub year: Option<String>,
    pub examType: String,
    pub originalText: Option<String>,
    pub note: Option<String>,
}

/// A task as the seed file writes it.
#[derive(Debug, PartialEq, Eq)]
#[allow(non_snake_case)]
pub struct SeedTask {
    pub id: String,
    pub chapterId: String,
    pub courseOutcomeId: String,
    pub knowledgePointIds: Vec<String>,
    pub difficulty: String,
    pub scenario: String,
    pub requirements: Vec<String>,
    pub reference: String,
    pub sources: Vec<SeedTaskSource>,
}

/// The whole content of a seed file.
#[derive(Debug, PartialEq, Eq)]
#[allow(non_snake_case)]
pub struct SeedData {
    pub courseOutcomes: Vec<SeedCourseOutcome>,
    pub chapters: Vec<SeedChapter>,
    pub knowledgePoints: Vec<SeedKnowledgePoint>,
    pub tasks: Vec<SeedTask>,
}

impl Clone for CourseOutcome {
    fn clone(&self) -> (r: Self)
        ensures
            r == *self,
    {
        CourseOutcome {
            id: self.id.clone(),
            code: self.code.clone(),
            description: self.description.clone(),
            order_index: self.order_index,
        }
    }
}

impl Clone for Chapter {
    fn clone(&self) -> (r: Self)
        ensures
            r == *self,
    {
        Chapter {
            id: self.id.clone(),
            title: self.title.clone(),
            description: self.description.clone(),
            order_index: self.order_index,
            course_outcome_id: self.course_outcome_id.clone(),
        }
    }
}

impl Clone for KnowledgePoint {
    fn clone(&self) -> (r: Self)
        ensures
            r == *self,
    {
        KnowledgePoint {
            id: self.id.clone(),
            chapter_id: self.chapter_id.clone(),
            name: self.name.clone(),
            order_index: self.order_index,
        }
    }
}

impl Clone for Task {
    fn clone(&self) -> (r: Self)
        ensures
            r == *self,
    {
        Task {
            id: self.id.clone(),
            chapter_id: self.chapter_id.clone(),
            course_outcome_id: self.course_outcome_id.clone(),
            difficulty: self.difficulty.clone(),
            scenario: self.scenario.clone(),
            reference: self.reference.clone(),
            source: clone_opt_text(&self.source),
        }
    }
}

impl Clone for TaskRequirement {
    fn clone(&self) -> (r: Self)
        ensures
            r == *self,
    {
        TaskRequirement {
            id: self.id,
            task_id: self.task_id.clone(),
            req_index: self.req_index,
            content: self.content.clone(),
        }
    }
}

impl Clone for TaskKnowledgePoint {
    fn clone(&self) -> (r: Self)
        ensures
            r == *self,
    {
        TaskKnowledgePoint {
            task_id: self.task_id.clone(),
            knowledge_point_id: self.knowledge_point_id.clone(),
        }
    }
}

impl Clone for TaskSource {
    fn clone(&self) -> (r: Self)
        ensures
            r == *self,
    {
        TaskSource {
            id: self.id,
            task_id: self.task_id.clone(),
            university: self.university.clone(),
            year: clone_opt_text(&self.year),
            exam_type: self.exam_type.clone(),
            original_text: clone_opt_text(&self.original_text),
            note: clone_opt_text(&self.note),
        }
    }
}

impl Clone for AnswerRecord {
    fn clone(&self) -> (r: Self)
        ensures
            r == *self,
    {
        AnswerRecord {
            task_id: self.task_id.clone(),
            chapter_id: self.chapter_id.clone(),
            answer_text: self.answer_text.clone(),
        }
    }
}

impl Clone for RequirementAssessment {
    fn clone(&self) -> (r: Self)
        ensures
            r == *self,
    {
        RequirementAssessment {
            task_id: self.task_id.clone(),
            req_index: self.req_index,
            status: self.status.clone(),
        }
    }
}

impl Clone for TaskAssessment {
    fn clone(&self) -> (r: Self)
        ensures
            r == *self,
    {
        TaskAssessment {
            task_id: self.task_id.clone(),
            chapter_id: self.chapter_id.clone(),
            assessment: self.assessment.clone(),
        }
    }
}

} // verus!
