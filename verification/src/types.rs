//! Records of the student information system.
//!
//! Real-valued quantities (credits, points, scores) are held as [`Binary64`]
//! values and instants as microseconds since the Unix epoch; calendar dates
//! are [`Date`] values.

use crate::external::{calendar_date_exists, ymd_exists};
use vstd::prelude::*;

verus! {

// ── plain values ────────────────────────────────────────────────────────────

/// A real quantity (credits, points, a score) in its IEEE 754 binary64
/// encoding. The verified core stores and moves these values; it never does
/// arithmetic on them.
#[derive(Debug, Clone, Copy)]
pub struct Binary64 {
    pub bits: u64,
}

/// A proleptic Gregorian calendar date.
#[derive(Debug, Clone, Copy, PartialEq, Eq, Structural)]
pub struct Date {
    pub year: i32,
    pub month: u32,
    pub day: u32,
}

impl Date {
    /// The date `year-month-day` when it exists (see
    /// `calendar_date_exists`), as chrono's `NaiveDate::from_ymd_opt`
    /// decides.
    pub fn from_ymd_opt(year: i32, month: u32, day: u32) -> (r: Option<Date>)
        ensures
            r is Some <==> calendar_date_exists(year as int, month as int, day as int),
            r matches Some(d) ==> d == (Date { year, month, day }),
    {
        if ymd_exists(year, month, day) {
            Some(Date { year, month, day })
        } else {
            None
        }
    }
}

// ── students ────────────────────────────────────────────────────────────────

#[derive(Debug, Clone, Copy, PartialEq, Eq, Structural)]
pub enum EnrollmentStatus {
    Active,
    Inactive,
    Graduated,
    Withdrawn,
    Suspended,
}

impl EnrollmentStatus {
    /// The variant's name, as `{:?}` prints it.
    pub open spec fn spec_label(self) -> Seq<char> {
        match self {
            EnrollmentStatus::Active => "Active"@,
            EnrollmentStatus::Inactive => "Inactive"@,
            EnrollmentStatus::Graduated => "Graduated"@,
            EnrollmentStatus::Withdrawn => "Withdrawn"@,
            EnrollmentStatus::Suspended => "Suspended"@,
        }
    }

    /// The variant's name, as `{:?}` prints it.
    pub fn label(&self) -> (r: String)
        ensures
            r@ == self.spec_label(),
    {
        match self {
            EnrollmentStatus::Active => String::from_str("Active"),
            EnrollmentStatus::Inactive => String::from_str("Inactive"),
            EnrollmentStatus::Graduated => String::from_str("Graduated"),
            EnrollmentStatus::Withdrawn => String::from_str("Withdrawn"),
            EnrollmentStatus::Suspended => String::from_str("Suspended"),
        }
    }
}

/// A student record. PII-bearing; access is logged and minimized.
#[derive(Debug)]
pub struct Student {
    pub id: String,
    /// Student information number (site identifier).
    pub sis_id: String,
    pub family_name: String,
    pub given_name: String,
    pub grade_level: String,
    pub program: Option<String>,
    pub status: EnrollmentStatus,
    pub date_of_birth: Option<Date>,
    /// Education accommodations (IEP/504).
    pub accommodations: Vec<Accommodation>,
    pub enrolled_on: Option<Date>,
    /// Microseconds since the Unix epoch.
    pub created_at: i64,
    /// Microseconds since the Unix epoch.
    pub updated_at: i64,
}

impl Student {
    /// Field-by-field equality, the accommodations compared by their contents.
    pub open spec fn is_copy_of(&self, other: &Student) -> bool {
        &&& self.id == other.id
        &&& self.sis_id == other.sis_id
        &&& self.family_name == other.family_name
        &&& self.given_name == other.given_name
        &&& self.grade_level == other.grade_level
        &&& self.program == other.program
        &&& self.status == other.status
        &&& self.date_of_birth == other.date_of_birth
        &&& self.accommodations@ == other.accommodations@
        &&& self.enrolled_on == other.enrolled_on
        &&& self.created_at == other.created_at
        &&& self.updated_at == other.updated_at
    }
}

impl Clone for Student {
    fn clone(&self) -> (r: Self)
        ensures
            r.is_copy_of(self),
    {
        let accommodations = self.accommodations.clone();
        proof {
            assert(accommodations@ =~= self.accommodations@);
        }
        Student {
            id: self.id.clone(),
            sis_id: self.sis_id.clone(),
            family_name: self.family_name.clone(),
            given_name: self.given_name.clone(),
            grade_level: self.grade_level.clone(),
            program: self.program.clone(),
            status: self.status,
            date_of_birth: self.date_of_birth,
            accommodations,
            enrolled_on: self.enrolled_on,
            created_at: self.created_at,
            updated_at: self.updated_at,
        }
    }
}

#[derive(Debug)]
pub struct Accommodation {
    pub id: String,
    /// e.g. "IEP", "504", "ELL".
    pub kind: String,
    pub description: String,
    pub active: bool,
}

impl Clone for Accommodation {
    fn clone(&self) -> (r: Self)
        ensures
            r == *self,
    {
        Accommodation {
            id: self.id.clone(),
            kind: self.kind.clone(),
            description: self.description.clone(),
            active: self.active,
        }
    }
}

// ── courses & sections ──────────────────────────────────────────────────────

#[derive(Debug)]
pub struct Course {
    pub id: String,
    pub code: String,
    pub title: String,
    pub credits: Binary64,
    pub subject: String,
}

impl Clone for Course {
    fn clone(&self) -> (r: Self)
        ensures
            r == *self,
    {
        Course {
            id: self.id.clone(),
            code: self.code.clone(),
            title: self.title.clone(),
            credits: self.credits,
            subject: self.subject.clone(),
        }
    }
}

#[derive(Debug)]
pub struct Section {
    pub id: String,
    pub course_id: String,
    pub term: String,
    pub instructor: String,
    /// Weighted assignment categories, e.g. {"homework":0.3,"exams":0.7}.
    pub grade_weights: serde_json::Value,
    /// Microseconds since the Unix epoch.
    pub created_at: i64,
}

impl Clone for Section {
    fn clone(&self) -> (r: Self)
        ensures
            r == *self,
    {
        Section {
            id: self.id.clone(),
            course_id: self.course_id.clone(),
            term: self.term.clone(),
            instructor: self.instructor.clone(),
            grade_weights: self.grade_weights.clone(),
            created_at: self.created_at,
        }
    }
}

// ── enrollments ─────────────────────────────────────────────────────────────

#[derive(Debug, Clone, Copy, PartialEq, Eq, Structural)]
pub enum SectionEnrollmentStatus {
    Enrolled,
    Dropped,
    Completed,
}

#[derive(Debug)]
pub struct Enrollment {
    pub id: String,
    pub student_id: String,
    pub section_id: String,
    pub status: SectionEnrollmentStatus,
    /// Final letter grade once completed.
    pub final_grade: Option<String>,
    /// Microseconds since the Unix epoch.
    pub enrolled_at: i64,
}

impl Clone for Enrollment {
    fn clone(&self) -> (r: Self)
        ensures
            r == *self,
    {
        Enrollment {
            id: self.id.clone(),
            student_id: self.student_id.clone(),
            section_id: self.section_id.clone(),
            status: self.status,
            final_grade: self.final_grade.clone(),
            enrolled_at: self.enrolled_at,
        }
    }
}

// ── grades / rubrics ────────────────────────────────────────────────────────

#[derive(Debug)]
pub struct Assignment {
    pub id: String,
    pub section_id: String,
    pub name: String,
    /// Category used by section grade weights, e.g. "homework", "exams".
    pub category: String,
    pub points_possible: Binary64,
    pub due_date: Option<Date>,
}

impl Clone for Assignment {
    fn clone(&self) -> (r: Self)
        ensures
            r == *self,
    {
        Assignment {
            id: self.id.clone(),
            section_id: self.section_id.clone(),
            name: self.name.clone(),
            category: self.category.clone(),
            points_possible: self.points_possible,
            due_date: self.due_date,
        }
    }
}

/// One criterion of a rubric.
#[derive(Debug)]
pub struct RubricCriterion {
    pub name: String,
    pub max_points: Binary64,
    pub awarded: Option<Binary64>,
    pub comment: Option<String>,
}

impl Clone for RubricCriterion {
    fn clone(&self) -> (r: Self)
        ensures
            r == *self,
    {
        RubricCriterion {
            name: self.name.clone(),
            max_points: self.max_points,
            awarded: self.awarded,
            comment: self.comment.clone(),
        }
    }
}

#[derive(Debug)]
pub struct Grade {
    pub id: String,
    pub assignment_id: String,
    pub student_id: String,
    pub points_earned: Binary64,
    pub points_possible: Binary64,
    /// Optional rubric breakdown.
    pub rubric: Vec<RubricCriterion>,
    pub feedback: Option<String>,
    pub graded_by: String,
    /// Microseconds since the Unix epoch.
    pub graded_at: i64,
}

impl Grade {
    /// Field-by-field equality, the rubric compared by its contents.
    pub open spec fn is_copy_of(&self, other: &Grade) -> bool {
        &&& self.id == other.id
        &&& self.assignment_id == other.assignment_id
        &&& self.student_id == other.student_id
        &&& self.points_earned == other.points_earned
        &&& self.points_possible == other.points_possible
        &&& self.rubric@ == other.rubric@
        &&& self.feedback == other.feedback
        &&& self.graded_by == other.graded_by
        &&& self.graded_at == other.graded_at
    }
}

impl Clone for Grade {
    fn clone(&self) -> (r: Self)
        ensures
            r.is_copy_of(self),
    {
        let rubric = self.rubric.clone();
        proof {
            assert(rubric@ =~= self.rubric@);
        }
        Grade {
            id: self.id.clone(),
            assignment_id: self.assignment_id.clone(),
            student_id: self.student_id.clone(),
            points_earned: self.points_earned,
            points_possible: self.points_possible,
            rubric,
            feedback: self.feedback.clone(),
            graded_by: self.graded_by.clone(),
            graded_at: self.graded_at,
        }
    }
}

// ── attendance ──────────────────────────────────────────────────────────────

#[derive(Debug, Clone, Copy, PartialEq, Eq, Structural)]
pub enum AttendanceCode {
    Present,
    Absent,
    Tardy,
    Excused,
}

impl AttendanceCode {
    /// The variant's name, as `{:?}` prints it.
    pub open spec fn spec_label(self) -> Seq<char> {
        match self {
            AttendanceCode::Present => "Present"@,
            AttendanceCode::Absent => "Absent"@,
            AttendanceCode::Tardy => "Tardy"@,
            AttendanceCode::Excused => "Excused"@,
        }
    }

    /// The variant's name, as `{:?}` prints it.
    pub fn label(&self) -> (r: String)
        ensures
            r@ == self.spec_label(),
    {
        match self {
            AttendanceCode::Present => String::from_str("Present"),
            AttendanceCode::Absent => String::from_str("Absent"),
            AttendanceCode::Tardy => String::from_str("Tardy"),
            AttendanceCode::Excused => String::from_str("Excused"),
        }
    }
}

#[derive(Debug)]
pub struct AttendanceRecord {
    pub id: String,
    pub student_id: String,
    pub section_id: Option<String>,
    pub date: Date,
    pub code: AttendanceCode,
    pub note: Option<String>,
}

impl Clone for AttendanceRecord {
    fn clone(&self) -> (r: Self)
        ensures
            r == *self,
    {
        AttendanceRecord {
            id: self.id.clone(),
            student_id: self.student_id.clone(),
            section_id: self.section_id.clone(),
            date: self.date,
            code: self.code,
            note: self.note.clone(),
        }
    }
}

// ── support / interventions ─────────────────────────────────────────────────

#[derive(Debug, Clone, Copy, PartialEq, Eq, Structural)]
pub enum SupportStatus {
    Open,
    InProgress,
    Resolved,
    Closed,
}

impl SupportStatus {
    /// The variant's name, as `{:?}` prints it.
    pub open spec fn spec_label(self) -> Seq<char> {
        match self {
            SupportStatus::Open => "Open"@,
            SupportStatus::InProgress => "InProgress"@,
            SupportStatus::Resolved => "Resolved"@,
            SupportStatus::Closed => "Closed"@,
        }
    }

    /// The variant's name, as `{:?}` prints it.
    pub fn label(&self) -> (r: String)
        ensures
            r@ == self.spec_label(),
    {
        match self {
            SupportStatus::Open => String::from_str("Open"),
            SupportStatus::InProgress => String::from_str("InProgress"),
            SupportStatus::Resolved => String::from_str("Resolved"),
            SupportStatus::Closed => String::from_str("Closed"),
        }
    }
}

#[derive(Debug)]
pub struct SupportCase {
    pub id: String,
    pub student_id: String,
    /// e.g. "academic", "attendance", "behavioral", "wellbeing".
    pub category: String,
    pub summary: String,
    pub status: SupportStatus,
    pub assigned_to: Option<String>,
    pub notes: Vec<CaseNote>,
    pub created_by: String,
    /// Microseconds since the Unix epoch.
    pub created_at: i64,
    /// Microseconds since the Unix epoch.
    pub resolved_at: Option<i64>,
}

impl SupportCase {
    /// Field-by-field equality, the notes compared by their contents.
    pub open spec fn is_copy_of(&self, other: &SupportCase) -> bool {
        &&& self.id == other.id
        &&& self.student_id == other.student_id
        &&& self.category == other.category
        &&& self.summary == other.summary
        &&& self.status == other.status
        &&& self.assigned_to == other.assigned_to
        &&& self.notes@ == other.notes@
        &&& self.created_by == other.created_by
        &&& self.created_at == other.created_at
        &&& self.resolved_at == other.resolved_at
    }
}

impl Clone for SupportCase {
    fn clone(&self) -> (r: Self)
        ensures
            r.is_copy_of(self),
    {
        let notes = self.notes.clone();
        proof {
            assert(notes@ =~= self.notes@);
        }
        SupportCase {
            id: self.id.clone(),
            student_id: self.student_id.clone(),
            category: self.category.clone(),
            summary: self.summary.clone(),
            status: self.status,
            assigned_to: self.assigned_to.clone(),
            notes,
            created_by: self.created_by.clone(),
            created_at: self.created_at,
            resolved_at: self.resolved_at,
        }
    }
}

#[derive(Debug)]
pub struct CaseNote {
    pub id: String,
    pub author: String,
    pub body: String,
    /// Microseconds since the Unix epoch.
    pub created_at: i64,
}

impl Clone for CaseNote {
    fn clone(&self) -> (r: Self)
        ensures
            r == *self,
    {
        CaseNote {
            id: self.id.clone(),
            author: self.author.clone(),
            body: self.body.clone(),
            created_at: self.created_at,
        }
    }
}

// ── guardians & communications ──────────────────────────────────────────────

#[derive(Debug)]
pub struct Guardian {
    pub id: String,
    pub student_id: String,
    pub name: String,
    pub relationship: String,
    /// Opaque contact reference (token), not raw contact details.
    pub contact_ref: String,
    /// FERPA: whether this guardian is authorized to receive records.
    pub consent_on_file: bool,
}

impl Clone for Guardian {
    fn clone(&self) -> (r: Self)
        ensures
            r == *self,
    {
        Guardian {
            id: self.id.clone(),
            student_id: self.student_id.clone(),
            name: self.name.clone(),
            relationship: self.relationship.clone(),
            contact_ref: self.contact_ref.clone(),
            consent_on_file: self.consent_on_file,
        }
    }
}

#[derive(Debug)]
pub struct Communication {
    pub id: String,
    pub student_id: String,
    pub guardian_id: String,
    pub channel: String,
    pub subject: String,
    pub body: String,
    pub sent_by: String,
    /// Microseconds since the Unix epoch.
    pub sent_at: i64,
}

impl Clone for Communication {
    fn clone(&self) -> (r: Self)
        ensures
            r == *self,
    {
        Communication {
            id: self.id.clone(),
            student_id: self.student_id.clone(),
            guardian_id: self.guardian_id.clone(),
            channel: self.channel.clone(),
            subject: self.subject.clone(),
            body: self.body.clone(),
            sent_by: self.sent_by.clone(),
            sent_at: self.sent_at,
        }
    }
}

// ── access log (FERPA accounting) ───────────────────────────────────────────

#[derive(Debug)]
pub struct AccessEntry {
    /// Microseconds since the Unix epoch.
    pub at: i64,
    pub actor: String,
    pub student_id: String,
    pub action: String,
    pub detail: String,
}

impl Clone for AccessEntry {
    fn clone(&self) -> (r: Self)
        ensures
            r == *self,
    {
        AccessEntry {
            at: self.at,
            actor: self.actor.clone(),
            student_id: self.student_id.clone(),
            action: self.action.clone(),
            detail: self.detail.clone(),
        }
    }
}

// ── competency / mastery ────────────────────────────────────────────────────

/// A learning standard / competency in a framework (e.g. CCSS, NGSS, or local).
#[derive(Debug)]
pub struct Competency {
    pub id: String,
    /// Framework code, e.g. "CCSS.MATH.HSA.REI.B.3".
    pub code: String,
    pub subject: String,
    pub description: String,
    /// Prerequisite competency ids (for learning-path sequencing).
    pub prerequisites: Vec<String>,
}

impl Competency {
    /// Field-by-field equality, the prerequisites compared by their contents.
    pub open spec fn is_copy_of(&self, other: &Competency) -> bool {
        &&& self.id == other.id
        &&& self.code == other.code
        &&& self.subject == other.subject
        &&& self.description == other.description
        &&& self.prerequisites@ == other.prerequisites@
    }
}

impl Clone for Competency {
    fn clone(&self) -> (r: Self)
        ensures
            r.is_copy_of(self),
    {
        let prerequisites = self.prerequisites.clone();
        proof {
            assert(prerequisites@ =~= self.prerequisites@);
        }
        Competency {
            id: self.id.clone(),
            code: self.code.clone(),
            subject: self.subject.clone(),
            description: self.description.clone(),
            prerequisites,
        }
    }
}

/// A student's mastery level for a competency.
#[derive(Debug, Clone, Copy, PartialEq, Eq, Structural)]
pub enum MasteryLevel {
    NotStarted,
    Beginning,
    Developing,
    Proficient,
    Advanced,
}

impl MasteryLevel {
    /// The binary64 encoding of the level's 0–1 score: 0, 0.25, 0.5, 0.8
    /// and 1 from `NotStarted` up to `Advanced`.
    pub open spec fn score_bits(self) -> u64 {
        match self {
            MasteryLevel::NotStarted => 0,
            MasteryLevel::Beginning => 0x3fd0_0000_0000_0000,
            MasteryLevel::Developing => 0x3fe0_0000_0000_0000,
            MasteryLevel::Proficient => 0x3fe9_9999_9999_999a,
            MasteryLevel::Advanced => 0x3ff0_0000_0000_0000,
        }
    }

    /// The level's 0–1 score, used for analytics and ordering.
    pub fn score(self) -> (r: Binary64)
        ensures
            r.bits == self.score_bits(),
    {
        match self {
            MasteryLevel::NotStarted => Binary64 { bits: 0 },
            MasteryLevel::Beginning => Binary64 { bits: 0x3fd0_0000_0000_0000 },
            MasteryLevel::Developing => Binary64 { bits: 0x3fe0_0000_0000_0000 },
            MasteryLevel::Proficient => Binary64 { bits: 0x3fe9_9999_9999_999a },
            MasteryLevel::Advanced => Binary64 { bits: 0x3ff0_0000_0000_0000 },
        }
    }

    /// Proficient or better.
    pub open spec fn spec_is_proficient(self) -> bool {
        self is Proficient || self is Advanced
    }

    /// Whether the level counts as proficient (`Proficient` or `Advanced`).
    pub fn is_proficient(self) -> (r: bool)
        ensures
            r == self.spec_is_proficient(),
    {
        match self {
            MasteryLevel::Proficient | MasteryLevel::Advanced => true,
            _ => false,
        }
    }
}

/// A student's mastery record for one competency, updated from evidence.
#[derive(Debug)]
pub struct MasteryRecord {
    pub student_id: String,
    pub competency_id: String,
    pub level: MasteryLevel,
    /// Rolling 0–1 score from evidence.
    pub score: Binary64,
    /// Count of evidence observations.
    pub evidence_count: u32,
    /// Microseconds since the Unix epoch.
    pub updated_at: i64,
}

impl Clone for MasteryRecord {
    fn clone(&self) -> (r: Self)
        ensures
            r == *self,
    {
        MasteryRecord {
            student_id: self.student_id.clone(),
            competency_id: self.competency_id.clone(),
            level: self.level,
            score: self.score,
            evidence_count: self.evidence_count,
            updated_at: self.updated_at,
        }
    }
}

// ── graduation / degree audit / standing / holds ────────────────────────────

/// A graduation/program requirement (credits in a subject area).
#[derive(Debug)]
pub struct GradRequirement {
    pub id: String,
    /// Program this applies to (e.g. "STEM", "default").
    pub program: String,
    pub name: String,
    pub subject: String,
    pub required_credits: Binary64,
}

impl Clone for GradRequirement {
    fn clone(&self) -> (r: Self)
        ensures
            r == *self,
    {
        GradRequirement {
            id: self.id.clone(),
            program: self.program.clone(),
            name: self.name.clone(),
            subject: self.subject.clone(),
            required_credits: self.required_credits,
        }
    }
}

/// Academic standing.
#[derive(Debug, Clone, Copy, PartialEq, Eq, Structural)]
pub enum AcademicStanding {
    HonorRoll,
    GoodStanding,
    AcademicWarning,
    AcademicProbation,
}

/// A registration/records hold on a student account.
#[derive(Debug)]
pub struct Hold {
    pub id: String,
    pub student_id: String,
    /// e.g. "registration", "transcript", "financial".
    pub kind: String,
    pub reason: String,
    pub active: bool,
    pub placed_by: String,
    /// Microseconds since the Unix epoch.
    pub created_at: i64,
    /// Microseconds since the Unix epoch.
    pub released_at: Option<i64>,
}

impl Clone for Hold {
    fn clone(&self) -> (r: Self)
        ensures
            r == *self,
    {
        Hold {
            id: self.id.clone(),
            student_id: self.student_id.clone(),
            kind: self.kind.clone(),
            reason: self.reason.clone(),
            active: self.active,
            placed_by: self.placed_by.clone(),
            created_at: self.created_at,
            released_at: self.released_at,
        }
    }
}

// ── early warning / intervention tiers ──────────────────────────────────────

#[derive(Debug, Clone, Copy, PartialEq, Eq, Structural)]
pub enum FlagStatus {
    Open,
    Acknowledged,
    Resolved,
    Dismissed,
}

/// An early-warning flag/alert raised on a student.
#[derive(Debug)]
pub struct Flag {
    pub id: String,
    pub student_id: String,
    /// e.g. "attendance", "grades", "behavior", "mastery", "composite".
    pub category: String,
    /// "low" | "medium" | "high".
    pub severity: String,
    pub detail: String,
    pub status: FlagStatus,
    pub raised_by: String,
    /// Microseconds since the Unix epoch.
    pub created_at: i64,
}

impl Clone for Flag {
    fn clone(&self) -> (r: Self)
        ensures
            r == *self,
    {
        Flag {
            id: self.id.clone(),
            student_id: self.student_id.clone(),
            category: self.category.clone(),
            severity: self.severity.clone(),
            detail: self.detail.clone(),
            status: self.status,
            raised_by: self.raised_by.clone(),
            created_at: self.created_at,
        }
    }
}

/// MTSS/RTI intervention tier (1 = universal, 3 = intensive).
#[derive(Debug)]
pub struct Intervention {
    pub id: String,
    pub student_id: String,
    pub tier: u8,
    /// e.g. "reading", "math", "attendance", "behavior", "sel".
    pub focus: String,
    pub strategy: String,
    pub active: bool,
    pub assigned_to: Option<String>,
    /// Microseconds since the Unix epoch.
    pub created_at: i64,
    /// Microseconds since the Unix epoch.
    pub ended_at: Option<i64>,
}

impl Clone for Intervention {
    fn clone(&self) -> (r: Self)
        ensures
            r == *self,
    {
        Intervention {
            id: self.id.clone(),
            student_id: self.student_id.clone(),
            tier: self.tier,
            focus: self.focus.clone(),
            strategy: self.strategy.clone(),
            active: self.active,
            assigned_to: self.assigned_to.clone(),
            created_at: self.created_at,
            ended_at: self.ended_at,
        }
    }
}

} // verus!
