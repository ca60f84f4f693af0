//! Requests that the tool layer accepts, and the defaults of their optional
//! fields.

use crate::external::{iso_date_parse, json_from_text, parse_iso_date, parsed_json};
use crate::types::{
    AttendanceCode, Binary64, Date, EnrollmentStatus, FlagStatus, RubricCriterion, SupportStatus,
};
use vstd::prelude::*;

verus! {

/// Search filters for students; every student-scoped request carries `actor` for access logging.
#[derive(Debug)]
pub struct FindStudentsInput {
    pub actor: String,
    pub sis_id: Option<String>,
    pub name: Option<String>,
    pub grade_level: Option<String>,
}

/// A request about one student.
#[derive(Debug)]
pub struct StudentScopeInput {
    pub actor: String,
    pub student_id: String,
}

/// A change of a student's enrollment status.
#[derive(Debug)]
pub struct SetStatusInput {
    pub actor: String,
    pub student_id: String,
    pub status: EnrollmentStatus,
}

/// A new accommodation for a student.
#[derive(Debug)]
pub struct AddAccommodationInput {
    pub actor: String,
    pub student_id: String,
    pub kind: String,
    pub description: String,
}

/// A new catalog course (credits default to one).
#[derive(Debug)]
pub struct CreateCourseInput {
    pub code: String,
    pub title: String,
    pub credits: Binary64,
    pub subject: String,
}

/// A new section of a course (weights default to none).
#[derive(Debug)]
pub struct CreateSectionInput {
    pub course_id: String,
    pub term: String,
    pub instructor: String,
    pub grade_weights: serde_json::Value,
}

/// An enrollment request.
#[derive(Debug)]
pub struct EnrollInput {
    pub actor: String,
    pub student_id: String,
    pub section_id: String,
}

/// A new assignment (category defaults to "general").
#[derive(Debug)]
pub struct CreateAssignmentInput {
    pub section_id: String,
    pub name: String,
    pub category: String,
    pub points_possible: Binary64,
    pub due_date: Option<String>,
}

/// A grade to record (grader defaults to "agent").
#[derive(Debug)]
pub struct RecordGradeInput {
    pub assignment_id: String,
    pub student_id: String,
    pub points_earned: Binary64,
    pub rubric: Vec<RubricCriterion>,
    pub feedback: Option<String>,
    pub graded_by: String,
}

/// A gradebook request.
#[derive(Debug)]
pub struct GradebookInput {
    pub actor: String,
    pub student_id: String,
    pub section_id: String,
}

/// An attendance entry; the date is written YYYY-MM-DD.
#[derive(Debug)]
pub struct RecordAttendanceInput {
    pub actor: String,
    pub student_id: String,
    pub section_id: Option<String>,
    pub date: String,
    pub code: AttendanceCode,
    pub note: Option<String>,
}

/// A new support case.
#[derive(Debug)]
pub struct OpenCaseInput {
    pub student_id: String,
    pub category: String,
    pub summary: String,
    pub assigned_to: Option<String>,
    pub created_by: String,
}

/// A note on a support case.
#[derive(Debug)]
pub struct CaseNoteInput {
    pub case_id: String,
    pub author: String,
    pub body: String,
}

/// A change of a support case's status.
#[derive(Debug)]
pub struct CaseStatusInput {
    pub case_id: String,
    pub status: SupportStatus,
    pub actor: String,
}

/// A support case id, read on behalf of an actor.
#[derive(Debug)]
pub struct CaseIdInput {
    pub actor: String,
    pub id: String,
}

/// A new guardian of a student (consent defaults to none).
#[derive(Debug)]
pub struct AddGuardianInput {
    pub actor: String,
    pub student_id: String,
    pub name: String,
    pub relationship: String,
    pub contact_ref: String,
    pub consent_on_file: bool,
}

/// A communication to a guardian (channel defaults to "email").
#[derive(Debug)]
pub struct SendCommInput {
    pub student_id: String,
    pub guardian_id: String,
    pub channel: String,
    pub subject: String,
    pub body: String,
    pub sent_by: String,
}

/// A new competency.
#[derive(Debug)]
pub struct AddCompetencyInput {
    pub code: String,
    pub subject: String,
    pub description: String,
    pub prerequisites: Vec<String>,
}

/// A competency listing, optionally by subject.
#[derive(Debug)]
pub struct ListCompetenciesInput {
    pub subject: Option<String>,
}

/// A mastery evidence observation (0–1 score).
#[derive(Debug)]
pub struct MasteryEvidenceInput {
    pub student_id: String,
    pub competency_id: String,
    pub score: Binary64,
    pub actor: String,
}

/// A mastery request about one student.
#[derive(Debug)]
pub struct MasteryScopeInput {
    pub actor: String,
    pub student_id: String,
    pub subject: Option<String>,
}

/// A new graduation requirement.
#[derive(Debug)]
pub struct AddGradReqInput {
    pub program: String,
    pub name: String,
    pub subject: String,
    pub required_credits: Binary64,
}

/// A program name.
#[derive(Debug)]
pub struct ProgramInput {
    pub program: String,
}

/// A new hold (kind defaults to "registration").
#[derive(Debug)]
pub struct PlaceHoldInput {
    pub student_id: String,
    pub kind: String,
    pub reason: String,
    pub placed_by: String,
}

/// A hold to release.
#[derive(Debug)]
pub struct HoldIdInput {
    pub hold_id: String,
    pub actor: String,
}

/// A holds listing for one student.
#[derive(Debug)]
pub struct HoldsScopeInput {
    pub actor: String,
    pub student_id: String,
    pub active_only: bool,
}

/// A new early-warning flag (severity defaults to "medium").
#[derive(Debug)]
pub struct RaiseFlagInput {
    pub student_id: String,
    pub category: String,
    pub severity: String,
    pub detail: String,
    pub raised_by: String,
}

/// A change of a flag's status.
#[derive(Debug)]
pub struct FlagStatusInput {
    pub flag_id: String,
    pub status: FlagStatus,
    pub actor: String,
}

/// A flags listing for one student.
#[derive(Debug)]
pub struct FlagsScopeInput {
    pub actor: String,
    pub student_id: String,
    pub open_only: bool,
}

/// A student and the actor working on them.
#[derive(Debug)]
pub struct StudentActorInput {
    pub student_id: String,
    pub actor: String,
}

/// A new intervention.
#[derive(Debug)]
pub struct AssignInterventionInput {
    pub student_id: String,
    pub tier: u8,
    pub focus: String,
    pub strategy: String,
    pub assigned_to: Option<String>,
    pub actor: String,
}

/// An intervention to end.
#[derive(Debug)]
pub struct InterventionIdInput {
    pub intervention_id: String,
    pub actor: String,
}

/// An interventions listing for one student.
#[derive(Debug)]
pub struct InterventionsScopeInput {
    pub actor: String,
    pub student_id: String,
    pub active_only: bool,
}

/// The actor recorded when a request names none.
pub fn dactor() -> (r: String)
    ensures
        r@ == "agent"@,
{
    String::from_str("agent")
}

/// The default category of assignments, support cases and flags.
pub fn dcat() -> (r: String)
    ensures
        r@ == "general"@,
{
    String::from_str("general")
}

/// The default channel of communications.
pub fn dchannel() -> (r: String)
    ensures
        r@ == "email"@,
{
    String::from_str("email")
}

/// The default kind of holds.
pub fn dhold() -> (r: String)
    ensures
        r@ == "registration"@,
{
    String::from_str("registration")
}

/// The default severity of flags.
pub fn dsev() -> (r: String)
    ensures
        r@ == "medium"@,
{
    String::from_str("medium")
}

/// The default credits of a course: one (binary64 encoding of 1.0).
pub fn dcredits() -> (r: Binary64)
    ensures
        r.bits == 0x3ff0_0000_0000_0000,
{
    Binary64 { bits: 0x3ff0_0000_0000_0000 }
}

/// The default grade weights of a section: the empty JSON object, the value
/// that the text "{}" denotes.
pub fn dweights() -> (r: serde_json::Value)
    ensures
        r == parsed_json("{}"@),
{
    json_from_text("{}")
}

/// The date an optional `YYYY-MM-DD` text names, when it parses.
pub open spec fn date_of(s: Option<Seq<char>>) -> Option<(int, int, int)> {
    match s {
        Some(x) => iso_date_parse(x),
        None => None,
    }
}

/// Parses an optional `YYYY-MM-DD` date; `None` when absent or malformed.
pub fn date(s: &Option<String>) -> (r: Option<Date>)
    ensures
        match r {
            Some(d) => date_of(match s { Some(x) => Some(x@), None => None }) == Some((d.year as int, d.month as int, d.day as int)),
            None => date_of(match s { Some(x) => Some(x@), None => None }) is None,
        },
{
    match s {
        Some(x) => parse_iso_date(x.as_str()),
        None => None,
    }
}

} // verus!
