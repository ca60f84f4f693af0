//! Further tests of the store: identifiers, searches, errors, orderings and
//! the read-after-write behaviour of its operations.

use mcp_student_records::server::{date, dactor, dcat, dchannel, dcredits, dhold, dsev, dweights};
use mcp_student_records::store::{grade_points, StudentStore};
use mcp_student_records::types::{
    AttendanceCode, Binary64, Date, EnrollmentStatus, MasteryLevel, SupportStatus,
};

fn num(x: f64) -> Binary64 {
    Binary64 { bits: x.to_bits() }
}

fn value(b: Binary64) -> f64 {
    f64::from_bits(b.bits)
}

fn no_weights() -> serde_json::Value {
    serde_json::Value::Object(serde_json::Map::new())
}

#[test]
fn serial_ids_continue_after_seed() {
    let mut s = StudentStore::new();
    let c = s.create_course("BIO1", "Biology", num(1.0), "Science");
    assert_eq!(c.id, "CRS-1010");
    let sec = s.create_section(&c.id, "T", "T", no_weights()).unwrap();
    assert_eq!(sec.id, "SEC-1011");
}

#[test]
fn seeded_records_have_expected_ids() {
    let mut s = StudentStore::new();
    let courses = s.list_courses();
    assert_eq!(courses.len(), 1);
    assert_eq!(courses[0].id, "CRS-1001");
    assert_eq!(courses[0].code, "ALG2");
    let g = s.guardians_for("t", "STU-1001");
    assert_eq!(g.len(), 1);
    assert_eq!(g[0].id, "GRD-1009");
    assert!(g[0].consent_on_file);
}

#[test]
fn set_status_is_read_back_and_logged() {
    let mut s = StudentStore::new();
    let st = s.set_student_status("STU-1002", EnrollmentStatus::Suspended, "registrar").unwrap();
    assert_eq!(st.status, EnrollmentStatus::Suspended);
    assert_eq!(s.get_student("t", "STU-1002").unwrap().status, EnrollmentStatus::Suspended);
    let log = s.access_log_for("STU-1002");
    assert!(log.iter().any(|e| e.action == "set_status" && e.detail == "Suspended" && e.actor == "registrar"));
}

#[test]
fn unknown_records_give_not_found_errors() {
    let mut s = StudentStore::new();
    assert_eq!(s.set_student_status("STU-X", EnrollmentStatus::Active, "a").unwrap_err(), "Student not found: STU-X");
    assert_eq!(s.add_accommodation("STU-X", "IEP", "d", "a").unwrap_err(), "Student not found: STU-X");
    assert_eq!(s.create_section("CRS-X", "T", "T", no_weights()).unwrap_err(), "Course not found: CRS-X");
    assert_eq!(s.create_assignment("SEC-X", "n", "c", num(1.0), None).unwrap_err(), "Section not found: SEC-X");
    assert_eq!(s.add_case_note("SUP-X", "a", "b").unwrap_err(), "Case not found: SUP-X");
    assert_eq!(s.set_case_status("SUP-X", SupportStatus::Open, "a").unwrap_err(), "Case not found: SUP-X");
    assert_eq!(s.send_communication("STU-1001", "GRD-X", "email", "s", "b", "a").unwrap_err(), "Guardian not found: GRD-X");
    assert_eq!(s.record_grade("ASG-X", "STU-1001", num(1.0), vec![], num(0.0), None, "t").unwrap_err(), "Assignment not found: ASG-X");
    assert!(s.get_student("t", "STU-X").is_none());
    assert!(s.get_section("SEC-X").is_none());
    assert!(s.get_case("SUP-X").is_none());
}

#[test]
fn enroll_error_messages() {
    let mut s = StudentStore::new();
    assert_eq!(s.enroll("STU-NOPE", "SEC-1002", "r").unwrap_err(), "Student not found: STU-NOPE");
    assert_eq!(s.enroll("STU-1001", "SEC-NOPE", "r").unwrap_err(), "Section not found: SEC-NOPE");
    // the seed enrolled STU-1001 in SEC-1002
    assert_eq!(s.enroll("STU-1001", "SEC-1002", "r").unwrap_err(), "Already enrolled in this section");
    assert!(s.enroll("STU-1002", "SEC-1002", "r").is_ok());
}

#[test]
fn accommodation_ids_are_random_hex() {
    let mut s = StudentStore::new();
    let a = s.add_accommodation("STU-1001", "IEP", "Reader", "counselor").unwrap();
    assert!(a.id.starts_with("ACC-"));
    assert_eq!(a.id.len(), 12);
    assert!(a.id[4..].chars().all(|c| c.is_ascii_hexdigit() && !c.is_ascii_uppercase()));
    let st = s.get_student("t", "STU-1001").unwrap();
    assert_eq!(st.accommodations.len(), 1);
    assert_eq!(st.accommodations[0].id, a.id);
}

#[test]
fn find_students_by_sis_id_ignores_ascii_case() {
    let mut s = StudentStore::new();
    let r = s.find_students("t", Some("s44821"), None, None);
    assert_eq!(r.len(), 1);
    assert_eq!(r[0].id, "STU-1001");
}

#[test]
fn find_students_by_name_lowercases_both_sides() {
    let mut s = StudentStore::new();
    let r = s.find_students("t", None, Some("DIEG"), None);
    assert_eq!(r.len(), 1);
    assert_eq!(r[0].id, "STU-1002");
    assert!(s.find_students("t", None, Some("nobody"), None).is_empty());
}

#[test]
fn find_students_logs_each_match() {
    let mut s = StudentStore::new();
    let r = s.find_students("auditor", None, None, Some("10"));
    assert_eq!(r.len(), 2);
    for st in &r {
        let log = s.access_log_for(&st.id);
        let last = log.last().unwrap();
        assert_eq!(last.action, "search_student");
        assert_eq!(last.detail, "matched");
        assert_eq!(last.actor, "auditor");
    }
}

#[test]
fn list_courses_sorted_by_code() {
    let mut s = StudentStore::new();
    s.create_course("ZED", "Z", num(1.0), "Z");
    s.create_course("ABC", "A", num(1.0), "A");
    s.create_course("ALG1", "Algebra I", num(1.0), "Mathematics");
    let codes: Vec<String> = s.list_courses().into_iter().map(|c| c.code).collect();
    assert_eq!(codes, vec!["ABC", "ALG1", "ALG2", "ZED"]);
}

#[test]
fn record_grade_replaces_previous_grade() {
    let mut s = StudentStore::new();
    // ASG-1004 is the seeded homework, graded 18/20 for STU-1001
    let g = s.record_grade("ASG-1004", "STU-1001", num(15.0), vec![], num(0.0), None, "t").unwrap();
    assert_eq!(value(g.points_earned), 15.0);
    assert_eq!(value(g.points_possible), 20.0);
    let mine: Vec<_> = s.grades_for_student("t", "STU-1001").into_iter().filter(|g| g.assignment_id == "ASG-1004").collect();
    assert_eq!(mine.len(), 1);
    assert_eq!(value(mine[0].points_earned), 15.0);
}

#[test]
fn record_grade_without_rubric_uses_points() {
    let mut s = StudentStore::new();
    let g = s.record_grade("ASG-1005", "STU-1002", num(64.0), vec![], num(99.0), None, "t").unwrap();
    assert_eq!(value(g.points_earned), 64.0);
}

#[test]
fn gradebook_lists_graded_assignments() {
    let mut s = StudentStore::new();
    let gb = s.gradebook("t", "STU-1001", "SEC-1002").unwrap();
    assert_eq!(gb.section.id, "SEC-1002");
    assert_eq!(gb.items.len(), 2);
    assert_eq!(gb.items[0].assignment, "HW 1");
    assert_eq!(gb.items[0].category, "homework");
    assert_eq!(value(gb.items[0].earned), 18.0);
    assert_eq!(value(gb.items[0].possible), 20.0);
    assert_eq!(gb.items[1].assignment, "Midterm");
    assert_eq!(value(gb.items[1].earned), 82.0);
    assert_eq!(gb.section.grade_weights["homework"].as_f64(), Some(0.3));
    assert!(s.gradebook("t", "STU-1002", "SEC-1002").unwrap().items.is_empty());
    assert!(s.gradebook("t", "STU-1001", "SEC-X").is_none());
}

#[test]
fn grade_points_scale() {
    assert_eq!(grade_points(Some("A")), Some(4));
    assert_eq!(grade_points(Some("  b+ ")), Some(3));
    assert_eq!(grade_points(Some("c")), Some(2));
    assert_eq!(grade_points(Some("D-")), Some(1));
    assert_eq!(grade_points(Some("f")), Some(0));
    assert_eq!(grade_points(Some("E")), None);
    assert_eq!(grade_points(Some("   ")), None);
    assert_eq!(grade_points(None), None);
}

#[test]
fn dates_parse_and_validate() {
    assert_eq!(date(&Some("2026-03-02".to_string())), Some(Date { year: 2026, month: 3, day: 2 }));
    assert_eq!(date(&Some("2026-02-30".to_string())), None);
    assert_eq!(date(&Some("not a date".to_string())), None);
    assert_eq!(date(&None), None);
    assert_eq!(Date::from_ymd_opt(2024, 2, 29), Some(Date { year: 2024, month: 2, day: 29 }));
    assert_eq!(Date::from_ymd_opt(2023, 2, 29), None);
    assert_eq!(Date::from_ymd_opt(2023, 13, 1), None);
}

#[test]
fn transcript_lists_only_completed_courses() {
    let mut s = StudentStore::new();
    assert!(s.transcript("t", "STU-NOPE").is_none());
    let t = s.transcript("t", "STU-1001").unwrap();
    assert_eq!(t.student_id, "STU-1001");
    assert!(t.entries.is_empty());
    assert_eq!(s.access_log_for("STU-1001").last().unwrap().action, "read_transcript");
}

#[test]
fn analytics_basis_and_log() {
    let mut s = StudentStore::new();
    assert!(s.analytics("t", "STU-NOPE").is_none());
    let b = s.analytics("coach", "STU-1001").unwrap();
    assert_eq!(b.scores.len(), 2);
    assert_eq!(value(b.scores[0].earned), 18.0);
    assert_eq!(b.attendance.records, 1);
    assert_eq!(b.attendance.present, 1);
    let log = s.access_log_for("STU-1001");
    let n = log.len();
    assert_eq!(log[n - 2].action, "read_analytics");
    assert_eq!(log[n - 1].action, "read_attendance");
}

#[test]
fn analytics_risk_inputs() {
    let mut s = StudentStore::new();
    let c = s.create_course("SCI1", "Science", num(1.0), "Science");
    let sec = s.create_section(&c.id, "T", "T", no_weights()).unwrap();
    let a = s.create_assignment(&sec.id, "Test", "exams", num(100.0), None).unwrap();
    s.record_grade(&a.id, "STU-1002", num(45.0), vec![], num(0.0), None, "t").unwrap();
    for d in 1..=5 {
        s.record_attendance("STU-1002", None, Date::from_ymd_opt(2026, 3, d).unwrap(), AttendanceCode::Absent, None, "sys").unwrap();
    }
    let b = s.analytics("t", "STU-1002").unwrap();
    assert_eq!(b.attendance.absent, 5);
    assert_eq!(b.attendance.present, 0);
    assert_eq!(b.scores.len(), 1);
    assert_eq!(value(b.scores[0].earned), 45.0);
}

#[test]
fn attendance_counts_each_code() {
    let mut s = StudentStore::new();
    for (d, code) in [(1, AttendanceCode::Tardy), (2, AttendanceCode::Excused), (3, AttendanceCode::Absent)] {
        let r = s.record_attendance("STU-1002", Some("SEC-1002".into()), Date::from_ymd_opt(2026, 4, d).unwrap(), code, None, "sys").unwrap();
        assert_eq!(r.code, code);
    }
    let sum = s.attendance_summary("t", "STU-1002");
    assert_eq!((sum.records, sum.present, sum.absent, sum.tardy), (3, 1, 1, 1));
    assert_eq!(s.record_attendance("STU-X", None, Date { year: 2026, month: 1, day: 1 }, AttendanceCode::Present, None, "s").unwrap_err(), "Student not found: STU-X");
}

#[test]
fn communications_newest_first() {
    let mut s = StudentStore::new();
    let a = s.send_communication("STU-1001", "GRD-1009", "email", "first", "b", "agent").unwrap();
    let b = s.send_communication("STU-1001", "GRD-1009", "sms", "second", "b", "agent").unwrap();
    let list = s.communications_for("t", "STU-1001");
    assert_eq!(list.len(), 2);
    assert!(list[0].sent_at >= list[1].sent_at);
    assert!(list.iter().any(|c| c.id == a.id) && list.iter().any(|c| c.id == b.id));
    let log = s.access_log_for("STU-1001");
    assert!(log.iter().any(|e| e.action == "send_communication" && e.detail == "guardian GRD-1009"));
}

#[test]
fn consent_refusal_messages() {
    let mut s = StudentStore::new();
    let g = s.add_guardian("STU-1002", "P", "father", "ref", false, "reg").unwrap();
    assert_eq!(s.send_communication("STU-1002", &g.id, "email", "s", "b", "a").unwrap_err(), "Cannot send: guardian does not have FERPA consent on file");
    assert_eq!(s.send_communication("STU-1002", "GRD-1009", "email", "s", "b", "a").unwrap_err(), "Guardian is not associated with this student");
    assert!(s.communications_for("t", "STU-1002").is_empty());
}

#[test]
fn cases_newest_first_and_status_rules() {
    let mut s = StudentStore::new();
    let c1 = s.open_case("STU-1002", "attendance", "Absences", None, "teacher").unwrap();
    let c2 = s.open_case("STU-1002", "academic", "Grades", None, "teacher").unwrap();
    assert_eq!(c1.status, SupportStatus::Open);
    let list = s.cases_for("t", "STU-1002");
    assert_eq!(list.len(), 2);
    assert!(list[0].created_at >= list[1].created_at);
    let ip = s.set_case_status(&c2.id, SupportStatus::InProgress, "c").unwrap();
    assert!(ip.resolved_at.is_none());
    let closed = s.set_case_status(&c2.id, SupportStatus::Closed, "c").unwrap();
    assert!(closed.resolved_at.is_some());
    let note = s.add_case_note(&c1.id, "c", "called home").unwrap();
    assert!(note.id.starts_with("CN-") && note.id.len() == 11);
    let log = s.access_log_for("STU-1002");
    assert!(log.iter().any(|e| e.action == "case_status" && e.detail == "InProgress"));
    assert!(log.iter().any(|e| e.action == "case_note" && e.detail == c1.id));
}

#[test]
fn access_log_is_per_student() {
    let mut s = StudentStore::new();
    s.log_access("a", "STU-1002", "custom", "x");
    let log = s.access_log_for("STU-1002");
    assert!(log.iter().all(|e| e.student_id == "STU-1002"));
    let last = log.last().unwrap();
    assert_eq!((last.actor.as_str(), last.action.as_str(), last.detail.as_str()), ("a", "custom", "x"));
    assert!(s.access_log_for("STU-NOBODY").is_empty());
}

#[test]
fn seeded_access_log() {
    let s = StudentStore::new();
    let log = s.access_log_for("STU-1001");
    let actions: Vec<&str> = log.iter().map(|e| e.action.as_str()).collect();
    assert_eq!(actions, vec!["enroll", "record_grade", "record_grade", "record_attendance", "add_guardian"]);
    assert!(s.access_log_for("STU-1002").is_empty());
}

#[test]
fn default_store_is_seeded() {
    let mut s = StudentStore::default();
    assert!(s.student_exists("STU-1001"));
    assert!(s.student_exists("STU-1002"));
    assert!(!s.student_exists("STU-1003"));
    assert_eq!(s.enrollments_for("t", "STU-1001").len(), 1);
    assert!(s.serial_available());
}

#[test]
fn request_defaults() {
    assert_eq!(dactor(), "agent");
    assert_eq!(dcat(), "general");
    assert_eq!(dchannel(), "email");
    assert_eq!(dhold(), "registration");
    assert_eq!(dsev(), "medium");
    assert_eq!(value(dcredits()), 1.0);
}

#[test]
fn mastery_levels_proficiency() {
    assert!(MasteryLevel::Proficient.is_proficient());
    assert!(MasteryLevel::Advanced.is_proficient());
    assert!(!MasteryLevel::Developing.is_proficient());
    assert!(!MasteryLevel::NotStarted.is_proficient());
}

#[test]
fn mastery_level_scores() {
    assert_eq!(value(MasteryLevel::NotStarted.score()), 0.0);
    assert_eq!(value(MasteryLevel::Beginning.score()), 0.25);
    assert_eq!(value(MasteryLevel::Developing.score()), 0.5);
    assert_eq!(value(MasteryLevel::Proficient.score()), 0.8);
    assert_eq!(value(MasteryLevel::Advanced.score()), 1.0);
}

#[test]
fn default_weights_are_an_empty_object() {
    assert_eq!(dweights(), no_weights());
}

#[test]
fn reading_a_case_is_logged() {
    let mut s = StudentStore::new();
    let c = s.open_case("STU-1002", "academic", "Missing work", None, "counselor").unwrap();
    let before = s.access_log_for("STU-1002").len();
    let read = s.read_case("advisor", &c.id).unwrap();
    assert_eq!(read.id, c.id);
    assert_eq!(read.summary, "Missing work");
    let log = s.access_log_for("STU-1002");
    assert_eq!(log.len(), before + 1);
    let last = log.last().unwrap();
    assert_eq!((last.actor.as_str(), last.action.as_str(), last.detail.as_str()), ("advisor", "read_support_case", c.id.as_str()));
    let total = s.access_log_for("STU-1001").len();
    assert!(s.read_case("advisor", "SUP-NOPE").is_none());
    assert_eq!(s.access_log_for("STU-1002").len(), before + 1);
    assert_eq!(s.access_log_for("STU-1001").len(), total);
}

#[test]
fn reading_the_access_log_is_logged_first() {
    let mut s = StudentStore::new();
    let log = s.read_access_log("audit", "STU-1001");
    let actions: Vec<&str> = log.iter().map(|e| e.action.as_str()).collect();
    assert_eq!(actions, vec!["enroll", "record_grade", "record_grade", "record_attendance", "add_guardian", "read_access_log"]);
    let last = log.last().unwrap();
    assert_eq!((last.actor.as_str(), last.detail.as_str()), ("audit", "accounting"));
    assert_eq!(s.access_log_for("STU-1001").len(), 6);
}

#[test]
fn seeded_section_weights() {
    let s = StudentStore::new();
    let sec = s.get_section("SEC-1002").unwrap();
    let w: serde_json::Value = serde_json::from_str("{\"homework\":0.3,\"exams\":0.7}").unwrap();
    assert_eq!(sec.grade_weights, w);
}

#[test]
fn grade_and_guardian_ids_differ() {
    let mut s = StudentStore::new();
    let grades = s.grades_for_student("t", "STU-1001");
    let guardians = s.guardians_for("t", "STU-1001");
    assert_eq!(grades.len(), 2);
    assert_eq!(guardians.len(), 1);
    for g in &grades {
        assert!(g.id.starts_with("GRD-"));
        assert!(guardians.iter().all(|p| p.id != g.id));
    }
    let p = s.add_guardian("STU-1002", "P", "father", "ref:p", true, "reg").unwrap();
    let a = s.create_assignment("SEC-1002", "Quiz", "exams", num(10.0), None).unwrap();
    let g = s.record_grade(&a.id, "STU-1002", num(8.0), vec![], num(0.0), None, "t").unwrap();
    assert_ne!(p.id, g.id);
}

#[test]
fn gradebook_groups_by_category() {
    let mut s = StudentStore::new();
    let sec = s.create_section("CRS-1001", "T", "T", no_weights()).unwrap();
    let q1 = s.create_assignment(&sec.id, "Q1", "quizzes", num(10.0), None).unwrap();
    let h1 = s.create_assignment(&sec.id, "H1", "homework", num(10.0), None).unwrap();
    let q2 = s.create_assignment(&sec.id, "Q2", "quizzes", num(10.0), None).unwrap();
    let _ungraded = s.create_assignment(&sec.id, "P1", "projects", num(10.0), None).unwrap();
    s.record_grade(&q1.id, "STU-1002", num(8.0), vec![], num(0.0), None, "t").unwrap();
    s.record_grade(&h1.id, "STU-1002", num(9.0), vec![], num(0.0), None, "t").unwrap();
    s.record_grade(&q2.id, "STU-1002", num(6.0), vec![], num(0.0), None, "t").unwrap();
    let gb = s.gradebook("t", "STU-1002", &sec.id).unwrap();
    let groups = gb.by_category();
    let cats: Vec<&str> = groups.iter().map(|g| g.category.as_str()).collect();
    assert_eq!(cats, vec!["quizzes", "homework"]);
    let quiz: Vec<&str> = groups[0].items.iter().map(|it| it.assignment.as_str()).collect();
    assert_eq!(quiz, vec!["Q1", "Q2"]);
    assert_eq!(groups[1].items.len(), 1);
    assert_eq!(value(groups[1].items[0].earned), 9.0);
}
