//! Integration tests for the Student Information System store.

use mcp_student_records::store::StudentStore;
use mcp_student_records::types::{AttendanceCode, Binary64, Date, RubricCriterion, SupportStatus};

fn store() -> StudentStore {
    StudentStore::new()
}

fn num(x: f64) -> Binary64 {
    Binary64 { bits: x.to_bits() }
}

fn value(b: Binary64) -> f64 {
    f64::from_bits(b.bits)
}

fn no_weights() -> serde_json::Value {
    serde_json::Value::Object(serde_json::Map::new())
}

#[test]
fn seeded_students_present() {
    let mut s = store();
    assert!(!s.find_students("t", None, Some("mwangi"), None).is_empty());
}

#[test]
fn ferpa_access_is_logged() {
    let mut s = store();
    s.get_student("ms.carter", "STU-1001");
    s.grades_for_student("ms.carter", "STU-1001");
    let log = s.access_log_for("STU-1001");
    // Our two reads are recorded for this actor (the seed also logged
    // entries from other actors during construction).
    let mine: Vec<_> = log.iter().filter(|e| e.actor == "ms.carter").collect();
    assert!(mine.len() >= 2, "expected >=2 ms.carter entries, got {}", mine.len());
    assert!(mine.iter().any(|e| e.action == "read_student"));
    assert!(mine.iter().any(|e| e.action == "read_grades"));
}

#[test]
fn rubric_grading_sums_criteria() {
    let mut s = store();
    let c = s.create_course("ENG1", "English I", num(1.0), "English");
    let sec = s.create_section(&c.id, "2026-Spring", "Mr. Poe", no_weights()).unwrap();
    let a = s.create_assignment(&sec.id, "Essay", "writing", num(30.0), None).unwrap();
    let rubric = vec![
        RubricCriterion { name: "Thesis".into(), max_points: num(10.0), awarded: Some(num(8.0)), comment: None },
        RubricCriterion { name: "Evidence".into(), max_points: num(10.0), awarded: Some(num(9.0)), comment: None },
        RubricCriterion { name: "Mechanics".into(), max_points: num(10.0), awarded: Some(num(7.0)), comment: None },
    ];
    // The caller sums the awarded points (absent ones counting zero).
    let total: f64 = rubric.iter().map(|c| c.awarded.map(value).unwrap_or(0.0)).sum();
    let g = s.record_grade(&a.id, "STU-1001", num(0.0), rubric, num(total), Some("good work".into()), "Mr. Poe").unwrap();
    assert_eq!(value(g.points_earned), 24.0, "rubric sum = 8+9+7");
}

#[test]
fn attendance_rate() {
    let mut s = store();
    for (d, code) in [(1, AttendanceCode::Present), (2, AttendanceCode::Present), (3, AttendanceCode::Absent), (4, AttendanceCode::Present)] {
        s.record_attendance("STU-1002", None, Date::from_ymd_opt(2026, 3, d).unwrap(), code, None, "sys").unwrap();
    }
    let sum = s.attendance_summary("t", "STU-1002");
    assert_eq!(sum.records, 4);
    let rate = ((sum.present as f64 / sum.records as f64) * 1000.0).round() / 10.0;
    assert!((rate - 75.0).abs() < 0.1);
}

#[test]
fn guardian_comms_ferpa_gated() {
    let mut s = store();
    // Guardian without consent.
    let g = s.add_guardian("STU-1002", "Parent", "father", "ref:p", false, "reg").unwrap();
    assert!(s.send_communication("STU-1002", &g.id, "email", "Hi", "msg", "agent").is_err(), "no consent -> blocked");
    // Grant consent via a consenting guardian.
    let g2 = s.add_guardian("STU-1002", "Parent2", "mother", "ref:p2", true, "reg").unwrap();
    assert!(s.send_communication("STU-1002", &g2.id, "email", "Hi", "msg", "agent").is_ok());
    // Guardian of a different student -> rejected.
    assert!(s.send_communication("STU-1001", &g2.id, "email", "x", "y", "agent").is_err());
}

#[test]
fn support_case_lifecycle() {
    let mut s = store();
    let c = s.open_case("STU-1001", "academic", "Failing math", Some("counselor".into()), "teacher").unwrap();
    s.add_case_note(&c.id, "counselor", "Met with student").unwrap();
    let resolved = s.set_case_status(&c.id, SupportStatus::Resolved, "counselor").unwrap();
    assert_eq!(resolved.status, SupportStatus::Resolved);
    assert!(resolved.resolved_at.is_some());
    assert_eq!(s.get_case(&c.id).unwrap().notes.len(), 1);
}

#[test]
fn enroll_guards() {
    let mut s = store();
    assert!(s.enroll("STU-NOPE", "SEC-NOPE", "r").is_err());
    let c = s.create_course("X", "X", num(1.0), "X");
    let sec = s.create_section(&c.id, "T", "T", no_weights()).unwrap();
    assert!(s.enroll("STU-1001", &sec.id, "r").is_ok());
    // duplicate enroll blocked
    assert!(s.enroll("STU-1001", &sec.id, "r").is_err());
}

#[test]
fn weighted_gradebook() {
    let mut s = store();
    let c = s.create_course("MATH9", "Math", num(1.0), "Mathematics");
    let weights: serde_json::Value = serde_json::from_str("{\"homework\":0.2,\"exams\":0.8}").unwrap();
    let sec = s.create_section(&c.id, "T", "Teacher", weights).unwrap();
    let hw = s.create_assignment(&sec.id, "HW", "homework", num(10.0), None).unwrap();
    let ex = s.create_assignment(&sec.id, "Exam", "exams", num(100.0), None).unwrap();
    s.record_grade(&hw.id, "STU-1001", num(10.0), vec![], num(0.0), None, "t").unwrap(); // 100%
    s.record_grade(&ex.id, "STU-1001", num(70.0), vec![], num(0.0), None, "t").unwrap(); // 70%
    let gb = s.gradebook("t", "STU-1001", &sec.id).unwrap();
    let groups = gb.by_category();
    assert_eq!(groups.len(), 2);
    let w = gb.section.grade_weights.as_object().unwrap();
    let (mut overall, mut wsum) = (0.0, 0.0);
    for g in &groups {
        let avg = g.items.iter().map(|it| value(it.earned) / value(it.possible)).sum::<f64>() / g.items.len() as f64;
        let weight = w.get(&g.category).and_then(|v| v.as_f64()).unwrap_or(1.0);
        overall += avg * weight;
        wsum += weight;
    }
    let pct = overall / wsum;
    let overall_pct = (pct * 1000.0).round() / 10.0;
    // 0.2*100 + 0.8*70 = 76
    assert!((overall_pct - 76.0).abs() < 0.1, "got {}", overall_pct);
    let p = pct * 100.0;
    let letter = if p >= 90.0 { "A" } else if p >= 80.0 { "B" } else if p >= 70.0 { "C" } else if p >= 60.0 { "D" } else { "F" };
    assert_eq!(letter, "C");
}

#[test]
fn analytics_risk_levels() {
    let mut s = store();
    // Low grades + poor attendance -> high risk.
    let c = s.create_course("SCI1", "Science", num(1.0), "Science");
    let sec = s.create_section(&c.id, "T", "T", serde_json::from_str("{}").unwrap()).unwrap();
    let a = s.create_assignment(&sec.id, "Test", "exams", num(100.0), None).unwrap();
    s.record_grade(&a.id, "STU-1002", num(45.0), vec![], num(0.0), None, "t").unwrap();
    for d in 1..=5 {
        s.record_attendance("STU-1002", None, Date::from_ymd_opt(2026, 3, d).unwrap(), AttendanceCode::Absent, None, "sys").unwrap();
    }
    let b = s.analytics("t", "STU-1002").unwrap();
    let rate = if b.attendance.records == 0 { 100.0 } else { ((b.attendance.present as f64 / b.attendance.records as f64) * 1000.0).round() / 10.0 };
    let pcts: Vec<f64> = b.scores.iter().filter(|x| value(x.possible) > 0.0).map(|x| value(x.earned) / value(x.possible)).collect();
    let avg = if pcts.is_empty() { 100.0 } else { pcts.iter().sum::<f64>() / pcts.len() as f64 * 100.0 };
    let avg = (avg * 10.0).round() / 10.0;
    let risk = if avg < 60.0 || rate < 80.0 { "high" } else if avg < 70.0 || rate < 90.0 { "medium" } else { "low" };
    let mut factors = Vec::new();
    if avg < 70.0 {
        factors.push("low_grade_average");
    }
    if rate < 90.0 {
        factors.push("attendance_concern");
    }
    assert_eq!(risk, "high");
    assert!(factors.len() >= 1);
}
