//! In-memory student information store. Every student-scoped operation
//! appends to a FERPA access log.

use crate::external::{
    json_from_text, parsed_json, char_to_uppercase, is_lower_hex, lowercase, now_micros, random_uuid_simple, to_lowercase,
    uppercase_char,
};
use crate::keyed::{
    distinct_keys, lemma_filter_keys, find_key, has_key, key_index, keys_issued, lemma_issued_mono, lemma_key_index,
    lemma_push_fresh, ties_keep_order, Timed, lemma_update_keeps_distinct, disjoint_keys, lemma_disjoint_push_fresh, lemma_disjoint_sub, lemma_update_same_key, newest_first, sort_newest_first, Keyed,
};
use crate::text::{
    find_first_non_whitespace, first_non_whitespace, contains, eq_ignore_ascii_case, eq_ignoring_ascii_case, has_substring, lemma_lex_lt_asymmetric,
    lemma_lex_lt_transitive, lex_less, lex_lt, make_serial_id, serial_id, str_equal,
};
use crate::types::{
    AccessEntry, Accommodation, Assignment, AttendanceCode, AttendanceRecord, Binary64, CaseNote,
    Communication, Course, Date, Enrollment, EnrollmentStatus, Grade, Guardian, RubricCriterion,
    Section, SectionEnrollmentStatus, Student, SupportCase, SupportStatus,
};
use vstd::prelude::*;

verus! {

/// The abstract state of a [`StudentStore`].
pub struct StoreView {
    pub students: Seq<Student>,
    pub courses: Seq<Course>,
    pub sections: Seq<Section>,
    pub enrollments: Seq<Enrollment>,
    pub assignments: Seq<Assignment>,
    pub grades: Seq<Grade>,
    pub attendance: Seq<AttendanceRecord>,
    pub cases: Seq<SupportCase>,
    pub guardians: Seq<Guardian>,
    pub comms: Seq<Communication>,
    /// The access log (accounting of disclosures), oldest entry first.
    pub log: Seq<AccessEntry>,
    /// The last serial number issued to a record identifier.
    pub serial: nat,
}

impl StoreView {
    /// Every kind of record is identified by distinct ids; the ids the store
    /// issues are serial identifiers (`CRS-n`, `SEC-n`, `ENR-n`, `ASG-n`,
    /// `GRD-n`, `ATT-n`, `SUP-n`, `COM-n`) whose numbers never exceed the
    /// last one issued, and no grade shares its id with a guardian (the two
    /// kinds share the `GRD` prefix); at most one grade per assignment and
    /// student; every communication went to a consenting guardian.
    pub open spec fn wf(self) -> bool {
        &&& distinct_keys(self.students)
        &&& distinct_keys(self.courses)
        &&& distinct_keys(self.sections)
        &&& distinct_keys(self.assignments)
        &&& distinct_keys(self.cases)
        &&& distinct_keys(self.guardians)
        &&& distinct_keys(self.enrollments)
        &&& distinct_keys(self.grades)
        &&& distinct_keys(self.attendance)
        &&& distinct_keys(self.comms)
        &&& keys_issued(self.courses, "CRS"@, self.serial)
        &&& keys_issued(self.sections, "SEC"@, self.serial)
        &&& keys_issued(self.assignments, "ASG"@, self.serial)
        &&& keys_issued(self.cases, "SUP"@, self.serial)
        &&& keys_issued(self.guardians, "GRD"@, self.serial)
        &&& keys_issued(self.enrollments, "ENR"@, self.serial)
        &&& keys_issued(self.grades, "GRD"@, self.serial)
        &&& keys_issued(self.attendance, "ATT"@, self.serial)
        &&& keys_issued(self.comms, "COM"@, self.serial)
        &&& one_grade_each(self.grades)
        &&& disjoint_keys(self.grades, self.guardians)
        &&& forall|k: int| 0 <= k < self.comms.len() ==> sent_with_consent(#[trigger] self.comms[k], self.guardians)
    }

    /// Issuing a serial number keeps the store well formed.
    pub proof fn lemma_bump(self)
        requires
            self.wf(),
        ensures
            (StoreView { serial: self.serial + 1, ..self }).wf(),
    {
        lemma_issued_mono(self.courses, "CRS"@, self.serial, self.serial + 1);
        lemma_issued_mono(self.sections, "SEC"@, self.serial, self.serial + 1);
        lemma_issued_mono(self.assignments, "ASG"@, self.serial, self.serial + 1);
        lemma_issued_mono(self.cases, "SUP"@, self.serial, self.serial + 1);
        lemma_issued_mono(self.guardians, "GRD"@, self.serial, self.serial + 1);
        lemma_issued_mono(self.enrollments, "ENR"@, self.serial, self.serial + 1);
        lemma_issued_mono(self.grades, "GRD"@, self.serial, self.serial + 1);
        lemma_issued_mono(self.attendance, "ATT"@, self.serial, self.serial + 1);
        lemma_issued_mono(self.comms, "COM"@, self.serial, self.serial + 1);
    }
}

/// The kinds of record whose ids the store issues from its serial counter.
pub enum RecordKind {
    Course,
    Section,
    Enrollment,
    Assignment,
    Grade,
    Attendance,
    Case,
    Guardian,
    Communication,
}

/// The prefix of the serial ids issued to records of a kind.
pub open spec fn issuing_prefix(kind: RecordKind) -> Seq<char> {
    match kind {
        RecordKind::Course => "CRS"@,
        RecordKind::Section => "SEC"@,
        RecordKind::Enrollment => "ENR"@,
        RecordKind::Assignment => "ASG"@,
        RecordKind::Grade => "GRD"@,
        RecordKind::Attendance => "ATT"@,
        RecordKind::Case => "SUP"@,
        RecordKind::Guardian => "GRD"@,
        RecordKind::Communication => "COM"@,
    }
}

/// The ids of the store's records of a kind, in store order.
pub open spec fn ids_of(v: StoreView, kind: RecordKind) -> Seq<Seq<char>> {
    match kind {
        RecordKind::Course => v.courses.map_values(|r: Course| r.key()),
        RecordKind::Section => v.sections.map_values(|r: Section| r.key()),
        RecordKind::Enrollment => v.enrollments.map_values(|r: Enrollment| r.key()),
        RecordKind::Assignment => v.assignments.map_values(|r: Assignment| r.key()),
        RecordKind::Grade => v.grades.map_values(|r: Grade| r.key()),
        RecordKind::Attendance => v.attendance.map_values(|r: AttendanceRecord| r.key()),
        RecordKind::Case => v.cases.map_values(|r: SupportCase| r.key()),
        RecordKind::Guardian => v.guardians.map_values(|r: Guardian| r.key()),
        RecordKind::Communication => v.comms.map_values(|r: Communication| r.key()),
    }
}

/// No two grades are for the same assignment and student.
pub open spec fn one_grade_each(grades: Seq<Grade>) -> bool {
    forall|i: int, j: int|
        0 <= i < grades.len() && 0 <= j < grades.len() && i != j ==> !same_pair(#[trigger] grades[i], #[trigger] grades[j])
}

/// Two grades for the same assignment and student.
pub open spec fn same_pair(a: Grade, b: Grade) -> bool {
    a.assignment_id@ == b.assignment_id@ && a.student_id@ == b.student_id@
}

/// A grade for `assignment_id` and `student_id`.
pub open spec fn grade_is_for(g: Grade, assignment_id: Seq<char>, student_id: Seq<char>) -> bool {
    g.assignment_id@ == assignment_id && g.student_id@ == student_id
}

/// Some grade in `grades` is for this assignment and student.
pub open spec fn has_grade(grades: Seq<Grade>, assignment_id: Seq<char>, student_id: Seq<char>) -> bool {
    exists|i: int| 0 <= i < grades.len() && grade_is_for(#[trigger] grades[i], assignment_id, student_id)
}

/// The grade for this assignment and student (meaningful under `has_grade`).
pub open spec fn grade_of(grades: Seq<Grade>, assignment_id: Seq<char>, student_id: Seq<char>) -> Grade {
    grades[choose|i: int| 0 <= i < grades.len() && grade_is_for(#[trigger] grades[i], assignment_id, student_id)]
}

/// The communication went to a guardian of its student who has FERPA consent
/// on file.
pub open spec fn sent_with_consent(c: Communication, guardians: Seq<Guardian>) -> bool {
    exists|i: int|
        0 <= i < guardians.len() && (#[trigger] guardians[i]).id@ == c.guardian_id@
            && guardians[i].student_id@ == c.student_id@ && guardians[i].consent_on_file
}

/// An access-log entry records `actor` doing `action` on `student_id`, with
/// `detail`.
pub open spec fn entry_is(
    e: AccessEntry,
    actor: Seq<char>,
    student_id: Seq<char>,
    action: Seq<char>,
    detail: Seq<char>,
) -> bool {
    &&& e.actor@ == actor
    &&& e.student_id@ == student_id
    &&& e.action@ == action
    &&& e.detail@ == detail
}

/// `new_log` is `old_log` with one more entry, as described, at its end.
pub open spec fn logged(
    old_log: Seq<AccessEntry>,
    new_log: Seq<AccessEntry>,
    actor: Seq<char>,
    student_id: Seq<char>,
    action: Seq<char>,
    detail: Seq<char>,
) -> bool {
    &&& new_log.len() == old_log.len() + 1
    &&& new_log.drop_last() == old_log
    &&& entry_is(new_log.last(), actor, student_id, action, detail)
}

/// The log entries about `student_id`, in log order.
pub open spec fn entries_for(log: Seq<AccessEntry>, student_id: Seq<char>) -> Seq<AccessEntry> {
    log.filter(|e: AccessEntry| e.student_id@ == student_id)
}

/// The view of an optional string argument.
pub open spec fn opt_view(o: Option<&str>) -> Option<Seq<char>> {
    match o {
        Some(x) => Some(x@),
        None => None,
    }
}

/// The search filters of `find_students`: the SIS id equal up to ASCII case,
/// the name a substring of the family or given name once both are lower-cased,
/// the grade level equal. An absent filter accepts every student.
pub open spec fn student_matches(
    s: Student,
    sis_id: Option<Seq<char>>,
    name: Option<Seq<char>>,
    grade_level: Option<Seq<char>>,
) -> bool {
    &&& (sis_id matches Some(x) ==> eq_ignoring_ascii_case(s.sis_id@, x))
    &&& (name matches Some(n) ==> (has_substring(lowercase(s.family_name@), lowercase(n))
        || has_substring(lowercase(s.given_name@), lowercase(n))))
    &&& (grade_level matches Some(g) ==> s.grade_level@ == g)
}

/// `new_log` is `old_log` followed by one `search_student` entry per found
/// student, in order.
pub open spec fn logged_matches(
    old_log: Seq<AccessEntry>,
    new_log: Seq<AccessEntry>,
    actor: Seq<char>,
    found: Seq<Student>,
) -> bool {
    &&& new_log.len() == old_log.len() + found.len()
    &&& new_log.take(old_log.len() as int) == old_log
    &&& forall|k: int|
        0 <= k < found.len() ==> entry_is(
            #[trigger] new_log[old_log.len() + k],
            actor,
            found[k].id@,
            "search_student"@,
            "matched"@,
        )
}

/// The message of a lookup that found nothing.
pub open spec fn not_found(what: Seq<char>, id: Seq<char>) -> Seq<char> {
    what + " not found: "@ + id
}

fn not_found_message(what: &str, id: &str) -> (r: String)
    ensures
        r@ == not_found(what@, id@),
{
    let mut s = String::from_str(what);
    s.append(" not found: ");
    s.append(id);
    s
}

/// A random identifier: `prefix` followed by eight lower-case hexadecimal
/// digits (`ACC-` for accommodations, `CN-` for case notes).
pub open spec fn is_random_id(id: Seq<char>, prefix: Seq<char>) -> bool {
    &&& id.len() == prefix.len() + 8
    &&& id.take(prefix.len() as int) == prefix
    &&& forall|j: int| prefix.len() <= j < id.len() ==> is_lower_hex(#[trigger] id[j])
}

/// `prefix` followed by the first eight digits of a fresh random UUID.
fn random_id(prefix: &str) -> (r: String)
    ensures
        is_random_id(r@, prefix@),
{
    let u = random_uuid_simple();
    proof {
        assert forall|i: int| 0 <= i < u@.len() implies (#[trigger] u@[i]) as u32 <= 127 by {
            assert(is_lower_hex(u@[i]));
        }
    }
    assert(u.is_ascii());
    let head = u.as_str().substring_ascii(0, 8);
    let mut s = String::from_str(prefix);
    s.append(head);
    assert(s@ =~= prefix@ + u@.subrange(0, 8));
    assert(s@.take(prefix@.len() as int) =~= prefix@);
    s
}

/// In-memory Student Information System store.
pub struct StudentStore {
    students: Vec<Student>,
    courses: Vec<Course>,
    sections: Vec<Section>,
    enrollments: Vec<Enrollment>,
    assignments: Vec<Assignment>,
    grades: Vec<Grade>,
    attendance: Vec<AttendanceRecord>,
    cases: Vec<SupportCase>,
    guardians: Vec<Guardian>,
    comms: Vec<Communication>,
    access_log: Vec<AccessEntry>,
    seq: u64,
}

impl View for StudentStore {
    type V = StoreView;

    closed spec fn view(&self) -> StoreView {
        StoreView {
            students: self.students@,
            courses: self.courses@,
            sections: self.sections@,
            enrollments: self.enrollments@,
            assignments: self.assignments@,
            grades: self.grades@,
            attendance: self.attendance@,
            cases: self.cases@,
            guardians: self.guardians@,
            comms: self.comms@,
            log: self.access_log@,
            serial: self.seq as nat,
        }
    }
}

impl StudentStore {
    /// Whether another serial identifier can still be issued.
    pub open spec fn can_issue(&self) -> bool {
        self@.serial < u64::MAX
    }

    /// Whether another serial identifier can still be issued.
    pub fn serial_available(&self) -> (r: bool)
        ensures
            r == self.can_issue(),
    {
        self.seq < u64::MAX
    }

    /// Issues the next serial identifier `prefix-n`.
    fn next(&mut self, prefix: &str) -> (r: String)
        requires
            old(self).can_issue(),
        ensures
            final(self)@ == (StoreView { serial: old(self)@.serial + 1, ..old(self)@ }),
            r@ == serial_id(prefix@, final(self)@.serial),
    {
        self.seq = self.seq + 1;
        make_serial_id(prefix, self.seq)
    }

    /// Appends an entry to the access log.
    pub fn log_access(&mut self, actor: &str, student_id: &str, action: &str, detail: &str)
        ensures
            final(self)@ == (StoreView { log: final(self)@.log, ..old(self)@ }),
            logged(old(self)@.log, final(self)@.log, actor@, student_id@, action@, detail@),
    {
        let e = AccessEntry {
            at: now_micros(),
            actor: String::from_str(actor),
            student_id: String::from_str(student_id),
            action: String::from_str(action),
            detail: String::from_str(detail),
        };
        self.access_log.push(e);
        assert(self.access_log@.drop_last() =~= old(self).access_log@);
    }

    /// The access log entries about a student, oldest first.
    pub fn access_log_for(&self, student_id: &str) -> (r: Vec<AccessEntry>)
        ensures
            r@ == entries_for(self@.log, student_id@),
    {
        let mut r: Vec<AccessEntry> = Vec::new();
        let mut i: usize = 0;
        while i < self.access_log.len()
            invariant
                i <= self.access_log@.len(),
                r@ == entries_for(self.access_log@.take(i as int), student_id@),
            decreases self.access_log.len() - i,
        {
            proof {
                reveal_with_fuel(Seq::filter, 1);
                assert(self.access_log@.take(i + 1).drop_last() =~= self.access_log@.take(i as int));
            }
            if str_equal(self.access_log[i].student_id.as_str(), student_id) {
                r.push(self.access_log[i].clone());
            }
            i = i + 1;
        }
        assert(self.access_log@.take(i as int) =~= self.access_log@);
        r
    }

    /// The student's access log, read on behalf of `actor`: the read is
    /// itself logged first, as `read_access_log` with detail `accounting`,
    /// and the result is every entry about the student, that one last.
    pub fn read_access_log(&mut self, actor: &str, student_id: &str) -> (r: Vec<AccessEntry>)
        ensures
            final(self)@ == (StoreView { log: final(self)@.log, ..old(self)@ }),
            logged(old(self)@.log, final(self)@.log, actor@, student_id@, "read_access_log"@, "accounting"@),
            r@ == entries_for(final(self)@.log, student_id@),
            r@ == entries_for(old(self)@.log, student_id@).push(final(self)@.log.last()),
    {
        self.log_access(actor, student_id, "read_access_log", "accounting");
        proof {
            reveal_with_fuel(Seq::filter, 1);
            assert(self@.log.drop_last() == old(self)@.log);
        }
        self.access_log_for(student_id)
    }

    /// Whether a student with this id exists.
    pub fn student_exists(&self, id: &str) -> (r: bool)
        ensures
            r == has_key(self@.students, id@),
    {
        find_key(&self.students, id).is_some()
    }
}

} // verus!

verus! {

impl StudentStore {
    // ── students ────────────────────────────────────────────────────────────

    /// A student's record, logged as a `read_student` access when found.
    pub fn get_student(&mut self, actor: &str, id: &str) -> (r: Option<Student>)
        requires
            old(self)@.wf(),
        ensures
            final(self)@.wf(),
            has_key(old(self)@.students, id@) ==> {
                &&& r matches Some(s) && s.is_copy_of(
                    &old(self)@.students[key_index(old(self)@.students, id@)],
                )
                &&& final(self)@ == (StoreView { log: final(self)@.log, ..old(self)@ })
                &&& logged(old(self)@.log, final(self)@.log, actor@, id@, "read_student"@, "demographics"@)
            },
            !has_key(old(self)@.students, id@) ==> r is None && final(self)@ == old(self)@,
    {
        match find_key(&self.students, id) {
            Some(i) => {
                let s = self.students[i].clone();
                proof {
                    lemma_key_index(self.students@, id@, i as int);
                }
                self.log_access(actor, id, "read_student", "demographics");
                Some(s)
            },
            None => None,
        }
    }

    /// The students that pass every given filter, in store order; one
    /// `search_student` access is logged per student found.
    pub fn find_students(
        &mut self,
        actor: &str,
        sis_id: Option<&str>,
        name: Option<&str>,
        grade_level: Option<&str>,
    ) -> (r: Vec<Student>)
        requires
            old(self)@.wf(),
        ensures
            final(self)@.wf(),
            r@.len() == old(self)@.students.filter(
                |s: Student| student_matches(s, opt_view(sis_id), opt_view(name), opt_view(grade_level)),
            ).len(),
            forall|k: int|
                0 <= k < r@.len() ==> (#[trigger] r@[k]).is_copy_of(
                    &old(self)@.students.filter(
                        |s: Student| student_matches(s, opt_view(sis_id), opt_view(name), opt_view(grade_level)),
                    )[k],
                ),
            final(self)@ == (StoreView { log: final(self)@.log, ..old(self)@ }),
            logged_matches(old(self)@.log, final(self)@.log, actor@, r@),
    {
        let ghost pred = |s: Student| student_matches(s, opt_view(sis_id), opt_view(name), opt_view(grade_level));
        let name_l: Option<String> = match name {
            Some(n) => Some(to_lowercase(n)),
            None => None,
        };
        let mut out: Vec<Student> = Vec::new();
        let mut i: usize = 0;
        while i < self.students.len()
            invariant
                i <= self.students@.len(),
                name is Some <==> name_l is Some,
                name matches Some(n) ==> name_l->0@ == lowercase(n@),
                pred == (|s: Student| student_matches(s, opt_view(sis_id), opt_view(name), opt_view(grade_level))),
                out@.len() == self.students@.take(i as int).filter(pred).len(),
                forall|k: int|
                    0 <= k < out@.len() ==> (#[trigger] out@[k]).is_copy_of(
                        &self.students@.take(i as int).filter(pred)[k],
                    ),
            decreases self.students.len() - i,
        {
            let s = &self.students[i];
            let ok_sis = match sis_id {
                Some(x) => eq_ignore_ascii_case(s.sis_id.as_str(), x),
                None => true,
            };
            let ok_name = match &name_l {
                Some(n) => {
                    let fam = to_lowercase(s.family_name.as_str());
                    let giv = to_lowercase(s.given_name.as_str());
                    contains(fam.as_str(), n.as_str()) || contains(giv.as_str(), n.as_str())
                },
                None => true,
            };
            let ok_grade = match grade_level {
                Some(g) => str_equal(s.grade_level.as_str(), g),
                None => true,
            };
            proof {
                reveal_with_fuel(Seq::filter, 1);
                assert(self.students@.take(i + 1).drop_last() =~= self.students@.take(i as int));
                assert((ok_sis && ok_name && ok_grade) == pred(self.students@[i as int]));
            }
            if ok_sis && ok_name && ok_grade {
                out.push(s.clone());
            }
            i = i + 1;
        }
        assert(self.students@.take(i as int) =~= self.students@);
        let ghost log0 = self.access_log@;
        let ghost st0 = self@;
        let mut k: usize = 0;
        while k < out.len()
            invariant
                k <= out@.len(),
                self@ == (StoreView { log: self@.log, ..st0 }),
                self@.log.len() == log0.len() + k,
                self@.log.take(log0.len() as int) == log0,
                forall|j: int|
                    0 <= j < k ==> entry_is(
                        #[trigger] self@.log[log0.len() + j],
                        actor@,
                        out@[j].id@,
                        "search_student"@,
                        "matched"@,
                    ),
            decreases out.len() - k,
        {
            let ghost before = self@.log;
            self.log_access(actor, out[k].id.as_str(), "search_student", "matched");
            proof {
                assert(self@.log.drop_last() == before);
                assert forall|j: int| 0 <= j < k + 1 implies entry_is(
                    #[trigger] self@.log[log0.len() + j],
                    actor@,
                    out@[j].id@,
                    "search_student"@,
                    "matched"@,
                ) by {
                    if j < k {
                        assert(self@.log[log0.len() + j] == before[log0.len() + j]);
                    }
                }
                assert(self@.log.take(log0.len() as int) =~= log0) by {
                    assert(before.take(log0.len() as int) == log0);
                }
            }
            k = k + 1;
        }
        out
    }

    /// Sets a student's enrollment status, logged as `set_status`.
    pub fn set_student_status(&mut self, id: &str, status: EnrollmentStatus, actor: &str) -> (r: Result<Student, String>)
        requires
            old(self)@.wf(),
        ensures
            final(self)@.wf(),
            has_key(old(self)@.students, id@) ==> {
                let i = key_index(old(self)@.students, id@);
                let s = final(self)@.students[i];
                &&& final(self)@ == (StoreView {
                    students: old(self)@.students.update(i, s),
                    log: final(self)@.log,
                    ..old(self)@
                })
                &&& s == (Student { status, updated_at: s.updated_at, ..old(self)@.students[i] })
                &&& r matches Ok(c) && c.is_copy_of(&s)
                &&& logged(old(self)@.log, final(self)@.log, actor@, id@, "set_status"@, status.spec_label())
            },
            !has_key(old(self)@.students, id@) ==> {
                &&& r matches Err(e) && e@ == not_found("Student"@, id@)
                &&& final(self)@ == old(self)@
            },
    {
        match find_key(&self.students, id) {
            Some(i) => {
                proof {
                    lemma_key_index(self.students@, id@, i as int);
                }
                let now = now_micros();
                self.students[i].status = status;
                self.students[i].updated_at = now;
                proof {
                    lemma_update_keeps_distinct(old(self).students@, i as int, self.students@[i as int]);
                    assert(self.students@ == old(self).students@.update(i as int, self.students@[i as int]));
                }
                let label = status.label();
                self.log_access(actor, id, "set_status", label.as_str());
                Ok(self.students[i].clone())
            },
            None => Err(not_found_message("Student", id)),
        }
    }

    /// Adds an active accommodation, with a fresh random id, to a student;
    /// logged as `add_accommodation`.
    pub fn add_accommodation(&mut self, id: &str, kind: &str, description: &str, actor: &str) -> (r: Result<Accommodation, String>)
        requires
            old(self)@.wf(),
        ensures
            final(self)@.wf(),
            has_key(old(self)@.students, id@) ==> {
                let i = key_index(old(self)@.students, id@);
                let s = final(self)@.students[i];
                let old_s = old(self)@.students[i];
                &&& final(self)@ == (StoreView {
                    students: old(self)@.students.update(i, s),
                    log: final(self)@.log,
                    ..old(self)@
                })
                &&& r matches Ok(a) && {
                    &&& is_random_id(a.id@, "ACC-"@)
                    &&& a.kind@ == kind@
                    &&& a.description@ == description@
                    &&& a.active
                    &&& s.accommodations@ == old_s.accommodations@.push(a)
                }
                &&& s.is_copy_of(&Student { accommodations: s.accommodations, updated_at: s.updated_at, ..old_s })
                &&& logged(old(self)@.log, final(self)@.log, actor@, id@, "add_accommodation"@, kind@)
            },
            !has_key(old(self)@.students, id@) ==> {
                &&& r matches Err(e) && e@ == not_found("Student"@, id@)
                &&& final(self)@ == old(self)@
            },
    {
        match find_key(&self.students, id) {
            Some(i) => {
                proof {
                    lemma_key_index(self.students@, id@, i as int);
                }
                let a = Accommodation {
                    id: random_id("ACC-"),
                    kind: String::from_str(kind),
                    description: String::from_str(description),
                    active: true,
                };
                let now = now_micros();
                self.students[i].accommodations.push(a.clone());
                self.students[i].updated_at = now;
                proof {
                    lemma_update_keeps_distinct(old(self).students@, i as int, self.students@[i as int]);
                    assert(self.students@ == old(self).students@.update(i as int, self.students@[i as int]));
                }
                self.log_access(actor, id, "add_accommodation", kind);
                Ok(a)
            },
            None => Err(not_found_message("Student", id)),
        }
    }
}

} // verus!

verus! {

/// Courses in non-decreasing order of code.
pub open spec fn sorted_by_code(s: Seq<Course>) -> bool {
    forall|a: int, b: int| 0 <= a < b < s.len() ==> !lex_lt((#[trigger] s[b]).code@, (#[trigger] s[a]).code@)
}

/// An enrollment of `student_id` in `section_id` that is still active.
pub open spec fn is_active_enrollment(e: Enrollment, student_id: Seq<char>, section_id: Seq<char>) -> bool {
    &&& e.student_id@ == student_id
    &&& e.section_id@ == section_id
    &&& e.status == SectionEnrollmentStatus::Enrolled
}

/// The student already holds an active enrollment in the section.
pub open spec fn already_enrolled(enrollments: Seq<Enrollment>, student_id: Seq<char>, section_id: Seq<char>) -> bool {
    exists|i: int| 0 <= i < enrollments.len() && is_active_enrollment(#[trigger] enrollments[i], student_id, section_id)
}

impl StudentStore {
    // ── courses / sections ──────────────────────────────────────────────────

    /// Adds a course to the catalog under a fresh `CRS-n` id.
    pub fn create_course(&mut self, code: &str, title: &str, credits: Binary64, subject: &str) -> (r: Course)
        requires
            old(self)@.wf(),
            old(self).can_issue(),
        ensures
            final(self)@.wf(),
            final(self)@ == (StoreView {
                courses: old(self)@.courses.push(r),
                serial: old(self)@.serial + 1,
                ..old(self)@
            }),
            r.id@ == serial_id("CRS"@, old(self)@.serial + 1),
            r.code@ == code@,
            r.title@ == title@,
            r.credits == credits,
            r.subject@ == subject@,
    {
        let ghost v0 = self@;
        let id = self.next("CRS");
        let c = Course {
            id,
            code: String::from_str(code),
            title: String::from_str(title),
            credits,
            subject: String::from_str(subject),
        };
        proof {
            v0.lemma_bump();
            lemma_push_fresh(v0.courses, "CRS"@, v0.serial, c);
        }
        self.courses.push(c.clone());
        c
    }

    /// Adds a section (offering) of an existing course under a fresh `SEC-n`
    /// id; refused when the course does not exist.
    pub fn create_section(
        &mut self,
        course_id: &str,
        term: &str,
        instructor: &str,
        grade_weights: serde_json::Value,
    ) -> (r: Result<Section, String>)
        requires
            old(self)@.wf(),
            has_key(old(self)@.courses, course_id@) ==> old(self).can_issue(),
        ensures
            final(self)@.wf(),
            has_key(old(self)@.courses, course_id@) ==> (r matches Ok(s) && {
                &&& final(self)@ == (StoreView {
                    sections: old(self)@.sections.push(s),
                    serial: old(self)@.serial + 1,
                    ..old(self)@
                })
                &&& s.id@ == serial_id("SEC"@, old(self)@.serial + 1)
                &&& s.course_id@ == course_id@
                &&& s.term@ == term@
                &&& s.instructor@ == instructor@
                &&& s.grade_weights == grade_weights
            }),
            !has_key(old(self)@.courses, course_id@) ==> {
                &&& r matches Err(e) && e@ == not_found("Course"@, course_id@)
                &&& final(self)@ == old(self)@
            },
    {
        if find_key(&self.courses, course_id).is_none() {
            return Err(not_found_message("Course", course_id));
        }
        let ghost v0 = self@;
        let id = self.next("SEC");
        let s = Section {
            id,
            course_id: String::from_str(course_id),
            term: String::from_str(term),
            instructor: String::from_str(instructor),
            grade_weights,
            created_at: now_micros(),
        };
        proof {
            v0.lemma_bump();
            lemma_push_fresh(v0.sections, "SEC"@, v0.serial, s);
        }
        self.sections.push(s.clone());
        Ok(s)
    }

    /// The section with this id.
    pub fn get_section(&self, id: &str) -> (r: Option<Section>)
        requires
            self@.wf(),
        ensures
            has_key(self@.sections, id@) ==> r == Some(self@.sections[key_index(self@.sections, id@)]),
            !has_key(self@.sections, id@) ==> r is None,
    {
        match find_key(&self.sections, id) {
            Some(i) => {
                proof {
                    lemma_key_index(self.sections@, id@, i as int);
                }
                Some(self.sections[i].clone())
            },
            None => None,
        }
    }

    /// The catalog, ordered by course code: every course exactly once, in
    /// non-decreasing order of code.
    pub fn list_courses(&self) -> (r: Vec<Course>)
        requires
            self@.wf(),
        ensures
            r@.len() == self@.courses.len(),
            distinct_keys(r@),
            forall|k: int| 0 <= k < r@.len() ==> self@.courses.contains(#[trigger] r@[k]),
            sorted_by_code(r@),
    {
        let mut r: Vec<Course> = Vec::new();
        let mut i: usize = 0;
        while i < self.courses.len()
            invariant
                i <= self.courses@.len(),
                distinct_keys(self.courses@),
                r@.len() == i,
                distinct_keys(r@),
                forall|k: int| 0 <= k < r@.len() ==> self.courses@.take(i as int).contains(#[trigger] r@[k]),
                sorted_by_code(r@),
            decreases self.courses.len() - i,
        {
            let c = self.courses[i].clone();
            // first position whose code is strictly greater
            let mut j: usize = 0;
            while j < r.len() && !lex_less(c.code.as_str(), r[j].code.as_str())
                invariant
                    j <= r@.len(),
                    forall|k: int| 0 <= k < j ==> !lex_lt(c.code@, (#[trigger] r@[k]).code@),
                decreases r.len() - j,
            {
                j = j + 1;
            }
            let ghost before = r@;
            proof {
                assert forall|k: int| 0 <= k < before.len() implies (#[trigger] before[k]).key() != c.key() by {
                    let m = choose|m: int| 0 <= m < i && self.courses@[m] == before[k];
                    assert(self.courses@.take(i as int)[m] == before[k]);
                }
                assert forall|k: int| j <= k < before.len() implies !lex_lt((#[trigger] before[k]).code@, c.code@) by {
                    lemma_lex_lt_asymmetric(c.code@, before[j as int].code@);
                    if lex_lt(before[k].code@, c.code@) {
                        lemma_lex_lt_transitive(before[k].code@, c.code@, before[j as int].code@);
                    }
                }
            }
            r.insert(j, c);
            proof {
                let t = r@;
                assert(t == before.insert(j as int, c));
                assert forall|a: int, b: int| 0 <= a < t.len() && 0 <= b < t.len() && a != b implies (#[trigger] t[a]).key() != (#[trigger] t[b]).key() by {
                    let aa = if a < j { a } else { a - 1 };
                    let bb = if b < j { b } else { b - 1 };
                    if a != j && b != j {
                        assert(t[a] == before[aa] && t[b] == before[bb]);
                    } else if a == j {
                        assert(t[b] == before[bb]);
                    } else {
                        assert(t[a] == before[aa]);
                    }
                }
                assert forall|k: int| 0 <= k < t.len() implies self.courses@.take(i + 1).contains(#[trigger] t[k]) by {
                    if k == j {
                        assert(self.courses@.take(i + 1)[i as int] == c);
                    } else {
                        let kk = if k < j { k } else { k - 1 };
                        assert(t[k] == before[kk]);
                        let m = choose|m: int| 0 <= m < i && self.courses@.take(i as int)[m] == before[kk];
                        assert(self.courses@.take(i + 1)[m] == before[kk]);
                    }
                }
                assert forall|a: int, b: int| 0 <= a < b < t.len() implies !lex_lt((#[trigger] t[b]).code@, (#[trigger] t[a]).code@) by {
                    let aa = if a < j { a } else { a - 1 };
                    let bb = if b < j { b } else { b - 1 };
                    if a != j && b != j {
                        assert(t[a] == before[aa] && t[b] == before[bb]);
                    } else if a == j {
                        assert(t[b] == before[bb]);
                    } else {
                        assert(t[a] == before[aa]);
                    }
                }
            }
            i = i + 1;
        }
        assert(self.courses@.take(i as int) =~= self.courses@);
        r
    }

    // ── enrollments ─────────────────────────────────────────────────────────

    /// Enrolls a student in a section under a fresh `ENR-n` id, logged as
    /// `enroll`. Refused when the student or the section does not exist, or
    /// when the student is already actively enrolled in the section.
    pub fn enroll(&mut self, student_id: &str, section_id: &str, actor: &str) -> (r: Result<Enrollment, String>)
        requires
            old(self)@.wf(),
            has_key(old(self)@.students, student_id@) && has_key(old(self)@.sections, section_id@)
                && !already_enrolled(old(self)@.enrollments, student_id@, section_id@) ==> old(self).can_issue(),
        ensures
            final(self)@.wf(),
            !has_key(old(self)@.students, student_id@) ==> {
                &&& r matches Err(e) && e@ == not_found("Student"@, student_id@)
                &&& final(self)@ == old(self)@
            },
            has_key(old(self)@.students, student_id@) && !has_key(old(self)@.sections, section_id@) ==> {
                &&& r matches Err(e) && e@ == not_found("Section"@, section_id@)
                &&& final(self)@ == old(self)@
            },
            has_key(old(self)@.students, student_id@) && has_key(old(self)@.sections, section_id@)
                && already_enrolled(old(self)@.enrollments, student_id@, section_id@) ==> {
                &&& r matches Err(e) && e@ == "Already enrolled in this section"@
                &&& final(self)@ == old(self)@
            },
            has_key(old(self)@.students, student_id@) && has_key(old(self)@.sections, section_id@)
                && !already_enrolled(old(self)@.enrollments, student_id@, section_id@) ==> (r matches Ok(e) && {
                &&& final(self)@ == (StoreView {
                    enrollments: old(self)@.enrollments.push(e),
                    serial: old(self)@.serial + 1,
                    log: final(self)@.log,
                    ..old(self)@
                })
                &&& e.id@ == serial_id("ENR"@, old(self)@.serial + 1)
                &&& e.student_id@ == student_id@
                &&& e.section_id@ == section_id@
                &&& e.status == SectionEnrollmentStatus::Enrolled
                &&& e.final_grade is None
                &&& logged(old(self)@.log, final(self)@.log, actor@, student_id@, "enroll"@, section_id@)
            }),
    {
        if !self.student_exists(student_id) {
            return Err(not_found_message("Student", student_id));
        }
        if self.get_section(section_id).is_none() {
            return Err(not_found_message("Section", section_id));
        }
        if self.has_active_enrollment(student_id, section_id) {
            return Err(String::from_str("Already enrolled in this section"));
        }
        let ghost v0 = self@;
        let id = self.next("ENR");
        let e = Enrollment {
            id,
            student_id: String::from_str(student_id),
            section_id: String::from_str(section_id),
            status: SectionEnrollmentStatus::Enrolled,
            final_grade: None,
            enrolled_at: now_micros(),
        };
        proof {
            v0.lemma_bump();
            lemma_push_fresh(v0.enrollments, "ENR"@, v0.serial, e);
        }
        self.enrollments.push(e.clone());
        self.log_access(actor, student_id, "enroll", section_id);
        Ok(e)
    }

    fn has_active_enrollment(&self, student_id: &str, section_id: &str) -> (r: bool)
        ensures
            r == already_enrolled(self@.enrollments, student_id@, section_id@),
    {
        let mut i: usize = 0;
        while i < self.enrollments.len()
            invariant
                i <= self.enrollments@.len(),
                forall|k: int| 0 <= k < i ==> !is_active_enrollment(#[trigger] self.enrollments@[k], student_id@, section_id@),
            decreases self.enrollments.len() - i,
        {
            let e = &self.enrollments[i];
            if str_equal(e.student_id.as_str(), student_id) && str_equal(e.section_id.as_str(), section_id)
                && e.status == SectionEnrollmentStatus::Enrolled {
                assert(is_active_enrollment(self.enrollments@[i as int], student_id@, section_id@));
                return true;
            }
            i = i + 1;
        }
        false
    }

    /// A student's enrollments, in store order, logged as `read_enrollments`.
    pub fn enrollments_for(&mut self, actor: &str, student_id: &str) -> (r: Vec<Enrollment>)
        requires
            old(self)@.wf(),
        ensures
            final(self)@.wf(),
            final(self)@ == (StoreView { log: final(self)@.log, ..old(self)@ }),
            logged(old(self)@.log, final(self)@.log, actor@, student_id@, "read_enrollments"@, "list"@),
            r@ == old(self)@.enrollments.filter(|e: Enrollment| e.student_id@ == student_id@),
    {
        self.log_access(actor, student_id, "read_enrollments", "list");
        let mut r: Vec<Enrollment> = Vec::new();
        let mut i: usize = 0;
        while i < self.enrollments.len()
            invariant
                i <= self.enrollments@.len(),
                r@ == self.enrollments@.take(i as int).filter(|e: Enrollment| e.student_id@ == student_id@),
            decreases self.enrollments.len() - i,
        {
            proof {
                reveal_with_fuel(Seq::filter, 1);
                assert(self.enrollments@.take(i + 1).drop_last() =~= self.enrollments@.take(i as int));
            }
            if str_equal(self.enrollments[i].student_id.as_str(), student_id) {
                r.push(self.enrollments[i].clone());
            }
            i = i + 1;
        }
        assert(self.enrollments@.take(i as int) =~= self.enrollments@);
        r
    }
}

} // verus!

verus! {

/// One graded assignment in a gradebook.
#[derive(Debug)]
pub struct GradedItem {
    /// The assignment's name.
    pub assignment: String,
    pub category: String,
    pub earned: Binary64,
    pub possible: Binary64,
}

/// The graded work of one student in one section: the section (with its
/// category weights) and, in assignment order, each of its assignments that
/// the student has a grade for.
#[derive(Debug)]
pub struct Gradebook {
    pub section: Section,
    pub items: Vec<GradedItem>,
}

impl Clone for GradedItem {
    fn clone(&self) -> (r: Self)
        ensures
            r == *self,
    {
        GradedItem {
            assignment: self.assignment.clone(),
            category: self.category.clone(),
            earned: self.earned,
            possible: self.possible,
        }
    }
}

/// The graded items of one category of a gradebook, in gradebook order.
#[derive(Debug)]
pub struct CategoryGroup {
    pub category: String,
    pub items: Vec<GradedItem>,
}

/// The items of `items` in category `c`, in order.
pub open spec fn in_category(items: Seq<GradedItem>, c: Seq<char>) -> Seq<GradedItem> {
    items.filter(|it: GradedItem| it.category@ == c)
}

/// The distinct categories of `items`, in order of first appearance.
pub open spec fn categories_of(items: Seq<GradedItem>) -> Seq<Seq<char>>
    decreases items.len(),
{
    if items.len() == 0 {
        Seq::empty()
    } else {
        let prev = categories_of(items.drop_last());
        let c = items.last().category@;
        if prev.contains(c) {
            prev
        } else {
            prev.push(c)
        }
    }
}

/// `categories_of` lists each category of the items exactly once.
pub proof fn lemma_categories_of(items: Seq<GradedItem>)
    ensures
        forall|a: int, b: int|
            0 <= a < b < categories_of(items).len() ==> #[trigger] categories_of(items)[a] != #[trigger] categories_of(items)[b],
        forall|k: int| 0 <= k < items.len() ==> categories_of(items).contains(#[trigger] items[k].category@),
        forall|g: int|
            0 <= g < categories_of(items).len() ==> exists|k: int| 0 <= k < items.len() && #[trigger] items[k].category@ == #[trigger] categories_of(items)[g],
    decreases items.len(),
{
    if items.len() > 0 {
        let d = items.drop_last();
        lemma_categories_of(d);
        let prev = categories_of(d);
        let c = items.last().category@;
        let cur = categories_of(items);
        assert forall|k: int| 0 <= k < items.len() implies cur.contains(#[trigger] items[k].category@) by {
            if k < d.len() {
                assert(items[k] == d[k]);
                assert(prev.contains(d[k].category@));
                let m = choose|m: int| 0 <= m < prev.len() && prev[m] == d[k].category@;
                assert(cur[m] == prev[m]);
            } else if !prev.contains(c) {
                assert(cur[prev.len() as int] == c);
            }
        }
        assert forall|g: int| 0 <= g < cur.len() implies exists|k: int| 0 <= k < items.len() && #[trigger] items[k].category@ == #[trigger] cur[g] by {
            if g < prev.len() {
                let k = choose|k: int| 0 <= k < d.len() && #[trigger] d[k].category@ == #[trigger] prev[g];
                assert(items[k] == d[k]);
                assert(cur[g] == prev[g]);
            } else {
                assert(items[items.len() - 1].category@ == cur[g]);
            }
        }
    }
}

impl Gradebook {
    /// The gradebook's items grouped by category, as the weighted course
    /// grade needs them: one group per category that has a graded item, in
    /// order of first appearance, holding that category's items in order.
    /// Categories without a graded item have no group.
    pub fn by_category(&self) -> (r: Vec<CategoryGroup>)
        ensures
            r@.len() == categories_of(self.items@).len(),
            forall|g: int|
                0 <= g < r@.len() ==> (#[trigger] r@[g]).category@ == categories_of(self.items@)[g]
                    && r@[g].items@ == in_category(self.items@, r@[g].category@),
            forall|a: int, b: int| 0 <= a < b < r@.len() ==> (#[trigger] r@[a]).category@ != (#[trigger] r@[b]).category@,
            forall|k: int|
                0 <= k < self.items@.len() ==> exists|g: int| 0 <= g < r@.len() && (#[trigger] r@[g]).category@ == (#[trigger] self.items@[k]).category@,
            forall|g: int| 0 <= g < r@.len() ==> (#[trigger] r@[g]).items@.len() > 0,
    {
        let ghost items = self.items@;
        let mut groups: Vec<CategoryGroup> = Vec::new();
        let mut i: usize = 0;
        while i < self.items.len()
            invariant
                items == self.items@,
                i <= items.len(),
                groups@.len() == categories_of(items.take(i as int)).len(),
                forall|g: int|
                    0 <= g < groups@.len() ==> (#[trigger] groups@[g]).category@ == categories_of(items.take(i as int))[g]
                        && groups@[g].items@ == in_category(items, groups@[g].category@),
            decreases items.len() - i,
        {
            let c = &self.items[i].category;
            let ghost prev = categories_of(items.take(i as int));
            proof {
                assert(items.take(i + 1).drop_last() =~= items.take(i as int));
                assert(items.take(i + 1).last() == items[i as int]);
            }
            let mut found = false;
            let mut g: usize = 0;
            while g < groups.len()
                invariant
                    g <= groups@.len(),
                    groups@.len() == prev.len(),
                    forall|h: int| 0 <= h < groups@.len() ==> (#[trigger] groups@[h]).category@ == prev[h],
                    found <==> exists|h: int| 0 <= h < g && prev[h] == c@,
                decreases groups.len() - g,
            {
                if str_equal(groups[g].category.as_str(), c.as_str()) {
                    found = true;
                }
                g = g + 1;
            }
            proof {
                if prev.contains(c@) {
                    let h = choose|h: int| 0 <= h < prev.len() && prev[h] == c@;
                    assert(groups@[h].category@ == prev[h]);
                }
            }
            if !found {
                let mut members: Vec<GradedItem> = Vec::new();
                let mut m: usize = 0;
                while m < self.items.len()
                    invariant
                        items == self.items@,
                        m <= items.len(),
                        members@ == in_category(items.take(m as int), c@),
                    decreases items.len() - m,
                {
                    proof {
                        reveal_with_fuel(Seq::filter, 1);
                        assert(items.take(m + 1).drop_last() =~= items.take(m as int));
                    }
                    if str_equal(self.items[m].category.as_str(), c.as_str()) {
                        members.push(self.items[m].clone());
                    }
                    m = m + 1;
                }
                assert(items.take(m as int) =~= items);
                groups.push(CategoryGroup { category: c.clone(), items: members });
            }
            i = i + 1;
        }
        assert(items.take(i as int) =~= items);
        proof {
            lemma_categories_of(items);
            assert forall|g: int| 0 <= g < groups@.len() implies (#[trigger] groups@[g]).items@.len() > 0 by {
                let k = choose|k: int| 0 <= k < items.len() && #[trigger] items[k].category@ == #[trigger] categories_of(items)[g];
                items.lemma_filter_contains(|it: GradedItem| it.category@ == groups@[g].category@, k);
            }
            assert forall|k: int| 0 <= k < items.len() implies exists|g: int| 0 <= g < groups@.len() && (#[trigger] groups@[g]).category@ == (#[trigger] items[k]).category@ by {
                assert(categories_of(items).contains(items[k].category@));
                let g = choose|g: int| 0 <= g < categories_of(items).len() && categories_of(items)[g] == items[k].category@;
                assert(groups@[g].category@ == categories_of(items)[g]);
            }
        }
        groups
    }
}

/// The grades to keep when a new grade for this assignment and student comes.
pub open spec fn other_pairs(assignment_id: Seq<char>, student_id: Seq<char>) -> spec_fn(Grade) -> bool {
    |g: Grade| !grade_is_for(g, assignment_id, student_id)
}

/// The assignments of a section that a student has a grade for.
pub open spec fn graded_in_section(v: StoreView, student_id: Seq<char>, section_id: Seq<char>) -> Seq<Assignment> {
    v.assignments.filter(|a: Assignment| a.section_id@ == section_id && has_grade(v.grades, a.id@, student_id))
}

/// The gradebook line for a graded assignment.
pub open spec fn item_of(v: StoreView, student_id: Seq<char>, a: Assignment) -> GradedItem {
    let g = grade_of(v.grades, a.id@, student_id);
    GradedItem { assignment: a.name, category: a.category, earned: g.points_earned, possible: g.points_possible }
}

impl StudentStore {
    // ── assignments / grades ────────────────────────────────────────────────

    /// Adds an assignment to an existing section under a fresh `ASG-n` id.
    pub fn create_assignment(
        &mut self,
        section_id: &str,
        name: &str,
        category: &str,
        points_possible: Binary64,
        due_date: Option<Date>,
    ) -> (r: Result<Assignment, String>)
        requires
            old(self)@.wf(),
            has_key(old(self)@.sections, section_id@) ==> old(self).can_issue(),
        ensures
            final(self)@.wf(),
            has_key(old(self)@.sections, section_id@) ==> (r matches Ok(a) && {
                &&& final(self)@ == (StoreView {
                    assignments: old(self)@.assignments.push(a),
                    serial: old(self)@.serial + 1,
                    ..old(self)@
                })
                &&& a.id@ == serial_id("ASG"@, old(self)@.serial + 1)
                &&& a.section_id@ == section_id@
                &&& a.name@ == name@
                &&& a.category@ == category@
                &&& a.points_possible == points_possible
                &&& a.due_date == due_date
            }),
            !has_key(old(self)@.sections, section_id@) ==> {
                &&& r matches Err(e) && e@ == not_found("Section"@, section_id@)
                &&& final(self)@ == old(self)@
            },
    {
        if self.get_section(section_id).is_none() {
            return Err(not_found_message("Section", section_id));
        }
        let ghost v0 = self@;
        let id = self.next("ASG");
        let a = Assignment {
            id,
            section_id: String::from_str(section_id),
            name: String::from_str(name),
            category: String::from_str(category),
            points_possible,
            due_date,
        };
        proof {
            v0.lemma_bump();
            lemma_push_fresh(v0.assignments, "ASG"@, v0.serial, a);
        }
        self.assignments.push(a.clone());
        Ok(a)
    }

    /// The assignment with this id.
    pub fn get_assignment(&self, id: &str) -> (r: Option<Assignment>)
        requires
            self@.wf(),
        ensures
            has_key(self@.assignments, id@) ==> r == Some(self@.assignments[key_index(self@.assignments, id@)]),
            !has_key(self@.assignments, id@) ==> r is None,
    {
        match find_key(&self.assignments, id) {
            Some(i) => {
                proof {
                    lemma_key_index(self.assignments@, id@, i as int);
                }
                Some(self.assignments[i].clone())
            },
            None => None,
        }
    }

    /// Records a student's grade on an assignment under a fresh `GRD-n` id,
    /// replacing any earlier grade for the same assignment and student;
    /// logged as `record_grade` by the grader. The points earned are
    /// `rubric_total` (the sum of the criteria's awarded points, absent ones
    /// counting zero) when a rubric is given, and `points_earned` otherwise;
    /// the points possible are the assignment's.
    pub fn record_grade(
        &mut self,
        assignment_id: &str,
        student_id: &str,
        points_earned: Binary64,
        rubric: Vec<RubricCriterion>,
        rubric_total: Binary64,
        feedback: Option<String>,
        graded_by: &str,
    ) -> (r: Result<Grade, String>)
        requires
            old(self)@.wf(),
            has_key(old(self)@.assignments, assignment_id@) && has_key(old(self)@.students, student_id@)
                ==> old(self).can_issue(),
        ensures
            final(self)@.wf(),
            !has_key(old(self)@.assignments, assignment_id@) ==> {
                &&& r matches Err(e) && e@ == not_found("Assignment"@, assignment_id@)
                &&& final(self)@ == old(self)@
            },
            has_key(old(self)@.assignments, assignment_id@) && !has_key(old(self)@.students, student_id@) ==> {
                &&& r matches Err(e) && e@ == not_found("Student"@, student_id@)
                &&& final(self)@ == old(self)@
            },
            has_key(old(self)@.assignments, assignment_id@) && has_key(old(self)@.students, student_id@) ==> (
            r matches Ok(g) && {
                let asg = old(self)@.assignments[key_index(old(self)@.assignments, assignment_id@)];
                &&& g.id@ == serial_id("GRD"@, old(self)@.serial + 1)
                &&& g.assignment_id@ == assignment_id@
                &&& g.student_id@ == student_id@
                &&& g.points_earned == (if rubric@.len() > 0 { rubric_total } else { points_earned })
                &&& g.points_possible == asg.points_possible
                &&& g.rubric@ == rubric@
                &&& g.feedback == feedback
                &&& g.graded_by@ == graded_by@
                &&& final(self)@ == (StoreView {
                    grades: final(self)@.grades,
                    serial: old(self)@.serial + 1,
                    log: final(self)@.log,
                    ..old(self)@
                })
                &&& final(self)@.grades.len() == old(self)@.grades.filter(other_pairs(assignment_id@, student_id@)).len() + 1
                &&& final(self)@.grades.drop_last() == old(self)@.grades.filter(other_pairs(assignment_id@, student_id@))
                &&& final(self)@.grades.last().is_copy_of(&g)
                &&& logged(old(self)@.log, final(self)@.log, graded_by@, student_id@, "record_grade"@, assignment_id@)
            }),
    {
        let asg = match self.get_assignment(assignment_id) {
            Some(a) => a,
            None => {
                return Err(not_found_message("Assignment", assignment_id));
            },
        };
        if !self.student_exists(student_id) {
            return Err(not_found_message("Student", student_id));
        }
        let earned = if rubric.len() > 0 {
            rubric_total
        } else {
            points_earned
        };
        let ghost v0 = self@;
        let id = self.next("GRD");
        let g = Grade {
            id,
            assignment_id: String::from_str(assignment_id),
            student_id: String::from_str(student_id),
            points_earned: earned,
            points_possible: asg.points_possible,
            rubric,
            feedback,
            graded_by: String::from_str(graded_by),
            graded_at: now_micros(),
        };
        let ghost keep = other_pairs(assignment_id@, student_id@);
        let ghost v1 = self@;
        self.drop_grades_for(assignment_id, student_id);
        let ghost orig = v0.grades;
        proof {
            let f = orig.filter(keep);
            lemma_filter_keys(orig, keep, "GRD"@, v0.serial);
            v0.lemma_bump();
            lemma_push_fresh(f, "GRD"@, v0.serial, g);
            lemma_disjoint_sub(orig, f, v0.guardians);
            lemma_disjoint_push_fresh(f, v0.guardians, "GRD"@, v0.serial, g);
            let t = f.push(g);
            assert forall|i: int, j: int| 0 <= i < t.len() && 0 <= j < t.len() && i != j implies !same_pair(#[trigger] t[i], #[trigger] t[j]) by {
                if i < f.len() && j < f.len() {
                    let mi = choose|m: int| 0 <= m < orig.len() && orig[m] == f[i];
                    let mj = choose|m: int| 0 <= m < orig.len() && orig[m] == f[j];
                    assert(t[i] == f[i] && t[j] == f[j]);
                    assert(f[i].key() != f[j].key());
                } else if i < f.len() {
                    assert(t[i] == f[i]);
                    broadcast use vstd::seq_lib::group_filter_ensures;
                    assert(keep(f[i]));
                } else {
                    assert(t[j] == f[j]);
                    broadcast use vstd::seq_lib::group_filter_ensures;
                    assert(keep(f[j]));
                }
            }
        }
        let out = g.clone();
        self.grades.push(g);
        self.log_access(graded_by, student_id, "record_grade", assignment_id);
        Ok(out)
    }

    /// Removes every grade for this assignment and student.
    fn drop_grades_for(&mut self, assignment_id: &str, student_id: &str)
        ensures
            final(self)@ == (StoreView {
                grades: old(self)@.grades.filter(other_pairs(assignment_id@, student_id@)),
                ..old(self)@
            }),
    {
        let ghost keep = other_pairs(assignment_id@, student_id@);
        let mut rest: Vec<Grade> = Vec::new();
        std::mem::swap(&mut rest, &mut self.grades);
        let ghost orig = rest@;
        let n = rest.len();
        let mut done: usize = 0;
        while rest.len() > 0
            invariant
                orig.len() == n,
                orig == old(self)@.grades,
                done <= n,
                rest@ == orig.skip(done as int),
                self.grades@ == orig.take(done as int).filter(keep),
                keep == other_pairs(assignment_id@, student_id@),
                self@ == (StoreView { grades: self.grades@, ..old(self)@ }),
            decreases rest.len(),
        {
            assert(rest@.len() == orig.len() - done);
            let x = rest.remove(0);
            proof {
                reveal_with_fuel(Seq::filter, 1);
                assert(orig.take(done + 1).drop_last() =~= orig.take(done as int));
                assert(orig.take(done + 1).last() == x);
                assert(rest@ =~= orig.skip(done + 1));
            }
            let drop = str_equal(x.assignment_id.as_str(), assignment_id) && str_equal(x.student_id.as_str(), student_id);
            if !drop {
                self.grades.push(x);
            }
            done = done + 1;
        }
        assert(orig.skip(done as int).len() == 0);
        assert(orig.take(done as int) =~= orig);
    }

    /// A student's grades, in store order, logged as `read_grades`.
    pub fn grades_for_student(&mut self, actor: &str, student_id: &str) -> (r: Vec<Grade>)
        requires
            old(self)@.wf(),
        ensures
            final(self)@.wf(),
            final(self)@ == (StoreView { log: final(self)@.log, ..old(self)@ }),
            logged(old(self)@.log, final(self)@.log, actor@, student_id@, "read_grades"@, "list"@),
            r@.len() == old(self)@.grades.filter(|g: Grade| g.student_id@ == student_id@).len(),
            forall|k: int| 0 <= k < r@.len() ==> (#[trigger] r@[k]).is_copy_of(
                &old(self)@.grades.filter(|g: Grade| g.student_id@ == student_id@)[k],
            ),
    {
        self.log_access(actor, student_id, "read_grades", "list");
        let ghost pred = |g: Grade| g.student_id@ == student_id@;
        let mut r: Vec<Grade> = Vec::new();
        let mut i: usize = 0;
        while i < self.grades.len()
            invariant
                i <= self.grades@.len(),
                pred == (|g: Grade| g.student_id@ == student_id@),
                r@.len() == self.grades@.take(i as int).filter(pred).len(),
                forall|k: int| 0 <= k < r@.len() ==> (#[trigger] r@[k]).is_copy_of(
                    &self.grades@.take(i as int).filter(pred)[k],
                ),
            decreases self.grades.len() - i,
        {
            proof {
                reveal_with_fuel(Seq::filter, 1);
                assert(self.grades@.take(i + 1).drop_last() =~= self.grades@.take(i as int));
            }
            if str_equal(self.grades[i].student_id.as_str(), student_id) {
                r.push(self.grades[i].clone());
            }
            i = i + 1;
        }
        assert(self.grades@.take(i as int) =~= self.grades@);
        r
    }
}

} // verus!

verus! {

/// With one grade per pair, the grade found for a pair is the grade of that pair.
pub proof fn lemma_grade_of(grades: Seq<Grade>, assignment_id: Seq<char>, student_id: Seq<char>, i: int)
    requires
        one_grade_each(grades),
        0 <= i < grades.len(),
        grade_is_for(grades[i], assignment_id, student_id),
    ensures
        has_grade(grades, assignment_id, student_id),
        grade_of(grades, assignment_id, student_id) == grades[i],
{
    let j = choose|j: int| 0 <= j < grades.len() && grade_is_for(#[trigger] grades[j], assignment_id, student_id);
    assert(0 <= j < grades.len() && grade_is_for(grades[j], assignment_id, student_id));
    if i != j {
        assert(same_pair(grades[i], grades[j]));
    }
}

impl StudentStore {
    fn find_grade(&self, assignment_id: &str, student_id: &str) -> (r: Option<usize>)
        ensures
            match r {
                Some(i) => i < self@.grades.len() && grade_is_for(self@.grades[i as int], assignment_id@, student_id@),
                None => !has_grade(self@.grades, assignment_id@, student_id@),
            },
    {
        let mut i: usize = 0;
        while i < self.grades.len()
            invariant
                i <= self.grades@.len(),
                forall|k: int| 0 <= k < i ==> !grade_is_for(#[trigger] self.grades@[k], assignment_id@, student_id@),
            decreases self.grades.len() - i,
        {
            if str_equal(self.grades[i].assignment_id.as_str(), assignment_id) && str_equal(self.grades[i].student_id.as_str(), student_id) {
                return Some(i);
            }
            i = i + 1;
        }
        None
    }

    /// The student's graded work in a section, logged as `read_gradebook`;
    /// `None` when the section does not exist. Each graded assignment of the
    /// section appears once, in assignment order, with the student's grade;
    /// the weighted percentage and letter are floating-point figures derived
    /// from these items by the caller.
    pub fn gradebook(&mut self, actor: &str, student_id: &str, section_id: &str) -> (r: Option<Gradebook>)
        requires
            old(self)@.wf(),
        ensures
            final(self)@.wf(),
            has_key(old(self)@.sections, section_id@) ==> (r matches Some(gb) && {
                &&& gb.section == old(self)@.sections[key_index(old(self)@.sections, section_id@)]
                &&& gb.items@ == graded_in_section(old(self)@, student_id@, section_id@).map_values(
                    |a: Assignment| item_of(old(self)@, student_id@, a),
                )
                &&& final(self)@ == (StoreView { log: final(self)@.log, ..old(self)@ })
                &&& logged(old(self)@.log, final(self)@.log, actor@, student_id@, "read_gradebook"@, section_id@)
            }),
            !has_key(old(self)@.sections, section_id@) ==> r is None && final(self)@ == old(self)@,
    {
        let section = match self.get_section(section_id) {
            Some(s) => s,
            None => {
                return None;
            },
        };
        self.log_access(actor, student_id, "read_gradebook", section_id);
        let ghost v = self@;
        let ghost pred = |a: Assignment| a.section_id@ == section_id@ && has_grade(v.grades, a.id@, student_id@);
        let ghost f = |a: Assignment| item_of(v, student_id@, a);
        let mut items: Vec<GradedItem> = Vec::new();
        let mut i: usize = 0;
        while i < self.assignments.len()
            invariant
                self@ == v,
                v.wf(),
                i <= v.assignments.len(),
                pred == (|a: Assignment| a.section_id@ == section_id@ && has_grade(v.grades, a.id@, student_id@)),
                f == (|a: Assignment| item_of(v, student_id@, a)),
                items@ == v.assignments.take(i as int).filter(pred).map_values(f),
            decreases self.assignments.len() - i,
        {
            let a = &self.assignments[i];
            proof {
                reveal_with_fuel(Seq::filter, 1);
                assert(v.assignments.take(i + 1).drop_last() =~= v.assignments.take(i as int));
            }
            if str_equal(a.section_id.as_str(), section_id) {
                match self.find_grade(a.id.as_str(), student_id) {
                    Some(gi) => {
                        proof {
                            lemma_grade_of(v.grades, a.id@, student_id@, gi as int);
                        }
                        let g = &self.grades[gi];
                        let item = GradedItem {
                            assignment: a.name.clone(),
                            category: a.category.clone(),
                            earned: g.points_earned,
                            possible: g.points_possible,
                        };
                        let ghost before = items@;
                        items.push(item);
                        proof {
                            let p = v.assignments.take(i as int).filter(pred);
                            assert(v.assignments.take(i + 1).filter(pred) == p.push(*a));
                            assert(items@ =~= p.push(*a).map_values(f));
                        }
                    },
                    None => {
                        assert(v.assignments.take(i + 1).filter(pred) == v.assignments.take(i as int).filter(pred));
                    },
                }
            } else {
                assert(v.assignments.take(i + 1).filter(pred) == v.assignments.take(i as int).filter(pred));
            }
            i = i + 1;
        }
        assert(v.assignments.take(i as int) =~= v.assignments);
        Some(Gradebook { section, items })
    }
}

} // verus!

verus! {

/// Attendance counts for a student: all records, those marked present or
/// excused, absent, and tardy.
#[derive(Debug)]
pub struct AttendanceSummary {
    pub student_id: String,
    pub records: usize,
    pub present: usize,
    pub absent: usize,
    pub tardy: usize,
}

/// The attendance records of a student.
pub open spec fn attendance_of(v: StoreView, student_id: Seq<char>) -> Seq<AttendanceRecord> {
    v.attendance.filter(|r: AttendanceRecord| r.student_id@ == student_id)
}

/// Present or excused.
pub open spec fn counts_present(c: AttendanceCode) -> bool {
    c == AttendanceCode::Present || c == AttendanceCode::Excused
}

impl StudentStore {
    // ── attendance ──────────────────────────────────────────────────────────

    /// Records an attendance entry under a fresh `ATT-n` id, logged as
    /// `record_attendance` with the code; refused when the student does not
    /// exist.
    pub fn record_attendance(
        &mut self,
        student_id: &str,
        section_id: Option<String>,
        date: Date,
        code: AttendanceCode,
        note: Option<String>,
        actor: &str,
    ) -> (r: Result<AttendanceRecord, String>)
        requires
            old(self)@.wf(),
            has_key(old(self)@.students, student_id@) ==> old(self).can_issue(),
        ensures
            final(self)@.wf(),
            has_key(old(self)@.students, student_id@) ==> (r matches Ok(a) && {
                &&& final(self)@ == (StoreView {
                    attendance: old(self)@.attendance.push(a),
                    serial: old(self)@.serial + 1,
                    log: final(self)@.log,
                    ..old(self)@
                })
                &&& a.id@ == serial_id("ATT"@, old(self)@.serial + 1)
                &&& a.student_id@ == student_id@
                &&& a.section_id == section_id
                &&& a.date == date
                &&& a.code == code
                &&& a.note == note
                &&& logged(old(self)@.log, final(self)@.log, actor@, student_id@, "record_attendance"@, code.spec_label())
            }),
            !has_key(old(self)@.students, student_id@) ==> {
                &&& r matches Err(e) && e@ == not_found("Student"@, student_id@)
                &&& final(self)@ == old(self)@
            },
    {
        if !self.student_exists(student_id) {
            return Err(not_found_message("Student", student_id));
        }
        let ghost v0 = self@;
        let id = self.next("ATT");
        let a = AttendanceRecord { id, student_id: String::from_str(student_id), section_id, date, code, note };
        proof {
            v0.lemma_bump();
            lemma_push_fresh(v0.attendance, "ATT"@, v0.serial, a);
        }
        self.attendance.push(a.clone());
        let label = code.label();
        self.log_access(actor, student_id, "record_attendance", label.as_str());
        Ok(a)
    }

    /// Attendance counts for a student, logged as `read_attendance`. The rate
    /// is present-or-excused records over all records (100% with none).
    pub fn attendance_summary(&mut self, actor: &str, student_id: &str) -> (r: AttendanceSummary)
        requires
            old(self)@.wf(),
        ensures
            final(self)@.wf(),
            final(self)@ == (StoreView { log: final(self)@.log, ..old(self)@ }),
            logged(old(self)@.log, final(self)@.log, actor@, student_id@, "read_attendance"@, "summary"@),
            r.student_id@ == student_id@,
            r.records == attendance_of(old(self)@, student_id@).len(),
            r.present == attendance_of(old(self)@, student_id@).filter(|r: AttendanceRecord| counts_present(r.code)).len(),
            r.absent == attendance_of(old(self)@, student_id@).filter(|r: AttendanceRecord| r.code == AttendanceCode::Absent).len(),
            r.tardy == attendance_of(old(self)@, student_id@).filter(|r: AttendanceRecord| r.code == AttendanceCode::Tardy).len(),
    {
        self.log_access(actor, student_id, "read_attendance", "summary");
        let ghost v = self@;
        let ghost mine = |r: AttendanceRecord| r.student_id@ == student_id@;
        let ghost pp = |r: AttendanceRecord| counts_present(r.code);
        let ghost pa = |r: AttendanceRecord| r.code == AttendanceCode::Absent;
        let ghost pt = |r: AttendanceRecord| r.code == AttendanceCode::Tardy;
        let mut records: usize = 0;
        let mut present: usize = 0;
        let mut absent: usize = 0;
        let mut tardy: usize = 0;
        let mut i: usize = 0;
        while i < self.attendance.len()
            invariant
                self@ == v,
                i <= v.attendance.len(),
                mine == (|r: AttendanceRecord| r.student_id@ == student_id@),
                pp == (|r: AttendanceRecord| counts_present(r.code)),
                pa == (|r: AttendanceRecord| r.code == AttendanceCode::Absent),
                pt == (|r: AttendanceRecord| r.code == AttendanceCode::Tardy),
                records == v.attendance.take(i as int).filter(mine).len(),
                present == v.attendance.take(i as int).filter(mine).filter(pp).len(),
                absent == v.attendance.take(i as int).filter(mine).filter(pa).len(),
                tardy == v.attendance.take(i as int).filter(mine).filter(pt).len(),
                records <= i,
                present <= records,
                absent <= records,
                tardy <= records,
            decreases self.attendance.len() - i,
        {
            let a = &self.attendance[i];
            let ghost before = v.attendance.take(i as int).filter(mine);
            proof {
                reveal_with_fuel(Seq::filter, 1);
                assert(v.attendance.take(i + 1).drop_last() =~= v.attendance.take(i as int));
                v.attendance.take(i as int).lemma_filter_len(mine);
                before.lemma_filter_len(pp);
                before.lemma_filter_len(pa);
                before.lemma_filter_len(pt);
            }
            if str_equal(a.student_id.as_str(), student_id) {
                assert(v.attendance.take(i + 1).filter(mine) == before.push(*a));
                assert(before.push(*a).drop_last() =~= before);
                records = records + 1;
                match a.code {
                    AttendanceCode::Present | AttendanceCode::Excused => {
                        present = present + 1;
                    },
                    AttendanceCode::Absent => {
                        absent = absent + 1;
                    },
                    AttendanceCode::Tardy => {
                        tardy = tardy + 1;
                    },
                }
            }
            i = i + 1;
        }
        proof {
            assert(v.attendance.take(i as int) =~= v.attendance);
        }
        AttendanceSummary { student_id: String::from_str(student_id), records, present, absent, tardy }
    }
}

} // verus!

verus! {

/// The support cases of a student.
pub open spec fn cases_of(v: StoreView, student_id: Seq<char>) -> Seq<SupportCase> {
    v.cases.filter(|c: SupportCase| c.student_id@ == student_id)
}

/// A terminal support status, which stamps the case as resolved.
pub open spec fn is_terminal(status: SupportStatus) -> bool {
    status == SupportStatus::Resolved || status == SupportStatus::Closed
}

impl StudentStore {
    // ── support ─────────────────────────────────────────────────────────────

    /// Opens a support case for a student under a fresh `SUP-n` id, logged as
    /// `open_support_case` by its creator; refused when the student does not
    /// exist.
    pub fn open_case(
        &mut self,
        student_id: &str,
        category: &str,
        summary: &str,
        assigned_to: Option<String>,
        created_by: &str,
    ) -> (r: Result<SupportCase, String>)
        requires
            old(self)@.wf(),
            has_key(old(self)@.students, student_id@) ==> old(self).can_issue(),
        ensures
            final(self)@.wf(),
            has_key(old(self)@.students, student_id@) ==> (r matches Ok(c) && {
                &&& final(self)@ == (StoreView {
                    cases: old(self)@.cases.push(final(self)@.cases.last()),
                    serial: old(self)@.serial + 1,
                    log: final(self)@.log,
                    ..old(self)@
                })
                &&& c.is_copy_of(&final(self)@.cases.last())
                &&& c.id@ == serial_id("SUP"@, old(self)@.serial + 1)
                &&& c.student_id@ == student_id@
                &&& c.category@ == category@
                &&& c.summary@ == summary@
                &&& c.status == SupportStatus::Open
                &&& c.assigned_to == assigned_to
                &&& c.notes@.len() == 0
                &&& c.created_by@ == created_by@
                &&& c.resolved_at is None
                &&& logged(old(self)@.log, final(self)@.log, created_by@, student_id@, "open_support_case"@, category@)
            }),
            !has_key(old(self)@.students, student_id@) ==> {
                &&& r matches Err(e) && e@ == not_found("Student"@, student_id@)
                &&& final(self)@ == old(self)@
            },
    {
        if !self.student_exists(student_id) {
            return Err(not_found_message("Student", student_id));
        }
        let ghost v0 = self@;
        let id = self.next("SUP");
        let c = SupportCase {
            id,
            student_id: String::from_str(student_id),
            category: String::from_str(category),
            summary: String::from_str(summary),
            status: SupportStatus::Open,
            assigned_to,
            notes: Vec::new(),
            created_by: String::from_str(created_by),
            created_at: now_micros(),
            resolved_at: None,
        };
        proof {
            v0.lemma_bump();
            lemma_push_fresh(v0.cases, "SUP"@, v0.serial, c);
        }
        let out = c.clone();
        self.cases.push(c);
        self.log_access(created_by, student_id, "open_support_case", category);
        Ok(out)
    }

    /// The support case with this id, looked up without logging; a read on
    /// someone's behalf goes through `read_case`, which logs it.
    pub fn get_case(&self, id: &str) -> (r: Option<SupportCase>)
        requires
            self@.wf(),
        ensures
            has_key(self@.cases, id@) ==> (r matches Some(c) && c.is_copy_of(&self@.cases[key_index(self@.cases, id@)])),
            !has_key(self@.cases, id@) ==> r is None,
    {
        match find_key(&self.cases, id) {
            Some(i) => {
                proof {
                    lemma_key_index(self.cases@, id@, i as int);
                }
                Some(self.cases[i].clone())
            },
            None => None,
        }
    }

    /// The support case with this id, read on behalf of `actor`: the read is
    /// logged as `read_support_case` on the case's student. `None`, with
    /// nothing logged, when no case has this id.
    pub fn read_case(&mut self, actor: &str, id: &str) -> (r: Option<SupportCase>)
        requires
            old(self)@.wf(),
        ensures
            final(self)@.wf(),
            has_key(old(self)@.cases, id@) ==> {
                let c = old(self)@.cases[key_index(old(self)@.cases, id@)];
                &&& r matches Some(out) && out.is_copy_of(&c)
                &&& final(self)@ == (StoreView { log: final(self)@.log, ..old(self)@ })
                &&& logged(old(self)@.log, final(self)@.log, actor@, c.student_id@, "read_support_case"@, id@)
            },
            !has_key(old(self)@.cases, id@) ==> r is None && final(self)@ == old(self)@,
    {
        let found = self.get_case(id);
        match found {
            Some(c) => {
                self.log_access(actor, c.student_id.as_str(), "read_support_case", id);
                Some(c)
            },
            None => None,
        }
    }

    /// Adds a note, with a fresh random `CN-` id, to a support case; logged
    /// as `case_note` on the case's student.
    pub fn add_case_note(&mut self, case_id: &str, author: &str, body: &str) -> (r: Result<CaseNote, String>)
        requires
            old(self)@.wf(),
        ensures
            final(self)@.wf(),
            has_key(old(self)@.cases, case_id@) ==> {
                let i = key_index(old(self)@.cases, case_id@);
                let c = final(self)@.cases[i];
                let old_c = old(self)@.cases[i];
                &&& final(self)@ == (StoreView {
                    cases: old(self)@.cases.update(i, c),
                    log: final(self)@.log,
                    ..old(self)@
                })
                &&& r matches Ok(n) && {
                    &&& is_random_id(n.id@, "CN-"@)
                    &&& n.author@ == author@
                    &&& n.body@ == body@
                    &&& c.notes@ == old_c.notes@.push(n)
                }
                &&& c.is_copy_of(&SupportCase { notes: c.notes, ..old_c })
                &&& logged(old(self)@.log, final(self)@.log, author@, old_c.student_id@, "case_note"@, case_id@)
            },
            !has_key(old(self)@.cases, case_id@) ==> {
                &&& r matches Err(e) && e@ == not_found("Case"@, case_id@)
                &&& final(self)@ == old(self)@
            },
    {
        match find_key(&self.cases, case_id) {
            Some(i) => {
                proof {
                    lemma_key_index(self.cases@, case_id@, i as int);
                }
                let n = CaseNote {
                    id: random_id("CN-"),
                    author: String::from_str(author),
                    body: String::from_str(body),
                    created_at: now_micros(),
                };
                self.cases[i].notes.push(n.clone());
                proof {
                    lemma_update_same_key(old(self).cases@, "SUP"@, old(self).seq as nat, i as int, self.cases@[i as int]);
                    assert(self.cases@ == old(self).cases@.update(i as int, self.cases@[i as int]));
                }
                let sid = self.cases[i].student_id.clone();
                self.log_access(author, sid.as_str(), "case_note", case_id);
                Ok(n)
            },
            None => Err(not_found_message("Case", case_id)),
        }
    }

    /// Sets a support case's status, stamping it resolved on `Resolved` or
    /// `Closed`; logged as `case_status` on the case's student.
    pub fn set_case_status(&mut self, case_id: &str, status: SupportStatus, actor: &str) -> (r: Result<SupportCase, String>)
        requires
            old(self)@.wf(),
        ensures
            final(self)@.wf(),
            has_key(old(self)@.cases, case_id@) ==> {
                let i = key_index(old(self)@.cases, case_id@);
                let c = final(self)@.cases[i];
                let old_c = old(self)@.cases[i];
                &&& final(self)@ == (StoreView {
                    cases: old(self)@.cases.update(i, c),
                    log: final(self)@.log,
                    ..old(self)@
                })
                &&& c == (SupportCase { status, resolved_at: c.resolved_at, ..old_c })
                &&& is_terminal(status) ==> c.resolved_at is Some
                &&& !is_terminal(status) ==> c.resolved_at == old_c.resolved_at
                &&& r matches Ok(out) && out.is_copy_of(&c)
                &&& logged(old(self)@.log, final(self)@.log, actor@, old_c.student_id@, "case_status"@, status.spec_label())
            },
            !has_key(old(self)@.cases, case_id@) ==> {
                &&& r matches Err(e) && e@ == not_found("Case"@, case_id@)
                &&& final(self)@ == old(self)@
            },
    {
        match find_key(&self.cases, case_id) {
            Some(i) => {
                proof {
                    lemma_key_index(self.cases@, case_id@, i as int);
                }
                self.cases[i].status = status;
                match status {
                    SupportStatus::Resolved | SupportStatus::Closed => {
                        let now = now_micros();
                        self.cases[i].resolved_at = Some(now);
                    },
                    _ => {},
                }
                proof {
                    lemma_update_same_key(old(self).cases@, "SUP"@, old(self).seq as nat, i as int, self.cases@[i as int]);
                    assert(self.cases@ == old(self).cases@.update(i as int, self.cases@[i as int]));
                }
                let out = self.cases[i].clone();
                let label = status.label();
                self.log_access(actor, out.student_id.as_str(), "case_status", label.as_str());
                Ok(out)
            },
            None => Err(not_found_message("Case", case_id)),
        }
    }

    fn copy_cases_of(&self, student_id: &str) -> (r: Vec<SupportCase>)
        requires
            self@.wf(),
        ensures
            r@.len() == cases_of(self@, student_id@).len(),
            forall|k: int| 0 <= k < r@.len() ==> (#[trigger] r@[k]).is_copy_of(&cases_of(self@, student_id@)[k]),
            distinct_keys(r@),
    {
        let ghost v = self@;
        let ghost mine = |c: SupportCase| c.student_id@ == student_id@;
        let mut found: Vec<SupportCase> = Vec::new();
        let mut i: usize = 0;
        while i < self.cases.len()
            invariant
                self@ == v,
                i <= v.cases.len(),
                mine == (|c: SupportCase| c.student_id@ == student_id@),
                found@.len() == v.cases.take(i as int).filter(mine).len(),
                forall|k: int| 0 <= k < found@.len() ==> (#[trigger] found@[k]).is_copy_of(
                    &v.cases.take(i as int).filter(mine)[k],
                ),
            decreases self.cases.len() - i,
        {
            proof {
                reveal_with_fuel(Seq::filter, 1);
                assert(v.cases.take(i + 1).drop_last() =~= v.cases.take(i as int));
            }
            if str_equal(self.cases[i].student_id.as_str(), student_id) {
                found.push(self.cases[i].clone());
            }
            i = i + 1;
        }
        proof {
            assert(v.cases.take(i as int) =~= v.cases);
            let f = v.cases.filter(mine);
            lemma_filter_keys(v.cases, mine, "SUP"@, v.serial);
            assert forall|a: int, b: int| 0 <= a < found@.len() && 0 <= b < found@.len() && a != b implies (#[trigger] found@[a]).key() != (#[trigger] found@[b]).key() by {
                assert(found@[a].key() == f[a].key() && found@[b].key() == f[b].key());
            }
        }
        found
    }

    /// A student's support cases, newest first, logged as
    /// `read_support_cases`: each of the student's cases exactly once.
    pub fn cases_for(&mut self, actor: &str, student_id: &str) -> (r: Vec<SupportCase>)
        requires
            old(self)@.wf(),
        ensures
            final(self)@.wf(),
            final(self)@ == (StoreView { log: final(self)@.log, ..old(self)@ }),
            logged(old(self)@.log, final(self)@.log, actor@, student_id@, "read_support_cases"@, "list"@),
            r@.len() == cases_of(old(self)@, student_id@).len(),
            distinct_keys(r@),
            copies_each(r@, cases_of(old(self)@, student_id@)),
            newest_first(r@),
            ties_keep_order(cases_of(old(self)@, student_id@), r@),
    {
        self.log_access(actor, student_id, "read_support_cases", "list");
        let found = self.copy_cases_of(student_id);
        let ghost fv = found@;
        let r = sort_newest_first(found);
        proof {
            lemma_copies_each(r@, fv, cases_of(old(self)@, student_id@));
        }
        r
    }
}

/// Some case of `s` is copied by `x`.
pub open spec fn copy_in(x: SupportCase, s: Seq<SupportCase>) -> bool {
    exists|m: int| 0 <= m < s.len() && x.is_copy_of(&#[trigger] s[m])
}

/// Some case of `r` is a copy of `x`.
pub open spec fn copied_in(x: SupportCase, r: Seq<SupportCase>) -> bool {
    exists|k: int| 0 <= k < r.len() && (#[trigger] r[k]).is_copy_of(&x)
}

/// `r` and `s` hold the same cases up to copying: every case of `r` is a
/// copy of one in `s`, and every case of `s` has a copy in `r`.
pub open spec fn copies_each(r: Seq<SupportCase>, s: Seq<SupportCase>) -> bool {
    &&& forall|k: int| 0 <= k < r.len() ==> copy_in(#[trigger] r[k], s)
    &&& forall|m: int| 0 <= m < s.len() ==> copied_in(#[trigger] s[m], r)
}

proof fn lemma_copies_each(r: Seq<SupportCase>, fv: Seq<SupportCase>, s: Seq<SupportCase>)
    requires
        fv.len() == s.len(),
        forall|k: int| 0 <= k < fv.len() ==> (#[trigger] fv[k]).is_copy_of(&s[k]),
        forall|k: int| 0 <= k < r.len() ==> fv.contains(#[trigger] r[k]),
        forall|k: int| 0 <= k < fv.len() ==> r.contains(#[trigger] fv[k]),
        ties_keep_order(fv, r),
    ensures
        copies_each(r, s),
        ties_keep_order(s, r),
{
    assert forall|a: int, b: int| 0 <= a < b < r.len() && (#[trigger] r[a]).time() == (#[trigger] r[b]).time() implies exists|p: int, q: int|
        #![trigger s[p], s[q]]
        0 <= p < q < s.len() && s[p].key() == r[a].key() && s[q].key() == r[b].key() by {
        let (p, q) = choose|p: int, q: int|
            #![trigger fv[p], fv[q]]
            0 <= p < q < fv.len() && fv[p].key() == r[a].key() && fv[q].key() == r[b].key();
        assert(fv[p].is_copy_of(&s[p]) && fv[q].is_copy_of(&s[q]));
        assert(s[p].key() == r[a].key() && s[q].key() == r[b].key());
    }
    assert forall|k: int| 0 <= k < r.len() implies copy_in(#[trigger] r[k], s) by {
        assert(fv.contains(r[k]));
        let m = choose|m: int| 0 <= m < fv.len() && fv[m] == r[k];
        assert(fv[m].is_copy_of(&s[m]));
    }
    assert forall|m: int| 0 <= m < s.len() implies copied_in(#[trigger] s[m], r) by {
        assert(fv[m].is_copy_of(&s[m]));
        assert(r.contains(fv[m]));
        let k = choose|k: int| 0 <= k < r.len() && r[k] == fv[m];
        assert(r[k].is_copy_of(&s[m]));
    }
}

} // verus!

verus! {

/// The message refusing a communication to a guardian of another student.
pub open spec fn not_associated_message() -> Seq<char> {
    "Guardian is not associated with this student"@
}

/// The message refusing a communication to a guardian without consent.
pub open spec fn no_consent_message() -> Seq<char> {
    "Cannot send: guardian does not have FERPA consent on file"@
}

/// The guardians of a student.
pub open spec fn guardians_of(v: StoreView, student_id: Seq<char>) -> Seq<Guardian> {
    v.guardians.filter(|g: Guardian| g.student_id@ == student_id)
}

/// The communications about a student.
pub open spec fn comms_of(v: StoreView, student_id: Seq<char>) -> Seq<Communication> {
    v.comms.filter(|c: Communication| c.student_id@ == student_id)
}

/// Adding a guardian keeps every recorded communication consented.
proof fn lemma_consent_after_new_guardian(comms: Seq<Communication>, guardians: Seq<Guardian>, g: Guardian)
    requires
        forall|k: int| 0 <= k < comms.len() ==> sent_with_consent(#[trigger] comms[k], guardians),
    ensures
        forall|k: int| 0 <= k < comms.len() ==> sent_with_consent(#[trigger] comms[k], guardians.push(g)),
{
    assert forall|k: int| 0 <= k < comms.len() implies sent_with_consent(#[trigger] comms[k], guardians.push(g)) by {
        assert(sent_with_consent(comms[k], guardians));
        let i = choose|i: int| 0 <= i < guardians.len() && (#[trigger] guardians[i]).id@ == comms[k].guardian_id@
            && guardians[i].student_id@ == comms[k].student_id@ && guardians[i].consent_on_file;
        assert(guardians.push(g)[i] == guardians[i]);
    }
}

impl StudentStore {
    // ── guardians & communications ──────────────────────────────────────────

    /// Links a guardian to a student under a fresh `GRD-n` id, logged as
    /// `add_guardian` with the relationship; refused when the student does
    /// not exist.
    pub fn add_guardian(
        &mut self,
        student_id: &str,
        name: &str,
        relationship: &str,
        contact_ref: &str,
        consent_on_file: bool,
        actor: &str,
    ) -> (r: Result<Guardian, String>)
        requires
            old(self)@.wf(),
            has_key(old(self)@.students, student_id@) ==> old(self).can_issue(),
        ensures
            final(self)@.wf(),
            has_key(old(self)@.students, student_id@) ==> (r matches Ok(g) && {
                &&& final(self)@ == (StoreView {
                    guardians: old(self)@.guardians.push(g),
                    serial: old(self)@.serial + 1,
                    log: final(self)@.log,
                    ..old(self)@
                })
                &&& g.id@ == serial_id("GRD"@, old(self)@.serial + 1)
                &&& g.student_id@ == student_id@
                &&& g.name@ == name@
                &&& g.relationship@ == relationship@
                &&& g.contact_ref@ == contact_ref@
                &&& g.consent_on_file == consent_on_file
                &&& logged(old(self)@.log, final(self)@.log, actor@, student_id@, "add_guardian"@, relationship@)
            }),
            !has_key(old(self)@.students, student_id@) ==> {
                &&& r matches Err(e) && e@ == not_found("Student"@, student_id@)
                &&& final(self)@ == old(self)@
            },
    {
        if !self.student_exists(student_id) {
            return Err(not_found_message("Student", student_id));
        }
        let ghost v0 = self@;
        let id = self.next("GRD");
        let g = Guardian {
            id,
            student_id: String::from_str(student_id),
            name: String::from_str(name),
            relationship: String::from_str(relationship),
            contact_ref: String::from_str(contact_ref),
            consent_on_file,
        };
        proof {
            v0.lemma_bump();
            lemma_push_fresh(v0.guardians, "GRD"@, v0.serial, g);
            lemma_disjoint_push_fresh(v0.guardians, v0.grades, "GRD"@, v0.serial, g);
            lemma_consent_after_new_guardian(v0.comms, v0.guardians, g);
        }
        self.guardians.push(g.clone());
        self.log_access(actor, student_id, "add_guardian", relationship);
        Ok(g)
    }

    /// A student's guardians, in store order, logged as `read_guardians`.
    pub fn guardians_for(&mut self, actor: &str, student_id: &str) -> (r: Vec<Guardian>)
        requires
            old(self)@.wf(),
        ensures
            final(self)@.wf(),
            final(self)@ == (StoreView { log: final(self)@.log, ..old(self)@ }),
            logged(old(self)@.log, final(self)@.log, actor@, student_id@, "read_guardians"@, "list"@),
            r@ == guardians_of(old(self)@, student_id@),
    {
        self.log_access(actor, student_id, "read_guardians", "list");
        let mut r: Vec<Guardian> = Vec::new();
        let mut i: usize = 0;
        while i < self.guardians.len()
            invariant
                i <= self.guardians@.len(),
                r@ == self.guardians@.take(i as int).filter(|g: Guardian| g.student_id@ == student_id@),
            decreases self.guardians.len() - i,
        {
            proof {
                reveal_with_fuel(Seq::filter, 1);
                assert(self.guardians@.take(i + 1).drop_last() =~= self.guardians@.take(i as int));
            }
            if str_equal(self.guardians[i].student_id.as_str(), student_id) {
                r.push(self.guardians[i].clone());
            }
            i = i + 1;
        }
        assert(self.guardians@.take(i as int) =~= self.guardians@);
        r
    }

    /// Sends a communication to a guardian under a fresh `COM-n` id, logged
    /// as `send_communication` by the sender. FERPA-gated: refused unless the
    /// guardian exists, belongs to the student, and has consent on file.
    pub fn send_communication(
        &mut self,
        student_id: &str,
        guardian_id: &str,
        channel: &str,
        subject: &str,
        body: &str,
        sent_by: &str,
    ) -> (r: Result<Communication, String>)
        requires
            old(self)@.wf(),
            has_key(old(self)@.guardians, guardian_id@) ==> old(self).can_issue(),
        ensures
            final(self)@.wf(),
            !has_key(old(self)@.guardians, guardian_id@) ==> {
                &&& r matches Err(e) && e@ == not_found("Guardian"@, guardian_id@)
                &&& final(self)@ == old(self)@
            },
            has_key(old(self)@.guardians, guardian_id@) ==> {
                let g = old(self)@.guardians[key_index(old(self)@.guardians, guardian_id@)];
                &&& g.student_id@ != student_id@ ==> {
                    &&& r matches Err(e) && e@ == not_associated_message()
                    &&& final(self)@ == old(self)@
                }
                &&& g.student_id@ == student_id@ && !g.consent_on_file ==> {
                    &&& r matches Err(e) && e@ == no_consent_message()
                    &&& final(self)@ == old(self)@
                }
                &&& g.student_id@ == student_id@ && g.consent_on_file ==> (r matches Ok(c) && {
                    &&& final(self)@ == (StoreView {
                        comms: old(self)@.comms.push(c),
                        serial: old(self)@.serial + 1,
                        log: final(self)@.log,
                        ..old(self)@
                    })
                    &&& c.id@ == serial_id("COM"@, old(self)@.serial + 1)
                    &&& c.student_id@ == student_id@
                    &&& c.guardian_id@ == guardian_id@
                    &&& c.channel@ == channel@
                    &&& c.subject@ == subject@
                    &&& c.body@ == body@
                    &&& c.sent_by@ == sent_by@
                    &&& logged(old(self)@.log, final(self)@.log, sent_by@, student_id@, "send_communication"@, "guardian "@ + guardian_id@)
                })
            },
    {
        let gi = match find_key(&self.guardians, guardian_id) {
            Some(i) => i,
            None => {
                return Err(not_found_message("Guardian", guardian_id));
            },
        };
        proof {
            lemma_key_index(self.guardians@, guardian_id@, gi as int);
        }
        if !str_equal(self.guardians[gi].student_id.as_str(), student_id) {
            return Err(String::from_str("Guardian is not associated with this student"));
        }
        if !self.guardians[gi].consent_on_file {
            return Err(String::from_str("Cannot send: guardian does not have FERPA consent on file"));
        }
        let ghost v0 = self@;
        let id = self.next("COM");
        let c = Communication {
            id,
            student_id: String::from_str(student_id),
            guardian_id: String::from_str(guardian_id),
            channel: String::from_str(channel),
            subject: String::from_str(subject),
            body: String::from_str(body),
            sent_by: String::from_str(sent_by),
            sent_at: now_micros(),
        };
        proof {
            v0.lemma_bump();
            lemma_push_fresh(v0.comms, "COM"@, v0.serial, c);
            assert(sent_with_consent(c, v0.guardians)) by {
                assert(v0.guardians[gi as int].id@ == c.guardian_id@);
            }
            let t = v0.comms.push(c);
            assert forall|k: int| 0 <= k < t.len() implies sent_with_consent(#[trigger] t[k], v0.guardians) by {
                if k < v0.comms.len() {
                    assert(t[k] == v0.comms[k]);
                }
            }
        }
        self.comms.push(c.clone());
        let mut detail = String::from_str("guardian ");
        detail.append(guardian_id);
        self.log_access(sent_by, student_id, "send_communication", detail.as_str());
        Ok(c)
    }

    fn copy_comms_of(&self, student_id: &str) -> (r: Vec<Communication>)
        requires
            self@.wf(),
        ensures
            r@ == comms_of(self@, student_id@),
            distinct_keys(r@),
    {
        let mut r: Vec<Communication> = Vec::new();
        let mut i: usize = 0;
        while i < self.comms.len()
            invariant
                i <= self.comms@.len(),
                r@ == self.comms@.take(i as int).filter(|c: Communication| c.student_id@ == student_id@),
            decreases self.comms.len() - i,
        {
            proof {
                reveal_with_fuel(Seq::filter, 1);
                assert(self.comms@.take(i + 1).drop_last() =~= self.comms@.take(i as int));
            }
            if str_equal(self.comms[i].student_id.as_str(), student_id) {
                r.push(self.comms[i].clone());
            }
            i = i + 1;
        }
        assert(self.comms@.take(i as int) =~= self.comms@);
        proof {
            lemma_filter_keys(self.comms@, |c: Communication| c.student_id@ == student_id@, "COM"@, self.seq as nat);
        }
        r
    }

    /// The communications about a student, newest first, logged as
    /// `read_communications`: each of them exactly once.
    pub fn communications_for(&mut self, actor: &str, student_id: &str) -> (r: Vec<Communication>)
        requires
            old(self)@.wf(),
        ensures
            final(self)@.wf(),
            final(self)@ == (StoreView { log: final(self)@.log, ..old(self)@ }),
            logged(old(self)@.log, final(self)@.log, actor@, student_id@, "read_communications"@, "list"@),
            r@.len() == comms_of(old(self)@, student_id@).len(),
            distinct_keys(r@),
            forall|k: int| 0 <= k < r@.len() ==> comms_of(old(self)@, student_id@).contains(#[trigger] r@[k]),
            forall|m: int| 0 <= m < comms_of(old(self)@, student_id@).len()
                ==> r@.contains(#[trigger] comms_of(old(self)@, student_id@)[m]),
            newest_first(r@),
            ties_keep_order(comms_of(old(self)@, student_id@), r@),
    {
        self.log_access(actor, student_id, "read_communications", "list");
        let found = self.copy_comms_of(student_id);
        sort_newest_first(found)
    }
}

} // verus!

verus! {

// ── transcript / analytics ──────────────────────────────────────────────────

/// Grade points of a letter on the 4-point scale.
pub open spec fn letter_points(c: char) -> Option<u8> {
    if c == 'A' {
        Some(4u8)
    } else if c == 'B' {
        Some(3u8)
    } else if c == 'C' {
        Some(2u8)
    } else if c == 'D' {
        Some(1u8)
    } else if c == 'F' {
        Some(0u8)
    } else {
        None
    }
}

/// 4.0-scale grade points of a letter grade: the first character of the
/// trimmed grade, upper-cased, read as A=4, B=3, C=2, D=1, F=0; nothing for
/// a missing or blank grade or any other letter.
pub open spec fn grade_points_of(letter: Option<Seq<char>>) -> Option<u8> {
    match letter {
        None => None,
        Some(s) => match first_non_whitespace(s) {
            None => None,
            Some(c) => letter_points(uppercase_char(c)[0]),
        },
    }
}

/// 4.0-scale grade points from a letter grade (see `grade_points_of`).
pub fn grade_points(letter: Option<&str>) -> (r: Option<u8>)
    ensures
        r == grade_points_of(opt_view(letter)),
{
    match letter {
        None => None,
        Some(s) => match find_first_non_whitespace(s) {
            None => None,
            Some(c) => {
                let u = char_to_uppercase(c);
                let first = u.as_str().get_char(0);
                if first == 'A' {
                    Some(4)
                } else if first == 'B' {
                    Some(3)
                } else if first == 'C' {
                    Some(2)
                } else if first == 'D' {
                    Some(1)
                } else if first == 'F' {
                    Some(0)
                } else {
                    None
                }
            },
        },
    }
}

/// One completed course on a transcript.
#[derive(Debug)]
pub struct TranscriptEntry {
    /// The course code.
    pub course: String,
    pub title: String,
    pub term: String,
    pub credits: Binary64,
    /// The final letter grade.
    pub grade: Option<String>,
    /// Grade points of the final grade, when it is a letter the scale knows.
    pub grade_points: Option<u8>,
}

/// A student's completed courses, in enrollment order.
#[derive(Debug)]
pub struct Transcript {
    pub student_id: String,
    pub entries: Vec<TranscriptEntry>,
}

/// The view of an optional string.
pub open spec fn opt_string_view(o: Option<String>) -> Option<Seq<char>> {
    match o {
        Some(x) => Some(x@),
        None => None,
    }
}

/// The section an enrollment is for.
pub open spec fn section_of(v: StoreView, e: Enrollment) -> Section {
    v.sections[key_index(v.sections, e.section_id@)]
}

/// The course of the section an enrollment is for.
pub open spec fn course_of(v: StoreView, e: Enrollment) -> Course {
    v.courses[key_index(v.courses, section_of(v, e).course_id@)]
}

/// A completed enrollment of the student whose section and course exist.
pub open spec fn on_transcript(v: StoreView, student_id: Seq<char>, e: Enrollment) -> bool {
    &&& e.student_id@ == student_id
    &&& e.status == SectionEnrollmentStatus::Completed
    &&& has_key(v.sections, e.section_id@)
    &&& has_key(v.courses, section_of(v, e).course_id@)
}

/// The transcript line of a completed enrollment.
pub open spec fn entry_of(v: StoreView, e: Enrollment) -> TranscriptEntry {
    let sec = section_of(v, e);
    let crs = course_of(v, e);
    TranscriptEntry {
        course: crs.code,
        title: crs.title,
        term: sec.term,
        credits: crs.credits,
        grade: e.final_grade,
        grade_points: grade_points_of(opt_string_view(e.final_grade)),
    }
}

/// The points of one grade.
#[derive(Debug, Clone, Copy)]
pub struct Score {
    pub earned: Binary64,
    pub possible: Binary64,
}

/// What the learning-analytics standing is derived from: the student's
/// attendance counts and the points of each of the student's grades.
#[derive(Debug)]
pub struct AnalyticsBasis {
    pub student_id: String,
    pub attendance: AttendanceSummary,
    pub scores: Vec<Score>,
}

/// The scores of a student's grades, in store order.
pub open spec fn scores_of(v: StoreView, student_id: Seq<char>) -> Seq<Score> {
    v.grades.filter(|g: Grade| g.student_id@ == student_id).map_values(
        |g: Grade| Score { earned: g.points_earned, possible: g.points_possible },
    )
}

impl StudentStore {
    /// A student's transcript, logged as `read_transcript`: one line per
    /// completed enrollment whose section and course exist, in enrollment
    /// order; `None` for an unknown student.
    pub fn transcript(&mut self, actor: &str, student_id: &str) -> (r: Option<Transcript>)
        requires
            old(self)@.wf(),
        ensures
            final(self)@.wf(),
            !has_key(old(self)@.students, student_id@) ==> r is None && final(self)@ == old(self)@,
            has_key(old(self)@.students, student_id@) ==> (r matches Some(t) && {
                &&& t.student_id@ == student_id@
                &&& t.entries@ == old(self)@.enrollments.filter(|e: Enrollment| on_transcript(old(self)@, student_id@, e)).map_values(
                    |e: Enrollment| entry_of(old(self)@, e),
                )
                &&& final(self)@ == (StoreView { log: final(self)@.log, ..old(self)@ })
                &&& logged(old(self)@.log, final(self)@.log, actor@, student_id@, "read_transcript"@, "full"@)
            }),
    {
        if !self.student_exists(student_id) {
            return None;
        }
        self.log_access(actor, student_id, "read_transcript", "full");
        let ghost v = self@;
        let ghost keep = |e: Enrollment| on_transcript(v, student_id@, e);
        let ghost f = |e: Enrollment| entry_of(v, e);
        let mut entries: Vec<TranscriptEntry> = Vec::new();
        let mut i: usize = 0;
        while i < self.enrollments.len()
            invariant
                self@ == v,
                v.wf(),
                i <= v.enrollments.len(),
                keep == (|e: Enrollment| on_transcript(v, student_id@, e)),
                f == (|e: Enrollment| entry_of(v, e)),
                entries@ == v.enrollments.take(i as int).filter(keep).map_values(f),
            decreases self.enrollments.len() - i,
        {
            let e = &self.enrollments[i];
            proof {
                reveal_with_fuel(Seq::filter, 1);
                assert(v.enrollments.take(i + 1).drop_last() =~= v.enrollments.take(i as int));
            }
            let mut added = false;
            if str_equal(e.student_id.as_str(), student_id) && e.status == SectionEnrollmentStatus::Completed {
                match find_key(&self.sections, e.section_id.as_str()) {
                    Some(si) => {
                        proof {
                            lemma_key_index(v.sections, e.section_id@, si as int);
                        }
                        let sec = &self.sections[si];
                        match find_key(&self.courses, sec.course_id.as_str()) {
                            Some(ci) => {
                                proof {
                                    lemma_key_index(v.courses, sec.course_id@, ci as int);
                                }
                                let crs = &self.courses[ci];
                                let gp = match &e.final_grade {
                                    Some(g) => grade_points(Some(g.as_str())),
                                    None => grade_points(None),
                                };
                                let entry = TranscriptEntry {
                                    course: crs.code.clone(),
                                    title: crs.title.clone(),
                                    term: sec.term.clone(),
                                    credits: crs.credits,
                                    grade: e.final_grade.clone(),
                                    grade_points: gp,
                                };
                                proof {
                                    let p = v.enrollments.take(i as int).filter(keep);
                                    assert(v.enrollments.take(i + 1).filter(keep) == p.push(*e));
                                    assert(entry == f(*e));
                                }
                                entries.push(entry);
                                proof {
                                    let p = v.enrollments.take(i as int).filter(keep);
                                    assert(entries@ =~= p.push(*e).map_values(f));
                                }
                                added = true;
                            },
                            None => {},
                        }
                    },
                    None => {},
                }
            }
            if !added {
                assert(!keep(*e));
                assert(v.enrollments.take(i + 1).filter(keep) == v.enrollments.take(i as int).filter(keep));
            }
            i = i + 1;
        }
        assert(v.enrollments.take(i as int) =~= v.enrollments);
        proof {
            let o = old(self)@;
            assert(keep =~= (|e: Enrollment| on_transcript(o, student_id@, e)));
            assert(f =~= (|e: Enrollment| entry_of(o, e)));
        }
        Some(Transcript { student_id: String::from_str(student_id), entries })
    }

    /// The basis of a student's learning-analytics standing, logged as
    /// `read_analytics` and then, for the attendance part, `read_attendance`;
    /// `None` for an unknown student.
    pub fn analytics(&mut self, actor: &str, student_id: &str) -> (r: Option<AnalyticsBasis>)
        requires
            old(self)@.wf(),
        ensures
            final(self)@.wf(),
            !has_key(old(self)@.students, student_id@) ==> r is None && final(self)@ == old(self)@,
            has_key(old(self)@.students, student_id@) ==> (r matches Some(b) && {
                let recs = attendance_of(old(self)@, student_id@);
                &&& b.student_id@ == student_id@
                &&& b.attendance.student_id@ == student_id@
                &&& b.attendance.records == recs.len()
                &&& b.attendance.present == recs.filter(|r: AttendanceRecord| counts_present(r.code)).len()
                &&& b.attendance.absent == recs.filter(|r: AttendanceRecord| r.code == AttendanceCode::Absent).len()
                &&& b.attendance.tardy == recs.filter(|r: AttendanceRecord| r.code == AttendanceCode::Tardy).len()
                &&& b.scores@ == scores_of(old(self)@, student_id@)
                &&& final(self)@ == (StoreView { log: final(self)@.log, ..old(self)@ })
                &&& final(self)@.log.len() == old(self)@.log.len() + 2
                &&& final(self)@.log.take(old(self)@.log.len() as int) == old(self)@.log
                &&& entry_is(final(self)@.log[old(self)@.log.len() as int], actor@, student_id@, "read_analytics"@, "risk"@)
                &&& entry_is(final(self)@.log[old(self)@.log.len() + 1int], actor@, student_id@, "read_attendance"@, "summary"@)
            }),
    {
        if !self.student_exists(student_id) {
            return None;
        }
        let ghost log0 = self@.log;
        self.log_access(actor, student_id, "read_analytics", "risk");
        let ghost log1 = self@.log;
        let att = self.attendance_summary(actor, student_id);
        proof {
            assert(self@.log.drop_last() == log1);
            assert(log1.drop_last() == log0);
            assert(self@.log[log0.len() as int] == log1[log0.len() as int]);
            assert(self@.log.take(log0.len() as int) =~= log0);
        }
        let ghost v = self@;
        let ghost mine = |g: Grade| g.student_id@ == student_id@;
        let ghost f = |g: Grade| Score { earned: g.points_earned, possible: g.points_possible };
        let mut scores: Vec<Score> = Vec::new();
        let mut i: usize = 0;
        while i < self.grades.len()
            invariant
                self@ == v,
                i <= v.grades.len(),
                mine == (|g: Grade| g.student_id@ == student_id@),
                f == (|g: Grade| Score { earned: g.points_earned, possible: g.points_possible }),
                scores@ == v.grades.take(i as int).filter(mine).map_values(f),
            decreases self.grades.len() - i,
        {
            let g = &self.grades[i];
            proof {
                reveal_with_fuel(Seq::filter, 1);
                assert(v.grades.take(i + 1).drop_last() =~= v.grades.take(i as int));
            }
            if str_equal(g.student_id.as_str(), student_id) {
                let ghost p = v.grades.take(i as int).filter(mine);
                scores.push(Score { earned: g.points_earned, possible: g.points_possible });
                assert(scores@ =~= p.push(*g).map_values(f));
            }
            i = i + 1;
        }
        assert(v.grades.take(i as int) =~= v.grades);
        Some(AnalyticsBasis { student_id: String::from_str(student_id), attendance: att, scores })
    }
}

} // verus!

verus! {

// ── seed ────────────────────────────────────────────────────────────────────

/// The binary64 encodings of the seeded quantities.
pub open spec fn one_bits() -> u64 {
    0x3ff0_0000_0000_0000
}

pub open spec fn eighteen_bits() -> u64 {
    0x4032_0000_0000_0000
}

pub open spec fn twenty_bits() -> u64 {
    0x4034_0000_0000_0000
}

pub open spec fn eighty_two_bits() -> u64 {
    0x4054_8000_0000_0000
}

pub open spec fn hundred_bits() -> u64 {
    0x4059_0000_0000_0000
}

/// The seeded (fictitious) students.
pub open spec fn seeded_students(s: Seq<Student>) -> bool {
    &&& s.len() == 2
    &&& s[0].id@ == "STU-1001"@
    &&& s[0].sis_id@ == "S44821"@
    &&& s[0].family_name@ == "Mwangi"@
    &&& s[0].given_name@ == "Aisha"@
    &&& s[0].grade_level@ == "10"@
    &&& opt_string_view(s[0].program) == Some("STEM"@)
    &&& s[0].status == EnrollmentStatus::Active
    &&& s[0].date_of_birth == Some(Date { year: 2010, month: 4, day: 12 })
    &&& s[0].accommodations@.len() == 0
    &&& s[0].enrolled_on == Some(Date { year: 2024, month: 8, day: 20 })
    &&& s[1].id@ == "STU-1002"@
    &&& s[1].sis_id@ == "S90233"@
    &&& s[1].family_name@ == "Lopez"@
    &&& s[1].given_name@ == "Diego"@
    &&& s[1].grade_level@ == "10"@
    &&& s[1].program is None
    &&& s[1].status == EnrollmentStatus::Active
    &&& s[1].date_of_birth == Some(Date { year: 2010, month: 9, day: 2 })
    &&& s[1].accommodations@.len() == 1
    &&& s[1].accommodations@[0].id@ == "ACC-seed"@
    &&& s[1].accommodations@[0].kind@ == "504"@
    &&& s[1].accommodations@[0].description@ == "Extended time on tests"@
    &&& s[1].accommodations@[0].active
    &&& s[1].enrolled_on == Some(Date { year: 2024, month: 8, day: 20 })
}

/// The seeded catalog, section, enrollment, assignments and grades.
pub open spec fn seeded_courses(v: StoreView) -> bool {
    &&& v.courses.len() == 1
    &&& v.courses[0].id@ == serial_id("CRS"@, 1001)
    &&& v.courses[0].code@ == "ALG2"@
    &&& v.courses[0].title@ == "Algebra II"@
    &&& v.courses[0].credits.bits == one_bits()
    &&& v.courses[0].subject@ == "Mathematics"@
    &&& v.sections.len() == 1
    &&& v.sections[0].id@ == serial_id("SEC"@, 1002)
    &&& v.sections[0].course_id@ == v.courses[0].id@
    &&& v.sections[0].term@ == "2026-Spring"@
    &&& v.sections[0].instructor@ == "Ms. Carter"@
    &&& v.sections[0].grade_weights == parsed_json("{\"homework\":0.3,\"exams\":0.7}"@)
    &&& v.enrollments.len() == 1
    &&& v.enrollments[0].id@ == serial_id("ENR"@, 1003)
    &&& v.enrollments[0].student_id@ == "STU-1001"@
    &&& v.enrollments[0].section_id@ == v.sections[0].id@
    &&& v.enrollments[0].status == SectionEnrollmentStatus::Enrolled
    &&& v.enrollments[0].final_grade is None
    &&& v.assignments.len() == 2
    &&& v.assignments[0].id@ == serial_id("ASG"@, 1004)
    &&& v.assignments[0].section_id@ == v.sections[0].id@
    &&& v.assignments[0].name@ == "HW 1"@
    &&& v.assignments[0].category@ == "homework"@
    &&& v.assignments[0].points_possible.bits == twenty_bits()
    &&& v.assignments[0].due_date is None
    &&& v.assignments[1].id@ == serial_id("ASG"@, 1005)
    &&& v.assignments[1].section_id@ == v.sections[0].id@
    &&& v.assignments[1].name@ == "Midterm"@
    &&& v.assignments[1].category@ == "exams"@
    &&& v.assignments[1].points_possible.bits == hundred_bits()
    &&& v.assignments[1].due_date is None
    &&& v.grades.len() == 2
    &&& v.grades[0].id@ == serial_id("GRD"@, 1006)
    &&& v.grades[0].assignment_id@ == v.assignments[0].id@
    &&& v.grades[0].student_id@ == "STU-1001"@
    &&& v.grades[0].points_earned.bits == eighteen_bits()
    &&& v.grades[0].points_possible.bits == twenty_bits()
    &&& v.grades[0].rubric@.len() == 0
    &&& v.grades[0].feedback is None
    &&& v.grades[0].graded_by@ == "Ms. Carter"@
    &&& v.grades[1].id@ == serial_id("GRD"@, 1007)
    &&& v.grades[1].assignment_id@ == v.assignments[1].id@
    &&& v.grades[1].student_id@ == "STU-1001"@
    &&& v.grades[1].points_earned.bits == eighty_two_bits()
    &&& v.grades[1].points_possible.bits == hundred_bits()
    &&& v.grades[1].rubric@.len() == 0
    &&& v.grades[1].feedback is None
    &&& v.grades[1].graded_by@ == "Ms. Carter"@
}

/// The seeded attendance record, guardian and access log.
pub open spec fn seeded_rest(v: StoreView) -> bool {
    &&& v.attendance.len() == 1
    &&& v.attendance[0].id@ == serial_id("ATT"@, 1008)
    &&& v.attendance[0].student_id@ == "STU-1001"@
    &&& opt_string_view(v.attendance[0].section_id) == Some(v.sections[0].id@)
    &&& v.attendance[0].date == (Date { year: 2026, month: 3, day: 2 })
    &&& v.attendance[0].code == AttendanceCode::Present
    &&& v.attendance[0].note is None
    &&& v.cases.len() == 0
    &&& v.guardians.len() == 1
    &&& v.guardians[0].id@ == serial_id("GRD"@, 1009)
    &&& v.guardians[0].student_id@ == "STU-1001"@
    &&& v.guardians[0].name@ == "Grace Mwangi"@
    &&& v.guardians[0].relationship@ == "mother"@
    &&& v.guardians[0].contact_ref@ == "ref:grace"@
    &&& v.guardians[0].consent_on_file
    &&& v.comms.len() == 0
    &&& v.log.len() == 5
    &&& entry_is(v.log[0], "registrar"@, "STU-1001"@, "enroll"@, v.sections[0].id@)
    &&& entry_is(v.log[1], "Ms. Carter"@, "STU-1001"@, "record_grade"@, v.assignments[0].id@)
    &&& entry_is(v.log[2], "Ms. Carter"@, "STU-1001"@, "record_grade"@, v.assignments[1].id@)
    &&& entry_is(v.log[3], "system"@, "STU-1001"@, "record_attendance"@, "Present"@)
    &&& entry_is(v.log[4], "registrar"@, "STU-1001"@, "add_guardian"@, "mother"@)
}

/// The state of a new store: two fictitious students with one course,
/// section, enrollment, two graded assignments, an attendance record and a
/// consenting guardian; serial numbers 1001 to 1009 issued.
pub open spec fn seeded(v: StoreView) -> bool {
    &&& v.wf()
    &&& v.serial == 1009
    &&& seeded_students(v.students)
    &&& seeded_courses(v)
    &&& seeded_rest(v)
}

impl StudentStore {
    fn seed_students() -> (r: Vec<Student>)
        ensures
            seeded_students(r@),
            distinct_keys(r@),
    {
        let now = now_micros();
        let s1 = Student {
            id: String::from_str("STU-1001"),
            sis_id: String::from_str("S44821"),
            family_name: String::from_str("Mwangi"),
            given_name: String::from_str("Aisha"),
            grade_level: String::from_str("10"),
            program: Some(String::from_str("STEM")),
            status: EnrollmentStatus::Active,
            date_of_birth: Date::from_ymd_opt(2010, 4, 12),
            accommodations: Vec::new(),
            enrolled_on: Date::from_ymd_opt(2024, 8, 20),
            created_at: now,
            updated_at: now,
        };
        let mut acc: Vec<Accommodation> = Vec::new();
        acc.push(
            Accommodation {
                id: String::from_str("ACC-seed"),
                kind: String::from_str("504"),
                description: String::from_str("Extended time on tests"),
                active: true,
            },
        );
        let s2 = Student {
            id: String::from_str("STU-1002"),
            sis_id: String::from_str("S90233"),
            family_name: String::from_str("Lopez"),
            given_name: String::from_str("Diego"),
            grade_level: String::from_str("10"),
            program: None,
            status: EnrollmentStatus::Active,
            date_of_birth: Date::from_ymd_opt(2010, 9, 2),
            accommodations: acc,
            enrolled_on: Date::from_ymd_opt(2024, 8, 20),
            created_at: now,
            updated_at: now,
        };
        let mut r: Vec<Student> = Vec::new();
        r.push(s1);
        r.push(s2);
        proof {
            reveal_strlit("STU-1001");
            reveal_strlit("STU-1002");
            assert(r@[0].key() != r@[1].key()) by {
                assert(r@[0].key()[7] != r@[1].key()[7]);
            }
        }
        r
    }

    fn empty() -> (r: Self)
        ensures
            r@.wf(),
            r@.serial == 1000,
            r@.students.len() == 0,
            r@.courses.len() == 0,
            r@.sections.len() == 0,
            r@.enrollments.len() == 0,
            r@.assignments.len() == 0,
            r@.grades.len() == 0,
            r@.attendance.len() == 0,
            r@.cases.len() == 0,
            r@.guardians.len() == 0,
            r@.comms.len() == 0,
            r@.log.len() == 0,
    {
        StudentStore {
            students: Vec::new(),
            courses: Vec::new(),
            sections: Vec::new(),
            enrollments: Vec::new(),
            assignments: Vec::new(),
            grades: Vec::new(),
            attendance: Vec::new(),
            cases: Vec::new(),
            guardians: Vec::new(),
            comms: Vec::new(),
            access_log: Vec::new(),
            seq: 1000,
        }
    }

    /// A new store holding the fictitious sample data described by `seeded`.
    pub fn new() -> (r: Self)
        ensures
            seeded(r@),
    {
        let mut st = Self::empty();
        st.students = Self::seed_students();
        let ghost students = st@.students;
        let crs = st.create_course("ALG2", "Algebra II", Binary64 { bits: 0x3ff0_0000_0000_0000 }, "Mathematics");
        assert(st@.courses[0] == crs);
        assert(has_key(st@.courses, crs.id@));
        let weights = json_from_text("{\"homework\":0.3,\"exams\":0.7}");
        let sec = match st.create_section(crs.id.as_str(), "2026-Spring", "Ms. Carter", weights) {
            Ok(sec) => sec,
            Err(_) => {
                return st;
            },
        };
        assert(st@.sections[0] == sec);
        assert(st@.students[0].key() == "STU-1001"@);
        assert(has_key(st@.students, "STU-1001"@));
        assert(has_key(st@.sections, sec.id@));
        let _ = st.enroll("STU-1001", sec.id.as_str(), "registrar");
        assert(st@.students == students);
        let hw = match st.create_assignment(sec.id.as_str(), "HW 1", "homework", Binary64 { bits: 0x4034_0000_0000_0000 }, None) {
            Ok(a) => a,
            Err(_) => {
                return st;
            },
        };
        let ex = match st.create_assignment(sec.id.as_str(), "Midterm", "exams", Binary64 { bits: 0x4059_0000_0000_0000 }, None) {
            Ok(a) => a,
            Err(_) => {
                return st;
            },
        };
        assert(st@.assignments[0] == hw && st@.assignments[1] == ex);
        assert(has_key(st@.assignments, hw.id@));
        assert(has_key(st@.assignments, ex.id@));
        assert(has_key(st@.students, "STU-1001"@));
        proof {
            lemma_key_index(st@.assignments, hw.id@, 0);
            lemma_key_index(st@.assignments, ex.id@, 1);
        }
        let zero = Binary64 { bits: 0 };
        let _ = st.record_grade(hw.id.as_str(), "STU-1001", Binary64 { bits: 0x4032_0000_0000_0000 }, Vec::new(), zero, None, "Ms. Carter");
        let ghost g1s = st@.grades;
        assert(g1s.len() == 1);
        assert(g1s[0].assignment_id@ == hw.id@);
        let _ = st.record_grade(ex.id.as_str(), "STU-1001", Binary64 { bits: 0x4054_8000_0000_0000 }, Vec::new(), zero, None, "Ms. Carter");
        proof {
            if hw.id@ == ex.id@ {
                crate::text::lemma_serial_id_injective("ASG"@, 1004, 1005);
            }
            reveal_with_fuel(Seq::filter, 2);
            assert(g1s.drop_last() =~= Seq::<Grade>::empty());
            assert(g1s.filter(other_pairs(ex.id@, "STU-1001"@)) =~= g1s);
        }
        let day = Date { year: 2026, month: 3, day: 2 };
        let _ = st.record_attendance("STU-1001", Some(sec.id.clone()), day, AttendanceCode::Present, None, "system");
        let _ = st.add_guardian("STU-1001", "Grace Mwangi", "mother", "ref:grace", true, "registrar");
        st
    }
}

impl Default for StudentStore {
    fn default() -> (r: Self)
        ensures
            seeded(r@),
    {
        Self::new()
    }
}

} // verus!

