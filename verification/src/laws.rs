//! Properties of the store that relate its operations.

use crate::keyed::{distinct_keys, has_key, issued_key, key_index, lemma_key_index, Keyed};
use crate::external::lowercase;
use crate::store::{
    cases_of, copied_in, copies_each, copy_in, graded_in_section, guardians_of, item_of, opt_view, scores_of,
    student_matches, GradedItem, Score,
    already_enrolled, entries_for, entry_is, grade_is_for, grade_of, has_grade, ids_of,
    is_active_enrollment, issuing_prefix, lemma_grade_of, logged, one_grade_each, other_pairs,
    sent_with_consent, RecordKind, StoreView,
};
use crate::text::{eq_ignoring_ascii_case, has_substring, lemma_serial_id_unique, serial_id};
use crate::types::{Assignment, Enrollment, EnrollmentStatus, Grade, Guardian, Student, SupportCase};
use vstd::prelude::*;

verus! {

/// FERPA accounting: an access logged about a student is reported, as the
/// newest entry, by that student's access log, and reports about other
/// students are unchanged.
pub proof fn law_logged_access_is_reported(
    old_log: Seq<crate::types::AccessEntry>,
    new_log: Seq<crate::types::AccessEntry>,
    actor: Seq<char>,
    student_id: Seq<char>,
    action: Seq<char>,
    detail: Seq<char>,
    other: Seq<char>,
)
    requires
        logged(old_log, new_log, actor, student_id, action, detail),
    ensures
        entries_for(new_log, student_id) == entries_for(old_log, student_id).push(new_log.last()),
        entry_is(entries_for(new_log, student_id).last(), actor, student_id, action, detail),
        other != student_id ==> entries_for(new_log, other) == entries_for(old_log, other),
{
    reveal_with_fuel(Seq::filter, 1);
    assert(new_log.drop_last() == old_log);
}

/// FERPA consent: every communication the store holds went to a guardian of
/// its student with consent on file.
pub proof fn law_communications_consented(v: StoreView)
    requires
        v.wf(),
    ensures
        forall|k: int| 0 <= k < v.comms.len() ==> sent_with_consent(#[trigger] v.comms[k], v.guardians),
{
}

/// Record identifiers are unique within each kind of record.
pub proof fn law_ids_unique(v: StoreView)
    requires
        v.wf(),
    ensures
        distinct_keys(v.students),
        distinct_keys(v.courses),
        distinct_keys(v.sections),
        distinct_keys(v.assignments),
        distinct_keys(v.cases),
        distinct_keys(v.guardians),
        distinct_keys(v.enrollments),
        distinct_keys(v.grades),
        distinct_keys(v.attendance),
        distinct_keys(v.comms),
{
}

/// Identifiers from the store's serial issuer, made under prefixes of one
/// length (the store's are all three letters), differ whenever their serial
/// numbers differ. Each issue takes a new number, so no two issued ids are
/// equal, whatever kinds of record they were issued to.
pub proof fn law_serial_ids_distinct(p: Seq<char>, a: nat, q: Seq<char>, b: nat)
    requires
        p.len() == q.len(),
        a != b,
    ensures
        serial_id(p, a) != serial_id(q, b),
{
    if serial_id(p, a) == serial_id(q, b) {
        lemma_serial_id_unique(p, a, q, b);
    }
}

/// Every id of a record of `kind` was issued under the kind's prefix.
proof fn lemma_ids_issued(v: StoreView, kind: RecordKind, i: int)
    requires
        v.wf(),
        0 <= i < ids_of(v, kind).len(),
    ensures
        issued_key(ids_of(v, kind)[i], issuing_prefix(kind), v.serial),
{
    match kind {
        RecordKind::Course => assert(issued_key(v.courses[i].key(), "CRS"@, v.serial)),
        RecordKind::Section => assert(issued_key(v.sections[i].key(), "SEC"@, v.serial)),
        RecordKind::Enrollment => assert(issued_key(v.enrollments[i].key(), "ENR"@, v.serial)),
        RecordKind::Assignment => assert(issued_key(v.assignments[i].key(), "ASG"@, v.serial)),
        RecordKind::Grade => assert(issued_key(v.grades[i].key(), "GRD"@, v.serial)),
        RecordKind::Attendance => assert(issued_key(v.attendance[i].key(), "ATT"@, v.serial)),
        RecordKind::Case => assert(issued_key(v.cases[i].key(), "SUP"@, v.serial)),
        RecordKind::Guardian => assert(issued_key(v.guardians[i].key(), "GRD"@, v.serial)),
        RecordKind::Communication => assert(issued_key(v.comms[i].key(), "COM"@, v.serial)),
    }
}

/// Records of different kinds never share an id: the serial ids the store
/// issues are distinct across courses, sections, enrollments, assignments,
/// grades, attendance records, support cases, guardians and communications.
pub proof fn law_ids_distinct_across_kinds(v: StoreView, k1: RecordKind, i: int, k2: RecordKind, j: int)
    requires
        v.wf(),
        k1 != k2,
        0 <= i < ids_of(v, k1).len(),
        0 <= j < ids_of(v, k2).len(),
    ensures
        ids_of(v, k1)[i] != ids_of(v, k2)[j],
{
    reveal_strlit("CRS");
    reveal_strlit("SEC");
    reveal_strlit("ENR");
    reveal_strlit("ASG");
    reveal_strlit("GRD");
    reveal_strlit("ATT");
    reveal_strlit("SUP");
    reveal_strlit("COM");
    if ids_of(v, k1)[i] == ids_of(v, k2)[j] {
        lemma_ids_issued(v, k1, i);
        lemma_ids_issued(v, k2, j);
        let p = issuing_prefix(k1);
        let q = issuing_prefix(k2);
        let a = choose|a: nat| a <= v.serial && ids_of(v, k1)[i] == #[trigger] serial_id(p, a);
        let b = choose|b: nat| b <= v.serial && ids_of(v, k2)[j] == #[trigger] serial_id(q, b);
        lemma_serial_id_unique(p, a, q, b);
        assert(p[0] == q[0] && p[1] == q[1] && p[2] == q[2]);
        if k1 is Grade {
            assert(k2 is Guardian);
            assert(v.grades[i].key() != v.guardians[j].key());
        } else if k2 is Grade {
            assert(k1 is Guardian);
            assert(v.grades[j].key() != v.guardians[i].key());
        } else {
            assert(false);
        }
    }
}

/// A student has at most one grade per assignment.
pub proof fn law_one_grade_per_assignment(v: StoreView, i: int, j: int)
    requires
        v.wf(),
        0 <= i < v.grades.len(),
        0 <= j < v.grades.len(),
        v.grades[i].assignment_id@ == v.grades[j].assignment_id@,
        v.grades[i].student_id@ == v.grades[j].student_id@,
    ensures
        i == j,
{
    assert(one_grade_each(v.grades));
}

/// Recording a grade replaces: afterwards the grade for that assignment and
/// student is the new one, and every other pair keeps its grade.
pub proof fn law_recorded_grade_is_read_back(
    before: Seq<Grade>,
    after: Seq<Grade>,
    g: Grade,
    assignment_id: Seq<char>,
    student_id: Seq<char>,
    a2: Seq<char>,
    s2: Seq<char>,
)
    requires
        one_grade_each(after),
        after.len() == before.filter(other_pairs(assignment_id, student_id)).len() + 1,
        after.drop_last() == before.filter(other_pairs(assignment_id, student_id)),
        after.last() == g,
        grade_is_for(g, assignment_id, student_id),
        !(a2 == assignment_id && s2 == student_id),
    ensures
        has_grade(after, assignment_id, student_id),
        grade_of(after, assignment_id, student_id) == g,
        has_grade(after, a2, s2) == has_grade(before, a2, s2),
{
    broadcast use vstd::seq_lib::group_filter_ensures;

    let f = before.filter(other_pairs(assignment_id, student_id));
    lemma_grade_of(after, assignment_id, student_id, after.len() - 1);
    if has_grade(before, a2, s2) {
        let i = choose|i: int| 0 <= i < before.len() && grade_is_for(#[trigger] before[i], a2, s2);
        assert(other_pairs(assignment_id, student_id)(before[i]));
        assert(f.contains(before[i]));
        let k = choose|k: int| 0 <= k < f.len() && f[k] == before[i];
        assert(after[k] == f[k]);
    }
    if has_grade(after, a2, s2) {
        let k = choose|k: int| 0 <= k < after.len() && grade_is_for(#[trigger] after[k], a2, s2);
        if k < after.len() - 1 {
            assert(after[k] == f[k]);
            assert(f.contains(f[k]));
            before.lemma_filter_contains_rev(other_pairs(assignment_id, student_id), f[k]);
            assert(before.contains(f[k]));
        }
    }
}

/// A successful enrollment leaves the student actively enrolled in the
/// section, so enrolling the same pair again is refused.
pub proof fn law_enrollment_is_guarded(
    before: Seq<Enrollment>,
    e: Enrollment,
    student_id: Seq<char>,
    section_id: Seq<char>,
)
    requires
        is_active_enrollment(e, student_id, section_id),
    ensures
        already_enrolled(before.push(e), student_id, section_id),
{
    assert(before.push(e)[before.len() as int] == e);
}

/// A status written to a student is the status read back for that student.
pub proof fn law_status_is_read_back(students: Seq<Student>, i: int, s: Student, status: EnrollmentStatus)
    requires
        distinct_keys(students),
        0 <= i < students.len(),
        s.key() == students[i].key(),
        s.status == status,
    ensures
        has_key(students.update(i, s), s.key()),
        students.update(i, s)[key_index(students.update(i, s), s.key())].status == status,
{
    let t = students.update(i, s);
    assert forall|a: int, b: int| 0 <= a < t.len() && 0 <= b < t.len() && a != b implies (#[trigger] t[a]).key() != (#[trigger] t[b]).key() by {
        if a != i && b != i {
            assert(t[a] == students[a] && t[b] == students[b]);
        } else if a == i {
            assert(t[b] == students[b]);
        } else {
            assert(t[a] == students[a]);
        }
    }
    lemma_key_index(t, s.key(), i);
}

/// A student's guardians, as `guardians_for` lists them, are every guardian
/// linked to that student, with or without consent on file, and nothing else.
pub proof fn law_guardians_listed_whatever_their_consent(v: StoreView, student_id: Seq<char>, r: Seq<Guardian>)
    requires
        r == guardians_of(v, student_id),
    ensures
        forall|i: int| 0 <= i < v.guardians.len() && v.guardians[i].student_id@ == student_id ==> r.contains(#[trigger] v.guardians[i]),
        forall|k: int| 0 <= k < r.len() ==> (#[trigger] r[k]).student_id@ == student_id && v.guardians.contains(r[k]),
{
    broadcast use vstd::seq_lib::group_filter_ensures, Seq::lemma_filter_contains_rev;

    assert forall|i: int| 0 <= i < v.guardians.len() && v.guardians[i].student_id@ == student_id implies r.contains(#[trigger] v.guardians[i]) by {
        assert(guardians_of(v, student_id).contains(v.guardians[i]));
    }
    assert forall|k: int| 0 <= k < r.len() implies (#[trigger] r[k]).student_id@ == student_id && v.guardians.contains(r[k]) by {
        assert(guardians_of(v, student_id)[k] == r[k]);
        assert(guardians_of(v, student_id).contains(r[k]));
    }
}

/// A student's support cases, as `cases_for` lists them, are a copy of every
/// case of that student, whatever its status, and of no other case.
#[verifier::spinoff_prover]
pub proof fn law_cases_listed_whatever_their_status(v: StoreView, student_id: &str, r: Seq<SupportCase>)
    requires
        copies_each(r, cases_of(v, student_id@)),
    ensures
        forall|i: int|
            0 <= i < v.cases.len() && (#[trigger] v.cases[i]).student_id@ == student_id@ ==> copied_in(v.cases[i], r),
        forall|k: int| 0 <= k < r.len() ==> (#[trigger] r[k]).student_id@ == student_id@ && copy_in(r[k], v.cases),
{
    let p = |c: SupportCase| c.student_id@ == student_id@;
    let f = v.cases.filter(p);
    assert(cases_of(v, student_id@) == f);
    assert forall|i: int| 0 <= i < v.cases.len() && (#[trigger] v.cases[i]).student_id@ == student_id@ implies copied_in(v.cases[i], r) by {
        v.cases.lemma_filter_contains(p, i);
        let m = choose|m: int| 0 <= m < f.len() && f[m] == v.cases[i];
        assert(copied_in(f[m], r));
    }
    assert forall|k: int| 0 <= k < r.len() implies (#[trigger] r[k]).student_id@ == student_id@ && copy_in(r[k], v.cases) by {
        assert(copy_in(r[k], f));
        let m = choose|m: int| 0 <= m < f.len() && r[k].is_copy_of(&#[trigger] f[m]);
        v.cases.lemma_filter_pred(p, m);
        assert(f.contains(f[m]));
        v.cases.lemma_filter_contains_rev(p, f[m]);
        let i = choose|i: int| 0 <= i < v.cases.len() && v.cases[i] == f[m];
        assert(r[k].is_copy_of(&v.cases[i]));
    }
}

/// Some grade of the student carries exactly these points.
pub open spec fn points_of_a_grade(grades: Seq<Grade>, student_id: Seq<char>, x: Score) -> bool {
    exists|i: int|
        0 <= i < grades.len() && (#[trigger] grades[i]).student_id@ == student_id && x == (Score {
            earned: grades[i].points_earned,
            possible: grades[i].points_possible,
        })
}

/// The scores behind a student's analytics are the points of every grade of
/// that student, rubric-scored or not, and of no other grade.
pub proof fn law_analytics_counts_every_grade(v: StoreView, student_id: &str, scores: Seq<Score>)
    requires
        scores == scores_of(v, student_id@),
    ensures
        forall|i: int|
            0 <= i < v.grades.len() && v.grades[i].student_id@ == student_id@ ==> scores.contains(
                Score { earned: (#[trigger] v.grades[i]).points_earned, possible: v.grades[i].points_possible },
            ),
        forall|k: int| 0 <= k < scores.len() ==> points_of_a_grade(v.grades, student_id@, #[trigger] scores[k]),
{
    let p = |g: Grade| g.student_id@ == student_id@;
    let sc = |g: Grade| Score { earned: g.points_earned, possible: g.points_possible };
    let f = v.grades.filter(p);
    assert(scores == f.map_values(sc));
    assert forall|i: int| 0 <= i < v.grades.len() && v.grades[i].student_id@ == student_id@ implies scores.contains(
        Score { earned: (#[trigger] v.grades[i]).points_earned, possible: v.grades[i].points_possible },
    ) by {
        v.grades.lemma_filter_contains(p, i);
        let m = choose|m: int| 0 <= m < f.len() && f[m] == v.grades[i];
        assert(scores[m] == sc(f[m]));
    }
    assert forall|k: int| 0 <= k < scores.len() implies points_of_a_grade(v.grades, student_id@, #[trigger] scores[k]) by {
        assert(scores[k] == sc(f[k]));
        v.grades.lemma_filter_pred(p, k);
        assert(f.contains(f[k]));
        v.grades.lemma_filter_contains_rev(p, f[k]);
        let i = choose|i: int| 0 <= i < v.grades.len() && v.grades[i] == f[k];
        assert(v.grades[i].student_id@ == student_id@);
        assert(scores[k] == sc(v.grades[i]));
    }
}

/// Some assignment of the section that the student has a grade for has
/// exactly this gradebook line.
pub open spec fn line_of_section_work(v: StoreView, student_id: Seq<char>, section_id: Seq<char>, it: GradedItem) -> bool {
    exists|j: int|
        0 <= j < v.assignments.len() && (#[trigger] v.assignments[j]).section_id@ == section_id
            && has_grade(v.grades, v.assignments[j].id@, student_id) && it == item_of(v, student_id, v.assignments[j])
}

/// A gradebook for a section holds the student's graded work in that
/// section only: every line is the line of an assignment whose section is
/// the requested one and that the student has a grade for, and every such
/// assignment has its line.
pub proof fn law_gradebook_is_the_sections_graded_work(
    v: StoreView,
    student_id: &str,
    section_id: &str,
    items: Seq<GradedItem>,
)
    requires
        items == graded_in_section(v, student_id@, section_id@).map_values(|a: Assignment| item_of(v, student_id@, a)),
    ensures
        forall|k: int| 0 <= k < items.len() ==> line_of_section_work(v, student_id@, section_id@, #[trigger] items[k]),
        forall|j: int|
            0 <= j < v.assignments.len() && (#[trigger] v.assignments[j]).section_id@ == section_id@
                && has_grade(v.grades, v.assignments[j].id@, student_id@) ==> items.contains(
                item_of(v, student_id@, v.assignments[j]),
            ),
{
    let p = |a: Assignment| a.section_id@ == section_id@ && has_grade(v.grades, a.id@, student_id@);
    let m = |a: Assignment| item_of(v, student_id@, a);
    let f = v.assignments.filter(p);
    assert(items == f.map_values(m));
    assert forall|k: int| 0 <= k < items.len() implies line_of_section_work(v, student_id@, section_id@, #[trigger] items[k]) by {
        assert(items[k] == m(f[k]));
        v.assignments.lemma_filter_pred(p, k);
        assert(f.contains(f[k]));
        v.assignments.lemma_filter_contains_rev(p, f[k]);
        let j = choose|j: int| 0 <= j < v.assignments.len() && v.assignments[j] == f[k];
        assert(items[k] == item_of(v, student_id@, v.assignments[j]));
    }
    assert forall|j: int|
        0 <= j < v.assignments.len() && (#[trigger] v.assignments[j]).section_id@ == section_id@
            && has_grade(v.grades, v.assignments[j].id@, student_id@) implies items.contains(
        item_of(v, student_id@, v.assignments[j]),
    ) by {
        v.assignments.lemma_filter_contains(p, j);
        let n = choose|n: int| 0 <= n < f.len() && f[n] == v.assignments[j];
        assert(items[n] == m(f[n]));
    }
}

/// The student meets every given search filter: SIS id equal up to ASCII
/// case, name a substring of the lower-cased family or given name, grade
/// level exactly equal.
pub open spec fn meets_filters(
    s: Student,
    sis_id: Option<&str>,
    name: Option<&str>,
    grade_level: Option<&str>,
) -> bool {
    &&& (grade_level matches Some(g) ==> s.grade_level@ == g@)
    &&& (sis_id matches Some(x) ==> eq_ignoring_ascii_case(s.sis_id@, x@))
    &&& (name matches Some(n) ==> (has_substring(lowercase(s.family_name@), lowercase(n@))
        || has_substring(lowercase(s.given_name@), lowercase(n@))))
}

/// Some student of the store is copied by `x`.
pub open spec fn copies_a_student(students: Seq<Student>, x: Student) -> bool {
    exists|i: int| 0 <= i < students.len() && x.is_copy_of(&#[trigger] students[i])
}

/// Some student of `r` is a copy of `s`.
pub open spec fn student_found(r: Seq<Student>, s: Student) -> bool {
    exists|k: int| 0 <= k < r.len() && (#[trigger] r[k]).is_copy_of(&s)
}

/// A student search returns students of the store that each meet every
/// given filter (with a grade-level filter, exactly that grade level), and
/// a copy of every student of the store that meets them all.
pub proof fn law_find_students_meets_every_filter(
    students: Seq<Student>,
    sis_id: Option<&str>,
    name: Option<&str>,
    grade_level: Option<&str>,
    r: Seq<Student>,
)
    requires
        r.len() == students.filter(
            |s: Student| student_matches(s, opt_view(sis_id), opt_view(name), opt_view(grade_level)),
        ).len(),
        forall|k: int|
            0 <= k < r.len() ==> (#[trigger] r[k]).is_copy_of(
                &students.filter(
                    |s: Student| student_matches(s, opt_view(sis_id), opt_view(name), opt_view(grade_level)),
                )[k],
            ),
    ensures
        forall|k: int|
            0 <= k < r.len() ==> meets_filters(#[trigger] r[k], sis_id, name, grade_level) && copies_a_student(students, r[k]),
        forall|i: int|
            0 <= i < students.len() && meets_filters(#[trigger] students[i], sis_id, name, grade_level) ==> student_found(
                r,
                students[i],
            ),
{
    let p = |s: Student| student_matches(s, opt_view(sis_id), opt_view(name), opt_view(grade_level));
    let f = students.filter(p);
    assert forall|k: int| 0 <= k < r.len() implies meets_filters(#[trigger] r[k], sis_id, name, grade_level) && copies_a_student(students, r[k]) by {
        assert(r[k].is_copy_of(&f[k]));
        students.lemma_filter_pred(p, k);
        assert(f.contains(f[k]));
        students.lemma_filter_contains_rev(p, f[k]);
        let i = choose|i: int| 0 <= i < students.len() && students[i] == f[k];
        assert(r[k].is_copy_of(&students[i]));
    }
    assert forall|i: int| 0 <= i < students.len() && meets_filters(#[trigger] students[i], sis_id, name, grade_level) implies student_found(
        r,
        students[i],
    ) by {
        students.lemma_filter_contains(p, i);
        let n = choose|n: int| 0 <= n < f.len() && f[n] == students[i];
        assert(r[n].is_copy_of(&f[n]));
    }
}

} // verus!
