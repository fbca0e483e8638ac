//! Gradebook transformation: letter thresholds, the points-possible
//! fallback chain, weight normalization, and the placeholder and error
//! paths.

use svue::api::gradebook::{
    gradebook_params, Assignment_, AssignmentGradeCalc, Assignments, Course, Courses,
    GradeCalculationSummary, Gradebook, GradebookError, Mark, Marks, ReportPeriod,
    ReportingPeriod_, ReportingPeriods, Response,
};
use svue::numeric::Num;

fn fin(scaled: u64) -> Num {
    Num::Finite { neg: false, scaled }
}

fn period(name: &str) -> ReportPeriod {
    ReportPeriod {
        index: "0".to_string(),
        grade_period: name.to_string(),
        start_date: "08/26".to_string(),
        end_date: "11/01".to_string(),
    }
}

fn assignment(measure: &str, score_cal: Option<&str>, score_max: Option<&str>, points: &str)
    -> Assignment_ {
    Assignment_ {
        measure: measure.to_string(),
        assignment_type: "Homework".to_string(),
        score_cal_value: score_cal.map(|s| s.to_string()),
        score_max_value: score_max.map(|s| s.to_string()),
        points: points.to_string(),
        notes: String::new(),
    }
}

fn agc(kind: &str, weight: &str, points: &str, possible: &str) -> AssignmentGradeCalc {
    AssignmentGradeCalc {
        assignment_grade_calc_type: kind.to_string(),
        weight: weight.to_string(),
        points: points.to_string(),
        points_possible: possible.to_string(),
    }
}

fn course_with(raw: &str, letter: &str, agcs: Option<Vec<AssignmentGradeCalc>>,
    assigns: Vec<Assignment_>) -> Course {
    Course {
        title: "Algebra".to_string(),
        staff: "T. Teacher".to_string(),
        image_type: "math".to_string(),
        marks: Marks {
            mark: Some(Mark {
                calculated_score_string: letter.to_string(),
                calculated_score_raw: raw.to_string(),
                grade_calculation_summary: GradeCalculationSummary {
                    assignment_grade_calc: agcs,
                },
                assignments: Assignments { assignment: assigns },
            }),
        },
    }
}

fn gradebook_of(courses: Vec<Course>) -> Gradebook {
    Gradebook {
        reporting_periods: ReportingPeriods {
            report_period: vec![period("Quarter 1"), period("Quarter 2")],
        },
        reporting_period: ReportingPeriod_ {
            grade_period: "Quarter 2".to_string(),
            start_date: "11/04".to_string(),
            end_date: "01/24".to_string(),
        },
        courses: Courses { course: courses },
    }
}

fn single(course: Course) -> Response {
    Response::try_from_gradebook(gradebook_of(vec![course])).unwrap()
}

#[test]
fn report_period_is_the_matching_index() {
    let r = single(course_with("90", "A", None, vec![]));
    assert_eq!(r.report_period, 1);
    assert_eq!(r.reporting_periods.len(), 2);
    assert_eq!(r.reporting_periods[0].name, "Quarter 1");
    assert_eq!(r.reporting_periods[1].name, "Quarter 2");
}

#[test]
fn missing_selected_period_is_a_hard_error() {
    let mut g = gradebook_of(vec![]);
    g.reporting_period.grade_period = "Quarter 9".to_string();
    let e = Response::try_from_gradebook(g).unwrap_err();
    assert_eq!(e, GradebookError::MissingField("gp_idx"));
}

#[test]
fn letter_thresholds() {
    let cases = [
        ("89.5", "A"),
        ("89.4999", "B"),
        ("79.5", "B"),
        ("69.5", "C"),
        ("59.5", "D"),
        ("59.4999", "E"),
        ("0", "E"),
        ("-1", "E"),
        ("nan", "N/A"),
        ("-inf", "N/A"),
        ("inf", "A"),
    ];
    for (raw, want) in cases {
        // The upstream letter holds a digit, so it is recomputed.
        let r = single(course_with(raw, "95.1", None, vec![]));
        assert_eq!(r.classes[0].letter_grade, *want, "raw {raw}");
    }
}

#[test]
fn nonnumeric_upstream_letter_passes_through() {
    let r = single(course_with("89.4999", "B+", None, vec![]));
    assert_eq!(r.classes[0].letter_grade, "B+");
    assert_eq!(r.classes[0].grade, fin(894999));
}

#[test]
fn unparsable_grade_is_a_hard_error() {
    let e = Response::try_from_gradebook(gradebook_of(vec![course_with("abc", "A", None, vec![])]))
        .unwrap_err();
    assert_eq!(e, GradebookError::NumParsing);
}

#[test]
fn markless_course_degrades_to_placeholder() {
    let course = Course {
        title: "Advisory".to_string(),
        staff: "S".to_string(),
        image_type: "other".to_string(),
        marks: Marks { mark: None },
    };
    let r = single(course);
    let c = &r.classes[0];
    assert_eq!(c.grade, fin(0));
    assert_eq!(c.letter_grade, "N/A");
    assert!(c.assignments.is_empty());
    assert!(c.categories.is_empty());
}

#[test]
fn weight_percent_becomes_a_fraction() {
    let r = single(course_with("90", "A", Some(vec![agc("Homework", "25%", "45", "50")]), vec![]));
    let (name, cat) = &r.classes[0].categories[0];
    assert_eq!(name, "Homework");
    // 0.25 in ten-thousandths.
    assert_eq!(cat.weight, fin(2500));
    assert_eq!(cat.points_earned, fin(450000));
    assert_eq!(cat.points_possible, fin(500000));
}

#[test]
fn category_points_strip_thousands_separators() {
    let r = single(course_with(
        "90",
        "A",
        Some(vec![agc("Labs", "100%", "1,234", "2,000")]),
        vec![],
    ));
    let (_, cat) = &r.classes[0].categories[0];
    assert_eq!(cat.points_earned, fin(12340000));
    assert_eq!(cat.points_possible, fin(20000000));
}

#[test]
fn synthetic_total_category_is_dropped() {
    let r = single(course_with(
        "90",
        "A",
        Some(vec![agc("TOTAL", "100%", "90", "100"), agc("Quiz", "50%", "9", "10")]),
        vec![],
    ));
    assert_eq!(r.classes[0].categories.len(), 1);
    assert_eq!(r.classes[0].categories[0].0, "Quiz");
}

#[test]
fn malformed_weight_is_a_hard_error() {
    let e = Response::try_from_gradebook(gradebook_of(vec![course_with(
        "90",
        "A",
        Some(vec![agc("Quiz", "half", "9", "10")]),
        vec![],
    )]))
    .unwrap_err();
    assert_eq!(e, GradebookError::NumParsing);
}

#[test]
fn points_possible_falls_back_through_the_chain() {
    // First rule: ScoreMaxValue.
    let r = single(course_with("90", "A", None, vec![assignment("a", Some("40"), Some("50"), "")]));
    assert_eq!(r.classes[0].assignments[0].points_possible, fin(500000));
    // Second rule: the part after the slash.
    let r = single(course_with(
        "90",
        "A",
        None,
        vec![assignment("a", None, None, "45 / 50 Points Possible")],
    ));
    assert_eq!(r.classes[0].assignments[0].points_possible, fin(500000));
    // Third rule: the phrase removed.
    let r = single(course_with("90", "A", None, vec![assignment("a", None, None,
        "50 Points Possible")]));
    assert_eq!(r.classes[0].assignments[0].points_possible, fin(500000));
}

#[test]
fn unresolvable_points_possible_drops_the_assignment() {
    let r = single(course_with(
        "90",
        "A",
        None,
        vec![
            assignment("kept", Some("9"), Some("10"), ""),
            assignment("dropped", Some("9"), None, "no numbers here"),
        ],
    ));
    assert_eq!(r.classes[0].assignments.len(), 1);
    assert_eq!(r.classes[0].assignments[0].name, "kept");
}

#[test]
fn absent_score_is_the_nan_sentinel_not_zero() {
    let r = single(course_with("90", "A", None, vec![assignment("a", None, Some("10"), "")]));
    assert_eq!(r.classes[0].assignments[0].points_earned, Num::NaN);
    // An unparsable score likewise.
    let r = single(course_with("90", "A", None, vec![assignment("a", Some("??"), Some("10"), "")]));
    assert_eq!(r.classes[0].assignments[0].points_earned, Num::NaN);
}

#[test]
fn assignment_names_are_unescaped() {
    let r = single(course_with(
        "90",
        "A",
        None,
        vec![assignment("Tom &amp; Jerry&apos;s quiz", Some("1"), Some("2"), "")],
    ));
    assert_eq!(r.classes[0].assignments[0].name, "Tom & Jerry's quiz");
}

#[test]
fn class_fields_carry_over() {
    let r = single(course_with("82.35", "B", None, vec![]));
    let c = &r.classes[0];
    assert_eq!(c.name, "Algebra");
    assert_eq!(c.teacher, "T. Teacher");
    assert_eq!(c.category, "math");
    assert_eq!(c.grade, fin(823500));
}

#[test]
fn duplicate_category_kind_replaces_the_entry() {
    let r = single(course_with(
        "90",
        "A",
        Some(vec![agc("Quiz", "50%", "1", "2"), agc("Quiz", "25%", "3", "4")]),
        vec![],
    ));
    assert_eq!(r.classes[0].categories.len(), 1);
    let (name, cat) = &r.classes[0].categories[0];
    assert_eq!(name, "Quiz");
    assert_eq!(cat.weight, fin(2500));
}

#[test]
fn params_name_the_report_period() {
    assert_eq!(gradebook_params(None), "");
    assert_eq!(gradebook_params(Some(2)), "<ReportPeriod>2</ReportPeriod>");
    assert_eq!(gradebook_params(Some(-1)), "<ReportPeriod>-1</ReportPeriod>");
}
