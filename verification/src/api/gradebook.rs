//! The gradebook transformer: turns the raw gradebook payload into the
//! domain response, tolerating the upstream service's inconsistent numeric
//! formatting exactly where the fallback chains say to.

use vstd::prelude::*;
use vstd::string::{StrSliceExecFns, StringExecFns};
use crate::numeric::{
    parse_num_spec, parse_num, num_at_least, num_div100_spec, num_div100, num_ge, num_is_finite,
    Num,
};
use crate::text::{
    char_index, contains_seq, is_digit_char, contains_digit, find_char, lemma_char_index,
    percent_pred, replace_all, replace_all_spec, space_pred, str_to_chars, chars_to_string, trim,
    trim_by, trim_percent, push_all,
};
use crate::api::{unescape_five, unescape_xml};

verus! {

/// Why a gradebook payload could not be transformed.
#[derive(Clone, Copy, Debug, PartialEq, Eq)]
pub enum GradebookError {
    /// A field the response is unusable without.
    MissingField(&'static str),
    /// A numeric field outside the defined fallback chains failed to parse.
    NumParsing,
    /// A malformed points text.
    InvalidPointString,
}

/// Variant-level equality of transformer errors, with the missing-field
/// name compared by text.
pub open spec fn gb_err_eq(a: GradebookError, b: GradebookError) -> bool {
    match (a, b) {
        (GradebookError::MissingField(x), GradebookError::MissingField(y)) => x@ == y@,
        (GradebookError::NumParsing, GradebookError::NumParsing) => true,
        (GradebookError::InvalidPointString, GradebookError::InvalidPointString) => true,
        _ => false,
    }
}

// The raw payload shape, as the upstream service sends it.

/// The raw gradebook document, reduced to what the transformer reads.
pub struct Gradebook {
    pub reporting_periods: ReportingPeriods,
    pub reporting_period: ReportingPeriod_,
    pub courses: Courses,
}

pub struct ReportingPeriods {
    pub report_period: Vec<ReportPeriod>,
}

pub struct ReportPeriod {
    pub index: String,
    pub grade_period: String,
    pub start_date: String,
    pub end_date: String,
}

/// The currently selected reporting period.
pub struct ReportingPeriod_ {
    pub grade_period: String,
    pub start_date: String,
    pub end_date: String,
}

pub struct Courses {
    pub course: Vec<Course>,
}

pub struct Course {
    pub title: String,
    pub staff: String,
    pub image_type: String,
    pub marks: Marks,
}

pub struct Marks {
    pub mark: Option<Mark>,
}

pub struct Mark {
    pub calculated_score_string: String,
    pub calculated_score_raw: String,
    pub grade_calculation_summary: GradeCalculationSummary,
    pub assignments: Assignments,
}

pub struct GradeCalculationSummary {
    pub assignment_grade_calc: Option<Vec<AssignmentGradeCalc>>,
}

pub struct AssignmentGradeCalc {
    pub assignment_grade_calc_type: String,
    pub weight: String,
    pub points: String,
    pub points_possible: String,
}

pub struct Assignments {
    pub assignment: Vec<Assignment_>,
}

pub struct Assignment_ {
    pub measure: String,
    pub assignment_type: String,
    pub score_cal_value: Option<String>,
    pub score_max_value: Option<String>,
    pub points: String,
    pub notes: String,
}

// The domain shape handed back to clients.

/// The transformed gradebook.
#[derive(Debug)]
pub struct Response {
    pub classes: Vec<Class>,
    pub report_period: i32,
    pub reporting_periods: Vec<ReportingPeriod>,
}

#[derive(Debug)]
pub struct ReportingPeriod {
    pub name: String,
    pub start_date: String,
    pub end_date: String,
}

#[derive(Debug)]
pub struct Class {
    pub name: String,
    pub teacher: String,
    pub category: String,
    pub grade: Num,
    pub letter_grade: String,
    pub categories: Vec<(String, Category)>,
    pub assignments: Vec<Assignment>,
}

#[derive(Clone, Copy, Debug, PartialEq, Eq, Structural)]
pub struct Category {
    pub weight: Num,
    pub points_earned: Num,
    pub points_possible: Num,
}

#[derive(Debug)]
pub struct Assignment {
    pub name: String,
    pub kind: String,
    pub points_earned: Num,
    pub points_possible: Num,
    pub notes: String,
}

// The mathematical views of the domain shape.

#[verifier::ext_equal]
pub ghost struct RpView {
    pub name: Seq<char>,
    pub start_date: Seq<char>,
    pub end_date: Seq<char>,
}

#[verifier::ext_equal]
pub ghost struct AssignmentView {
    pub name: Seq<char>,
    pub kind: Seq<char>,
    pub points_earned: Num,
    pub points_possible: Num,
    pub notes: Seq<char>,
}

#[verifier::ext_equal]
pub ghost struct ClassView {
    pub name: Seq<char>,
    pub teacher: Seq<char>,
    pub category: Seq<char>,
    pub grade: Num,
    pub letter_grade: Seq<char>,
    pub categories: Seq<(Seq<char>, Category)>,
    pub assignments: Seq<AssignmentView>,
}

#[verifier::ext_equal]
pub ghost struct ResponseView {
    pub classes: Seq<ClassView>,
    pub report_period: i32,
    pub reporting_periods: Seq<RpView>,
}

pub open spec fn rp_view(p: ReportingPeriod) -> RpView {
    RpView { name: p.name@, start_date: p.start_date@, end_date: p.end_date@ }
}

pub open spec fn assignment_view(a: Assignment) -> AssignmentView {
    AssignmentView {
        name: a.name@,
        kind: a.kind@,
        points_earned: a.points_earned,
        points_possible: a.points_possible,
        notes: a.notes@,
    }
}

pub open spec fn cat_pair_view(p: (String, Category)) -> (Seq<char>, Category) {
    (p.0@, p.1)
}

pub open spec fn class_view(c: Class) -> ClassView {
    ClassView {
        name: c.name@,
        teacher: c.teacher@,
        category: c.category@,
        grade: c.grade,
        letter_grade: c.letter_grade@,
        categories: c.categories@.map_values(|p: (String, Category)| cat_pair_view(p)),
        assignments: c.assignments@.map_values(|a: Assignment| assignment_view(a)),
    }
}

pub open spec fn response_view(r: Response) -> ResponseView {
    ResponseView {
        classes: r.classes@.map_values(|c: Class| class_view(c)),
        report_period: r.report_period,
        reporting_periods: r.reporting_periods@.map_values(|p: ReportingPeriod| rp_view(p)),
    }
}

// The transformation, stated mathematically.

/// Commas stripped from upstream numeric text.
pub open spec fn strip_commas(s: Seq<char>) -> Seq<char> {
    replace_all_spec(s, ","@, Seq::<char>::empty())
}

/// The letter the fixed thresholds assign to a grade: positive infinity
/// clears every threshold, any other finite value falls to E, and a
/// non-finite grade has no letter.
pub open spec fn letter_for(grade: Num) -> Seq<char> {
    if num_at_least(grade, 895000) {
        "A"@
    } else if num_at_least(grade, 795000) {
        "B"@
    } else if num_at_least(grade, 695000) {
        "C"@
    } else if num_at_least(grade, 595000) {
        "D"@
    } else if grade is Finite {
        "E"@
    } else {
        "N/A"@
    }
}

/// Whether `s` holds a decimal digit.
pub open spec fn has_digit(s: Seq<char>) -> bool {
    exists|i: int| 0 <= i < s.len() && is_digit_char(s[i])
}

/// The letter grade shown: recomputed from the thresholds only when the
/// upstream letter text holds a digit; otherwise passed through.
pub open spec fn resolved_letter(lg: Seq<char>, grade: Num) -> Seq<char> {
    if has_digit(lg) {
        letter_for(grade)
    } else {
        lg
    }
}

/// One category parsed strictly: the weight with percent signs trimmed
/// and divided by one hundred, the points comma-stripped. Any parse
/// failure here aborts the whole transformation.
pub open spec fn category_of(a: AssignmentGradeCalc) -> Result<Category, GradebookError> {
    match parse_num_spec(trim_by(a.weight@, percent_pred())) {
        None => Err(GradebookError::NumParsing),
        Some(w) => match parse_num_spec(strip_commas(a.points@)) {
            None => Err(GradebookError::NumParsing),
            Some(pe) => match parse_num_spec(strip_commas(a.points_possible@)) {
                None => Err(GradebookError::NumParsing),
                Some(pp) => Ok(
                    Category {
                        weight: num_div100_spec(w),
                        points_earned: pe,
                        points_possible: pp,
                    },
                ),
            },
        },
    }
}

/// Mapping insert: an existing key's value is replaced in place, a new
/// key is appended.
pub open spec fn insert_category(
    cs: Seq<(Seq<char>, Category)>,
    k: Seq<char>,
    v: Category,
) -> Seq<(Seq<char>, Category)>
    decreases cs.len(),
{
    if cs.len() == 0 {
        seq![(k, v)]
    } else if cs[0].0 == k {
        seq![(k, v)] + cs.drop_first()
    } else {
        seq![cs[0]] + insert_category(cs.drop_first(), k, v)
    }
}

/// The categories folded in order, skipping the synthetic TOTAL aggregate.
pub open spec fn categories_fold(
    agcs: Seq<AssignmentGradeCalc>,
    acc: Seq<(Seq<char>, Category)>,
) -> Result<Seq<(Seq<char>, Category)>, GradebookError>
    decreases agcs.len(),
{
    if agcs.len() == 0 {
        Ok(acc)
    } else {
        let a = agcs[0];
        if a.assignment_grade_calc_type@ == "TOTAL"@ {
            categories_fold(agcs.drop_first(), acc)
        } else {
            match category_of(a) {
                Err(e) => Err(e),
                Ok(cv) => categories_fold(
                    agcs.drop_first(),
                    insert_category(acc, a.assignment_grade_calc_type@, cv),
                ),
            }
        }
    }
}

/// The mark's category summary, an absent one being empty.
pub open spec fn agcs_of(m: Mark) -> Seq<AssignmentGradeCalc> {
    match m.grade_calculation_summary.assignment_grade_calc {
        Some(v) => v@,
        None => Seq::empty(),
    }
}

/// The points earned on an assignment: the comma-stripped score value, or
/// the not-a-number sentinel when absent or unparsable — never zero.
pub open spec fn points_earned_of(a: Assignment_) -> Num {
    match a.score_cal_value {
        Some(s) => match parse_num_spec(strip_commas(s@)) {
            Some(v) => v,
            None => Num::NaN,
        },
        None => Num::NaN,
    }
}

/// The points possible, tried in order: the comma-stripped max value;
/// then, if the free points text holds a slash, the part after it with
/// the points-possible phrase removed, comma-stripped and trimmed; else
/// the whole text treated the same way. `None` means every rule failed.
pub open spec fn points_possible_of(a: Assignment_) -> Option<Num> {
    let from_max = match a.score_max_value {
        Some(s) => parse_num_spec(strip_commas(s@)),
        None => None,
    };
    match from_max {
        Some(v) => Some(v),
        None => {
            let text = if contains_seq(a.points@, seq!['/']) {
                a.points@.skip(char_index(a.points@, '/') + 1)
            } else {
                a.points@
            };
            parse_num_spec(
                trim_by(
                    strip_commas(replace_all_spec(text, "Points Possible"@, Seq::empty())),
                    space_pred(),
                ),
            )
        },
    }
}

/// The view of one kept assignment, its name unescaped.
pub open spec fn assignment_view_of(a: Assignment_, pp: Num) -> AssignmentView {
    AssignmentView {
        name: unescape_five(a.measure@),
        kind: a.assignment_type@,
        points_earned: points_earned_of(a),
        points_possible: pp,
        notes: a.notes@,
    }
}

/// The assignments kept, in order: one with no possible points under any
/// rule is dropped entirely.
pub open spec fn assignments_of(s: Seq<Assignment_>) -> Seq<AssignmentView>
    decreases s.len(),
{
    if s.len() == 0 {
        Seq::empty()
    } else {
        let rest = assignments_of(s.drop_first());
        match points_possible_of(s[0]) {
            Some(pp) => seq![assignment_view_of(s[0], pp)] + rest,
            None => rest,
        }
    }
}

/// One course transformed: a course with no mark record degrades to the
/// zero-grade placeholder rather than failing the whole response.
pub open spec fn class_of(c: Course) -> Result<ClassView, GradebookError> {
    match c.marks.mark {
        None => Ok(
            ClassView {
                name: c.title@,
                teacher: c.staff@,
                category: c.image_type@,
                grade: Num::Finite { neg: false, scaled: 0 },
                letter_grade: "N/A"@,
                categories: Seq::empty(),
                assignments: Seq::empty(),
            },
        ),
        Some(m) => match parse_num_spec(m.calculated_score_raw@) {
            None => Err(GradebookError::NumParsing),
            Some(grade) => match categories_fold(agcs_of(m), Seq::empty()) {
                Err(e) => Err(e),
                Ok(cats) => Ok(
                    ClassView {
                        name: c.title@,
                        teacher: c.staff@,
                        category: c.image_type@,
                        grade,
                        letter_grade: resolved_letter(m.calculated_score_string@, grade),
                        categories: cats,
                        assignments: assignments_of(m.assignments.assignment@),
                    },
                ),
            },
        },
    }
}

/// The classes folded in order, stopping at the first error.
pub open spec fn classes_fold(cs: Seq<Course>, acc: Seq<ClassView>) -> Result<
    Seq<ClassView>,
    GradebookError,
>
    decreases cs.len(),
{
    if cs.len() == 0 {
        Ok(acc)
    } else {
        match class_of(cs[0]) {
            Err(e) => Err(e),
            Ok(cl) => classes_fold(cs.drop_first(), acc.push(cl)),
        }
    }
}

/// The index of the reporting period named `sel`, or the count if none.
pub open spec fn rp_position(ps: Seq<ReportPeriod>, sel: Seq<char>) -> int
    decreases ps.len(),
{
    if ps.len() == 0 {
        0
    } else if ps[0].grade_period@ == sel {
        0
    } else {
        1 + rp_position(ps.drop_first(), sel)
    }
}

/// `rp_position` points at the first match, or past the end.
pub proof fn lemma_rp_position(ps: Seq<ReportPeriod>, sel: Seq<char>)
    ensures
        0 <= rp_position(ps, sel) <= ps.len(),
        forall|j: int| 0 <= j < rp_position(ps, sel) ==> ps[j].grade_period@ != sel,
        rp_position(ps, sel) < ps.len() ==> ps[rp_position(ps, sel)].grade_period@ == sel,
    decreases ps.len(),
{
    if ps.len() > 0 && ps[0].grade_period@ != sel {
        lemma_rp_position(ps.drop_first(), sel);
        assert forall|j: int| 0 <= j < rp_position(ps, sel) implies ps[j].grade_period@ != sel by {
            if j > 0 {
                assert(ps.drop_first()[j - 1] == ps[j]);
                assert(j - 1 < rp_position(ps.drop_first(), sel));
            }
        }
        if rp_position(ps, sel) < ps.len() {
            assert(ps.drop_first()[rp_position(ps, sel) - 1] == ps[rp_position(ps, sel)]);
        }
    }
}

/// The view of a raw period entry.
pub open spec fn raw_rp_view(p: ReportPeriod) -> RpView {
    RpView { name: p.grade_period@, start_date: p.start_date@, end_date: p.end_date@ }
}

/// The whole transformation: the selected reporting period must appear in
/// the list; then every course becomes a class, in order.
pub open spec fn transform_spec(g: Gradebook) -> Result<ResponseView, GradebookError> {
    let ps = g.reporting_periods.report_period@;
    let sel = g.reporting_period.grade_period@;
    let rp = rp_position(ps, sel);
    if rp >= ps.len() {
        Err(GradebookError::MissingField("gp_idx"))
    } else {
        match classes_fold(g.courses.course@, Seq::empty()) {
            Err(e) => Err(e),
            Ok(cls) => Ok(
                ResponseView {
                    classes: cls,
                    report_period: rp as i32,
                    reporting_periods: ps.map_values(|p: ReportPeriod| raw_rp_view(p)),
                },
            ),
        }
    }
}

/// The parameter fragment selecting a report period, empty when none is
/// asked for.
pub fn gradebook_params(rp: Option<i32>) -> (r: String)
    ensures
        match rp {
            Some(x) => r@ == "<ReportPeriod>"@ + crate::numeric::int_dec(x as int)
                + "</ReportPeriod>"@,
            None => r@ == Seq::<char>::empty(),
        },
{
    match rp {
        Some(x) => {
            let mut out: Vec<char> = Vec::new();
            push_all(&mut out, &str_to_chars("<ReportPeriod>"));
            push_all(&mut out, &crate::numeric::to_decimal_i32(x));
            push_all(&mut out, &str_to_chars("</ReportPeriod>"));
            assert(out@ =~= "<ReportPeriod>"@ + crate::numeric::int_dec(x as int)
                + "</ReportPeriod>"@);
            chars_to_string(&out)
        },
        None => String::new(),
    }
}

/// The message shown for a transformer error.
pub open spec fn gb_message_of(e: GradebookError) -> Seq<char> {
    match e {
        GradebookError::MissingField(m) => "Missing field '"@ + m@ + "'"@,
        GradebookError::NumParsing => "Bad float"@,
        GradebookError::InvalidPointString => "Bad point_string"@,
    }
}

impl GradebookError {
    /// The message shown for this error.
    pub fn message(&self) -> (r: String)
        ensures
            r@ == gb_message_of(*self),
    {
        match self {
            GradebookError::MissingField(m) => {
                let mut s = String::from_str("Missing field '");
                s.append(m);
                s.append("'");
                s
            },
            GradebookError::NumParsing => String::from_str("Bad float"),
            GradebookError::InvalidPointString => String::from_str("Bad point_string"),
        }
    }
}

// The executable transformer.

/// A copy of a string's text.
fn string_copy(s: &String) -> (r: String)
    ensures
        r@ == s@,
{
    String::from_str(s.as_str())
}

/// Parses a string's text as a number.
fn parse_num_string(s: &String) -> (r: Option<Num>)
    ensures
        r == parse_num_spec(s@),
{
    parse_num(&str_to_chars(s.as_str()))
}

/// Strips commas.
fn strip_commas_exec(v: &Vec<char>) -> (out: Vec<char>)
    ensures
        out@ == strip_commas(v@),
{
    proof {
        reveal_strlit(",");
    }
    replace_all(v, &str_to_chars(","), &Vec::new())
}

/// The letter the thresholds assign.
fn letter_exec(grade: &Num) -> (r: String)
    ensures
        r@ == letter_for(*grade),
{
    if num_ge(grade, 895000) {
        String::from_str("A")
    } else if num_ge(grade, 795000) {
        String::from_str("B")
    } else if num_ge(grade, 695000) {
        String::from_str("C")
    } else if num_ge(grade, 595000) {
        String::from_str("D")
    } else if num_is_finite(grade) {
        String::from_str("E")
    } else {
        String::from_str("N/A")
    }
}

/// One category parsed strictly.
fn category_from(a: &AssignmentGradeCalc) -> (r: Result<Category, GradebookError>)
    ensures
        match r {
            Ok(c) => category_of(*a) == Ok::<Category, GradebookError>(c),
            Err(e) => category_of(*a) == Err::<Category, GradebookError>(e),
        },
{
    let w = match parse_num(&trim_percent(&str_to_chars(a.weight.as_str()))) {
        Some(w) => w,
        None => {
            return Err(GradebookError::NumParsing);
        },
    };
    let pe = match parse_num(&strip_commas_exec(&str_to_chars(a.points.as_str()))) {
        Some(v) => v,
        None => {
            return Err(GradebookError::NumParsing);
        },
    };
    let pp = match parse_num(&strip_commas_exec(&str_to_chars(a.points_possible.as_str()))) {
        Some(v) => v,
        None => {
            return Err(GradebookError::NumParsing);
        },
    };
    Ok(Category { weight: num_div100(&w), points_earned: pe, points_possible: pp })
}

/// The view of the key-to-category pairs.
pub open spec fn pairs_view(s: Seq<(String, Category)>) -> Seq<(Seq<char>, Category)> {
    s.map_values(|p: (String, Category)| cat_pair_view(p))
}

/// The first index holding key `k`, or the length.
pub open spec fn pair_key_index(cs: Seq<(Seq<char>, Category)>, k: Seq<char>) -> int
    decreases cs.len(),
{
    if cs.len() == 0 {
        0
    } else if cs[0].0 == k {
        0
    } else {
        1 + pair_key_index(cs.drop_first(), k)
    }
}

/// `pair_key_index` points at the first occurrence, or past the end.
pub proof fn lemma_pair_key_index(cs: Seq<(Seq<char>, Category)>, k: Seq<char>)
    ensures
        0 <= pair_key_index(cs, k) <= cs.len(),
        forall|j: int| 0 <= j < pair_key_index(cs, k) ==> cs[j].0 != k,
        pair_key_index(cs, k) < cs.len() ==> cs[pair_key_index(cs, k)].0 == k,
    decreases cs.len(),
{
    if cs.len() > 0 && cs[0].0 != k {
        lemma_pair_key_index(cs.drop_first(), k);
        assert forall|j: int| 0 <= j < pair_key_index(cs, k) implies cs[j].0 != k by {
            if j > 0 {
                assert(cs.drop_first()[j - 1] == cs[j]);
                assert(j - 1 < pair_key_index(cs.drop_first(), k));
            }
        }
        if pair_key_index(cs, k) < cs.len() {
            assert(cs.drop_first()[pair_key_index(cs, k) - 1] == cs[pair_key_index(cs, k)]);
        }
    }
}

/// The insert either updates the first occurrence or appends.
pub proof fn lemma_insert_category(cs: Seq<(Seq<char>, Category)>, k: Seq<char>, v: Category)
    ensures
        pair_key_index(cs, k) == cs.len() ==> insert_category(cs, k, v) == cs.push((k, v)),
        pair_key_index(cs, k) < cs.len() ==> insert_category(cs, k, v) == cs.update(
            pair_key_index(cs, k),
            (k, v),
        ),
    decreases cs.len(),
{
    lemma_pair_key_index(cs, k);
    if cs.len() == 0 {
        assert(insert_category(cs, k, v) =~= cs.push((k, v)));
    } else if cs[0].0 == k {
        assert(insert_category(cs, k, v) =~= cs.update(0, (k, v)));
    } else {
        lemma_insert_category(cs.drop_first(), k, v);
        let j = pair_key_index(cs, k);
        if j == cs.len() {
            assert(insert_category(cs, k, v) =~= cs.push((k, v)));
        } else {
            assert(cs.drop_first().update(j - 1, (k, v)) =~= cs.update(j, (k, v)).drop_first());
            assert(insert_category(cs, k, v) =~= cs.update(j, (k, v)));
        }
    }
}

/// Inserts with replace semantics into the ordered key-category pairs.
#[verifier::loop_isolation(false)]
fn insert_category_exec(cs: &mut Vec<(String, Category)>, k: String, v: Category)
    ensures
        pairs_view(final(cs)@) == insert_category(pairs_view(old(cs)@), k@, v),
{
    proof {
        lemma_pair_key_index(pairs_view(cs@), k@);
        lemma_insert_category(pairs_view(cs@), k@, v);
    }
    let ghost orig = pairs_view(cs@);
    let cl = cs.len();
    let mut j: usize = 0;
    while j < cl
        invariant
            cl == cs@.len(),
            orig == pairs_view(cs@),
            0 <= j <= cl,
            forall|i: int| 0 <= i < j ==> pairs_view(cs@)[i].0 != k@,
        decreases cl - j,
    {
        if cs[j].0.eq(&k) {
            assert(pairs_view(cs@)[j as int].0 == k@);
            assert(pair_key_index(orig, k@) == j);
            let _ = cs.remove(j);
            cs.insert(j, (k, v));
            assert(pairs_view(cs@) =~= orig.update(j as int, (k@, v)));
            return ;
        }
        assert(pairs_view(cs@)[j as int].0 != k@);
        j += 1;
    }
    assert(pair_key_index(orig, k@) == cl);
    cs.push((k, v));
    assert(pairs_view(cs@) =~= orig.push((k@, v)));
}

/// The points possible under the fallback chain.
fn points_possible_from(a: &Assignment_) -> (r: Option<Num>)
    ensures
        r == points_possible_of(*a),
{
    match &a.score_max_value {
        Some(s) => {
            let v = parse_num(&strip_commas_exec(&str_to_chars(s.as_str())));
            if v.is_some() {
                return v;
            }
        },
        None => {},
    }
    let pts = str_to_chars(a.points.as_str());
    proof {
        lemma_char_index(pts@, '/');
    }
    proof {
        reveal_strlit("Points Possible");
    }
    let text: Vec<char> = match find_char(&pts, '/') {
        Some(i) => {
            proof {
                assert(pts@.subrange(i as int, i + 1) =~= seq![pts@[i as int]]);
                assert(crate::text::match_at(pts@, seq!['/'], i as int));
                assert(contains_seq(pts@, seq!['/']));
                assert(char_index(pts@, '/') == i);
            }
            let pl = pts.len();
            let after: Vec<char> = vstd::slice::slice_to_vec(
                vstd::slice::slice_subrange(pts.as_slice(), i + 1, pl),
            );
            assert(after@ =~= pts@.skip(i + 1));
            after
        },
        None => {
            proof {
                assert(!contains_seq(pts@, seq!['/'])) by {
                    if contains_seq(pts@, seq!['/']) {
                        let i = choose|i: int| crate::text::match_at(pts@, seq!['/'], i);
                        assert(pts@.subrange(i, i + 1) =~= seq![pts@[i]]);
                        assert(pts@.subrange(i, i + 1) == seq!['/']);
                        assert(seq![pts@[i]][0] == seq!['/'][0]);
                        assert(pts@[i] == '/');
                        assert(pts@[i] != '/');
                    }
                }
            }
            pts
        },
    };
    let removed = replace_all(&text, &str_to_chars("Points Possible"), &Vec::new());
    parse_num(&trim(&strip_commas_exec(&removed)))
}

/// One assignment transformed, or dropped when no rule yields its
/// possible points.
fn assignment_from(a: &Assignment_) -> (r: Option<Assignment>)
    ensures
        match r {
            Some(x) => points_possible_of(*a) is Some && assignment_view(x) == assignment_view_of(
                *a,
                points_possible_of(*a)->Some_0,
            ),
            None => points_possible_of(*a) is None,
        },
{
    let pp = match points_possible_from(a) {
        Some(pp) => pp,
        None => {
            return None;
        },
    };
    let pe: Num = match &a.score_cal_value {
        Some(s) => match parse_num(&strip_commas_exec(&str_to_chars(s.as_str()))) {
            Some(v) => v,
            None => Num::NaN,
        },
        None => Num::NaN,
    };
    let name = chars_to_string(&unescape_xml(&str_to_chars(a.measure.as_str())));
    Some(
        Assignment {
            name,
            kind: string_copy(&a.assignment_type),
            points_earned: pe,
            points_possible: pp,
            notes: string_copy(&a.notes),
        },
    )
}

/// The view of a vector of kept assignments.
pub open spec fn assignments_view(s: Seq<Assignment>) -> Seq<AssignmentView> {
    s.map_values(|a: Assignment| assignment_view(a))
}

/// One course transformed.
#[verifier::loop_isolation(false)]
#[verifier::rlimit(100)]
fn class_from(c: &Course) -> (r: Result<Class, GradebookError>)
    ensures
        match r {
            Ok(cl) => class_of(*c) == Ok::<ClassView, GradebookError>(class_view(cl)),
            Err(e) => class_of(*c) == Err::<ClassView, GradebookError>(e),
        },
{
    let m = match &c.marks.mark {
        None => {
            let cl = Class {
                name: string_copy(&c.title),
                teacher: string_copy(&c.staff),
                category: string_copy(&c.image_type),
                grade: Num::Finite { neg: false, scaled: 0 },
                letter_grade: String::from_str("N/A"),
                categories: Vec::new(),
                assignments: Vec::new(),
            };
            assert(class_view(cl).categories =~= Seq::<(Seq<char>, Category)>::empty());
            assert(class_view(cl).assignments =~= Seq::<AssignmentView>::empty());
            assert(class_of(*c) == Ok::<ClassView, GradebookError>(class_view(cl))) by {
                assert(class_of(*c)->Ok_0 =~= class_view(cl));
            }
            return Ok(cl);
        },
        Some(m) => m,
    };
    let grade = match parse_num_string(&m.calculated_score_raw) {
        Some(g) => g,
        None => {
            return Err(GradebookError::NumParsing);
        },
    };
    let lg: String = if contains_digit(&str_to_chars(m.calculated_score_string.as_str())) {
        letter_exec(&grade)
    } else {
        string_copy(&m.calculated_score_string)
    };
    assert(lg@ == resolved_letter(m.calculated_score_string@, grade));
    let empty_agcs: Vec<AssignmentGradeCalc> = Vec::new();
    let agcs: &Vec<AssignmentGradeCalc> = match &m.grade_calculation_summary.assignment_grade_calc {
        Some(v) => v,
        None => &empty_agcs,
    };
    assert(agcs@ == agcs_of(*m));
    let total_word = String::from_str("TOTAL");
    let mut cats: Vec<(String, Category)> = Vec::new();
    let na = agcs.len();
    let mut i: usize = 0;
    assert(agcs@.skip(0) =~= agcs@);
    assert(pairs_view(cats@) =~= Seq::<(Seq<char>, Category)>::empty());
    while i < na
        invariant
            na == agcs@.len(),
            0 <= i <= na,
            total_word@ == "TOTAL"@,
            categories_fold(agcs@, Seq::empty()) == categories_fold(
                agcs@.skip(i as int),
                pairs_view(cats@),
            ),
        decreases na - i,
    {
        let ghost tail = agcs@.skip(i as int);
        assert(tail[0] == agcs@[i as int]);
        assert(tail.drop_first() =~= agcs@.skip(i + 1));
        let agc = &agcs[i];
        if !agc.assignment_grade_calc_type.eq(&total_word) {
            let cv = match category_from(agc) {
                Ok(cv) => cv,
                Err(e) => {
                    return Err(e);
                },
            };
            insert_category_exec(&mut cats, string_copy(&agc.assignment_grade_calc_type), cv);
        }
        i += 1;
        assert(categories_fold(agcs@, Seq::empty()) == categories_fold(
            agcs@.skip(i as int),
            pairs_view(cats@),
        ));
    }
    assert(agcs@.skip(na as int) =~= Seq::<AssignmentGradeCalc>::empty());
    let asg = &m.assignments.assignment;
    let nasg = asg.len();
    let mut assignments: Vec<Assignment> = Vec::new();
    let mut j: usize = 0;
    assert(asg@.skip(0) =~= asg@);
    assert(assignments_view(assignments@) + assignments_of(asg@) =~= assignments_of(asg@));
    while j < nasg
        invariant
            nasg == asg@.len(),
            0 <= j <= nasg,
            assignments_of(asg@) == assignments_view(assignments@) + assignments_of(
                asg@.skip(j as int),
            ),
        decreases nasg - j,
    {
        let ghost tail = asg@.skip(j as int);
        assert(tail[0] == asg@[j as int]);
        assert(tail.drop_first() =~= asg@.skip(j + 1));
        let ghost prev = assignments_view(assignments@);
        match assignment_from(&asg[j]) {
            Some(x) => {
                assignments.push(x);
                assert(assignments_view(assignments@) =~= prev.push(assignment_view(x)));
                assert(prev.push(assignment_view(x)) + assignments_of(asg@.skip(j + 1)) =~= prev
                    + (seq![assignment_view(x)] + assignments_of(asg@.skip(j + 1))));
            },
            None => {},
        }
        j += 1;
        assert(assignments_of(asg@) == assignments_view(assignments@) + assignments_of(
            asg@.skip(j as int),
        ));
    }
    assert(asg@.skip(nasg as int) =~= Seq::<Assignment_>::empty());
    assert(assignments_view(assignments@) + Seq::<AssignmentView>::empty() =~= assignments_view(
        assignments@,
    ));
    let cl = Class {
        name: string_copy(&c.title),
        teacher: string_copy(&c.staff),
        category: string_copy(&c.image_type),
        grade,
        letter_grade: lg,
        categories: cats,
        assignments,
    };
    assert(class_of(*c) == Ok::<ClassView, GradebookError>(class_view(cl))) by {
        assert(class_of(*c)->Ok_0 =~= class_view(cl));
    }
    Ok(cl)
}

impl Response {
    /// Transforms a raw gradebook payload into the domain response: the
    /// selected reporting period must appear in the list, and every
    /// course becomes a class in order, with the placeholder for courses
    /// that carry no mark record.
    #[verifier::loop_isolation(false)]
    #[verifier::rlimit(100)]
    pub fn try_from_gradebook(value: Gradebook) -> (r: Result<Response, GradebookError>)
        ensures
            match r {
                Ok(resp) => transform_spec(value) == Ok::<ResponseView, GradebookError>(
                    response_view(resp),
                ),
                Err(e) => transform_spec(value) matches Err(e2) && gb_err_eq(e, e2),
            },
    {
        let ps = &value.reporting_periods.report_period;
        let np = ps.len();
        let sel = &value.reporting_period.grade_period;
        proof {
            lemma_rp_position(ps@, sel@);
        }
        let mut rp: usize = 0;
        let mut found = false;
        let mut i: usize = 0;
        while i < np
            invariant
                np == ps@.len(),
                0 <= i <= np,
                !found ==> forall|j: int| 0 <= j < i ==> ps@[j].grade_period@ != sel@,
                found ==> rp_position(ps@, sel@) == rp && (rp as int) < np,
            decreases np - i,
        {
            if !found && ps[i].grade_period.eq(sel) {
                found = true;
                rp = i;
                assert(rp_position(ps@, sel@) == i);
            }
            i += 1;
        }
        if !found {
            assert(rp_position(ps@, sel@) == np);
            return Err(GradebookError::MissingField("gp_idx"));
        }
        let mut rps: Vec<ReportingPeriod> = Vec::new();
        let mut k: usize = 0;
        while k < np
            invariant
                np == ps@.len(),
                0 <= k <= np,
                rps@.map_values(|p: ReportingPeriod| rp_view(p)) =~= ps@.take(
                    k as int,
                ).map_values(|p: ReportPeriod| raw_rp_view(p)),
            decreases np - k,
        {
            let p = &ps[k];
            let ghost pre = rps@;
            let ghost pre_map = pre.map_values(|q: ReportingPeriod| rp_view(q));
            let ghost take_map = ps@.take(k as int).map_values(|q: ReportPeriod| raw_rp_view(q));
            rps.push(
                ReportingPeriod {
                    name: string_copy(&p.grade_period),
                    start_date: string_copy(&p.start_date),
                    end_date: string_copy(&p.end_date),
                },
            );
            assert(rps@.drop_last() =~= pre);
            assert(rps@.len() == k + 1);
            assert(rp_view(rps@[k as int]) =~= raw_rp_view(ps@[k as int]));
            let ghost lhs = rps@.map_values(|q: ReportingPeriod| rp_view(q));
            let ghost rhs = ps@.take(k + 1).map_values(|q: ReportPeriod| raw_rp_view(q));
            assert forall|i: int| 0 <= i < k + 1 implies lhs[i] == rhs[i] by {
                assert(ps@.take(k + 1)[i] == ps@[i]);
                if i < k {
                    assert(rps@[i] == pre[i]);
                    assert(lhs[i] == pre_map[i]);
                    assert(take_map[i] == raw_rp_view(ps@.take(k as int)[i]));
                    assert(ps@.take(k as int)[i] == ps@[i]);
                }
            }
            assert(lhs =~= rhs);
            k += 1;
        }
        assert(ps@.take(np as int) =~= ps@);
        let courses = &value.courses.course;
        let nc = courses.len();
        let mut classes: Vec<Class> = Vec::new();
        let mut ci: usize = 0;
        assert(courses@.skip(0) =~= courses@);
        assert(classes@.map_values(|c: Class| class_view(c)) =~= Seq::<ClassView>::empty());
        while ci < nc
            invariant
                nc == courses@.len(),
                0 <= ci <= nc,
                classes_fold(courses@, Seq::empty()) == classes_fold(
                    courses@.skip(ci as int),
                    classes@.map_values(|c: Class| class_view(c)),
                ),
            decreases nc - ci,
        {
            let ghost tail = courses@.skip(ci as int);
            assert(tail[0] == courses@[ci as int]);
            assert(tail.drop_first() =~= courses@.skip(ci + 1));
            let ghost prev = classes@.map_values(|c: Class| class_view(c));
            match class_from(&courses[ci]) {
                Ok(cl) => {
                    classes.push(cl);
                    assert(classes@.map_values(|c: Class| class_view(c)) =~= prev.push(
                        class_view(cl),
                    ));
                },
                Err(e) => {
                    return Err(e);
                },
            }
            ci += 1;
            assert(classes_fold(courses@, Seq::empty()) == classes_fold(
                courses@.skip(ci as int),
                classes@.map_values(|c: Class| class_view(c)),
            ));
        }
        assert(courses@.skip(nc as int) =~= Seq::<Course>::empty());
        let resp = Response { classes, report_period: rp as i32, reporting_periods: rps };
        assert(transform_spec(value) == Ok::<ResponseView, GradebookError>(response_view(resp)))
            by {
            assert(transform_spec(value)->Ok_0 =~= response_view(resp));
        }
        Ok(resp)
    }
}

} // verus!
