use vstd::prelude::*;
use vstd::string::*;
use crate::text::{same_text, trim_str, trimmed};

verus! {

/// Name of the day summary file looked for under a subject's directory.
pub const TARGET_FILENAME: &'static str = "part5_daysummary_MM_L44.8M100.6V428.8_T5A5.csv";

/// An example share path for an operating system named as
/// `std::env::consts::OS` names it.
pub open spec fn example_share_path_spec(os: Seq<char>) -> Seq<char> {
    if os == "macos"@ {
        "/Volumes/vosslabhpc"@
    } else if os == "windows"@ {
        "\\\\vosslabhpc"@
    } else {
        "/mnt/vosslabhpc"@
    }
}

pub fn example_share_path(os: &str) -> (r: &'static str)
    ensures
        r@ == example_share_path_spec(os@),
{
    if same_text(os, "macos") {
        "/Volumes/vosslabhpc"
    } else if same_text(os, "windows") {
        "\\\\vosslabhpc"
    } else {
        "/mnt/vosslabhpc"
    }
}

/// Why no directory can be built for a subject number.
#[derive(Clone, Copy, Debug, PartialEq, Eq, Structural)]
pub enum SubjectError {
    Empty,
    UnknownStudy,
}

impl SubjectError {
    pub open spec fn message_spec(self) -> Seq<char> {
        match self {
            SubjectError::Empty => "Subject number cannot be empty."@,
            SubjectError::UnknownStudy =>
                "Subject numbers must start with 7, 8, or 9. Validation should have prevented this."@,
        }
    }

    /// The text shown for the error.
    pub fn message(&self) -> (r: String)
        ensures
            r@ == self.message_spec(),
    {
        match self {
            SubjectError::Empty => String::from_str("Subject number cannot be empty."),
            SubjectError::UnknownStudy => String::from_str(
                "Subject numbers must start with 7, 8, or 9. Validation should have prevented this.",
            ),
        }
    }
}

/// The study and dataset directories of a subject number's first digit.
pub open spec fn study_of(first: char) -> Option<(Seq<char>, Seq<char>)> {
    if first == '7' {
        Some(("ObservationalStudy"@, "act-obs-final-test-2"@))
    } else if first == '8' || first == '9' {
        Some(("InterventionStudy"@, "act-int-final-test-2"@))
    } else {
        None
    }
}

/// The path segments, from the share root down, of a subject's
/// accelerometer directory.
pub open spec fn subject_segments(base: Seq<char>, number: Seq<char>, study: Seq<char>, dataset: Seq<
    char,
>) -> Seq<Seq<char>> {
    seq![
        base,
        "Projects"@,
        "BOOST"@,
        study,
        "3-experiment"@,
        "data"@,
        dataset,
        "derivatives"@,
        "GGIR-3.2.6"@,
        "sub-"@ + number,
        "accel"@,
    ]
}

pub open spec fn segments_view(v: Seq<String>) -> Seq<Seq<char>> {
    v.map_values(|s: String| s@)
}

/// The path segments of a subject's accelerometer directory under the share.
pub fn build_subject_directory(base_share_path: &str, subject_number: &str) -> (r: Result<
    Vec<String>,
    SubjectError,
>)
    ensures
        subject_number@.len() == 0 ==> r == Err::<Vec<String>, SubjectError>(SubjectError::Empty),
        subject_number@.len() > 0 ==> match study_of(subject_number@[0]) {
            Some((study, dataset)) => r is Ok && segments_view(r->Ok_0@) == subject_segments(
                base_share_path@,
                subject_number@,
                study,
                dataset,
            ),
            None => r == Err::<Vec<String>, SubjectError>(SubjectError::UnknownStudy),
        },
{
    if subject_number.unicode_len() == 0 {
        return Err(SubjectError::Empty);
    }
    let first = subject_number.get_char(0);
    let (study, dataset) = if first == '7' {
        ("ObservationalStudy", "act-obs-final-test-2")
    } else if first == '8' || first == '9' {
        ("InterventionStudy", "act-int-final-test-2")
    } else {
        return Err(SubjectError::UnknownStudy);
    };
    let mut v: Vec<String> = Vec::new();
    v.push(String::from_str(base_share_path));
    v.push(String::from_str("Projects"));
    v.push(String::from_str("BOOST"));
    v.push(String::from_str(study));
    v.push(String::from_str("3-experiment"));
    v.push(String::from_str("data"));
    v.push(String::from_str(dataset));
    v.push(String::from_str("derivatives"));
    v.push(String::from_str("GGIR-3.2.6"));
    v.push(String::from_str("sub-").concat(subject_number));
    v.push(String::from_str("accel"));
    assert(segments_view(v@) =~= subject_segments(
        base_share_path@,
        subject_number@,
        study@,
        dataset@,
    ));
    Ok(v)
}

/// What is wrong with an entered subject number.
#[derive(Clone, Copy, Debug, PartialEq, Eq, Structural)]
pub enum SubjectNumberProblem {
    Empty,
    NotFourDigits,
    WrongLeadingDigit,
}

pub open spec fn ascii_digit(c: char) -> bool {
    '0' <= c && c <= '9'
}

/// The verdict on an entered subject number, after trimming: four ASCII
/// digits, the first of them 7, 8 or 9.
pub open spec fn subject_number_verdict(t: Seq<char>) -> Result<Seq<char>, SubjectNumberProblem> {
    if t.len() == 0 {
        Err(SubjectNumberProblem::Empty)
    } else if t.len() != 4 || !(forall|k: int| 0 <= k < 4 ==> ascii_digit(#[trigger] t[k])) {
        Err(SubjectNumberProblem::NotFourDigits)
    } else if t[0] == '7' || t[0] == '8' || t[0] == '9' {
        Ok(t)
    } else {
        Err(SubjectNumberProblem::WrongLeadingDigit)
    }
}

/// Checks an entered subject number and returns it trimmed.
pub fn check_subject_number(input: &str) -> (r: Result<String, SubjectNumberProblem>)
    ensures
        match (r, subject_number_verdict(trimmed(input@))) {
            (Ok(s), Ok(t)) => s@ == t,
            (Err(a), Err(b)) => a == b,
            _ => false,
        },
{
    let t = trim_str(input);
    let n = t.unicode_len();
    if n == 0 {
        return Err(SubjectNumberProblem::Empty);
    }
    if n != 4 {
        return Err(SubjectNumberProblem::NotFourDigits);
    }
    let mut k: usize = 0;
    while k < 4
        invariant
            n == 4,
            t@.len() == 4,
            t@ == trimmed(input@),
            k <= 4,
            forall|j: int| 0 <= j < k ==> ascii_digit(#[trigger] t@[j]),
        decreases 4 - k,
    {
        let c = t.get_char(k);
        if !(c >= '0' && c <= '9') {
            assert(!ascii_digit(t@[k as int]));
            return Err(SubjectNumberProblem::NotFourDigits);
        }
        k = k + 1;
    }
    let first = t.get_char(0);
    if first == '7' || first == '8' || first == '9' {
        Ok(String::from_str(t))
    } else {
        Err(SubjectNumberProblem::WrongLeadingDigit)
    }
}

/// The code point of a character with ASCII letters taken to lower case.
pub open spec fn ascii_lower(c: char) -> u32 {
    if 'A' <= c && c <= 'Z' {
        ((c as u32) + 32) as u32
    } else {
        c as u32
    }
}

/// Equality of two texts, ignoring the case of ASCII letters.
pub open spec fn same_ignoring_ascii_case(a: Seq<char>, b: Seq<char>) -> bool {
    a.len() == b.len() && forall|k: int| 0 <= k < a.len() ==> ascii_lower(#[trigger] a[k])
        == ascii_lower(b[k])
}

fn lower_ascii_char(c: char) -> (r: u32)
    ensures
        r == ascii_lower(c),
{
    if c >= 'A' && c <= 'Z' {
        c as u32 + 32
    } else {
        c as u32
    }
}

/// Whether a file name is the day summary file's, in any ASCII case.
pub fn is_target_filename(name: &str) -> (r: bool)
    ensures
        r == same_ignoring_ascii_case(name@, TARGET_FILENAME@),
{
    let target = TARGET_FILENAME;
    let n = name.unicode_len();
    if n != target.unicode_len() {
        return false;
    }
    let mut k: usize = 0;
    while k < n
        invariant
            n == name@.len(),
            n == target@.len(),
            target@ == TARGET_FILENAME@,
            k <= n,
            forall|j: int| 0 <= j < k ==> ascii_lower(#[trigger] name@[j]) == ascii_lower(
                target@[j],
            ),
        decreases n - k,
    {
        if lower_ascii_char(name.get_char(k)) != lower_ascii_char(target.get_char(k)) {
            return false;
        }
        k = k + 1;
    }
    true
}

} // verus!
