use report_builder::columns::locate_required_columns;
use report_builder::group::collect_rows;
use report_builder::summary::ParticipantDays;
use report_builder::number::parse_micros;
use report_builder::record::{extract_metrics_from_record, required_string_field, RowSkip};
use report_builder::subject::{
    build_subject_directory, check_subject_number, example_share_path, is_target_filename,
    SubjectError, SubjectNumberProblem,
};

fn strings(v: &[&str]) -> Vec<String> {
    v.iter().map(|s| s.to_string()).collect()
}

fn full_header() -> Vec<String> {
    strings(&[
        "weekday",
        "ID",
        "extra",
        "calendar_date",
        "dur_spt_min",
        "dur_day_total_IN_min",
        "dur_day_total_LIG_min",
        "dur_day_total_MOD_min",
        "dur_day_total_VIG_min",
    ])
}

#[test]
fn columns_found_in_any_order() {
    let c = locate_required_columns(&full_header()).unwrap();
    assert_eq!(c.id, 1);
    assert_eq!(c.weekday, 0);
    assert_eq!(c.calendar_date, 3);
    assert_eq!(c.sleep_minutes, 4);
    assert_eq!(c.total_durations, [5, 6, 7, 8]);
}

#[test]
fn first_of_repeated_columns_is_used() {
    let mut h = full_header();
    h.push("ID".to_string());
    let c = locate_required_columns(&h).unwrap();
    assert_eq!(c.id, 1);
}

#[test]
fn every_missing_column_reported_once() {
    let h = strings(&["ID", "weekday", "weekday", "dur_day_total_LIG_min", "id"]);
    let missing = locate_required_columns(&h).unwrap_err();
    assert_eq!(
        missing,
        strings(&[
            "calendar_date",
            "dur_day_total_IN_min",
            "dur_day_total_MOD_min",
            "dur_day_total_VIG_min",
            "dur_spt_min",
        ])
    );
}

#[test]
fn empty_header_misses_all() {
    let missing = locate_required_columns(&Vec::new()).unwrap_err();
    assert_eq!(missing.len(), 8);
}

#[test]
fn decimal_minutes_parse() {
    assert_eq!(parse_micros("480"), Some(480_000_000));
    assert_eq!(parse_micros("-1.5"), Some(-1_500_000));
    assert_eq!(parse_micros("+2."), Some(2_000_000));
    assert_eq!(parse_micros(".25"), Some(250_000));
    assert_eq!(parse_micros("1234567890"), Some(1_234_567_890_000_000));
    assert_eq!(parse_micros("."), None);
    assert_eq!(parse_micros("-"), None);
    assert_eq!(parse_micros(""), None);
    assert_eq!(parse_micros("1.2.3"), None);
    assert_eq!(parse_micros("NA"), None);
}

#[test]
fn exponent_forms_parse() {
    assert_eq!(parse_micros("1e3"), Some(1_000_000_000));
    assert_eq!(parse_micros("1.5E-2"), Some(15_000));
    assert_eq!(parse_micros("-2.5e+1"), Some(-25_000_000));
    assert_eq!(parse_micros("4.8E2"), Some(480_000_000));
    assert_eq!(parse_micros(".5e1"), Some(5_000_000));
    assert_eq!(parse_micros("0e99999999999999999999999"), Some(0));
    assert_eq!(parse_micros("1e-99999999999999999999"), Some(0));
    assert_eq!(parse_micros("1e"), None);
    assert_eq!(parse_micros("1e+"), None);
    assert_eq!(parse_micros("e5"), None);
    assert_eq!(parse_micros("1e3x"), None);
}

#[test]
fn digits_past_a_millionth_are_dropped() {
    assert_eq!(parse_micros("0.1234567"), Some(123_456));
    assert_eq!(parse_micros("-0.0000019"), Some(-1));
    assert_eq!(parse_micros("1e-7"), Some(0));
}

#[test]
fn magnitude_limits() {
    assert_eq!(parse_micros("9223372036854.775807"), Some(i64::MAX));
    assert_eq!(parse_micros("9223372036854.775808"), None);
    assert_eq!(parse_micros("-9223372036854.775808"), Some(i64::MIN));
    assert_eq!(parse_micros("-9223372036854.775809"), None);
    assert_eq!(parse_micros("1e999999999999999999999"), None);
    assert_eq!(parse_micros("00000000000000000000000000012"), Some(12_000_000));
}

#[test]
fn infinities_and_nan_rejected() {
    assert_eq!(parse_micros("inf"), None);
    assert_eq!(parse_micros("-infinity"), None);
    assert_eq!(parse_micros("NaN"), None);
}

fn row(id: &str, sleep: &str, vig: &str) -> Vec<String> {
    strings(&["Mon", id, "x", "2024-03-04", sleep, "600", "120", "30", vig])
}

#[test]
fn row_becomes_day_record() {
    let c = locate_required_columns(&full_header()).unwrap();
    let d = extract_metrics_from_record(&row(" 7001 ", "480.5", "10"), &c).unwrap();
    assert_eq!(d.id, "7001");
    assert_eq!(d.calendar_date, "2024-03-04");
    assert_eq!(d.weekday, "Mon");
    assert_eq!(d.sleep_minutes, 480_500_000);
    assert_eq!(d.total_in_min, 600_000_000);
    assert_eq!(d.total_lig_min, 120_000_000);
    assert_eq!(d.total_mod_min, 30_000_000);
    assert_eq!(d.total_vig_min, 10_000_000);
}

#[test]
fn exponent_cell_is_kept() {
    let c = locate_required_columns(&full_header()).unwrap();
    let d = extract_metrics_from_record(&row("1", "4.8e2", "1E1"), &c).unwrap();
    assert_eq!(d.sleep_minutes, 480_000_000);
    assert_eq!(d.total_vig_min, 10_000_000);
}

#[test]
fn negative_durations_pass() {
    let c = locate_required_columns(&full_header()).unwrap();
    let d = extract_metrics_from_record(&row("1", "-5", "10"), &c).unwrap();
    assert_eq!(d.sleep_minutes, -5_000_000);
}

#[test]
fn blank_id_skips_row() {
    let c = locate_required_columns(&full_header()).unwrap();
    match extract_metrics_from_record(&row("   ", "480", "10"), &c) {
        Err(RowSkip::MissingValue(col)) => assert_eq!(col, "ID"),
        other => panic!("unexpected {:?}", other),
    }
}

#[test]
fn bad_number_skips_row() {
    let c = locate_required_columns(&full_header()).unwrap();
    match extract_metrics_from_record(&row("1", "480", "ten"), &c) {
        Err(RowSkip::ParseError(col)) => assert_eq!(col, "dur_day_total_VIG_min"),
        other => panic!("unexpected {:?}", other),
    }
}

#[test]
fn short_row_skips_with_missing_value() {
    let c = locate_required_columns(&full_header()).unwrap();
    let short = strings(&["Mon", "1", "x", "2024-03-04", "480", "600"]);
    match extract_metrics_from_record(&short, &c) {
        Err(RowSkip::MissingValue(col)) => assert_eq!(col, "dur_day_total_LIG_min"),
        other => panic!("unexpected {:?}", other),
    }
}

#[test]
fn string_field_is_trimmed() {
    let r = strings(&["  a b  ", " "]);
    assert_eq!(required_string_field(&r, 0), Some("a b".to_string()));
    assert_eq!(required_string_field(&r, 1), None);
    assert_eq!(required_string_field(&r, 2), None);
}

#[test]
fn subject_directory_segments() {
    let p = build_subject_directory("/mnt/share", "7001").unwrap();
    assert_eq!(
        p,
        strings(&[
            "/mnt/share",
            "Projects",
            "BOOST",
            "ObservationalStudy",
            "3-experiment",
            "data",
            "act-obs-final-test-2",
            "derivatives",
            "GGIR-3.2.6",
            "sub-7001",
            "accel",
        ])
    );
    let q = build_subject_directory("/s", "9123").unwrap();
    assert_eq!(q[3], "InterventionStudy");
    assert_eq!(q[6], "act-int-final-test-2");
    assert_eq!(build_subject_directory("/s", ""), Err(SubjectError::Empty));
    assert_eq!(build_subject_directory("/s", "1234"), Err(SubjectError::UnknownStudy));
}

#[test]
fn subject_numbers_checked() {
    assert_eq!(check_subject_number(" 8123 \n"), Ok("8123".to_string()));
    assert_eq!(check_subject_number("   "), Err(SubjectNumberProblem::Empty));
    assert_eq!(check_subject_number("81234"), Err(SubjectNumberProblem::NotFourDigits));
    assert_eq!(check_subject_number("81a4"), Err(SubjectNumberProblem::NotFourDigits));
    assert_eq!(check_subject_number("6123"), Err(SubjectNumberProblem::WrongLeadingDigit));
}

#[test]
fn target_file_matches_any_case() {
    assert!(is_target_filename("part5_daysummary_MM_L44.8M100.6V428.8_T5A5.csv"));
    assert!(is_target_filename("PART5_DAYSUMMARY_mm_l44.8m100.6v428.8_t5a5.CSV"));
    assert!(!is_target_filename("part5_daysummary.csv"));
}

#[test]
fn example_paths_per_os() {
    assert_eq!(example_share_path("macos"), "/Volumes/vosslabhpc");
    assert_eq!(example_share_path("windows"), r"\\vosslabhpc");
    assert_eq!(example_share_path("linux"), "/mnt/vosslabhpc");
}

#[test]
fn rows_are_collected_and_skips_reported() {
    let c = locate_required_columns(&full_header()).unwrap();
    let rows = vec![
        row("7001", "480", "10"),
        row("", "480", "10"),
        row("7002", "x", "10"),
        row("7001", "420", "5"),
    ];
    let mut groups: Vec<ParticipantDays> = Vec::new();
    let skips = collect_rows(&mut groups, &c, &rows);
    assert_eq!(groups.len(), 1);
    assert_eq!(groups[0].id, "7001");
    assert_eq!(groups[0].days.len(), 2);
    assert_eq!(groups[0].days[1].sleep_minutes, 420_000_000);
    assert_eq!(skips.len(), 2);
    assert_eq!(skips[0].0, 1);
    assert!(matches!(&skips[0].1, RowSkip::MissingValue(col) if col == "ID"));
    assert_eq!(skips[1].0, 2);
    assert!(matches!(&skips[1].1, RowSkip::ParseError(col) if col == "dur_spt_min"));
}
