use report_builder::date::{determine_weekday, parse_calendar_date, CalendarDate};
use report_builder::group::add_day;
use report_builder::order::{compare_metrics, sort_metrics_by_date};
use report_builder::record::DayMetrics;
use report_builder::summary::{compute_weekly_summary, ParticipantDays, Ratio};
use report_builder::weekday::{parse_weekday_name, weekday_display_name, Weekday};

fn day(id: &str, date: &str, label: &str, mins: [f64; 5]) -> DayMetrics {
    let m = |x: f64| (x * 1_000_000.0).round() as i64;
    DayMetrics {
        id: id.to_string(),
        calendar_date: date.to_string(),
        weekday: label.to_string(),
        sleep_minutes: m(mins[0]),
        total_in_min: m(mins[1]),
        total_lig_min: m(mins[2]),
        total_mod_min: m(mins[3]),
        total_vig_min: m(mins[4]),
    }
}

fn value(r: &Ratio) -> f64 {
    r.numerator as f64 / r.denominator as f64
}

fn participant(id: &str, days: Vec<DayMetrics>) -> ParticipantDays {
    ParticipantDays { id: id.to_string(), days }
}

fn days_from(id: &str, n: u32, mins: [f64; 5]) -> Vec<DayMetrics> {
    (1..=n)
        .map(|d| day(id, &format!("2024-03-{:02}", d), "", mins))
        .collect()
}

#[test]
fn iso_date_parses() {
    assert_eq!(
        parse_calendar_date("2024-03-04"),
        Some(CalendarDate { year: 2024, month: 3, day: 4 })
    );
}

#[test]
fn slash_date_prefers_month_first() {
    assert_eq!(
        parse_calendar_date("03/04/2024"),
        Some(CalendarDate { year: 2024, month: 3, day: 4 })
    );
}

#[test]
fn slash_date_falls_back_to_day_first() {
    assert_eq!(
        parse_calendar_date("13/04/2024"),
        Some(CalendarDate { year: 2024, month: 4, day: 13 })
    );
}

#[test]
fn unparseable_date_is_none() {
    assert_eq!(parse_calendar_date("not a date"), None);
    assert_eq!(parse_calendar_date("2024-02-30"), None);
}

#[test]
fn date_weekday_beats_label() {
    let d = day("1", "2024-03-04", "Friday", [0.0; 5]);
    assert_eq!(determine_weekday(&d), Some(Weekday::Mon));
}

#[test]
fn label_used_when_date_unparseable() {
    let d = day("1", "someday", "  FRI ", [0.0; 5]);
    assert_eq!(determine_weekday(&d), Some(Weekday::Fri));
    let e = day("1", "someday", "holiday", [0.0; 5]);
    assert_eq!(determine_weekday(&e), None);
}

#[test]
fn weekday_names_parse() {
    assert_eq!(parse_weekday_name(" Tues "), Some(Weekday::Tue));
    assert_eq!(parse_weekday_name("THURSDAY"), Some(Weekday::Thu));
    assert_eq!(parse_weekday_name("sun"), Some(Weekday::Sun));
    assert_eq!(parse_weekday_name("mo"), None);
    assert_eq!(weekday_display_name(Weekday::Wed), "Wednesday");
}

#[test]
fn sort_puts_unparseable_last() {
    let mut v = vec![
        day("1", "zzz", "", [0.0; 5]),
        day("1", "2024-03-05", "", [0.0; 5]),
        day("1", "aaa", "", [0.0; 5]),
        day("1", "03/01/2024", "", [0.0; 5]),
    ];
    sort_metrics_by_date(&mut v);
    let order: Vec<&str> = v.iter().map(|d| d.calendar_date.as_str()).collect();
    assert_eq!(order, vec!["03/01/2024", "2024-03-05", "aaa", "zzz"]);
    assert_eq!(
        compare_metrics(&v[0], &v[1]),
        std::cmp::Ordering::Less
    );
}

#[test]
fn sort_is_stable_for_equal_dates() {
    let mut v = vec![
        day("1", "2024-03-05", "a", [0.0; 5]),
        day("1", "2024-03-04", "b", [0.0; 5]),
        day("1", "2024-03-05", "c", [0.0; 5]),
    ];
    sort_metrics_by_date(&mut v);
    let labels: Vec<&str> = v.iter().map(|d| d.weekday.as_str()).collect();
    assert_eq!(labels, vec!["b", "a", "c"]);
}

#[test]
fn days_to_use_is_minimum_count() {
    let mins = [480.0, 600.0, 120.0, 30.0, 10.0];
    let data = vec![
        participant("a", days_from("a", 5, mins)),
        participant("b", days_from("b", 7, mins)),
        participant("c", days_from("c", 3, mins)),
    ];
    let s = compute_weekly_summary(&data).unwrap();
    assert_eq!(s.days_to_use, 3);
    assert_eq!(s.participant_count, 3);
}

#[test]
fn days_to_use_capped_at_seven() {
    let mins = [480.0, 600.0, 120.0, 30.0, 10.0];
    let data = vec![participant("a", days_from("a", 10, mins))];
    let s = compute_weekly_summary(&data).unwrap();
    assert_eq!(s.days_to_use, 7);
}

#[test]
fn seven_identical_days() {
    let mins = [480.0, 600.0, 120.0, 30.0, 10.0];
    let data = vec![participant("a", days_from("a", 7, mins))];
    let s = compute_weekly_summary(&data).unwrap();
    let weekly: Vec<f64> = s.average_hours.iter().map(value).collect();
    let expected = [56.0, 70.0, 14.0, 3.5, 70.0 / 60.0];
    for (w, e) in weekly.iter().zip(expected.iter()) {
        assert!((w - e).abs() < 1e-9, "{} vs {}", w, e);
    }
    assert!((value(&s.weekly_mvpa_minutes) - 280.0).abs() < 1e-9);
    assert!((value(&s.daily_mvpa_minutes) - 40.0).abs() < 1e-9);
    assert!((value(&s.daily_average_hours[0]) - 8.0).abs() < 1e-9);
    assert!((value(&s.daily_sedentary_hours) - 2.0).abs() < 1e-9);
    assert_eq!(s.average_sleep_by_weekday.len(), 7);
    assert!((value(&s.average_sleep_by_weekday[0].1) - 8.0).abs() < 1e-9);
}

#[test]
fn sedentary_floors_at_zero() {
    let mins = [600.0, 480.0, 0.0, 0.0, 0.0];
    let data = vec![participant("a", days_from("a", 2, mins))];
    let s = compute_weekly_summary(&data).unwrap();
    assert_eq!(s.daily_sedentary_hours.numerator, 0);
}

#[test]
fn weekly_figures_scale_with_window() {
    // two participants, two days each: means over participants, scaled by 7/2
    let data = vec![
        participant("a", days_from("a", 2, [60.0, 0.0, 0.0, 10.0, 0.0])),
        participant("b", days_from("b", 2, [120.0, 0.0, 0.0, 0.0, 20.0])),
    ];
    let s = compute_weekly_summary(&data).unwrap();
    // sleep: (2h + 4h) / 2 participants * 7 / 2 days = 10.5h
    assert!((value(&s.average_hours[0]) - 10.5).abs() < 1e-9);
    // mvpa: (20 + 40) / 2 * 7 / 2 = 105 minutes
    assert!((value(&s.weekly_mvpa_minutes) - 105.0).abs() < 1e-9);
}

#[test]
fn earliest_days_are_kept() {
    let mut days = vec![
        day("a", "2024-03-06", "", [600.0, 0.0, 0.0, 0.0, 0.0]),
        day("a", "2024-03-04", "", [60.0, 0.0, 0.0, 0.0, 0.0]),
    ];
    days.push(day("a", "2024-03-05", "", [120.0, 0.0, 0.0, 0.0, 0.0]));
    let data = vec![
        participant("a", days),
        participant("b", days_from("b", 2, [0.0; 5])),
    ];
    let s = compute_weekly_summary(&data).unwrap();
    assert_eq!(s.days_to_use, 2);
    // daily sleep: (1h + 2h) for a, 0 for b, over 2 participants and 2 days
    assert!((value(&s.daily_average_hours[0]) - 0.75).abs() < 1e-9);
}

#[test]
fn participant_without_days_is_ignored() {
    let mins = [480.0, 600.0, 120.0, 30.0, 10.0];
    let data = vec![
        participant("empty", Vec::new()),
        participant("a", days_from("a", 7, mins)),
    ];
    let s = compute_weekly_summary(&data).unwrap();
    assert_eq!(s.participant_count, 1);
    assert_eq!(s.days_to_use, 7);
    assert!((value(&s.average_hours[0]) - 56.0).abs() < 1e-9);
}

#[test]
fn no_data_gives_no_summary() {
    assert!(compute_weekly_summary(&Vec::new()).is_none());
    let only_empty = vec![participant("empty", Vec::new())];
    assert!(compute_weekly_summary(&only_empty).is_none());
}

#[test]
fn weekday_rows_skip_missing_days_in_week_order() {
    let data = vec![participant(
        "a",
        vec![
            day("a", "?", "Sunday", [600.0, 0.0, 0.0, 0.0, 0.0]),
            day("a", "?", "nonsense", [60.0, 0.0, 0.0, 0.0, 0.0]),
            day("a", "2024-03-06", "x", [120.0, 0.0, 0.0, 0.0, 0.0]),
            day("a", "2024-03-04", "Sun", [240.0, 0.0, 0.0, 0.0, 0.0]),
        ],
    )];
    let s = compute_weekly_summary(&data).unwrap();
    let days: Vec<Weekday> = s.average_sleep_by_weekday.iter().map(|r| r.0).collect();
    assert_eq!(days, vec![Weekday::Mon, Weekday::Wed, Weekday::Sun]);
    assert!((value(&s.average_sleep_by_weekday[0].1) - 4.0).abs() < 1e-9);
    assert!((value(&s.average_sleep_by_weekday[1].1) - 2.0).abs() < 1e-9);
    assert!((value(&s.average_sleep_by_weekday[2].1) - 10.0).abs() < 1e-9);
}

#[test]
fn summary_twice_is_identical() {
    let data = vec![
        participant("a", days_from("a", 4, [480.0, 600.0, 120.0, 30.0, 10.0])),
        participant("b", days_from("b", 6, [400.0, 500.0, 100.0, 20.0, 5.5])),
    ];
    let x = compute_weekly_summary(&data).unwrap();
    let y = compute_weekly_summary(&data).unwrap();
    assert_eq!(x.average_hours, y.average_hours);
    assert_eq!(x.daily_average_hours, y.daily_average_hours);
    assert_eq!(x.weekly_mvpa_minutes, y.weekly_mvpa_minutes);
    assert_eq!(x.daily_mvpa_minutes, y.daily_mvpa_minutes);
    assert_eq!(x.daily_sedentary_hours, y.daily_sedentary_hours);
    assert_eq!(x.average_sleep_by_weekday, y.average_sleep_by_weekday);
    assert_eq!(x.days_to_use, y.days_to_use);
}

#[test]
fn days_are_grouped_by_participant() {
    let mut groups: Vec<ParticipantDays> = Vec::new();
    add_day(&mut groups, day("b", "2024-03-04", "", [0.0; 5]));
    add_day(&mut groups, day("a", "2024-03-04", "", [0.0; 5]));
    add_day(&mut groups, day("b", "2024-03-05", "", [0.0; 5]));
    assert_eq!(groups.len(), 2);
    assert_eq!(groups[0].id, "b");
    assert_eq!(groups[0].days.len(), 2);
    assert_eq!(groups[0].days[1].calendar_date, "2024-03-05");
    assert_eq!(groups[1].id, "a");
    assert_eq!(groups[1].days.len(), 1);
}
