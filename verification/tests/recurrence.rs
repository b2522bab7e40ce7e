use dao_contracts::recurrence::{
    compute_instances, compute_occurrence_time, has_more_instances, ComputedInstance, DayOfWeek,
    RecurrenceEnd, RecurrenceFrequency, RecurrenceRule,
};
use dao_contracts::timestamp::Timestamp;

fn rule(
    frequency: RecurrenceFrequency,
    interval: u32,
    days_of_week: Option<Vec<DayOfWeek>>,
    end_condition: RecurrenceEnd,
) -> RecurrenceRule {
    RecurrenceRule { frequency, interval, days_of_week, end_condition }
}

#[test]
fn daily_recurrence() {
    let rule = rule(RecurrenceFrequency::Daily, 1, None, RecurrenceEnd::AfterCount(5));
    let instances = compute_instances(
        &rule,
        Timestamp::from_seconds(1000000),
        Timestamp::from_seconds(1003600), // 1 hour later
        None,
        None,
        Some(10),
    );
    assert_eq!(instances.0.len(), 5);
    assert!(!instances.1); // no more
    assert_eq!(instances.0[0].start_time.seconds(), 1000000);
    assert_eq!(instances.0[1].start_time.seconds(), 1000000 + 86400);
    assert_eq!(instances.0[2].start_time.seconds(), 1000000 + 2 * 86400);
}

#[test]
fn daily_interval_3() {
    let rule = rule(RecurrenceFrequency::Daily, 3, None, RecurrenceEnd::AfterCount(4));
    let (instances, _) = compute_instances(
        &rule,
        Timestamp::from_seconds(1000000),
        Timestamp::from_seconds(1003600),
        None,
        None,
        Some(10),
    );
    assert_eq!(instances.len(), 4);
    assert_eq!(instances[1].start_time.seconds(), 1000000 + 3 * 86400);
    assert_eq!(instances[2].start_time.seconds(), 1000000 + 6 * 86400);
}

#[test]
fn weekly_no_days() {
    let rule = rule(RecurrenceFrequency::Weekly, 1, None, RecurrenceEnd::AfterCount(3));
    let (instances, _) = compute_instances(
        &rule,
        Timestamp::from_seconds(1000000),
        Timestamp::from_seconds(1003600),
        None,
        None,
        Some(10),
    );
    assert_eq!(instances.len(), 3);
    assert_eq!(instances[1].start_time.seconds(), 1000000 + 7 * 86400);
}

#[test]
fn weekly_tues_thurs() {
    let rule = rule(
        RecurrenceFrequency::Weekly,
        1,
        Some(vec![DayOfWeek::Tuesday, DayOfWeek::Thursday]),
        RecurrenceEnd::AfterCount(6),
    );
    let (instances, _) = compute_instances(
        &rule,
        Timestamp::from_seconds(1000000),
        Timestamp::from_seconds(1003600),
        None,
        None,
        Some(10),
    );
    assert_eq!(instances.len(), 6);
}

#[test]
fn monthly_recurrence() {
    let rule = rule(RecurrenceFrequency::Monthly, 2, None, RecurrenceEnd::AfterCount(3));
    let (instances, _) = compute_instances(
        &rule,
        Timestamp::from_seconds(1000000),
        Timestamp::from_seconds(1003600),
        None,
        None,
        Some(10),
    );
    assert_eq!(instances.len(), 3);
}

#[test]
fn yearly_recurrence() {
    let rule = rule(RecurrenceFrequency::Yearly, 1, None, RecurrenceEnd::AfterCount(3));
    let (instances, _) = compute_instances(
        &rule,
        Timestamp::from_seconds(100000000),
        Timestamp::from_seconds(100003600),
        None,
        None,
        Some(10),
    );
    assert_eq!(instances.len(), 3);
    assert!(
        instances[1].start_time.seconds() as i64 - instances[0].start_time.seconds() as i64
            >= 365 * 86400 - 86400
    );
}

#[test]
fn never_ends() {
    let rule = rule(RecurrenceFrequency::Daily, 1, None, RecurrenceEnd::Never);
    let (instances, has_more) = compute_instances(
        &rule,
        Timestamp::from_seconds(1000000),
        Timestamp::from_seconds(1003600),
        None,
        Some(Timestamp::from_seconds(1000000 + 3 * 86400)),
        Some(2),
    );
    assert_eq!(instances.len(), 2);
    assert!(has_more);
}

#[test]
fn duration_preserved() {
    let rule = rule(RecurrenceFrequency::Daily, 1, None, RecurrenceEnd::AfterCount(3));
    let (instances, _) = compute_instances(
        &rule,
        Timestamp::from_seconds(1000000),
        Timestamp::from_seconds(1007200), // 2 hours
        None,
        None,
        Some(10),
    );
    for inst in &instances {
        assert_eq!(inst.end_time.seconds() - inst.start_time.seconds(), 7200);
    }
}

// ── further cases ──

#[test]
fn weekly_tues_thurs_exact_days() {
    // 1_000_000 s is Monday 1970-01-12 (1970-01-01 was a Thursday).
    let rule = rule(
        RecurrenceFrequency::Weekly,
        1,
        Some(vec![DayOfWeek::Thursday, DayOfWeek::Tuesday, DayOfWeek::Tuesday]),
        RecurrenceEnd::AfterCount(4),
    );
    let (instances, more) = compute_instances(
        &rule,
        Timestamp::from_seconds(1000000),
        Timestamp::from_seconds(1003600),
        None,
        None,
        None,
    );
    let starts: Vec<u64> = instances.iter().map(|i| i.start_time.seconds()).collect();
    // Monday (the origin), Tuesday the 13th, Thursday the 15th, Tuesday the 20th.
    assert_eq!(
        starts,
        vec![1000000, 1000000 + 86400, 1000000 + 3 * 86400, 1000000 + 8 * 86400]
    );
    assert!(!more);
    assert_eq!(instances[3].occurrence_number, 4);
    assert_eq!(compute_occurrence_time(&rule, 1000000, 2), Some(1086400));
    assert_eq!(compute_occurrence_time(&rule, 1000000, 3), Some(1259200));
}

#[test]
fn monthly_clamps_day_of_month() {
    // 2021-01-31 12:00:00 UTC
    let jan31 = 1_612_094_400u64;
    let rule = rule(RecurrenceFrequency::Monthly, 1, None, RecurrenceEnd::AfterCount(3));
    let (instances, _) = compute_instances(
        &rule,
        Timestamp::from_seconds(jan31),
        Timestamp::from_seconds(jan31 + 60),
        None,
        None,
        None,
    );
    let starts: Vec<u64> = instances.iter().map(|i| i.start_time.seconds()).collect();
    // 2021-02-28 12:00 and 2021-03-31 12:00
    assert_eq!(starts, vec![jan31, 1_614_513_600, 1_617_192_000]);
}

#[test]
fn yearly_leap_day_clamped() {
    // 2020-02-29 00:00:00 UTC.
    let feb29 = 1_582_934_400u64;
    let first = rule(RecurrenceFrequency::Yearly, 1, None, RecurrenceEnd::AfterCount(2));
    let (instances, _) = compute_instances(
        &first,
        Timestamp::from_seconds(feb29),
        Timestamp::from_seconds(feb29 + 10),
        None,
        None,
        None,
    );
    // Feb 29 falls on Feb 28 in 2021.
    assert_eq!(instances[1].start_time.seconds(), 1_614_470_400);
    // 1972-02-29 -> 1973-02-28, and back to Feb 29 in the next leap year.
    let every = rule(RecurrenceFrequency::Yearly, 1, None, RecurrenceEnd::Never);
    assert_eq!(compute_occurrence_time(&every, 68169600, 2), Some(99705600));
    let leap_to_leap = rule(RecurrenceFrequency::Yearly, 4, None, RecurrenceEnd::Never);
    assert_eq!(compute_occurrence_time(&leap_to_leap, 68169600, 2), Some(68169600 + 1461 * 86400));
}

#[test]
fn yearly_keeps_month_and_day() {
    // 1973-03-03 09:46:40 recurs on 1976-03-03 09:46:40, though 1976 is a leap year.
    let rule = rule(RecurrenceFrequency::Yearly, 3, None, RecurrenceEnd::Never);
    assert_eq!(compute_occurrence_time(&rule, 100000000, 2), Some(194694400));
}

#[test]
fn window_skips_earlier_and_reports_more() {
    let rule = rule(RecurrenceFrequency::Daily, 1, None, RecurrenceEnd::AfterCount(10));
    let (instances, more) = compute_instances(
        &rule,
        Timestamp::from_seconds(1000000),
        Timestamp::from_seconds(1003600),
        Some(Timestamp::from_seconds(1000000 + 2 * 86400 + 10)),
        None,
        Some(3),
    );
    let numbers: Vec<u32> = instances.iter().map(|i| i.occurrence_number).collect();
    assert_eq!(numbers, vec![3, 4, 5]);
    assert!(more);
}

#[test]
fn zero_limit_yields_none_but_reports_more() {
    let rule = rule(RecurrenceFrequency::Daily, 1, None, RecurrenceEnd::Never);
    let (instances, more) = compute_instances(
        &rule,
        Timestamp::from_seconds(1000000),
        Timestamp::from_seconds(1003600),
        None,
        None,
        Some(0),
    );
    assert!(instances.is_empty());
    assert!(more);
}

#[test]
fn more_only_within_the_range() {
    let first = rule(RecurrenceFrequency::Daily, 1, None, RecurrenceEnd::Never);
    let (instances, more) = compute_instances(
        &first,
        Timestamp::from_seconds(1000000),
        Timestamp::from_seconds(1003600),
        None,
        Some(Timestamp::from_seconds(1086400)),
        Some(2),
    );
    assert_eq!(instances.len(), 2);
    // The next start, 1172800, lies after the range.
    assert!(!more);
    let dated = rule(
        RecurrenceFrequency::Daily,
        1,
        None,
        RecurrenceEnd::AtDate(Timestamp::from_seconds(1000000 + 86400)),
    );
    let (instances, more) = compute_instances(
        &dated,
        Timestamp::from_seconds(1000000),
        Timestamp::from_seconds(1003600),
        None,
        None,
        Some(2),
    );
    assert_eq!(instances.len(), 2);
    assert!(!more);
}

#[test]
fn at_date_stops_listing() {
    let rule = rule(
        RecurrenceFrequency::Daily,
        1,
        None,
        RecurrenceEnd::AtDate(Timestamp::from_seconds(1000000 + 2 * 86400)),
    );
    let (instances, more) = compute_instances(
        &rule,
        Timestamp::from_seconds(1000000),
        Timestamp::from_seconds(1003600),
        None,
        None,
        None,
    );
    assert_eq!(instances.len(), 3);
    assert!(!more);
    assert_eq!(
        instances[2],
        ComputedInstance {
            occurrence_number: 3,
            start_time: Timestamp::from_seconds(1000000 + 2 * 86400),
            end_time: Timestamp::from_seconds(1003600 + 2 * 86400),
        }
    );
}

#[test]
fn has_more_by_end_condition() {
    let count = rule(RecurrenceFrequency::Daily, 1, None, RecurrenceEnd::AfterCount(4));
    assert!(has_more_instances(&count, 4, 0, 0, 100));
    assert!(!has_more_instances(&count, 5, 0, 0, 100));
    let date = rule(
        RecurrenceFrequency::Daily,
        1,
        None,
        RecurrenceEnd::AtDate(Timestamp::from_seconds(50)),
    );
    assert!(has_more_instances(&date, 36500, 0, 0, 100));
    assert!(!has_more_instances(&date, 36501, 0, 0, 100));
    assert!(has_more_instances(&date, 36501, 0, 0, 10));
    let never = rule(RecurrenceFrequency::Daily, 1, None, RecurrenceEnd::Never);
    assert!(has_more_instances(&never, u32::MAX, 0, 0, 0));
    assert_eq!(never.max_possible_occ(), u64::MAX);
    assert_eq!(date.max_possible_occ(), 36500);
    assert_eq!(count.max_possible_occ(), 4);
}

#[test]
fn occurrence_time_formulas() {
    let daily = rule(RecurrenceFrequency::Daily, 0, None, RecurrenceEnd::Never);
    assert_eq!(compute_occurrence_time(&daily, 500, 3), Some(500 + 2 * 86400));
    let weekly = rule(RecurrenceFrequency::Weekly, 2, Some(vec![]), RecurrenceEnd::Never);
    assert_eq!(compute_occurrence_time(&weekly, 500, 2), Some(500 + 14 * 86400));
}

fn every_frequency(interval: u32) -> Vec<RecurrenceRule> {
    vec![
        rule(RecurrenceFrequency::Daily, interval, None, RecurrenceEnd::Never),
        rule(RecurrenceFrequency::Weekly, interval, None, RecurrenceEnd::Never),
        rule(
            RecurrenceFrequency::Weekly,
            interval,
            Some(vec![DayOfWeek::Monday, DayOfWeek::Thursday]),
            RecurrenceEnd::Never,
        ),
        rule(RecurrenceFrequency::Monthly, interval, None, RecurrenceEnd::Never),
        rule(RecurrenceFrequency::Yearly, interval, None, RecurrenceEnd::Never),
    ]
}

// 2024-01-31 12:00:00 UTC, a Wednesday.
const ORIGIN: i64 = 1_706_702_400;

#[test]
fn the_first_occurrence_is_the_origin() {
    for r in every_frequency(3) {
        assert_eq!(compute_occurrence_time(&r, ORIGIN, 1), Some(ORIGIN));
    }
}

#[test]
fn an_interval_of_zero_acts_as_one() {
    let zero = every_frequency(0);
    let one = every_frequency(1);
    for (r0, r1) in zero.iter().zip(one.iter()) {
        for occ in 1..=14 {
            assert_eq!(compute_occurrence_time(r0, ORIGIN, occ), compute_occurrence_time(r1, ORIGIN, occ));
        }
    }
    // Monthly from Jan 31: Feb 29 (leap year), then Mar 31.
    let monthly = rule(RecurrenceFrequency::Monthly, 0, None, RecurrenceEnd::Never);
    assert_eq!(compute_occurrence_time(&monthly, ORIGIN, 2), Some(ORIGIN + 29 * 86_400));
    assert_eq!(compute_occurrence_time(&monthly, ORIGIN, 3), Some(ORIGIN + 60 * 86_400));
}

#[test]
fn occurrence_times_strictly_increase() {
    for interval in [1, 2, 5] {
        for r in every_frequency(interval) {
            let mut last = compute_occurrence_time(&r, ORIGIN, 1).unwrap();
            for occ in 2..=30 {
                let next = compute_occurrence_time(&r, ORIGIN, occ).unwrap();
                assert!(next > last);
                last = next;
            }
        }
    }
}
