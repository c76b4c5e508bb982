use goose_mobile::cron::{
    build, clock, describe, hour_label, minute_label, ordinal, parse, summary, twelve_hour,
    weekday_name, Repeat, Schedule,
};

#[test]
fn every_schedule_the_sheet_can_build_parses_back_to_itself() {
    let base = Schedule::default();
    let cases = [
        Schedule { repeat: Repeat::Hourly, minute: 15, ..base },
        Schedule { repeat: Repeat::Daily, hour: 0, minute: 0, ..base },
        Schedule { repeat: Repeat::Daily, hour: 23, minute: 55, ..base },
        Schedule { repeat: Repeat::Weekdays, hour: 9, minute: 30, ..base },
        Schedule { repeat: Repeat::Weekly, weekday: 0, hour: 18, minute: 5, ..base },
        Schedule { repeat: Repeat::Weekly, weekday: 6, hour: 7, minute: 45, ..base },
        Schedule { repeat: Repeat::Monthly, day: 31, hour: 12, minute: 0, ..base },
    ];
    for case in cases {
        let cron = build(case);
        assert_eq!(parse(&cron), Some(case), "{cron} did not round-trip");
    }
}

#[test]
fn a_five_field_cron_reads_as_the_same_schedule_as_its_six_field_form() {
    let five = parse("30 8 * * 1-5");
    assert_eq!(
        five,
        Some(Schedule { repeat: Repeat::Weekdays, hour: 8, minute: 30, ..Schedule::default() })
    );
    assert_eq!(five, parse("0 30 8 * * 1-5"));
    assert_eq!(build(five.unwrap_or_default()), "0 30 8 * * 1-5");
}

#[test]
fn a_cron_this_grammar_cannot_hold_is_refused_rather_than_approximated() {
    for cron in [
        "*/15 * * * *",
        "0 9-17 * * 1-5",
        "0 0 9 * * 1,3,5",
        "0 0 9 1 1 *",
        "0 0 9 1 * 1",
        "0 37 9 * * *",
        "30 0 9 * * *",
        "0 0 9 * * MON",
        "@daily",
        "",
        "0 0 9 * *  extra * * *",
    ] {
        assert_eq!(parse(cron), None, "{cron} should not have parsed");
    }
}

#[test]
fn a_schedule_is_described_in_words_and_never_as_its_cron() {
    let cases = [
        ("0 0 * * * *", "Runs every hour, on the hour"),
        ("0 5 * * * *", "Runs every hour at :05"),
        ("0 0 9 * * *", "Runs every day at 9:00 AM"),
        ("0 30 9 * * 1-5", "Runs every weekday at 9:30 AM"),
        ("0 0 18 * * 5", "Runs every Friday at 6:00 PM"),
        ("0 0 0 * * 0", "Runs every Sunday at 12:00 AM"),
        ("0 15 12 1 * *", "Runs on the 1st of every month at 12:15 PM"),
        ("0 0 8 22 * *", "Runs on the 22nd of every month at 8:00 AM"),
    ];
    for (cron, expected) in cases {
        assert_eq!(summary(cron), expected);
        assert!(!summary(cron).contains('*'), "{cron} leaked into the copy");
    }
}

#[test]
fn an_unreadable_cron_is_still_words_on_a_row() {
    assert_eq!(summary("*/15 * * * *"), "Runs on a schedule");
}

#[test]
fn the_clock_reads_as_a_clock_at_both_ends_of_the_day() {
    assert_eq!(clock(0, 0), "12:00 AM");
    assert_eq!(clock(12, 5), "12:05 PM");
    assert_eq!(clock(23, 55), "11:55 PM");
    assert_eq!(hour_label(0), "12 AM");
    assert_eq!(hour_label(13), "1 PM");
    assert_eq!(minute_label(5), ":05");
}

#[test]
fn ordinals_survive_the_teens() {
    let days: Vec<String> = [1, 2, 3, 4, 11, 12, 13, 21, 22, 23, 31].into_iter().map(ordinal).collect();
    assert_eq!(
        days,
        ["1st", "2nd", "3rd", "4th", "11th", "12th", "13th", "21st", "22nd", "23rd", "31st"]
    );
}

#[test]
fn noon_and_midnight_are_twelve() {
    assert_eq!(twelve_hour(0), (12, "AM"));
    assert_eq!(twelve_hour(12), (12, "PM"));
    assert_eq!(twelve_hour(15), (3, "PM"));
}

#[test]
fn every_repeat_round_trips_through_its_id() {
    for repeat in Repeat::ALL {
        assert_eq!(Repeat::from_id(repeat.id()), Some(repeat));
    }
    assert_eq!(Repeat::from_id("fortnightly"), None);
    assert_eq!(Repeat::Weekdays.label(), "Every weekday");
}

#[test]
fn a_weekly_schedule_names_its_day() {
    assert_eq!(weekday_name(3), "Wednesday");
    let schedule = Schedule { repeat: Repeat::Weekly, weekday: 2, hour: 7, minute: 5, ..Schedule::default() };
    assert_eq!(describe(schedule), "Runs every Tuesday at 7:05 AM");
    assert_eq!(build(schedule), "0 5 7 * * 2");
}
