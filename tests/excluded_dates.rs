use mycampus_calendar::calendar::event_block;
use mycampus_calendar::date::{expand_excluded, first_occurrence, Date, ExcludedDate, Time};
use mycampus_calendar::parser::{ClassRecord, MeetingRange};

fn ymd(y: i32, m: u32, d: u32) -> Date {
    Date::from_ymd(y, m, d).unwrap()
}

fn do_test(start: (i32, u32, u32), end: Option<(i32, u32, u32)>, want: Vec<(i32, u32, u32)>) {
    let input = ExcludedDate::new(ymd(start.0, start.1, start.2), end.map(|(y, m, d)| ymd(y, m, d)));
    let want_dates = want.iter().map(|&(y, m, d)| ymd(y, m, d)).collect::<Vec<_>>();
    assert_eq!(input.iter_days(), want_dates);
}

#[test]
fn test_iter_days() {
    do_test((2020, 1, 1), None, vec![(2020, 1, 1)]);
    do_test((2020, 1, 1), Some((2020, 1, 1)), vec![(2020, 1, 1)]);
    do_test((2020, 1, 1), Some((2020, 1, 2)), vec![(2020, 1, 1), (2020, 1, 2)]);
    do_test((2020, 1, 2), Some((2020, 1, 1)), vec![(2020, 1, 1), (2020, 1, 2)]);
    do_test(
        (2020, 1, 1),
        Some((2020, 1, 3)),
        vec![(2020, 1, 1), (2020, 1, 2), (2020, 1, 3)],
    );
    do_test(
        (2020, 1, 3),
        Some((2020, 1, 1)),
        vec![(2020, 1, 1), (2020, 1, 2), (2020, 1, 3)],
    );
}

#[test]
fn day_numbers_follow_the_calendar() {
    assert_eq!(ymd(1, 1, 1).days, 1);
    assert_eq!(ymd(1970, 1, 1).days, 719_163);
    assert_eq!(ymd(2020, 3, 1).days - ymd(2020, 2, 28).days, 2);
    assert!(Date::from_ymd(2021, 2, 29).is_none());
    assert_eq!(Date::parse_mdy("01/02/2020"), Some(ymd(2020, 1, 2)));
    assert_eq!(Date::parse_mdy("13/45/2020"), None);
}

#[test]
fn range_is_capped_at_a_year() {
    let entry = ExcludedDate::range(ymd(2021, 1, 1), ymd(2023, 1, 1));
    let days = entry.iter_days();
    assert_eq!(days.len(), 365);
    assert_eq!(days[0], ymd(2021, 1, 1));
    assert_eq!(days[364], ymd(2021, 12, 31));
}

#[test]
fn expanded_set_has_each_date_once() {
    let entries = vec![
        ExcludedDate::range(ymd(2024, 3, 5), ymd(2024, 3, 3)),
        ExcludedDate::single(ymd(2024, 3, 4)),
        ExcludedDate::single(ymd(2024, 4, 1)),
    ];
    let mut got = expand_excluded(&entries);
    got.sort_by_key(|d| d.days);
    assert_eq!(got, vec![ymd(2024, 3, 3), ymd(2024, 3, 4), ymd(2024, 3, 5), ymd(2024, 4, 1)]);
    assert!(expand_excluded(&Vec::new()).is_empty());
}

#[test]
fn weekdays_count_from_sunday() {
    // 2024-01-07 was a Sunday
    assert_eq!(ymd(2024, 1, 7).weekday(), 0);
    assert_eq!(ymd(2024, 1, 8).weekday(), 1);
}

#[test]
fn first_occurrence_lies_within_the_week() {
    let start = ymd(2024, 1, 10); // a Wednesday
    assert_eq!(first_occurrence(start, 3), start);
    assert_eq!(first_occurrence(start, 5), ymd(2024, 1, 12));
    assert_eq!(first_occurrence(start, 1), ymd(2024, 1, 15));
    assert_eq!(first_occurrence(start, 2), ymd(2024, 1, 16));
    for w in 0..7 {
        let d = first_occurrence(start, w);
        assert!(start.days <= d.days && d.days <= start.days + 6);
        assert_eq!(d.weekday(), w);
    }
}

#[test]
fn stamps_and_clock_times() {
    let t = Time::parse_12h("09:40 PM").unwrap();
    assert_eq!(t, Time::from_hms(21, 40, 0));
    assert_eq!(Time::parse_12h("12:05 AM").unwrap().secs, 300);
    assert!(Time::parse_12h("25:00 XM").is_none());
}

#[test]
fn event_block_writes_stamps_and_exclusions() {
    let class = ClassRecord {
        name: "Calculus I".to_string(),
        code: "MATH 1010U".to_string(),
        schedule_type: "Lecture".to_string(),
        instructor: "Jane Doe".to_string(),
        crn: "CRN: 12345".to_string(),
        date_ranges: Vec::new(),
    };
    let meeting = MeetingRange {
        start_date: ymd(2024, 1, 8),
        end_date: ymd(2024, 4, 5),
        start_time: Time::from_hms(21, 40, 0),
        end_time: Time::from_hms(22, 30, 0),
        weekday: 2,
        location: "North".to_string(),
        building: "Hall".to_string(),
        room: "101".to_string(),
    };
    let excluded = vec![ymd(2024, 2, 20), ymd(2024, 2, 27)];
    let ev = event_block(&class, &meeting, &excluded, "abc", "20240101T000000");
    assert_eq!(
        ev,
        "BEGIN:VEVENT\nDTSTAMP:20240101T000000Z\nUID:abc\n\
         DTSTART;TZID=America/Toronto:20240109T214000\n\
         DTEND;TZID=America/Toronto:20240109T223000\n\
         RRULE:FREQ=WEEKLY;TZID=America/Toronto;UNTIL=20240405T235959\n\
         EXDATE;TZID=America/Toronto:20240220T214000,20240227T214000\n\
         SUMMARY:Calculus I\n\
         DESCRIPTION:Campus: North\\nCode: MATH 1010U\\nCRN: 12345\\nJane Doe\n\
         LOCATION:Hall - 101\nEND:VEVENT\n"
    );
}
