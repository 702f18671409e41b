use mycampus_calendar::calendar::{convert, occurrence_summary, total_meeting_count};
use mycampus_calendar::date::{Date, ExcludedDate};
use mycampus_calendar::error::{Field, FieldKind, ParseError, PatternName};
use mycampus_calendar::lines::split_lines;
use mycampus_calendar::parser::{detect_dialect, Dialect, Parser};
use mycampus_calendar::pattern::Pattern;
use mycampus_calendar::subject::{resolve_subject, subject_code, CrnIndex};

const GRID_A: &str = "S\nM\nT\nW\nT\nF\n";
const GRID_B: &str = "S\nM\nT\nW\nT\nF\nS\n\n";

fn block_a(name: &str, subject: &str, ty: &str, crn: &str, weekday: &str) -> String {
    format!(
        "{name} | {subject} 1010U Section 001\nRegistered\nClass Begin | Schedule Type: {ty} | Section 001\n\
         09/04/2024 -- 12/04/2024   {weekday}\n{GRID_A}    09:40 AM - 11:00 AM Type: Class Location: North Campus Building: Science Building Room: UA1350\n\
         Jane Doe\nCRN: {crn}\n"
    )
}

fn text_a(blocks: &[String]) -> String {
    let mut s = String::from("Chem Lab\tCHEM 1800U, 001\t44444\nSchedule\nprelude\nClass Schedule for Fall 2024\n");
    for b in blocks {
        s.push_str(b);
    }
    s
}

fn ymd(y: i32, m: u32, d: u32) -> Date {
    Date::from_ymd(y, m, d).unwrap()
}

#[test]
fn chromium_layout_is_read() {
    let text = text_a(&[block_a("Calculus I", "Mathematics", "Lecture", "12345", "Wednesday")]);
    let classes = Parser::default().parse_data(&text).unwrap();
    assert_eq!(classes.len(), 1);
    let c = &classes[0];
    assert_eq!(c.name, "Calculus I");
    assert_eq!(c.code, "MATH 1010U");
    assert_eq!(c.schedule_type, "Lecture");
    assert_eq!(c.instructor, "Jane Doe");
    assert_eq!(c.crn, "CRN: 12345");
    assert_eq!(c.date_ranges.len(), 1);
    let m = &c.date_ranges[0];
    assert_eq!(m.start_date, ymd(2024, 9, 4));
    assert_eq!(m.end_date, ymd(2024, 12, 4));
    assert_eq!(m.weekday, 3);
    assert_eq!(m.start_time.secs, 9 * 3600 + 40 * 60);
    assert_eq!(m.end_time.secs, 11 * 3600);
    assert_eq!(m.location, "North Campus");
    assert_eq!(m.building, "Science Building");
    assert_eq!(m.room, "UA1350");
}

#[test]
fn firefox_layout_is_read() {
    let text = format!(
        "    Schedule\nClass Schedule for Fall 2024\nPhysics I | Physics 1010U Section 002\nRegistered\n\
         x | Schedule Type: Laboratory | y\n09/09/2024 -- 11/29/2024\nFriday\n{GRID_B}    02:10 PM - 05:00 PM Type: Lab Location: North Campus Building: Science Building Room: UB2080\n\
         09/09/2024 -- 11/29/2024\nNone\n{GRID_B}\nJohn Roe\nCRN: 23456\n"
    );
    let classes = Parser::default().parse_data(&text).unwrap();
    assert_eq!(classes.len(), 1);
    let c = &classes[0];
    assert_eq!(c.code, "PHY 1010U");
    assert_eq!(c.schedule_type, "Laboratory");
    assert_eq!(c.date_ranges.len(), 1);
    assert_eq!(c.date_ranges[0].weekday, 5);
    assert_eq!(c.date_ranges[0].start_time.secs, 14 * 3600 + 10 * 60);
    assert_eq!(c.instructor, "John Roe");
}

#[test]
fn dialect_follows_the_marker() {
    let summary = Pattern::new(mycampus_calendar::parser::COURSE_SUMMARY_RE).unwrap();
    let a = split_lines("x\nSchedule\nmore");
    let b = split_lines("x\n    Schedule\nmore");
    let none = split_lines("x\n  Schedule\nSchedules");
    assert!(matches!(detect_dialect(&a, &summary), Ok((Dialect::Chromium, 1, _))));
    assert!(matches!(detect_dialect(&b, &summary), Ok((Dialect::Firefox, 1, _))));
    assert!(matches!(detect_dialect(&none, &summary), Err(ParseError::DialectNotRecognized)));
}

#[test]
fn lines_are_split_and_spaces_normalised() {
    assert_eq!(split_lines("a\r\nb\u{a0}c\n\nd"), vec!["a", "b c", "", "d"]);
    assert_eq!(split_lines("a\n"), vec!["a"]);
    assert!(split_lines("").is_empty());
}

#[test]
fn subject_table_wins_over_crn_index() {
    let crn_re = Pattern::new(mycampus_calendar::parser::CRN_RE).unwrap();
    let mut index = CrnIndex::new();
    index.insert("12345", "ZZZZ");
    index.insert("55555", "NEWS");
    assert_eq!(subject_code("Software Engineering"), Some("SOFE"));
    assert_eq!(resolve_subject("Mathematics", "CRN: 12345", &crn_re, &index), Ok("MATH".to_string()));
    assert_eq!(resolve_subject("Journalism", "CRN: 55555", &crn_re, &index), Ok("NEWS".to_string()));
    match resolve_subject("Journalism", "CRN: 77777", &crn_re, &index) {
        Err(ParseError::UnknownSubject { subject, known_crns }) => {
            assert_eq!(subject, "Journalism");
            assert_eq!(known_crns.len(), 2);
        }
        other => panic!("unexpected {:?}", other),
    }
}

#[test]
fn crn_summary_lines_fill_the_index() {
    let text = text_a(&[block_a("Lab Safety", "Lab Sciences", "Lab", "44444", "Monday")]);
    let classes = Parser::default().parse_data(&text).unwrap();
    assert_eq!(classes[0].code, "CHEM 1010U");
}

#[test]
fn errors_are_structured() {
    let p = Parser::default();
    assert!(matches!(p.parse_data("nothing here"), Err(ParseError::DialectNotRecognized)));
    assert!(matches!(p.parse_data("Schedule\nno preface"), Err(ParseError::PrefaceNotFound)));
    let bad_name = text_a(&["not a course line\n".to_string()]);
    assert!(matches!(p.parse_data(&bad_name), Err(ParseError::PatternMismatch { pattern: PatternName::CourseName, .. })));
    let bad_date = text_a(&[block_a("Calculus I", "Mathematics", "Lecture", "12345", "Monday").replace("09/04/2024", "19/44/2024")]);
    match p.parse_data(&bad_date) {
        Err(ParseError::FieldParseError { kind: FieldKind::Date, raw }) => assert_eq!(raw, "19/44/2024"),
        other => panic!("unexpected {:?}", other.map(|c| c.len())),
    }
    let bad_day = text_a(&[block_a("Calculus I", "Mathematics", "Lecture", "12345", "Funday")]);
    assert!(matches!(p.parse_data(&bad_day), Err(ParseError::FieldParseError { kind: FieldKind::Weekday, .. })));
    let cut = "Schedule\nClass Schedule for Fall 2024\nCalculus I | Mathematics 1010U Section 001\nRegistered";
    assert!(matches!(p.parse_data(cut), Err(ParseError::StructuralParseError { expected_field: Field::ScheduleTypeLine })));
    let unknown = text_a(&[block_a("Poetry", "Poetry", "Lecture", "99999", "Monday")]);
    assert!(matches!(p.parse_data(&unknown), Err(ParseError::UnknownSubject { .. })));
    let mut broken = Parser::default();
    broken.date_re = "(unclosed".to_string();
    assert!(matches!(broken.parse_data(&unknown), Err(ParseError::InvalidPattern { pattern: PatternName::DateRange })));
}

#[test]
fn one_meeting_gives_one_weekly_event() {
    let text = text_a(&[block_a("Calculus I", "Mathematics", "Lecture", "12345", "Friday")]);
    let out = convert(&Parser::default(), &text, &vec![ExcludedDate::single(ymd(2024, 10, 18))]).unwrap();
    assert_eq!(out.documents.len(), 1);
    let doc = &out.documents[0];
    assert_eq!(doc.events.len(), 1);
    let ev = &doc.events[0];
    assert!(ev.starts_with("BEGIN:VEVENT\nDTSTAMP:"));
    assert!(ev.contains("\nDTSTART;TZID=America/Toronto:20240906T094000\n"));
    assert!(ev.contains("\nDTEND;TZID=America/Toronto:20240906T110000\n"));
    assert!(ev.contains("\nRRULE:FREQ=WEEKLY;TZID=America/Toronto;UNTIL=20241204T235959\n"));
    assert!(ev.contains("\nEXDATE;TZID=America/Toronto:20241018T094000\n"));
    assert!(ev.contains("\nSUMMARY:Calculus I\n"));
    assert!(ev.contains("\nDESCRIPTION:Campus: North Campus\\nCode: MATH 1010U\\nCRN: 12345\\nJane Doe\n"));
    assert!(ev.ends_with("\nLOCATION:Science Building - UA1350\nEND:VEVENT\n"));
    let text = doc.render();
    assert!(text.starts_with("BEGIN:VCALENDAR\r\nVERSION:2.0\r\n"));
    assert!(text.ends_with("END:VCALENDAR"));
    assert!(text.split("\r\n").all(|l| l.chars().count() <= 75));
    assert_eq!(doc.file_name(), "Lecture.ics");
}

#[test]
fn documents_are_grouped_by_schedule_type() {
    let text = text_a(&[
        block_a("Calculus I", "Mathematics", "Lecture", "12345", "Monday"),
        block_a("Physics I", "Physics", "Lab", "23456", "Tuesday"),
        block_a("Biology I", "Biology", "Lecture", "34567", "Thursday"),
    ]);
    let out = convert(&Parser::default(), &text, &Vec::new()).unwrap();
    assert_eq!(out.documents.len(), 2);
    let lecture = out.documents.iter().find(|d| d.schedule_type == "Lecture").unwrap();
    let lab = out.documents.iter().find(|d| d.schedule_type == "Lab").unwrap();
    assert_eq!(lecture.events.len(), 2);
    assert_eq!(lab.events.len(), 1);
    assert_ne!(lecture.events[0], lecture.events[1]);
}

#[test]
fn no_classes_give_no_documents() {
    let out = convert(&Parser::default(), &text_a(&[]), &Vec::new()).unwrap();
    assert!(out.classes.is_empty());
    assert!(out.documents.is_empty());
}

#[test]
fn file_names_are_sanitised() {
    let text = text_a(&[block_a("Calculus I", "Mathematics", "Lab / Tutorial: A*", "12345", "Monday")]);
    let out = convert(&Parser::default(), &text, &Vec::new()).unwrap();
    assert_eq!(out.documents[0].file_name(), "Lab___Tutorial__A_.ics");
}

#[test]
fn occurrences_are_counted_per_class_and_type() {
    let text = text_a(&[
        block_a("Calculus I", "Mathematics", "Lecture", "12345", "Monday"),
        block_a("Calculus I", "Mathematics", "Tutorial", "12346", "Tuesday"),
        block_a("Calculus I", "Mathematics", "Lecture", "12347", "Thursday"),
    ]);
    let classes = Parser::default().parse_data(&text).unwrap();
    assert_eq!(total_meeting_count(&classes), Some(3));
    let summary = occurrence_summary(&classes);
    assert_eq!(summary.len(), 2);
    assert_eq!((summary[0].name.as_str(), summary[0].schedule_type.as_str(), summary[0].count), ("Calculus I", "Lecture", 2));
    assert_eq!((summary[1].name.as_str(), summary[1].schedule_type.as_str(), summary[1].count), ("Calculus I", "Tutorial", 1));
}

#[test]
fn unknown_subject_lists_the_crn_index() {
    let unknown = text_a(&[block_a("Poetry", "Poetry", "Lecture", "99999", "Monday")]);
    match Parser::default().parse_data(&unknown) {
        Err(ParseError::UnknownSubject { subject, known_crns }) => {
            assert_eq!(subject, "Poetry");
            assert_eq!(known_crns, vec![("44444".to_string(), "CHEM".to_string())]);
        }
        other => panic!("unexpected {:?}", other.map(|c| c.len())),
    }
}

#[test]
fn block_errors_name_the_line_or_field() {
    let p = Parser::default();
    let bad_type = text_a(&[block_a("Calculus I", "Mathematics", "Lecture", "12345", "Monday").replace("| Schedule Type: Lecture |", "no type here")]);
    match p.parse_data(&bad_type) {
        Err(ParseError::PatternMismatch { pattern: PatternName::ScheduleType, line }) => assert_eq!(line, "Class Begin no type here Section 001"),
        other => panic!("unexpected {:?}", other.map(|c| c.len())),
    }
    let no_registered = "Schedule\nClass Schedule for Fall 2024\nCalculus I | Mathematics 1010U Section 001";
    assert!(matches!(p.parse_data(no_registered), Err(ParseError::StructuralParseError { expected_field: Field::RegisteredLine })));
    let no_crn = text_a(&[block_a("Calculus I", "Mathematics", "Lecture", "12345", "Monday").replace("CRN: 12345\n", "")]);
    assert!(matches!(p.parse_data(&no_crn), Err(ParseError::StructuralParseError { expected_field: Field::CrnLine })));
    let bad_time = text_a(&[block_a("Calculus I", "Mathematics", "Lecture", "12345", "Monday").replace("09:40 AM", "19:40 AM")]);
    assert!(matches!(p.parse_data(&bad_time), Err(ParseError::FieldParseError { kind: FieldKind::Time, .. })));
}

#[test]
fn control_characters_leave_file_names() {
    let text = text_a(&[block_a("Calculus I", "Mathematics", "Lab\tA", "12345", "Monday")]);
    let out = convert(&Parser::default(), &text, &Vec::new()).unwrap();
    assert_eq!(out.documents[0].file_name(), "Lab_A.ics");
}

#[test]
fn summary_is_sorted_by_class_name() {
    let text = text_a(&[
        block_a("Physics I", "Physics", "Lecture", "23456", "Monday"),
        block_a("Biology I", "Biology", "Lab", "34567", "Tuesday"),
        block_a("Calculus I", "Mathematics", "Lecture", "12345", "Friday"),
        block_a("Biology I", "Biology", "Lecture", "34568", "Thursday"),
    ]);
    let classes = Parser::default().parse_data(&text).unwrap();
    let summary = occurrence_summary(&classes);
    let got: Vec<(&str, &str, usize)> = summary.iter().map(|e| (e.name.as_str(), e.schedule_type.as_str(), e.count)).collect();
    assert_eq!(
        got,
        vec![("Biology I", "Lab", 1), ("Biology I", "Lecture", 1), ("Calculus I", "Lecture", 1), ("Physics I", "Lecture", 1)]
    );
}

#[test]
fn meeting_without_weekday_is_skipped_in_chromium_layout() {
    let block = format!(
        "Calculus I | Mathematics 1010U Section 001\nRegistered\nClass Begin | Schedule Type: Lecture | Section 001\n\
         09/04/2024 -- 12/04/2024   None\n{GRID_A}\n\
         09/04/2024 -- 12/04/2024   Monday\n{GRID_A}    09:40 AM - 11:00 AM Type: Class Location: North Campus Building: Science Building Room: UA1350\n\
         Jane Doe\nCRN: 12345\n"
    );
    let classes = Parser::default().parse_data(&text_a(&[block])).unwrap();
    assert_eq!(classes[0].date_ranges.len(), 1);
    assert_eq!(classes[0].date_ranges[0].weekday, 1);
    assert_eq!(classes[0].instructor, "Jane Doe");
}
