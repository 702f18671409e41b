use mycampus_calendar::fold::{fold_calendar, to_crlf};

fn unfold(s: &str) -> String {
    s.replace("\n ", "")
}

#[test]
fn short_lines_are_kept() {
    let mut s = String::from("BEGIN:VEVENT\nEND:VEVENT");
    fold_calendar(&mut s);
    assert_eq!(s, "BEGIN:VEVENT\nEND:VEVENT");
    let mut e = String::new();
    fold_calendar(&mut e);
    assert_eq!(e, "");
}

#[test]
fn long_lines_are_broken_and_restored() {
    let original: String = std::iter::repeat('x').take(200).collect::<String>() + "\nshort\n" + &"y".repeat(74);
    let mut s = original.clone();
    fold_calendar(&mut s);
    let lines: Vec<&str> = s.split('\n').collect();
    assert_eq!(lines[0].len(), 73);
    assert_eq!(lines[1].len(), 75);
    assert!(lines[1].starts_with(' '));
    assert_eq!(lines[2].len(), 1 + 200 - 73 - 74);
    assert_eq!(lines[3], "short");
    assert_eq!(lines[4].len(), 73);
    assert_eq!(lines[5], " y");
    assert!(lines.iter().all(|l| l.chars().count() <= 75));
    assert_eq!(unfold(&s), original);
}

#[test]
fn line_endings_become_crlf() {
    assert_eq!(to_crlf("a\nb\n"), "a\r\nb\r\n");
    assert_eq!(to_crlf("no newline"), "no newline");
}
