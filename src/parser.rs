//! The schedule parser: detects the layout of the pasted text, then reads one
//! class record per course block.

use vstd::prelude::*;
use vstd::string::StringExecFns;
use crate::date::{parse_weekday, weekday_number, mdy_day_number, clock_seconds, Date, Time, MAX_DAY};
use crate::error::{Field, FieldKind, ParseError, PatternName};
use crate::lines::{split_lines, views, lines_of};
use crate::pattern::{captured, matches_line, opt_view, regex_compiles, Pattern};
use crate::subject::{lists_index, resolve_subject, spec_resolve, table_code, CrnIndex};
use crate::text::{owned, same_text, starts_with, has_prefix};

verus! {

/// Default pattern of a line of the course summary, giving a subject code and a CRN.
pub const COURSE_SUMMARY_RE: &'static str = r"^.+?\t(?<subject>[A-Z]{4}) \d{4}U, .+?\t(?<crn>\d{5})";
/// Default pattern of the line naming a course.
pub const COURSE_NAME_RE: &'static str = r"^(?<name>.+?) \| (?<subject>.+?) (?<code>\d+U)";
/// Default pattern of the line giving a meeting's date range.
pub const DATE_RE: &'static str = r"^(?<start>[\d/]+) -- (?<end>[\d/]+)(?:\s+(?<weekday>\w+))?";
/// Default pattern of the line giving a meeting's times and place.
pub const TIME_RE: &'static str = r"^\s+(?<start>\d+:\d+ \w+) - (?<end>\d+:\d+ \w+).+?Location: (?<location>.+?) Building: (?<building>.+?) Room: (?<room>.+)";
/// Default pattern of the line giving the schedule type.
pub const MESSAGE_RE: &'static str = r"\| Schedule Type: (?<class_type>.+?) \|";
/// Default pattern of the CRN line.
pub const CRN_RE: &'static str = r"^CRN: (?<crn>\d{5})";

/// The line that marks the start of the schedule when copied from a Chromium browser.
pub const CHROMIUM_MARKER: &'static str = "Schedule";
/// The line that marks the start of the schedule when copied from Firefox.
pub const FIREFOX_MARKER: &'static str = "    Schedule";
/// The start of the line that precedes the list of classes.
pub const PREFACE_PREFIX: &'static str = "Class Schedule for ";
/// The weekday text of a meeting that has no weekday.
pub const NO_WEEKDAY: &'static str = "None";

/// The six recognition patterns.
#[derive(Debug)]
pub struct Parser {
    pub course_summary_re: String,
    pub course_name_re: String,
    pub date_re: String,
    pub time_re: String,
    pub message_re: String,
    pub crn_re: String,
}

impl Default for Parser {
    fn default() -> (r: Parser)
        ensures
            r.course_summary_re@ == COURSE_SUMMARY_RE@,
            r.course_name_re@ == COURSE_NAME_RE@,
            r.date_re@ == DATE_RE@,
            r.time_re@ == TIME_RE@,
            r.message_re@ == MESSAGE_RE@,
            r.crn_re@ == CRN_RE@,
    {
        Parser {
            course_summary_re: owned(COURSE_SUMMARY_RE),
            course_name_re: owned(COURSE_NAME_RE),
            date_re: owned(DATE_RE),
            time_re: owned(TIME_RE),
            message_re: owned(MESSAGE_RE),
            crn_re: owned(CRN_RE),
        }
    }
}

/// The layout of the pasted text, which depends on the browser it was copied from.
#[derive(Clone, Copy, Debug, PartialEq, Eq, Structural)]
pub enum Dialect {
    /// The weekday stands on the date line; the day grid is shorter.
    Chromium,
    /// The weekday stands on the line after the date line.
    Firefox,
}

impl Dialect {
    /// Day-header lines skipped between the weekday and the time line.
    pub open spec fn spec_grid_lines(self) -> nat {
        match self {
            Dialect::Chromium => 6,
            Dialect::Firefox => 8,
        }
    }

    /// Lines skipped after the weekday of a meeting without a weekday.
    pub open spec fn spec_empty_meeting_lines(self) -> nat {
        match self {
            Dialect::Chromium => 7,
            Dialect::Firefox => 9,
        }
    }

    pub fn grid_lines(self) -> (r: usize)
        ensures
            r == self.spec_grid_lines(),
    {
        match self {
            Dialect::Chromium => 6,
            Dialect::Firefox => 8,
        }
    }

    pub fn empty_meeting_lines(self) -> (r: usize)
        ensures
            r == self.spec_empty_meeting_lines(),
    {
        match self {
            Dialect::Chromium => 7,
            Dialect::Firefox => 9,
        }
    }
}

/// One weekly meeting of a class.
#[derive(Clone, Debug)]
pub struct MeetingRange {
    pub start_date: Date,
    pub end_date: Date,
    pub start_time: Time,
    pub end_time: Time,
    /// Weekday of the meeting, Sunday = 0.
    pub weekday: u32,
    pub location: String,
    pub building: String,
    pub room: String,
}

impl MeetingRange {
    pub open spec fn wf(&self) -> bool {
        &&& self.start_date.wf()
        &&& self.start_date.days + 6 <= MAX_DAY
        &&& self.end_date.wf()
        &&& self.start_time.wf()
        &&& self.end_time.wf()
        &&& self.weekday < 7
    }
}

/// One class, as read from one course block.
#[derive(Clone, Debug)]
pub struct ClassRecord {
    pub name: String,
    /// Short subject code and course number, such as `MATH 1010U`.
    pub code: String,
    pub schedule_type: String,
    pub instructor: String,
    /// The CRN line, as it stands.
    pub crn: String,
    pub date_ranges: Vec<MeetingRange>,
}

impl ClassRecord {
    pub open spec fn wf(&self) -> bool {
        forall|i: int| 0 <= i < self.date_ranges.len() ==> #[trigger] self.date_ranges[i].wf()
    }
}

/// The layout whose marker `line` is, if any.
pub open spec fn marker_dialect(line: Seq<char>) -> Option<Dialect> {
    if line == CHROMIUM_MARKER@ {
        Some(Dialect::Chromium)
    } else if line == FIREFOX_MARKER@ {
        Some(Dialect::Firefox)
    } else {
        None
    }
}

/// The CRN index built from the course-summary lines among `lines`: each adds its
/// CRN with its subject code, a later line replacing an earlier one.
pub open spec fn crn_index_of(lines: Seq<Seq<char>>, summary: Seq<char>) -> Map<Seq<char>, Seq<char>>
    decreases lines.len(),
{
    if lines.len() == 0 {
        Map::empty()
    } else {
        let m = crn_index_of(lines.drop_last(), summary);
        match (captured(summary, lines.last(), "subject"@), captured(summary, lines.last(), "crn"@)) {
            (Some(subject), Some(crn)) => m.insert(crn, subject),
            _ => m,
        }
    }
}

fn dialect_of(line: &str) -> (r: Option<Dialect>)
    ensures
        r == marker_dialect(line@),
{
    if same_text(line, CHROMIUM_MARKER) {
        Some(Dialect::Chromium)
    } else if same_text(line, FIREFOX_MARKER) {
        Some(Dialect::Firefox)
    } else {
        None
    }
}

/// Finds the first layout marker, building the CRN index from the lines up to it.
pub fn detect_dialect(lines: &Vec<String>, summary: &Pattern) -> (r: Result<(Dialect, usize, CrnIndex), ParseError>)
    ensures
        match r {
            Ok((d, i, index)) => {
                &&& i < lines.len()
                &&& marker_dialect(lines[i as int]@) == Some(d)
                &&& forall|j: int| 0 <= j < i ==> marker_dialect(#[trigger] lines[j]@) is None
                &&& index.wf()
                &&& index@ == crn_index_of(views(lines@).take(i + 1), summary.source())
            },
            Err(e) => {
                &&& e == ParseError::DialectNotRecognized
                &&& forall|j: int| 0 <= j < lines.len() ==> marker_dialect(#[trigger] lines[j]@) is None
            },
        },
{
    let mut index = CrnIndex::new();
    let names: Vec<&str> = vec!["subject", "crn"];
    let mut i: usize = 0;
    let ghost ls = views(lines@);
    assert(ls.take(0) =~= Seq::<Seq<char>>::empty());
    while i < lines.len()
        invariant
            i <= lines.len(),
            ls == views(lines@),
            names@.len() == 2,
            names@[0]@ == "subject"@,
            names@[1]@ == "crn"@,
            index.wf(),
            index@ == crn_index_of(ls.take(i as int), summary.source()),
            forall|j: int| 0 <= j < i ==> marker_dialect(#[trigger] lines[j]@) is None,
        decreases lines.len() - i,
    {
        let line = lines[i].as_str();
        assert(ls.take(i + 1).drop_last() =~= ls.take(i as int));
        assert(ls.take(i + 1).last() == line@);
        if let Some(groups) = summary.captures(line, &names) {
            if let (Some(subject), Some(crn)) = (&groups[0], &groups[1]) {
                index.insert(crn.as_str(), subject.as_str());
            }
        }
        if let Some(d) = dialect_of(line) {
            return Ok((d, i, index));
        }
        i = i + 1;
    }
    Err(ParseError::DialectNotRecognized)
}

/// Finds the first line at or after `from` that starts the list of classes.
pub fn find_preface(lines: &Vec<String>, from: usize) -> (r: Result<usize, ParseError>)
    ensures
        match r {
            Ok(i) => {
                &&& from <= i < lines.len()
                &&& has_prefix(lines[i as int]@, PREFACE_PREFIX@)
                &&& forall|j: int| from <= j < i ==> !has_prefix(#[trigger] lines[j]@, PREFACE_PREFIX@)
            },
            Err(e) => {
                &&& e == ParseError::PrefaceNotFound
                &&& forall|j: int| from <= j < lines.len() ==> !has_prefix(#[trigger] lines[j]@, PREFACE_PREFIX@)
            },
        },
{
    let mut i: usize = from;
    while i < lines.len()
        invariant
            from <= i,
            forall|j: int| from <= j < i ==> !has_prefix(#[trigger] lines[j]@, PREFACE_PREFIX@),
        decreases lines.len() - i,
    {
        if starts_with(lines[i].as_str(), PREFACE_PREFIX) {
            return Ok(i);
        }
        i = i + 1;
    }
    Err(ParseError::PrefaceNotFound)
}

/// `regex` accepts all six patterns of `p`.
pub open spec fn patterns_compile(p: Parser) -> bool {
    &&& regex_compiles(p.course_summary_re@)
    &&& regex_compiles(p.course_name_re@)
    &&& regex_compiles(p.date_re@)
    &&& regex_compiles(p.time_re@)
    &&& regex_compiles(p.message_re@)
    &&& regex_compiles(p.crn_re@)
}

/// The first of the six patterns of `p` that `regex` refuses, if any.
pub open spec fn first_invalid(p: Parser) -> Option<PatternName> {
    if !regex_compiles(p.course_summary_re@) {
        Some(PatternName::CourseSummary)
    } else if !regex_compiles(p.course_name_re@) {
        Some(PatternName::CourseName)
    } else if !regex_compiles(p.date_re@) {
        Some(PatternName::DateRange)
    } else if !regex_compiles(p.time_re@) {
        Some(PatternName::Time)
    } else if !regex_compiles(p.message_re@) {
        Some(PatternName::ScheduleType)
    } else if !regex_compiles(p.crn_re@) {
        Some(PatternName::Crn)
    } else {
        None
    }
}

/// The six patterns, compiled.
pub struct Patterns {
    pub summary: Pattern,
    pub course_name: Pattern,
    pub date: Pattern,
    pub time: Pattern,
    pub message: Pattern,
    pub crn: Pattern,
}

impl Parser {
    /// Compiles the six patterns; `InvalidPattern` names the first that fails.
    pub fn compile(&self) -> (r: Result<Patterns, ParseError>)
        ensures
            r matches Ok(p) ==> {
                &&& p.summary.source() == self.course_summary_re@
                &&& p.course_name.source() == self.course_name_re@
                &&& p.date.source() == self.date_re@
                &&& p.time.source() == self.time_re@
                &&& p.message.source() == self.message_re@
                &&& p.crn.source() == self.crn_re@
            },
            r is Ok == patterns_compile(*self),
            r matches Err(e) ==> first_invalid(*self) matches Some(n) && e == (ParseError::InvalidPattern { pattern: n }),
    {
        let summary = match Pattern::new(self.course_summary_re.as_str()) {
            Ok(p) => p,
            Err(_) => return Err(ParseError::InvalidPattern { pattern: PatternName::CourseSummary }),
        };
        let course_name = match Pattern::new(self.course_name_re.as_str()) {
            Ok(p) => p,
            Err(_) => return Err(ParseError::InvalidPattern { pattern: PatternName::CourseName }),
        };
        let date = match Pattern::new(self.date_re.as_str()) {
            Ok(p) => p,
            Err(_) => return Err(ParseError::InvalidPattern { pattern: PatternName::DateRange }),
        };
        let time = match Pattern::new(self.time_re.as_str()) {
            Ok(p) => p,
            Err(_) => return Err(ParseError::InvalidPattern { pattern: PatternName::Time }),
        };
        let message = match Pattern::new(self.message_re.as_str()) {
            Ok(p) => p,
            Err(_) => return Err(ParseError::InvalidPattern { pattern: PatternName::ScheduleType }),
        };
        let crn = match Pattern::new(self.crn_re.as_str()) {
            Ok(p) => p,
            Err(_) => return Err(ParseError::InvalidPattern { pattern: PatternName::Crn }),
        };
        Ok(Patterns { summary, course_name, date, time, message, crn })
    }
}

/// The weekday text of the meeting whose date line is line `p`.
pub open spec fn weekday_text(dialect: Dialect, lines: Seq<Seq<char>>, p: int, date: Seq<char>) -> Option<Seq<char>> {
    match dialect {
        Dialect::Chromium => captured(date, lines[p], "weekday"@),
        Dialect::Firefox => if p + 1 < lines.len() { Some(lines[p + 1]) } else { None },
    }
}

/// Index of the line after the weekday of the meeting whose date line is line `p`.
pub open spec fn after_weekday(dialect: Dialect, p: int) -> int {
    match dialect {
        Dialect::Chromium => p + 1,
        Dialect::Firefox => p + 2,
    }
}

/// `m` holds what its date line, weekday text and time line say.
pub open spec fn meeting_from(m: MeetingRange, date_line: Seq<char>, weekday: Seq<char>, time_line: Seq<char>, date: Seq<char>, time: Seq<char>) -> bool {
    &&& captured(date, date_line, "start"@) matches Some(t) && mdy_day_number(t) == Some(m.start_date.days as int)
    &&& captured(date, date_line, "end"@) matches Some(t) && mdy_day_number(t) == Some(m.end_date.days as int)
    &&& weekday_number(weekday) == Some(m.weekday as int)
    &&& captured(time, time_line, "start"@) matches Some(t) && clock_seconds(t) == Some(m.start_time.secs as int)
    &&& captured(time, time_line, "end"@) matches Some(t) && clock_seconds(t) == Some(m.end_time.secs as int)
    &&& captured(time, time_line, "location"@) == Some(m.location@)
    &&& captured(time, time_line, "building"@) == Some(m.building@)
    &&& captured(time, time_line, "room"@) == Some(m.room@)
}

/// `line` is a line of `ls` that lacks a group that `pattern` must capture.
pub open spec fn mismatch_truthful(pattern: PatternName, line: Seq<char>, ls: Seq<Seq<char>>, name_re: Seq<char>,
    message_re: Seq<char>, date_re: Seq<char>, time_re: Seq<char>) -> bool {
    &&& exists|j: int| 0 <= j < ls.len() && #[trigger] ls[j] == line
    &&& match pattern {
        PatternName::CourseName => captured(name_re, line, "name"@) is None || captured(name_re, line, "subject"@) is None
            || captured(name_re, line, "code"@) is None,
        PatternName::ScheduleType => captured(message_re, line, "class_type"@) is None,
        PatternName::DateRange => captured(date_re, line, "start"@) is None || captured(date_re, line, "end"@) is None
            || captured(date_re, line, "weekday"@) is None,
        PatternName::Time => captured(time_re, line, "start"@) is None || captured(time_re, line, "end"@) is None
            || captured(time_re, line, "location"@) is None || captured(time_re, line, "building"@) is None
            || captured(time_re, line, "room"@) is None,
        _ => false,
    }
}

/// `raw` cannot be read as a value of kind `kind`: a date that does not exist or
/// whose week leaves the supported range, a time that is not a 12-hour clock time,
/// or a weekday that is neither a weekday's name nor the word for none.
pub open spec fn field_truthful(kind: FieldKind, raw: Seq<char>) -> bool {
    match kind {
        FieldKind::Date => mdy_day_number(raw) matches Some(d) ==> d + 6 > MAX_DAY,
        FieldKind::Time => clock_seconds(raw) is None,
        FieldKind::Weekday => weekday_number(raw) is None && raw != NO_WEEKDAY@,
    }
}

/// `line` has the three groups of a course-name line.
pub open spec fn names_course(name_re: Seq<char>, line: Seq<char>) -> bool {
    &&& captured(name_re, line, "name"@) is Some
    &&& captured(name_re, line, "subject"@) is Some
    &&& captured(name_re, line, "code"@) is Some
}

/// The text `ls` ends where a line of kind `field` is required: right after a
/// course-name line (its "Registered" line), one line later (its schedule-type
/// line), right after a date line (its weekday line, when the weekday stands on a
/// line of its own), inside or just after the day headers that follow a weekday,
/// or right after an instructor line (its CRN line).
pub open spec fn structural_truthful(field: Field, ls: Seq<Seq<char>>, name_re: Seq<char>, date_re: Seq<char>, dialect: Dialect) -> bool {
    match field {
        Field::RegisteredLine => exists|j: int| 0 <= j && j + 1 == ls.len() && names_course(name_re, #[trigger] ls[j]),
        Field::ScheduleTypeLine => exists|j: int| 0 <= j && j + 2 == ls.len() && names_course(name_re, #[trigger] ls[j]),
        Field::WeekdayLine => dialect == Dialect::Firefox && ls.len() > 0 && matches_line(date_re, ls.last()),
        Field::DayGrid => exists|p: int| 0 <= p < ls.len() && matches_line(date_re, #[trigger] ls[p])
            && after_weekday(dialect, p) + dialect.spec_grid_lines() > ls.len(),
        Field::TimeLine => exists|p: int| 0 <= p < ls.len() && matches_line(date_re, #[trigger] ls[p])
            && after_weekday(dialect, p) + dialect.spec_grid_lines() == ls.len(),
        Field::CrnLine => ls.len() > 0 && !matches_line(date_re, ls.last()),
        Field::InstructorLine => true,
    }
}

/// `e` is an error of a course block and says truly what went wrong: the line
/// that does not match, the text that cannot be read, or the subject that neither
/// the fixed table nor the CRN index `index` knows, with the whole index.
pub open spec fn error_truthful(e: ParseError, ls: Seq<Seq<char>>, dialect: Dialect, name_re: Seq<char>, message_re: Seq<char>,
    date_re: Seq<char>, time_re: Seq<char>, index: Map<Seq<char>, Seq<char>>) -> bool {
    match e {
        ParseError::PatternMismatch { pattern, line } => mismatch_truthful(pattern, line@, ls, name_re, message_re, date_re, time_re),
        ParseError::StructuralParseError { expected_field } => structural_truthful(expected_field, ls, name_re, date_re, dialect),
        ParseError::FieldParseError { kind, raw } => field_truthful(kind, raw@),
        ParseError::UnknownSubject { subject, known_crns } => table_code(subject@) is None && lists_index(known_crns@, index),
        _ => false,
    }
}

fn mismatch(pattern: PatternName, line: &String) -> (r: ParseError)
    ensures
        r matches ParseError::PatternMismatch { pattern: p, line: l } && p == pattern && l@ == line@,
{
    ParseError::PatternMismatch { pattern, line: line.clone() }
}

fn read_date(raw: &String) -> (r: Result<Date, ParseError>)
    ensures
        match r {
            Ok(d) => d.wf() && mdy_day_number(raw@) == Some(d.days as int),
            Err(e) => mdy_day_number(raw@) is None && e == (ParseError::FieldParseError { kind: FieldKind::Date, raw: e->raw }) && e->raw@ == raw@,
        },
{
    match Date::parse_mdy(raw.as_str()) {
        Some(d) => Ok(d),
        None => Err(ParseError::FieldParseError { kind: FieldKind::Date, raw: raw.clone() }),
    }
}

fn read_time(raw: &String) -> (r: Result<Time, ParseError>)
    ensures
        match r {
            Ok(t) => t.wf() && clock_seconds(raw@) == Some(t.secs as int),
            Err(e) => clock_seconds(raw@) is None && e == (ParseError::FieldParseError { kind: FieldKind::Time, raw: e->raw }) && e->raw@ == raw@,
        },
{
    match Time::parse_12h(raw.as_str()) {
        Some(t) => Ok(t),
        None => Err(ParseError::FieldParseError { kind: FieldKind::Time, raw: raw.clone() }),
    }
}

/// Reads the meeting whose date line is line `p`, given the groups `start`, `end`
/// and `weekday` of the date pattern on it. `None` for a meeting without a weekday,
/// whose day grid is skipped. Returns the index of the line after the meeting.
fn parse_meeting(lines: &Vec<String>, p: usize, dialect: Dialect, pats: &Patterns, groups: &Vec<Option<String>>) -> (r: Result<(Option<MeetingRange>, usize), ParseError>)
    requires
        p < lines.len(),
        groups.len() == 3,
        opt_view(groups[0]) == captured(pats.date.source(), lines[p as int]@, "start"@),
        opt_view(groups[1]) == captured(pats.date.source(), lines[p as int]@, "end"@),
        opt_view(groups[2]) == captured(pats.date.source(), lines[p as int]@, "weekday"@),
    ensures
        match r {
            Ok((Some(m), next)) => {
                &&& m.wf()
                &&& next == after_weekday(dialect, p as int) + dialect.spec_grid_lines() + 1
                &&& next <= lines.len()
                &&& weekday_text(dialect, views(lines@), p as int, pats.date.source()) matches Some(w)
                    && w != NO_WEEKDAY@
                    && meeting_from(m, lines[p as int]@, w, lines[next - 1]@, pats.date.source(), pats.time.source())
            },
            Ok((None, next)) => {
                &&& weekday_text(dialect, views(lines@), p as int, pats.date.source()) == Some(NO_WEEKDAY@)
                &&& next == if after_weekday(dialect, p as int) + dialect.spec_empty_meeting_lines() <= lines.len() {
                        after_weekday(dialect, p as int) + dialect.spec_empty_meeting_lines()
                    } else {
                        lines.len() as int
                    }
            },
            Err(e) => !(e is UnknownSubject) && error_truthful(e, views(lines@), dialect, pats.course_name.source(), pats.message.source(),
                pats.date.source(), pats.time.source(), Map::empty()),
        },
        r matches Ok((_, next)) ==> next == meeting_end(dialect, views(lines@), p as int, pats.date.source()),
        r matches Ok((None, _)) ==> dates_readable(lines[p as int]@, pats.date.source()),
        meeting_readable(dialect, views(lines@), p as int, pats.date.source(), pats.time.source()) ==> r is Ok,
{
    let date_line = &lines[p];
    let start_raw = match &groups[0] {
        Some(g) => g,
        None => return Err(mismatch(PatternName::DateRange, date_line)),
    };
    let end_raw = match &groups[1] {
        Some(g) => g,
        None => return Err(mismatch(PatternName::DateRange, date_line)),
    };
    let ghost ls = views(lines@);
    assert(ls[p as int] == date_line@);
    let start_date = read_date(start_raw)?;
    let end_date = read_date(end_raw)?;
    let (weekday, q) = match dialect {
        Dialect::Firefox => {
            if p + 1 >= lines.len() {
                assert(ls.last() == ls[p as int]);
                return Err(ParseError::StructuralParseError { expected_field: Field::WeekdayLine });
            }
            assert(ls[p + 1] == lines[p + 1]@);
            (&lines[p + 1], p + 2)
        },
        Dialect::Chromium => match &groups[2] {
            Some(g) => (g, p + 1),
            None => return Err(mismatch(PatternName::DateRange, date_line)),
        },
    };
    assert(weekday_text(dialect, ls, p as int, pats.date.source()) == Some(weekday@));
    if same_text(weekday.as_str(), NO_WEEKDAY) {
        let skip = dialect.empty_meeting_lines();
        let next = if skip <= lines.len() - q { q + skip } else { lines.len() };
        return Ok((None, next));
    }
    let wd = match parse_weekday(weekday.as_str()) {
        Some(w) => w,
        None => return Err(ParseError::FieldParseError { kind: FieldKind::Weekday, raw: weekday.clone() }),
    };
    let grid = dialect.grid_lines();
    assert(matches_line(pats.date.source(), ls[p as int]));
    if grid > lines.len() - q {
        return Err(ParseError::StructuralParseError { expected_field: Field::DayGrid });
    }
    if grid == lines.len() - q {
        return Err(ParseError::StructuralParseError { expected_field: Field::TimeLine });
    }
    let t = q + grid;
    let time_line = &lines[t];
    assert(ls[t as int] == time_line@);
    let names: Vec<&str> = vec!["start", "end", "location", "building", "room"];
    let tg = match pats.time.captures(time_line.as_str(), &names) {
        Some(g) => g,
        None => return Err(mismatch(PatternName::Time, time_line)),
    };
    let (st, et, location, building, room) = match (&tg[0], &tg[1], &tg[2], &tg[3], &tg[4]) {
        (Some(a), Some(b), Some(c), Some(d), Some(e)) => (a, b, c, d, e),
        _ => return Err(mismatch(PatternName::Time, time_line)),
    };
    let start_time = read_time(st)?;
    let end_time = read_time(et)?;
    if start_date.days > MAX_DAY - 6 {
        return Err(ParseError::FieldParseError { kind: FieldKind::Date, raw: start_raw.clone() });
    }
    let m = MeetingRange {
        start_date,
        end_date,
        start_time,
        end_time,
        weekday: wd,
        location: location.clone(),
        building: building.clone(),
        room: room.clone(),
    };
    Ok((Some(m), t + 1))
}

/// The short code and course number of a class, as `ClassRecord::code` holds them.
pub open spec fn course_code(short: Seq<char>, number: Seq<char>) -> Seq<char> {
    short + " "@ + number
}

/// Index of the line after the meeting whose date line is line `p`.
pub open spec fn meeting_end(dialect: Dialect, ls: Seq<Seq<char>>, p: int, date_re: Seq<char>) -> int {
    let q = after_weekday(dialect, p);
    if weekday_text(dialect, ls, p, date_re) == Some(NO_WEEKDAY@) {
        if q + dialect.spec_empty_meeting_lines() <= ls.len() { q + dialect.spec_empty_meeting_lines() } else { ls.len() as int }
    } else {
        q + dialect.spec_grid_lines() + 1
    }
}

/// Lines `p` up to `end` are a run of meetings, each starting with a date line,
/// and `ms` are the meetings among them that have a weekday, in order.
pub open spec fn meeting_run(ms: Seq<MeetingRange>, ls: Seq<Seq<char>>, p: int, end: int, dialect: Dialect, date_re: Seq<char>, time_re: Seq<char>) -> bool
    decreases end - p,
{
    if p >= end {
        p == end && ms.len() == 0
    } else {
        let n = meeting_end(dialect, ls, p, date_re);
        if n <= p || n > end || !(0 <= p < ls.len()) || !matches_line(date_re, ls[p]) {
            false
        } else if weekday_text(dialect, ls, p, date_re) == Some(NO_WEEKDAY@) {
            dates_readable(ls[p], date_re) && meeting_run(ms, ls, n, end, dialect, date_re, time_re)
        } else {
            &&& ms.len() > 0
            &&& n <= ls.len()
            &&& weekday_text(dialect, ls, p, date_re) matches Some(w) && meeting_from(ms[0], ls[p], w, ls[n - 1], date_re, time_re)
            &&& meeting_run(ms.drop_first(), ls, n, end, dialect, date_re, time_re)
        }
    }
}

proof fn lemma_run_extend(ms: Seq<MeetingRange>, ls: Seq<Seq<char>>, p0: int, p: int, n: int, m: Option<MeetingRange>,
    dialect: Dialect, date_re: Seq<char>, time_re: Seq<char>)
    requires
        meeting_run(ms, ls, p0, p, dialect, date_re, time_re),
        0 <= p < ls.len(),
        matches_line(date_re, ls[p]),
        n == meeting_end(dialect, ls, p, date_re),
        p < n,
        n <= ls.len(),
        m is None ==> weekday_text(dialect, ls, p, date_re) == Some(NO_WEEKDAY@) && dates_readable(ls[p], date_re),
        m matches Some(mr) ==> (weekday_text(dialect, ls, p, date_re) matches Some(w) && w != NO_WEEKDAY@
            && meeting_from(mr, ls[p], w, ls[n - 1], date_re, time_re)),
    ensures
        meeting_run(ms + match m { Some(mr) => seq![mr], None => Seq::empty() }, ls, p0, n, dialect, date_re, time_re),
    decreases p - p0,
{
    let x: Seq<MeetingRange> = match m { Some(mr) => seq![mr], None => Seq::empty() };
    if p0 >= p {
        assert(p0 == p);
        assert(ms.len() == 0);
        assert(ms + x =~= x);
        match m {
            Some(mr) => {
                assert(x.drop_first() =~= Seq::<MeetingRange>::empty());
                assert(meeting_run(x.drop_first(), ls, n, n, dialect, date_re, time_re));
                assert(x[0] == mr);
            },
            None => {
                assert(meeting_run(x, ls, n, n, dialect, date_re, time_re));
            },
        }
    } else {
        let n0 = meeting_end(dialect, ls, p0, date_re);
        if weekday_text(dialect, ls, p0, date_re) == Some(NO_WEEKDAY@) {
            lemma_run_extend(ms, ls, n0, p, n, m, dialect, date_re, time_re);
        } else {
            lemma_run_extend(ms.drop_first(), ls, n0, p, n, m, dialect, date_re, time_re);
            assert((ms + x).drop_first() =~= ms.drop_first() + x);
            assert((ms + x)[0] == ms[0]);
        }
    }
}

/// Both dates of the date line `line` can be read.
pub open spec fn dates_readable(line: Seq<char>, date_re: Seq<char>) -> bool {
    &&& captured(date_re, line, "start"@) matches Some(t) && mdy_day_number(t) is Some
    &&& captured(date_re, line, "end"@) matches Some(t) && mdy_day_number(t) is Some
}

/// The meeting whose date line is line `p` can be read: its dates, its weekday
/// and, where it has one, its time line, with a start date whose week lies in the
/// supported range.
pub open spec fn meeting_readable(dialect: Dialect, ls: Seq<Seq<char>>, p: int, date_re: Seq<char>, time_re: Seq<char>) -> bool {
    let n = meeting_end(dialect, ls, p, date_re);
    &&& 0 <= p < ls.len()
    &&& dates_readable(ls[p], date_re)
    &&& weekday_text(dialect, ls, p, date_re) matches Some(w) && (w != NO_WEEKDAY@ ==> {
        &&& weekday_number(w) is Some
        &&& n <= ls.len()
        &&& captured(time_re, ls[n - 1], "start"@) matches Some(t) && clock_seconds(t) is Some
        &&& captured(time_re, ls[n - 1], "end"@) matches Some(t) && clock_seconds(t) is Some
        &&& captured(time_re, ls[n - 1], "location"@) is Some
        &&& captured(time_re, ls[n - 1], "building"@) is Some
        &&& captured(time_re, ls[n - 1], "room"@) is Some
        &&& captured(date_re, ls[p], "start"@) matches Some(t) && mdy_day_number(t) matches Some(d) && d + 6 <= MAX_DAY
    })
}

/// From line `p` up to line `end`, every meeting can be read, each starting with a
/// date line.
pub open spec fn chain_ok(ls: Seq<Seq<char>>, p: int, end: int, dialect: Dialect, date_re: Seq<char>, time_re: Seq<char>) -> bool
    decreases end - p,
{
    if p > end {
        false
    } else if p == end {
        true
    } else {
        let n = meeting_end(dialect, ls, p, date_re);
        if n <= p || n > end {
            false
        } else {
            &&& 0 <= p < ls.len()
            &&& matches_line(date_re, ls[p])
            &&& meeting_readable(dialect, ls, p, date_re, time_re)
            &&& chain_ok(ls, n, end, dialect, date_re, time_re)
        }
    }
}

proof fn lemma_run_chain(ms: Seq<MeetingRange>, ls: Seq<Seq<char>>, p: int, end: int, dialect: Dialect, date_re: Seq<char>, time_re: Seq<char>)
    requires
        meeting_run(ms, ls, p, end, dialect, date_re, time_re),
        forall|i: int| 0 <= i < ms.len() ==> #[trigger] ms[i].wf(),
    ensures
        chain_ok(ls, p, end, dialect, date_re, time_re),
    decreases end - p,
{
    if p < end {
        let n = meeting_end(dialect, ls, p, date_re);
        if weekday_text(dialect, ls, p, date_re) == Some(NO_WEEKDAY@) {
            lemma_run_chain(ms, ls, n, end, dialect, date_re, time_re);
        } else {
            let w = weekday_text(dialect, ls, p, date_re)->0;
            assert(meeting_from(ms[0], ls[p], w, ls[n - 1], date_re, time_re));
            assert(ms[0].wf());
            assert(meeting_readable(dialect, ls, p, date_re, time_re));
            assert forall|i: int| 0 <= i < ms.drop_first().len() implies #[trigger] ms.drop_first()[i].wf() by {
                assert(ms.drop_first()[i] == ms[i + 1]);
            }
            assert(ms[0].wf());
            lemma_run_chain(ms.drop_first(), ls, n, end, dialect, date_re, time_re);
        }
    }
}

/// The course block that starts at line `pos`, with its instructor line at `end`,
/// can be read: its course-name and schedule-type lines have their groups, its
/// meetings can be read, a CRN line follows, and the subject has a code.
pub open spec fn block_ok_at(ls: Seq<Seq<char>>, pos: int, end: int, dialect: Dialect, name_re: Seq<char>,
    message_re: Seq<char>, date_re: Seq<char>, time_re: Seq<char>, crn_re: Seq<char>, index: Map<Seq<char>, Seq<char>>) -> bool {
    &&& 0 <= pos && pos + 3 <= end && end + 1 < ls.len()
    &&& captured(name_re, ls[pos], "name"@) is Some
    &&& captured(name_re, ls[pos], "code"@) is Some
    &&& captured(message_re, ls[pos + 2], "class_type"@) is Some
    &&& chain_ok(ls, pos + 3, end, dialect, date_re, time_re)
    &&& !matches_line(date_re, ls[end])
    &&& captured(name_re, ls[pos], "subject"@) matches Some(subject) && spec_resolve(subject, ls[end + 1], crn_re, index) is Some
}

/// `c` is the class read from the course block of lines `pos` to `next - 1`: its
/// name and schedule type come from the course-name and schedule-type lines, its
/// meetings from the run of meetings after them, the last two lines are its
/// instructor and CRN lines, and its code joins the resolved short subject code
/// and the course number.
pub open spec fn class_block(c: ClassRecord, ls: Seq<Seq<char>>, pos: int, next: int, dialect: Dialect, name_re: Seq<char>,
    message_re: Seq<char>, date_re: Seq<char>, time_re: Seq<char>, crn_re: Seq<char>, index: Map<Seq<char>, Seq<char>>) -> bool {
    &&& 0 <= pos && pos + 3 < next <= ls.len()
    &&& c.wf()
    &&& captured(name_re, ls[pos], "name"@) == Some(c.name@)
    &&& captured(message_re, ls[pos + 2], "class_type"@) == Some(c.schedule_type@)
    &&& c.crn@ == ls[next - 1]
    &&& c.instructor@ == ls[next - 2]
    &&& !matches_line(date_re, ls[next - 2])
    &&& meeting_run(c.date_ranges@, ls, pos + 3, next - 2, dialect, date_re, time_re)
    &&& captured(name_re, ls[pos], "subject"@) matches Some(subject)
        && captured(name_re, ls[pos], "code"@) matches Some(number)
        && spec_resolve(subject, c.crn@, crn_re, index) matches Some(short)
        && c.code@ == course_code(short, number)
}

/// Line `m` is the first layout marker of `ls`.
pub open spec fn first_marker(ls: Seq<Seq<char>>, m: int) -> bool {
    &&& 0 <= m < ls.len()
    &&& marker_dialect(ls[m]) is Some
    &&& forall|j: int| 0 <= j < m ==> marker_dialect(#[trigger] ls[j]) is None
}

/// `classes` are the course blocks of `ls` that start at `bounds[0]` and end one
/// before the next: the first marker is line `m`, the first preface line after it
/// comes just before the blocks, and the blocks run up to the end or an empty line.
#[verifier::opaque]
pub open spec fn blocks_at(classes: Seq<ClassRecord>, ls: Seq<Seq<char>>, p: Parser, m: int, bounds: Seq<int>) -> bool {
    &&& first_marker(ls, m)
    &&& bounds.len() == classes.len() + 1
    &&& m + 1 < bounds[0] <= ls.len()
    &&& has_prefix(ls[bounds[0] - 1], PREFACE_PREFIX@)
    &&& forall|j: int| m < j < bounds[0] - 1 ==> !has_prefix(#[trigger] ls[j], PREFACE_PREFIX@)
    &&& forall|i: int| 0 <= i < classes.len() ==> ls[#[trigger] bounds[i]].len() != 0 && class_block(classes[i], ls, bounds[i], bounds[i + 1],
            marker_dialect(ls[m])->0, p.course_name_re@, p.message_re@, p.date_re@, p.time_re@, p.crn_re@,
            crn_index_of(ls.take(m + 1), p.course_summary_re@))
    &&& bounds.last() == ls.len() || ls[bounds.last()].len() == 0
}

/// Some line after the first layout marker of `ls` starts the list of classes.
pub open spec fn preface_follows_marker(ls: Seq<Seq<char>>) -> bool {
    exists|m: int| #[trigger] first_marker(ls, m) && exists|j: int| m < j < ls.len() && #[trigger] has_prefix(ls[j], PREFACE_PREFIX@)
}

/// The classes read from `ls`, block by block.
pub open spec fn parsed_blocks(classes: Seq<ClassRecord>, ls: Seq<Seq<char>>, p: Parser) -> bool {
    exists|m: int, bounds: Seq<int>| #[trigger] blocks_at(classes, ls, p, m, bounds)
}

proof fn lemma_first_marker_unique(ls: Seq<Seq<char>>, a: int, b: int)
    requires
        first_marker(ls, a),
        first_marker(ls, b),
    ensures
        a == b,
{
    if a < b {
        assert(marker_dialect(ls[a]) is None);
    } else if b < a {
        assert(marker_dialect(ls[b]) is None);
    }
}

proof fn lemma_next_block(cs: Seq<ClassRecord>, ls: Seq<Seq<char>>, p: Parser, m: int, bs: Seq<int>, i: int)
    requires
        blocks_at(cs, ls, p, m, bs),
        0 <= i < bs.len(),
        0 <= bs[i] < ls.len(),
        ls[bs[i]].len() != 0,
    ensures
        i < cs.len(),
        block_ok_at(ls, bs[i], bs[i + 1] - 2, marker_dialect(ls[m])->0, p.course_name_re@, p.message_re@, p.date_re@,
            p.time_re@, p.crn_re@, crn_index_of(ls.take(m + 1), p.course_summary_re@)),
{
    reveal(blocks_at);
    if i == cs.len() {
        assert(bs.last() == bs[i]);
    }
    let c = cs[i];
    assert(ls[bs[i]].len() != 0 && class_block(c, ls, bs[i], bs[i + 1], marker_dialect(ls[m])->0, p.course_name_re@,
        p.message_re@, p.date_re@, p.time_re@, p.crn_re@, crn_index_of(ls.take(m + 1), p.course_summary_re@)));
    lemma_run_chain(c.date_ranges@, ls, bs[i] + 3, bs[i + 1] - 2, marker_dialect(ls[m])->0, p.date_re@, p.time_re@);
}

proof fn lemma_block_ready(cs: Seq<ClassRecord>, ls: Seq<Seq<char>>, p: Parser, m: int, bs: Seq<int>, i: int, dialect: Dialect,
    idx: Map<Seq<char>, Seq<char>>)
    requires
        blocks_at(cs, ls, p, m, bs),
        0 <= i < bs.len(),
        0 <= bs[i] < ls.len(),
        ls[bs[i]].len() != 0,
        marker_dialect(ls[m]) == Some(dialect),
        idx == crn_index_of(ls.take(m + 1), p.course_summary_re@),
    ensures
        i + 1 < bs.len(),
        block_ok_at(ls, bs[i], bs[i + 1] - 2, dialect, p.course_name_re@, p.message_re@, p.date_re@, p.time_re@, p.crn_re@, idx),
{
    lemma_next_block(cs, ls, p, m, bs, i);
    reveal(blocks_at);
}

/// Reads the course block that starts at line `pos`. Returns the record and the
/// index of the line after its CRN line.
fn parse_class(lines: &Vec<String>, pos: usize, dialect: Dialect, pats: &Patterns, index: &CrnIndex) -> (r: Result<(ClassRecord, usize), ParseError>)
    requires
        pos < lines.len(),
        index.wf(),
    ensures
        match r {
            Ok((c, next)) => class_block(c, views(lines@), pos as int, next as int, dialect, pats.course_name.source(),
                pats.message.source(), pats.date.source(), pats.time.source(), pats.crn.source(), index@),
            Err(e) => {
                &&& error_truthful(e, views(lines@), dialect, pats.course_name.source(), pats.message.source(),
                    pats.date.source(), pats.time.source(), index@)
                &&& !matches_line(pats.course_name.source(), lines[pos as int]@) ==> (e matches
                    ParseError::PatternMismatch { pattern: PatternName::CourseName, line } && line@ == lines[pos as int]@)
            },
        },
        forall|end: int| #[trigger] block_ok_at(views(lines@), pos as int, end, dialect, pats.course_name.source(), pats.message.source(), pats.date.source(), pats.time.source(), pats.crn.source(), index@) ==> (r matches Ok((_, nx)) && nx == end + 2),
{
    let ghost ls = views(lines@);
    assert(forall|j: int| 0 <= j < lines.len() ==> #[trigger] ls[j] == lines[j]@);
    let name_line = &lines[pos];
    let names: Vec<&str> = vec!["name", "subject", "code"];
    let cg = match pats.course_name.captures(name_line.as_str(), &names) {
        Some(g) => g,
        None => return Err(mismatch(PatternName::CourseName, name_line)),
    };
    let (name, subject, number) = match (&cg[0], &cg[1], &cg[2]) {
        (Some(a), Some(b), Some(c)) => (a, b, c),
        _ => return Err(mismatch(PatternName::CourseName, name_line)),
    };
    // the line after the course name says that the student is registered
    assert(names_course(pats.course_name.source(), ls[pos as int]));
    if lines.len() - pos <= 1 {
        return Err(ParseError::StructuralParseError { expected_field: Field::RegisteredLine });
    }
    if lines.len() - pos <= 2 {
        return Err(ParseError::StructuralParseError { expected_field: Field::ScheduleTypeLine });
    }
    let message_line = &lines[pos + 2];
    let mnames: Vec<&str> = vec!["class_type"];
    let mg = match pats.message.captures(message_line.as_str(), &mnames) {
        Some(g) => g,
        None => return Err(mismatch(PatternName::ScheduleType, message_line)),
    };
    let schedule_type = match &mg[0] {
        Some(t) => t.clone(),
        None => return Err(mismatch(PatternName::ScheduleType, message_line)),
    };
    let dnames: Vec<&str> = vec!["start", "end", "weekday"];
    let mut date_ranges: Vec<MeetingRange> = Vec::new();
    let mut p: usize = pos + 3;
    let mut instructor = String::new();
    loop
        invariant
            pos + 3 <= p,
            lines.len() > pos + 2,
            matches_line(pats.course_name.source(), lines[pos as int]@),
            meeting_run(date_ranges@, views(lines@), pos + 3, p as int, dialect, pats.date.source(), pats.time.source()),
            dnames@.len() == 3,
            dnames@[0]@ == "start"@,
            dnames@[1]@ == "end"@,
            dnames@[2]@ == "weekday"@,
            forall|i: int| 0 <= i < date_ranges.len() ==> #[trigger] date_ranges[i].wf(),
            ls == views(lines@),
            forall|j: int| 0 <= j < lines.len() ==> #[trigger] ls[j] == lines[j]@,
            forall|end: int| #[trigger] block_ok_at(views(lines@), pos as int, end, dialect, pats.course_name.source(), pats.message.source(), pats.date.source(), pats.time.source(), pats.crn.source(), index@) ==> chain_ok(views(lines@), p as int, end, dialect, pats.date.source(), pats.time.source()),
        ensures
            forall|end: int| #[trigger] block_ok_at(views(lines@), pos as int, end, dialect, pats.course_name.source(), pats.message.source(), pats.date.source(), pats.time.source(), pats.crn.source(), index@) ==> end == p,
            pos + 3 <= p < lines.len(),
            instructor@ == lines[p as int]@,
            !matches_line(pats.date.source(), lines[p as int]@),
            meeting_run(date_ranges@, views(lines@), pos + 3, p as int, dialect, pats.date.source(), pats.time.source()),
            forall|i: int| 0 <= i < date_ranges.len() ==> #[trigger] date_ranges[i].wf(),
        decreases lines.len() - p,
    {
        if p >= lines.len() {
            proof {
                assert forall|end: int| #[trigger] block_ok_at(views(lines@), pos as int, end, dialect, pats.course_name.source(), pats.message.source(), pats.date.source(), pats.time.source(), pats.crn.source(), index@) implies false by {
                    assert(chain_ok(views(lines@), p as int, end, dialect, pats.date.source(), pats.time.source()));
                }
            }
            return Err(ParseError::StructuralParseError { expected_field: Field::InstructorLine });
        }
        let date_line = &lines[p];
        let dg = match pats.date.captures(date_line.as_str(), &dnames) {
            Some(g) => g,
            None => {
                proof {
                    assert forall|end: int| #[trigger] block_ok_at(views(lines@), pos as int, end, dialect, pats.course_name.source(), pats.message.source(), pats.date.source(), pats.time.source(), pats.crn.source(), index@) implies end == p by {
                        assert(chain_ok(views(lines@), p as int, end, dialect, pats.date.source(), pats.time.source()));
                    }
                }
                instructor = date_line.clone();
                break;
            },
        };
        let (meeting, next) = match parse_meeting(lines, p, dialect, pats, &dg) {
            Ok(x) => x,
            Err(e) => {
                proof {
                    assert forall|end: int| #[trigger] block_ok_at(views(lines@), pos as int, end, dialect, pats.course_name.source(), pats.message.source(), pats.date.source(), pats.time.source(), pats.crn.source(), index@) implies false by {
                        assert(chain_ok(views(lines@), p as int, end, dialect, pats.date.source(), pats.time.source()));
                    }
                }
                return Err(e);
            },
        };
        proof {
            assert forall|end: int| #[trigger] block_ok_at(views(lines@), pos as int, end, dialect, pats.course_name.source(), pats.message.source(), pats.date.source(), pats.time.source(), pats.crn.source(), index@) implies
                chain_ok(views(lines@), next as int, end, dialect, pats.date.source(), pats.time.source()) by {
                assert(chain_ok(views(lines@), p as int, end, dialect, pats.date.source(), pats.time.source()));
            }
        }
        proof {
            assert(ls[p as int] == lines[p as int]@);
            if next > 0 && next - 1 < lines.len() {
                assert(ls[next - 1] == lines[next - 1]@);
            }
            lemma_run_extend(date_ranges@, ls, pos + 3, p as int, next as int, meeting, dialect, pats.date.source(), pats.time.source());
        }
        let ghost prev = date_ranges@;
        if let Some(m) = meeting {
            date_ranges.push(m);
            assert(date_ranges@ =~= prev + seq![m]);
        } else {
            assert(date_ranges@ =~= prev + Seq::<MeetingRange>::empty());
        }
        p = next;
    }
    p = p + 1;
    if p >= lines.len() {
        assert(ls.last() == ls[p - 1]);
        return Err(ParseError::StructuralParseError { expected_field: Field::CrnLine });
    }
    let crn_line = &lines[p];
    assert(ls[p as int] == crn_line@);
    let short = resolve_subject(subject.as_str(), crn_line.as_str(), &pats.crn, index)?;
    let mut code = short;
    code.append(" ");
    code.append(number.as_str());
    let record = ClassRecord {
        name: name.clone(),
        code,
        schedule_type,
        instructor,
        crn: crn_line.clone(),
        date_ranges,
    };
    Ok((record, p + 1))
}

/// `e` says truly why the text `ls` could not be read with the patterns of `p`: a
/// pattern is refused, no line marks the layout, no preface line follows the first
/// marker, or a course block has the fault that `e` describes, with the CRN index
/// read up to the first marker.
pub open spec fn parse_error_truthful(e: ParseError, ls: Seq<Seq<char>>, p: Parser) -> bool {
    ||| (e matches ParseError::InvalidPattern { pattern } && first_invalid(p) == Some(pattern))
    ||| (e == ParseError::DialectNotRecognized && forall|j: int| 0 <= j < ls.len() ==> marker_dialect(#[trigger] ls[j]) is None)
    ||| (e == ParseError::PrefaceNotFound && !preface_follows_marker(ls))
    ||| exists|m: int| #[trigger] first_marker(ls, m) && error_truthful(e, ls, marker_dialect(ls[m])->0, p.course_name_re@, p.message_re@, p.date_re@,
            p.time_re@, crn_index_of(ls.take(m + 1), p.course_summary_re@))
}

/// The parsed lines contain a layout marker.
pub open spec fn has_marker(raw: Seq<char>) -> bool {
    exists|j: int| 0 <= j < lines_of(raw).len() && marker_dialect(#[trigger] lines_of(raw)[j]) is Some
}

impl Parser {
    /// Reads every class of the pasted schedule `raw_data`.
    ///
    /// The text is split into lines; the first layout marker fixes the layout, and
    /// the course-summary lines up to it give the CRN index. The classes follow the
    /// preface line after the marker, one block each, up to the end of the text or
    /// an empty line.
    #[verifier::rlimit(100)]
    pub fn parse_data(&self, raw_data: &str) -> (r: Result<Vec<ClassRecord>, ParseError>)
        ensures
            r matches Ok(classes) ==> forall|i: int| 0 <= i < classes.len() ==> #[trigger] classes[i].wf(),
            r matches Ok(classes) ==> parsed_blocks(classes@, lines_of(raw_data@), *self),
            !patterns_compile(*self) <==> (r matches Err(e) && e is InvalidPattern),
            first_invalid(*self) matches Some(n) ==> r == Err::<Vec<ClassRecord>, ParseError>(ParseError::InvalidPattern { pattern: n }),
            patterns_compile(*self) && !has_marker(raw_data@) ==> r == Err::<Vec<ClassRecord>, ParseError>(ParseError::DialectNotRecognized),
            patterns_compile(*self) && has_marker(raw_data@) && !preface_follows_marker(lines_of(raw_data@))
                ==> r == Err::<Vec<ClassRecord>, ParseError>(ParseError::PrefaceNotFound),
            patterns_compile(*self) && (exists|cs: Seq<ClassRecord>| #[trigger] parsed_blocks(cs, lines_of(raw_data@), *self))
                ==> r is Ok,
            r matches Err(e) ==> parse_error_truthful(e, lines_of(raw_data@), *self),
    {
        let pats = self.compile()?;
        let lines = split_lines(raw_data);
        let ghost ls = lines_of(raw_data@);
        assert(views(lines@) == ls);
        assert(forall|j: int| 0 <= j < lines.len() ==> #[trigger] ls[j] == lines[j]@);
        let (dialect, marker, index) = match detect_dialect(&lines, &pats.summary) {
            Ok(x) => x,
            Err(e) => {
                proof {
                    assert forall|j: int| 0 <= j < ls.len() implies marker_dialect(#[trigger] ls[j]) is None by {
                        assert(ls[j] == lines[j]@);
                    }
                    reveal(blocks_at);
                    assert forall|cs: Seq<ClassRecord>, m2: int, bs: Seq<int>| #[trigger] blocks_at(cs, ls, *self, m2, bs) implies false by {
                        assert(marker_dialect(lines[m2]@) is None);
                    }
                }
                return Err(e);
            },
        };
        assert(marker_dialect(ls[marker as int]) is Some);
        let preface = match find_preface(&lines, marker + 1) {
            Ok(i) => i,
            Err(e) => {
                proof {
                    reveal(blocks_at);
                    assert forall|cs: Seq<ClassRecord>, m2: int, bs: Seq<int>| #[trigger] blocks_at(cs, ls, *self, m2, bs) implies false by {
                        lemma_first_marker_unique(ls, m2, marker as int);
                        assert(!has_prefix(lines[bs[0] - 1]@, PREFACE_PREFIX@));
                    }
                    assert forall|m2: int| #[trigger] first_marker(ls, m2) implies !exists|j: int| m2 < j < ls.len() && #[trigger] has_prefix(ls[j], PREFACE_PREFIX@) by {
                        if m2 < marker {
                            assert(marker_dialect(lines[m2]@) is None);
                        } else if m2 > marker {
                            assert(marker_dialect(ls[marker as int]) is None);
                        }
                        assert forall|j: int| m2 < j < ls.len() implies !#[trigger] has_prefix(ls[j], PREFACE_PREFIX@) by {
                            assert(!has_prefix(lines[j]@, PREFACE_PREFIX@));
                        }
                    }
                }
                return Err(e);
            },
        };
        assert(ls[preface as int] == lines[preface as int]@);
        assert(first_marker(ls, marker as int));
        assert(preface_follows_marker(ls));
        let mut classes: Vec<ClassRecord> = Vec::new();
        let mut pos: usize = preface + 1;
        let ghost m = marker as int;
        let ghost mut bounds: Seq<int> = seq![pos as int];
        let ghost idx = crn_index_of(ls.take(m + 1), self.course_summary_re@);
        assert(first_marker(ls, m));
        proof {
            reveal(blocks_at);
            assert forall|cs: Seq<ClassRecord>, m2: int, bs: Seq<int>| #[trigger] blocks_at(cs, ls, *self, m2, bs) implies
                m2 == m && 0 < bs.len() && pos == bs[0] by {
                lemma_first_marker_unique(ls, m2, m);
                if preface < bs[0] - 1 {
                    assert(!has_prefix(ls[preface as int], PREFACE_PREFIX@));
                } else if preface > bs[0] - 1 {
                    assert(!has_prefix(lines[bs[0] - 1]@, PREFACE_PREFIX@));
                }
            }
        }
        while pos < lines.len() && !lines[pos].as_str().is_empty()
            invariant
                forall|cs: Seq<ClassRecord>, m2: int, bs: Seq<int>| #[trigger] blocks_at(cs, ls, *self, m2, bs) ==>
                    m2 == m && classes.len() < bs.len() && pos == bs[classes.len() as int],
                index.wf(),
                index@ == idx,
                idx == crn_index_of(ls.take(m + 1), self.course_summary_re@),
                has_marker(raw_data@),
                preface_follows_marker(ls),
                ls == lines_of(raw_data@),
                patterns_compile(*self),
                views(lines@) == ls,
                first_marker(ls, m),
                preface < pos <= lines.len(),
                bounds.len() == classes.len() + 1,
                bounds[0] == preface + 1,
                bounds.last() == pos,
                pats.course_name.source() == self.course_name_re@,
                pats.message.source() == self.message_re@,
                pats.date.source() == self.date_re@,
                pats.time.source() == self.time_re@,
                pats.crn.source() == self.crn_re@,
                marker_dialect(ls[m]) == Some(dialect),
                forall|i: int| 0 <= i < classes.len() ==> #[trigger] classes[i].wf(),
                forall|i: int| 0 <= i < classes.len() ==> ls[#[trigger] bounds[i]].len() != 0 && class_block(classes[i], ls, bounds[i], bounds[i + 1],
                    dialect, self.course_name_re@, self.message_re@, self.date_re@, self.time_re@, self.crn_re@, idx),
            decreases lines.len() - pos,
        {
            assert(ls[pos as int] == lines[pos as int]@);
            let (class, next) = match parse_class(&lines, pos, dialect, &pats, &index) {
                Ok(x) => x,
                Err(e) => {
                    proof {
                        assert forall|cs: Seq<ClassRecord>, m2: int, bs: Seq<int>| #[trigger] blocks_at(cs, ls, *self, m2, bs) implies false by {
                            assert(m2 == m && pos == bs[classes.len() as int]);
                            lemma_block_ready(cs, ls, *self, m2, bs, classes.len() as int, dialect, idx);
                            let end = bs[classes.len() + 1] - 2;
                            assert(block_ok_at(views(lines@), pos as int, end, dialect, pats.course_name.source(), pats.message.source(),
                                pats.date.source(), pats.time.source(), pats.crn.source(), index@));
                        }
                    }
                    assert(first_marker(ls, m));
                    return Err(e);
                },
            };
            proof {
                assert forall|cs: Seq<ClassRecord>, m2: int, bs: Seq<int>| #[trigger] blocks_at(cs, ls, *self, m2, bs) implies
                    classes.len() + 1 < bs.len() && next == bs[classes.len() + 1] by {
                    assert(m2 == m && pos == bs[classes.len() as int]);
                    lemma_block_ready(cs, ls, *self, m2, bs, classes.len() as int, dialect, idx);
                    let end = bs[classes.len() + 1] - 2;
                    assert(block_ok_at(views(lines@), pos as int, end, dialect, pats.course_name.source(), pats.message.source(),
                        pats.date.source(), pats.time.source(), pats.crn.source(), index@));
                }
            }
            classes.push(class);
            proof {
                let prev = bounds;
                bounds = bounds.push(next as int);
                assert forall|i: int| 0 <= i < classes.len() implies ls[#[trigger] bounds[i]].len() != 0 && class_block(classes[i], ls, bounds[i], bounds[i + 1],
                    dialect, self.course_name_re@, self.message_re@, self.date_re@, self.time_re@, self.crn_re@, idx) by {
                    if i < classes.len() - 1 {
                        assert(bounds[i] == prev[i] && bounds[i + 1] == prev[i + 1]);
                    }
                }
            }
            pos = next;
        }
        proof {
            if pos < lines.len() {
                assert(ls[pos as int] == lines[pos as int]@);
            }
            reveal(blocks_at);
            assert(blocks_at(classes@, ls, *self, m, bounds));
        }
        Ok(classes)
    }
}

} // verus!
