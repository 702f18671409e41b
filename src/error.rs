//! Structured errors of the conversion.

use vstd::prelude::*;

verus! {

/// The six recognition patterns of a parser.
#[derive(Clone, Copy, Debug, PartialEq, Eq, Structural)]
pub enum PatternName {
    CourseSummary,
    CourseName,
    DateRange,
    Time,
    ScheduleType,
    Crn,
}

/// A line that the schedule layout requires.
#[derive(Clone, Copy, Debug, PartialEq, Eq, Structural)]
pub enum Field {
    RegisteredLine,
    ScheduleTypeLine,
    InstructorLine,
    WeekdayLine,
    DayGrid,
    TimeLine,
    CrnLine,
}

/// The kind of value that could not be read.
#[derive(Clone, Copy, Debug, PartialEq, Eq, Structural)]
pub enum FieldKind {
    Date,
    Time,
    Weekday,
}

#[derive(Clone, Debug, PartialEq, Eq)]
pub enum ParseError {
    /// A recognition pattern is not a valid regular expression.
    InvalidPattern { pattern: PatternName },
    /// No line marks the start of the schedule in either layout.
    DialectNotRecognized,
    /// No line starts the list of classes after the layout marker.
    PrefaceNotFound,
    /// The text ended where a required line was expected.
    StructuralParseError { expected_field: Field },
    /// A required line does not have the shape its pattern asks for.
    PatternMismatch { pattern: PatternName, line: String },
    /// A date, time or weekday was found but could not be read.
    FieldParseError { kind: FieldKind, raw: String },
    /// The subject has no known short code; lists the CRN index for diagnosis.
    UnknownSubject { subject: String, known_crns: Vec<(String, String)> },
}

} // verus!
