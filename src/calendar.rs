//! Building the calendar documents: one per schedule type, one recurring event per
//! meeting of each class, and their serialisation.

use vstd::prelude::*;
use vstd::string::StringExecFns;
use crate::date::{first_occurrence, lemma_first_occurrence_in_week, now_utc, spec_first_occurrence, stamp, stamp_text, Date, Time, ExcludedDate, expand_excluded, excluded, has_day};
use crate::error::ParseError;
use crate::fold::{crlf, fold_calendar, folded, to_crlf};
use crate::parser::{first_invalid, has_marker, parse_error_truthful, parsed_blocks, patterns_compile, preface_follows_marker, ClassRecord, MeetingRange, Parser};
use crate::text::{chars_of, lemma_text_le_total, lemma_text_le_trans, owned, same_text, string_of, text_le, text_lt};
use crate::lines::{lines_of, views};

verus! {

/// The start of every document, with the definition of its one time zone.
pub const CALENDAR_HEADER: &'static str = "BEGIN:VCALENDAR\nVERSION:2.0\nPRODID:MYCAMPUS-CALENDAR-RS\nCALSCALE:GREGORIAN\nBEGIN:VTIMEZONE\nTZID:America/Toronto\nLAST-MODIFIED:20201011T015911Z\nTZURL:http://tzurl.org/zoneinfo-outlook/America/Toronto\nX-LIC-LOCATION:America/Toronto\nBEGIN:DAYLIGHT\nTZNAME:EDT\nTZOFFSETFROM:-0500\nTZOFFSETTO:-0400\nDTSTART:19700308T020000\nRRULE:FREQ=YEARLY;BYMONTH=3;BYDAY=2SU\nEND:DAYLIGHT\nBEGIN:STANDARD\nTZNAME:EST\nTZOFFSETFROM:-0400\nTZOFFSETTO:-0500\nDTSTART:19701101T020000\nRRULE:FREQ=YEARLY;BYMONTH=11;BYDAY=1SU\nEND:STANDARD\nEND:VTIMEZONE\n";
/// The end of every document.
pub const CALENDAR_FOOTER: &'static str = "END:VCALENDAR";
/// The extension of a calendar file name.
pub const FILE_EXTENSION: &'static str = ".ics";
/// The last second of a day.
pub const LAST_SECOND: u32 = 86399;

/// The fixed pieces of an event's text, in the order they appear.
pub const EV_BEGIN: &'static str = "BEGIN:VEVENT\nDTSTAMP:";
pub const EV_UID: &'static str = "Z\nUID:";
pub const EV_START: &'static str = "\nDTSTART;TZID=America/Toronto:";
pub const EV_END: &'static str = "\nDTEND;TZID=America/Toronto:";
pub const EV_RULE: &'static str = "\nRRULE:FREQ=WEEKLY;TZID=America/Toronto;UNTIL=";
pub const EV_EXDATE: &'static str = "\nEXDATE;TZID=America/Toronto:";
pub const EV_SUMMARY: &'static str = "\nSUMMARY:";
pub const EV_CAMPUS: &'static str = "\nDESCRIPTION:Campus: ";
pub const EV_CODE: &'static str = "\\nCode: ";
pub const EV_BREAK: &'static str = "\\n";
pub const EV_LOCATION: &'static str = "\nLOCATION:";
pub const EV_ROOM: &'static str = " - ";
pub const EV_END_EVENT: &'static str = "\nEND:VEVENT\n";

/// The excluded dates at time `t`, separated by commas.
pub open spec fn exdate_list(dates: Seq<Date>, t: Time) -> Seq<char>
    decreases dates.len(),
{
    if dates.len() == 0 {
        Seq::empty()
    } else if dates.len() == 1 {
        stamp_text(dates[0].days as int, t.secs as int)
    } else {
        exdate_list(dates.drop_last(), t) + ","@ + stamp_text(dates.last().days as int, t.secs as int)
    }
}

/// The event of meeting `m` of class `c`: it starts on the first day on or after
/// the start date that falls on the meeting's weekday, recurs weekly until the last
/// second of the end date, and skips every excluded date at the meeting's time.
pub open spec fn event_text(c: ClassRecord, m: MeetingRange, excluded: Seq<Date>, uid: Seq<char>, dtstamp: Seq<char>) -> Seq<char> {
    let first = spec_first_occurrence(m.start_date, m.weekday as int);
    EV_BEGIN@ + dtstamp + EV_UID@ + uid
        + EV_START@ + stamp_text(first, m.start_time.secs as int)
        + EV_END@ + stamp_text(first, m.end_time.secs as int)
        + EV_RULE@ + stamp_text(m.end_date.days as int, LAST_SECOND as int)
        + EV_EXDATE@ + exdate_list(excluded, m.start_time)
        + EV_SUMMARY@ + c.name@
        + EV_CAMPUS@ + m.location@ + EV_CODE@ + c.code@ + EV_BREAK@ + c.crn@ + EV_BREAK@ + c.instructor@
        + EV_LOCATION@ + m.building@ + EV_ROOM@ + m.room@
        + EV_END_EVENT@
}

fn exdates(excluded: &Vec<Date>, t: Time) -> (r: String)
    requires
        t.wf(),
        forall|i: int| 0 <= i < excluded.len() ==> #[trigger] excluded[i].wf(),
    ensures
        r@ == exdate_list(excluded@, t),
{
    let mut r = String::new();
    let mut i: usize = 0;
    while i < excluded.len()
        invariant
            i <= excluded.len(),
            t.wf(),
            forall|k: int| 0 <= k < excluded.len() ==> #[trigger] excluded[k].wf(),
            r@ == exdate_list(excluded@.take(i as int), t),
        decreases excluded.len() - i,
    {
        assert(excluded@.take(i + 1).drop_last() =~= excluded@.take(i as int));
        if i > 0 {
            r.append(",");
        }
        let s = stamp(excluded[i], t);
        r.append(s.as_str());
        i = i + 1;
        assert(r@ =~= exdate_list(excluded@.take(i as int), t));
    }
    assert(excluded@.take(i as int) =~= excluded@);
    r
}

/// The event of meeting `m` of class `c`, given its identifier and generation stamp.
pub fn event_block(c: &ClassRecord, m: &MeetingRange, excluded: &Vec<Date>, uid: &str, dtstamp: &str) -> (r: String)
    requires
        m.wf(),
        forall|i: int| 0 <= i < excluded.len() ==> #[trigger] excluded[i].wf(),
    ensures
        r@ == event_text(*c, *m, excluded@, uid@, dtstamp@),
{
    let first = first_occurrence(m.start_date, m.weekday);
    let mut r = owned(EV_BEGIN);
    r.append(dtstamp);
    r.append(EV_UID);
    r.append(uid);
    r.append(EV_START);
    r.append(stamp(first, m.start_time).as_str());
    r.append(EV_END);
    r.append(stamp(first, m.end_time).as_str());
    r.append(EV_RULE);
    r.append(stamp(m.end_date, Time { secs: LAST_SECOND }).as_str());
    r.append(EV_EXDATE);
    r.append(exdates(excluded, m.start_time).as_str());
    r.append(EV_SUMMARY);
    r.append(c.name.as_str());
    r.append(EV_CAMPUS);
    r.append(m.location.as_str());
    r.append(EV_CODE);
    r.append(c.code.as_str());
    r.append(EV_BREAK);
    r.append(c.crn.as_str());
    r.append(EV_BREAK);
    r.append(c.instructor.as_str());
    r.append(EV_LOCATION);
    r.append(m.building.as_str());
    r.append(EV_ROOM);
    r.append(m.room.as_str());
    r.append(EV_END_EVENT);
    r
}

/// Relies on `uuid::Uuid::new_v4` and its hyphenated text: a fresh random identifier,
/// of which nothing more is assumed.
#[verifier::external_body]
fn fresh_uid() -> (r: String) {
    uuid::Uuid::new_v4().to_string()
}

/// One calendar document: the events of every class of one schedule type.
#[derive(Debug)]
pub struct CalendarDocument {
    pub schedule_type: String,
    pub events: Vec<String>,
}

/// The (class, meeting) pairs of the classes of schedule type `ty`, in the order
/// of the classes and of their meetings: one event each.
pub open spec fn meeting_pairs(classes: Seq<ClassRecord>, ty: Seq<char>) -> Seq<(ClassRecord, MeetingRange)>
    decreases classes.len(),
{
    if classes.len() == 0 {
        Seq::empty()
    } else {
        let c = classes.last();
        meeting_pairs(classes.drop_last(), ty) + if c.schedule_type@ == ty {
            c.date_ranges@.map_values(|m: MeetingRange| (c, m))
        } else {
            Seq::empty()
        }
    }
}

/// Some class has schedule type `ty`.
pub open spec fn has_type(classes: Seq<ClassRecord>, ty: Seq<char>) -> bool {
    exists|k: int| 0 <= k < classes.len() && #[trigger] classes[k].schedule_type@ == ty
}

/// Some string of `v` is `ty`.
pub open spec fn lists_type(v: Seq<String>, ty: Seq<char>) -> bool {
    exists|i: int| 0 <= i < v.len() && #[trigger] v[i]@ == ty
}

/// Some document of `docs` has schedule type `ty`.
pub open spec fn has_document(docs: Seq<CalendarDocument>, ty: Seq<char>) -> bool {
    exists|i: int| 0 <= i < docs.len() && #[trigger] docs[i].schedule_type@ == ty
}

/// `ev` is the event of meeting `pair.1` of class `pair.0`, with some identifier and
/// generation stamp.
pub open spec fn is_event_for(ev: Seq<char>, pair: (ClassRecord, MeetingRange), excluded: Seq<Date>) -> bool {
    exists|uid: Seq<char>, dtstamp: Seq<char>| ev == #[trigger] event_text(pair.0, pair.1, excluded, uid, dtstamp)
}

/// The schedule types of `classes`, each once, in order of first appearance.
pub fn schedule_types(classes: &Vec<ClassRecord>) -> (r: Vec<String>)
    ensures
        forall|i: int, j: int| 0 <= i < j < r.len() ==> r[i]@ != r[j]@,
        forall|i: int| 0 <= i < r.len() ==> has_type(classes@, #[trigger] r[i]@),
        forall|k: int| 0 <= k < classes.len() ==> lists_type(r@, #[trigger] classes[k].schedule_type@),
{
    let mut r: Vec<String> = Vec::new();
    let mut k: usize = 0;
    while k < classes.len()
        invariant
            k <= classes.len(),
            forall|i: int, j: int| 0 <= i < j < r.len() ==> r[i]@ != r[j]@,
            forall|i: int| 0 <= i < r.len() ==> has_type(classes@, #[trigger] r[i]@),
            forall|k2: int| 0 <= k2 < k ==> lists_type(r@, #[trigger] classes[k2].schedule_type@),
        decreases classes.len() - k,
    {
        let ty = &classes[k].schedule_type;
        let mut found = false;
        let mut i: usize = 0;
        while i < r.len()
            invariant
                i <= r.len(),
                found ==> exists|i2: int| 0 <= i2 < r.len() && #[trigger] r[i2]@ == ty@,
                !found ==> forall|i2: int| 0 <= i2 < i ==> #[trigger] r[i2]@ != ty@,
            decreases r.len() - i,
        {
            if same_text(r[i].as_str(), ty.as_str()) {
                found = true;
            }
            i = i + 1;
        }
        if !found {
            let ghost prev = r@;
            r.push(ty.clone());
            assert(has_type(classes@, ty@)) by {
                assert(classes[k as int].schedule_type@ == ty@);
            }
            assert forall|k2: int| 0 <= k2 < k + 1 implies lists_type(r@, #[trigger] classes[k2].schedule_type@) by {
                if k2 < k {
                    let i = choose|i: int| 0 <= i < prev.len() && #[trigger] prev[i]@ == classes[k2].schedule_type@;
                    assert(r[i]@ == prev[i]@);
                } else {
                    assert(r[r.len() - 1]@ == ty@);
                }
            }
        }
        k = k + 1;
    }
    r
}

/// The document of schedule type `ty`: the events of the meetings of its classes,
/// in the order of the classes and of their meetings.
pub fn build_document(classes: &Vec<ClassRecord>, ty: &String, excluded: &Vec<Date>) -> (r: CalendarDocument)
    requires
        forall|k: int| 0 <= k < classes.len() ==> #[trigger] classes[k].wf(),
        forall|i: int| 0 <= i < excluded.len() ==> #[trigger] excluded[i].wf(),
    ensures
        r.schedule_type@ == ty@,
        r.events.len() == meeting_pairs(classes@, ty@).len(),
        forall|e: int| 0 <= e < r.events.len() ==> is_event_for(#[trigger] r.events[e]@, meeting_pairs(classes@, ty@)[e], excluded@),
{
    let mut events: Vec<String> = Vec::new();
    let mut k: usize = 0;
    while k < classes.len()
        invariant
            k <= classes.len(),
            forall|k2: int| 0 <= k2 < classes.len() ==> #[trigger] classes[k2].wf(),
            forall|i: int| 0 <= i < excluded.len() ==> #[trigger] excluded[i].wf(),
            events.len() == meeting_pairs(classes@.take(k as int), ty@).len(),
            forall|e: int| 0 <= e < events.len() ==> is_event_for(#[trigger] events[e]@, meeting_pairs(classes@.take(k as int), ty@)[e], excluded@),
        decreases classes.len() - k,
    {
        let class = &classes[k];
        let ghost before = meeting_pairs(classes@.take(k as int), ty@);
        assert(classes@.take(k + 1).drop_last() =~= classes@.take(k as int));
        assert(classes@.take(k + 1).last() == *class);
        if same_text(class.schedule_type.as_str(), ty.as_str()) {
            let ghost own = class.date_ranges@.map_values(|m: MeetingRange| (*class, m));
            assert(meeting_pairs(classes@.take(k + 1), ty@) == before + own);
            let mut j: usize = 0;
            let base = events.len();
            while j < class.date_ranges.len()
                invariant
                    j <= class.date_ranges.len(),
                    class.wf(),
                    own == class.date_ranges@.map_values(|m: MeetingRange| (*class, m)),
                    forall|i: int| 0 <= i < excluded.len() ==> #[trigger] excluded[i].wf(),
                    base == before.len(),
                    events.len() == base + j,
                    forall|e: int| 0 <= e < events.len() ==> is_event_for(#[trigger] events[e]@, (before + own)[e], excluded@),
                decreases class.date_ranges.len() - j,
            {
                let (day, time) = now_utc();
                let dtstamp = stamp(day, time);
                let uid = fresh_uid();
                let m = &class.date_ranges[j];
                assert(m.wf());
                let ev = event_block(class, m, excluded, uid.as_str(), dtstamp.as_str());
                assert((before + own)[base + j] == (*class, *m));
                assert(is_event_for(ev@, (before + own)[base + j], excluded@)) by {
                    let pr = (before + own)[base + j];
                    assert(pr.0 == *class && pr.1 == *m);
                    assert(ev@ == event_text(pr.0, pr.1, excluded@, uid@, dtstamp@));
                }
                events.push(ev);
                j = j + 1;
            }
        } else {
            assert(meeting_pairs(classes@.take(k + 1), ty@) =~= before);
        }
        k = k + 1;
    }
    assert(classes@.take(classes.len() as int) =~= classes@);
    CalendarDocument { schedule_type: ty.clone(), events }
}

/// One document per schedule type of `classes`, in order of first appearance.
pub fn build_calendars(classes: &Vec<ClassRecord>, excluded: &Vec<Date>) -> (r: Vec<CalendarDocument>)
    requires
        forall|k: int| 0 <= k < classes.len() ==> #[trigger] classes[k].wf(),
        forall|i: int| 0 <= i < excluded.len() ==> #[trigger] excluded[i].wf(),
    ensures
        forall|i: int, j: int| 0 <= i < j < r.len() ==> r[i].schedule_type@ != r[j].schedule_type@,
        forall|i: int| 0 <= i < r.len() ==> has_type(classes@, #[trigger] r[i].schedule_type@),
        forall|k: int| 0 <= k < classes.len() ==> has_document(r@, #[trigger] classes[k].schedule_type@),
        forall|i: int| 0 <= i < r.len() ==> #[trigger] r[i].events.len() == meeting_pairs(classes@, r[i].schedule_type@).len(),
        forall|i: int, e: int| 0 <= i < r.len() && 0 <= e < r[i].events.len() ==>
            is_event_for(#[trigger] r[i].events[e]@, meeting_pairs(classes@, r[i].schedule_type@)[e], excluded@),
{
    let types = schedule_types(classes);
    let mut r: Vec<CalendarDocument> = Vec::new();
    let mut i: usize = 0;
    while i < types.len()
        invariant
            i <= types.len(),
            forall|k: int| 0 <= k < classes.len() ==> #[trigger] classes[k].wf(),
            forall|x: int| 0 <= x < excluded.len() ==> #[trigger] excluded[x].wf(),
            r.len() == i,
            forall|x: int| 0 <= x < i ==> #[trigger] r[x].schedule_type@ == types[x]@,
            forall|x: int| 0 <= x < r.len() ==> #[trigger] r[x].events.len() == meeting_pairs(classes@, r[x].schedule_type@).len(),
            forall|x: int, e: int| 0 <= x < r.len() && 0 <= e < r[x].events.len() ==>
                is_event_for(#[trigger] r[x].events[e]@, meeting_pairs(classes@, r[x].schedule_type@)[e], excluded@),
        decreases types.len() - i,
    {
        let doc = build_document(classes, &types[i], excluded);
        r.push(doc);
        i = i + 1;
    }
    assert forall|k: int| 0 <= k < classes.len() implies has_document(r@, #[trigger] classes[k].schedule_type@) by {
        let x = choose|x: int| 0 <= x < types.len() && #[trigger] types[x]@ == classes[k].schedule_type@;
        assert(r[x].schedule_type@ == types[x]@);
    }
    r
}

/// The events one after the other.
pub open spec fn concat_all(v: Seq<Seq<char>>) -> Seq<char>
    decreases v.len(),
{
    if v.len() == 0 {
        Seq::empty()
    } else {
        concat_all(v.drop_last()) + v.last()
    }
}

/// The finished text of a document with these events: header, events and footer,
/// folded, with carriage-return line endings.
pub open spec fn document_text(events: Seq<Seq<char>>) -> Seq<char> {
    crlf(folded(CALENDAR_HEADER@ + concat_all(events) + CALENDAR_FOOTER@))
}

/// Characters that a file name cannot safely hold: path separators, quotes,
/// wildcards, whitespace and control characters.
pub open spec fn unsafe_in_name(c: char) -> bool {
    c == '/' || c == '\\' || c == '<' || c == '>' || c == ':' || c == '"' || c == '\''
        || c == '|' || c == '?' || c == '*' || c == ' ' || (c as u32) < 32 || c as u32 == 127
}

/// The file name of the document of schedule type `ty`.
pub open spec fn file_name_of(ty: Seq<char>) -> Seq<char> {
    ty.map_values(|c: char| if unsafe_in_name(c) { '_' } else { c }) + FILE_EXTENSION@
}

impl CalendarDocument {
    /// The finished text of the document.
    pub fn render(&self) -> (r: String)
        ensures
            r@ == document_text(views(self.events@)),
    {
        let mut text = owned(CALENDAR_HEADER);
        let ghost head = text@;
        let mut i: usize = 0;
        assert(views(self.events@).take(0) =~= Seq::<Seq<char>>::empty());
        while i < self.events.len()
            invariant
                i <= self.events.len(),
                head == CALENDAR_HEADER@,
                text@ == head + concat_all(views(self.events@).take(i as int)),
            decreases self.events.len() - i,
        {
            let ghost v = views(self.events@);
            assert(v.take(i + 1).drop_last() =~= v.take(i as int));
            text.append(self.events[i].as_str());
            i = i + 1;
            assert(text@ =~= head + concat_all(v.take(i as int)));
        }
        assert(views(self.events@).take(i as int) =~= views(self.events@));
        text.append(CALENDAR_FOOTER);
        fold_calendar(&mut text);
        to_crlf(text.as_str())
    }

    /// The name of the document's file: the schedule type with unsafe characters
    /// replaced by underscores, and the calendar extension.
    pub fn file_name(&self) -> (r: String)
        ensures
            r@ == file_name_of(self.schedule_type@),
    {
        let src = chars_of(self.schedule_type.as_str());
        let mut out: Vec<char> = Vec::new();
        let mut i: usize = 0;
        while i < src.len()
            invariant
                i <= src.len(),
                src@ == self.schedule_type@,
                out@ == src@.take(i as int).map_values(|c: char| if unsafe_in_name(c) { '_' } else { c }),
            decreases src.len() - i,
        {
            let c = src[i];
            let safe = if c == '/' || c == '\\' || c == '<' || c == '>' || c == ':' || c == '"' || c == '\''
                || c == '|' || c == '?' || c == '*' || c == ' ' || (c as u32) < 32 || c as u32 == 127 {
                '_'
            } else {
                c
            };
            out.push(safe);
            i = i + 1;
            assert(out@ =~= src@.take(i as int).map_values(|c: char| if unsafe_in_name(c) { '_' } else { c }));
        }
        assert(src@.take(i as int) =~= src@);
        let mut r = string_of(&out);
        r.append(FILE_EXTENSION);
        r
    }
}

/// The number of meetings of the classes named `name` with schedule type `ty`.
pub open spec fn count_meetings(classes: Seq<ClassRecord>, name: Seq<char>, ty: Seq<char>) -> int
    decreases classes.len(),
{
    if classes.len() == 0 {
        0
    } else {
        count_meetings(classes.drop_last(), name, ty) + if classes.last().name@ == name && classes.last().schedule_type@ == ty {
            classes.last().date_ranges.len() as int
        } else {
            0
        }
    }
}

/// The number of meetings of all the classes.
pub open spec fn total_meetings(classes: Seq<ClassRecord>) -> int
    decreases classes.len(),
{
    if classes.len() == 0 {
        0
    } else {
        total_meetings(classes.drop_last()) + classes.last().date_ranges.len()
    }
}

proof fn lemma_count_within_total(classes: Seq<ClassRecord>, name: Seq<char>, ty: Seq<char>)
    ensures
        0 <= count_meetings(classes, name, ty) <= total_meetings(classes),
    decreases classes.len(),
{
    if classes.len() > 0 {
        lemma_count_within_total(classes.drop_last(), name, ty);
    }
}

proof fn lemma_total_monotonic(classes: Seq<ClassRecord>, k: int)
    requires
        0 <= k <= classes.len(),
    ensures
        total_meetings(classes.take(k)) <= total_meetings(classes),
    decreases classes.len() - k,
{
    if k < classes.len() {
        lemma_total_monotonic(classes, k + 1);
        assert(classes.take(k + 1).drop_last() =~= classes.take(k));
    } else {
        assert(classes.take(k) =~= classes);
    }
}

/// Some entry of `v` counts class `name` in schedule type `ty`.
pub open spec fn has_summary(v: Seq<OccurrenceCount>, name: Seq<char>, ty: Seq<char>) -> bool {
    exists|i: int| 0 <= i < v.len() && #[trigger] v[i].name@ == name && v[i].schedule_type@ == ty
}

/// The number of meetings of all the classes, where it fits in a `usize`.
pub fn total_meeting_count(classes: &Vec<ClassRecord>) -> (r: Option<usize>)
    ensures
        match r {
            Some(n) => n == total_meetings(classes@),
            None => total_meetings(classes@) > usize::MAX,
        },
{
    let mut total: usize = 0;
    let mut k: usize = 0;
    while k < classes.len()
        invariant
            k <= classes.len(),
            total == total_meetings(classes@.take(k as int)),
        decreases classes.len() - k,
    {
        assert(classes@.take(k + 1).drop_last() =~= classes@.take(k as int));
        let n = classes[k].date_ranges.len();
        if n > usize::MAX - total {
            proof {
                lemma_total_monotonic(classes@, k + 1);
            }
            return None;
        }
        total = total + n;
        k = k + 1;
    }
    assert(classes@.take(k as int) =~= classes@);
    Some(total)
}

/// How many events one class gives in one schedule type.
#[derive(Debug)]
pub struct OccurrenceCount {
    pub name: String,
    pub schedule_type: String,
    pub count: usize,
}

/// The number of events of each class name and schedule type, each pair once,
/// sorted by class name.
pub fn occurrence_summary(classes: &Vec<ClassRecord>) -> (r: Vec<OccurrenceCount>)
    requires
        total_meetings(classes@) <= usize::MAX,
    ensures
        forall|i: int, j: int| 0 <= i < j < r.len() ==> !(r[i].name@ == r[j].name@ && r[i].schedule_type@ == r[j].schedule_type@),
        forall|i: int| 0 <= i < r.len() ==> #[trigger] r[i].count == count_meetings(classes@, r[i].name@, r[i].schedule_type@),
        forall|k: int| 0 <= k < classes.len() ==> has_summary(r@, #[trigger] classes[k].name@, classes[k].schedule_type@),
        forall|a: int, b: int| 0 <= a < b < r.len() ==> text_le(#[trigger] r[a].name@, #[trigger] r[b].name@),
{
    let mut r: Vec<OccurrenceCount> = Vec::new();
    let mut k: usize = 0;
    while k < classes.len()
        invariant
            k <= classes.len(),
            total_meetings(classes@) <= usize::MAX,
            forall|i: int, j: int| 0 <= i < j < r.len() ==> !(r[i].name@ == r[j].name@ && r[i].schedule_type@ == r[j].schedule_type@),
            forall|i: int| 0 <= i < r.len() ==> #[trigger] r[i].count == count_meetings(classes@.take(k as int), r[i].name@, r[i].schedule_type@),
            forall|k2: int| 0 <= k2 < k ==> has_summary(r@, #[trigger] classes[k2].name@, classes[k2].schedule_type@),
            forall|a: int, b: int| 0 <= a < b < r.len() ==> text_le(#[trigger] r[a].name@, #[trigger] r[b].name@),
        decreases classes.len() - k,
    {
        let class = &classes[k];
        let ghost before = classes@.take(k as int);
        let ghost after = classes@.take(k + 1);
        assert(after.drop_last() =~= before);
        assert(after.last() == *class);
        proof {
            lemma_total_monotonic(classes@, k + 1);
            lemma_count_within_total(after, class.name@, class.schedule_type@);
        }
        let mut found: Option<usize> = None;
        let mut i: usize = 0;
        while i < r.len()
            invariant
                i <= r.len(),
                found matches Some(f) ==> f < r.len() && r[f as int].name@ == class.name@ && r[f as int].schedule_type@ == class.schedule_type@,
                found is None ==> forall|i2: int| 0 <= i2 < i ==> !(#[trigger] r[i2].name@ == class.name@ && r[i2].schedule_type@ == class.schedule_type@),
            decreases r.len() - i,
        {
            if found.is_none() && same_text(r[i].name.as_str(), class.name.as_str())
                && same_text(r[i].schedule_type.as_str(), class.schedule_type.as_str()) {
                found = Some(i);
            }
            i = i + 1;
        }
        let ghost prev = r@;
        match found {
            Some(f) => {
                let entry = OccurrenceCount {
                    name: r[f].name.clone(),
                    schedule_type: r[f].schedule_type.clone(),
                    count: r[f].count + class.date_ranges.len(),
                };
                r.set(f, entry);
                assert forall|a: int, b: int| 0 <= a < b < r.len() implies text_le(#[trigger] r[a].name@, #[trigger] r[b].name@) by {
                    assert(r[a].name@ == prev[a].name@ && r[b].name@ == prev[b].name@);
                }
                assert forall|k2: int| 0 <= k2 < k + 1 implies has_summary(r@, #[trigger] classes[k2].name@, classes[k2].schedule_type@) by {
                    if k2 < k {
                        let i = choose|i: int| 0 <= i < prev.len() && #[trigger] prev[i].name@ == classes[k2].name@
                            && prev[i].schedule_type@ == classes[k2].schedule_type@;
                        assert(r[i].name@ == prev[i].name@);
                    } else {
                        assert(r[f as int].name@ == classes[k2].name@);
                    }
                }
            },
            None => {
                let mut at: usize = 0;
                while at < r.len() && !text_lt(class.name.as_str(), r[at].name.as_str())
                    invariant
                        at <= r.len(),
                        forall|j: int| 0 <= j < at ==> text_le(#[trigger] r[j].name@, class.name@),
                    decreases r.len() - at,
                {
                    at = at + 1;
                }
                proof {
                    if at < r.len() {
                        lemma_text_le_total(class.name@, r[at as int].name@, 0);
                        assert forall|j: int| at <= j < r.len() implies text_le(class.name@, #[trigger] r[j].name@) by {
                            if j > at {
                                lemma_text_le_trans(class.name@, r[at as int].name@, r[j].name@, 0);
                            }
                        }
                    }
                }
                assert forall|k2: int| 0 <= k2 < before.len() implies !(#[trigger] before[k2].name@ == class.name@
                    && before[k2].schedule_type@ == class.schedule_type@) by {
                    assert(before[k2] == classes[k2]);
                    assert(has_summary(r@, classes[k2].name@, classes[k2].schedule_type@));
                }
                assert(count_meetings(before, class.name@, class.schedule_type@) == 0) by {
                    lemma_absent_count(before, class.name@, class.schedule_type@);
                }
                let entry = OccurrenceCount {
                    name: class.name.clone(),
                    schedule_type: class.schedule_type.clone(),
                    count: class.date_ranges.len(),
                };
                r.insert(at, entry);
                assert(r@ == prev.insert(at as int, entry));
                assert forall|j: int| 0 <= j < r.len() implies #[trigger] r[j].count == count_meetings(classes@.take(k + 1), r[j].name@, r[j].schedule_type@) by {
                    if j < at {
                        assert(r[j] == prev[j]);
                    } else if j > at {
                        assert(r[j] == prev[j - 1]);
                    }
                }
                assert forall|a: int, b: int| 0 <= a < b < r.len() implies !(r[a].name@ == r[b].name@ && r[a].schedule_type@ == r[b].schedule_type@) by {
                    if a < at && b < at {
                        assert(r[a] == prev[a] && r[b] == prev[b]);
                    } else if a < at && b == at {
                        assert(r[a] == prev[a]);
                    } else if a < at {
                        assert(r[a] == prev[a] && r[b] == prev[b - 1]);
                    } else if a == at {
                        assert(r[b] == prev[b - 1]);
                    } else {
                        assert(r[a] == prev[a - 1] && r[b] == prev[b - 1]);
                    }
                }
                assert forall|a: int, b: int| 0 <= a < b < r.len() implies text_le(#[trigger] r[a].name@, #[trigger] r[b].name@) by {
                    if a < at && b < at {
                        assert(r[a] == prev[a] && r[b] == prev[b]);
                    } else if a < at && b == at {
                        assert(r[a] == prev[a]);
                    } else if a < at {
                        assert(r[a] == prev[a] && r[b] == prev[b - 1]);
                        lemma_text_le_trans(prev[a].name@, class.name@, prev[b - 1].name@, 0);
                    } else if a == at {
                        assert(r[b] == prev[b - 1]);
                    } else {
                        assert(r[a] == prev[a - 1] && r[b] == prev[b - 1]);
                    }
                }
                assert forall|k2: int| 0 <= k2 < k + 1 implies has_summary(r@, #[trigger] classes[k2].name@, classes[k2].schedule_type@) by {
                    if k2 < k {
                        let i = choose|i: int| 0 <= i < prev.len() && #[trigger] prev[i].name@ == classes[k2].name@
                            && prev[i].schedule_type@ == classes[k2].schedule_type@;
                        if i < at {
                            assert(r[i] == prev[i]);
                        } else {
                            assert(r[i + 1] == prev[i]);
                        }
                    } else {
                        assert(r[at as int].name@ == classes[k2].name@);
                    }
                }
            },
        }
        k = k + 1;
    }
    assert(classes@.take(k as int) =~= classes@);
    r
}

proof fn lemma_absent_count(classes: Seq<ClassRecord>, name: Seq<char>, ty: Seq<char>)
    requires
        forall|k: int| 0 <= k < classes.len() ==> !(#[trigger] classes[k].name@ == name && classes[k].schedule_type@ == ty),
    ensures
        count_meetings(classes, name, ty) == 0,
    decreases classes.len(),
{
    if classes.len() > 0 {
        assert forall|k: int| 0 <= k < classes.drop_last().len() implies !(#[trigger] classes.drop_last()[k].name@ == name
            && classes.drop_last()[k].schedule_type@ == ty) by {
            assert(classes.drop_last()[k] == classes[k]);
        }
        lemma_absent_count(classes.drop_last(), name, ty);
    }
}

/// The result of a conversion: the classes read, the excluded dates, and one
/// document per schedule type.
pub struct Conversion {
    pub classes: Vec<ClassRecord>,
    pub excluded: Vec<Date>,
    pub documents: Vec<CalendarDocument>,
}

/// Reads the pasted schedule `data` and builds its calendar documents, skipping
/// the dates that `entries` name.
pub fn convert(parser: &Parser, data: &str, entries: &Vec<ExcludedDate>) -> (r: Result<Conversion, ParseError>)
    requires
        forall|k: int| 0 <= k < entries.len() ==> #[trigger] entries[k].wf(),
    ensures
        !patterns_compile(*parser) <==> (r matches Err(e) && e is InvalidPattern),
        patterns_compile(*parser) && !has_marker(data@) ==> r == Err::<Conversion, ParseError>(ParseError::DialectNotRecognized),
        patterns_compile(*parser) && has_marker(data@) && !preface_follows_marker(lines_of(data@))
            ==> r == Err::<Conversion, ParseError>(ParseError::PrefaceNotFound),
        first_invalid(*parser) matches Some(n) ==> r == Err::<Conversion, ParseError>(ParseError::InvalidPattern { pattern: n }),
        patterns_compile(*parser) && (exists|cs: Seq<ClassRecord>| #[trigger] parsed_blocks(cs, lines_of(data@), *parser))
            ==> r is Ok,
        r matches Err(e) ==> parse_error_truthful(e, lines_of(data@), *parser),
        r matches Ok(c) ==> {
            let classes = c.classes@;
            let docs = c.documents@;
            &&& parsed_blocks(classes, lines_of(data@), *parser)
            &&& forall|i: int| 0 <= i < c.excluded.len() ==> #[trigger] c.excluded[i].wf() && excluded(entries@, c.excluded[i].days as int)
            &&& forall|day: int| excluded(entries@, day) ==> has_day(c.excluded@, day)
            &&& forall|i: int, j: int| 0 <= i < j < c.excluded.len() ==> c.excluded[i] != c.excluded[j]
            &&& forall|i: int, j: int| 0 <= i < j < docs.len() ==> docs[i].schedule_type@ != docs[j].schedule_type@
            &&& forall|i: int| 0 <= i < docs.len() ==> has_type(classes, #[trigger] docs[i].schedule_type@)
            &&& forall|k: int| 0 <= k < classes.len() ==> has_document(docs, #[trigger] classes[k].schedule_type@)
            &&& forall|i: int| 0 <= i < docs.len() ==> #[trigger] docs[i].events.len() == meeting_pairs(classes, docs[i].schedule_type@).len()
            &&& forall|i: int, e: int| 0 <= i < docs.len() && 0 <= e < docs[i].events.len() ==>
                    is_event_for(#[trigger] docs[i].events[e]@, meeting_pairs(classes, docs[i].schedule_type@)[e], c.excluded@)
        },
{
    let classes = parser.parse_data(data)?;
    let dates = expand_excluded(entries);
    let documents = build_calendars(&classes, &dates);
    Ok(Conversion { classes, excluded: dates, documents })
}

/// The event of a meeting starts and ends on its first occurrence: the first day
/// on or after the start date that falls on the meeting's weekday, at most six days
/// later, written with the meeting's start and end times in the fixed time zone.
pub proof fn lemma_event_anchored(c: ClassRecord, m: MeetingRange, excluded: Seq<Date>, uid: Seq<char>, dtstamp: Seq<char>)
    requires
        m.wf(),
    ensures
        exists|first: int, head: Seq<char>, tail: Seq<char>| {
            &&& m.start_date.days <= first <= m.start_date.days + 6
            &&& first % 7 == m.weekday
            &&& first == spec_first_occurrence(m.start_date, m.weekday as int)
            &&& #[trigger] event_text(c, m, excluded, uid, dtstamp) == head + EV_START@ + stamp_text(first, m.start_time.secs as int)
                + EV_END@ + stamp_text(first, m.end_time.secs as int) + tail
        },
{
    lemma_first_occurrence_in_week(m.start_date, m.weekday as int);
    let first = spec_first_occurrence(m.start_date, m.weekday as int);
    let head = EV_BEGIN@ + dtstamp + EV_UID@ + uid;
    let tail = EV_RULE@ + stamp_text(m.end_date.days as int, LAST_SECOND as int)
        + EV_EXDATE@ + exdate_list(excluded, m.start_time)
        + EV_SUMMARY@ + c.name@
        + EV_CAMPUS@ + m.location@ + EV_CODE@ + c.code@ + EV_BREAK@ + c.crn@ + EV_BREAK@ + c.instructor@
        + EV_LOCATION@ + m.building@ + EV_ROOM@ + m.room@
        + EV_END_EVENT@;
    assert(event_text(c, m, excluded, uid, dtstamp) =~= head + EV_START@ + stamp_text(first, m.start_time.secs as int)
        + EV_END@ + stamp_text(first, m.end_time.secs as int) + tail);
}

/// A class with one meeting gives exactly one event, which recurs weekly until the
/// last second of the meeting's end date.
pub proof fn lemma_single_meeting_event(classes: Seq<ClassRecord>, excluded: Seq<Date>, ev: Seq<char>)
    requires
        classes.len() == 1,
        classes[0].date_ranges.len() == 1,
    ensures
        meeting_pairs(classes, classes[0].schedule_type@) == seq![(classes[0], classes[0].date_ranges[0])],
        is_event_for(ev, (classes[0], classes[0].date_ranges[0]), excluded) ==> exists|head: Seq<char>, tail: Seq<char>|
            ev == head + EV_RULE@ + stamp_text(classes[0].date_ranges[0].end_date.days as int, LAST_SECOND as int) + tail,
{
    let c = classes[0];
    let m = c.date_ranges[0];
    assert(classes.drop_last() =~= Seq::<ClassRecord>::empty());
    assert(classes.last() == c);
    assert(meeting_pairs(classes.drop_last(), c.schedule_type@) =~= Seq::<(ClassRecord, MeetingRange)>::empty());
    assert(meeting_pairs(classes, c.schedule_type@) =~= seq![(c, m)]);
    if is_event_for(ev, (c, m), excluded) {
        let (uid, dtstamp) = choose|uid: Seq<char>, dtstamp: Seq<char>| ev == #[trigger] event_text(c, m, excluded, uid, dtstamp);
        let first = spec_first_occurrence(m.start_date, m.weekday as int);
        let head = EV_BEGIN@ + dtstamp + EV_UID@ + uid
            + EV_START@ + stamp_text(first, m.start_time.secs as int)
            + EV_END@ + stamp_text(first, m.end_time.secs as int);
        let tail = EV_EXDATE@ + exdate_list(excluded, m.start_time)
            + EV_SUMMARY@ + c.name@
            + EV_CAMPUS@ + m.location@ + EV_CODE@ + c.code@ + EV_BREAK@ + c.crn@ + EV_BREAK@ + c.instructor@
            + EV_LOCATION@ + m.building@ + EV_ROOM@ + m.room@
            + EV_END_EVENT@;
        assert(ev =~= head + EV_RULE@ + stamp_text(m.end_date.days as int, LAST_SECOND as int) + tail);
    }
}

} // verus!
