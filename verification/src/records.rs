//! The records in which the logs of a failed task are sent, each bounded in its serialized length.

use vstd::prelude::*;
use sentry::protocol::Log;
use sentry::protocol::LogLevel::{
    Debug as WireDebug, Error as WireError, Fatal as WireFatal, Info as WireInfo, Warn as WireWarn,
};
use std::time::{Duration, UNIX_EPOCH};
use crate::event::Datum::{Flag, Integer, Natural, Text};
use crate::event::{shortened, Datum, DatumView, Event, FailureEvent};
use crate::logs::{DiagnosticLog, DiagnosticLogs, LogText, log_texts};
use crate::text::{
    contains, decimal, format_hex, from_chars, has_part, hex, raised, same_text, signed_decimal,
    to_chars, upper_chars, views,
};
use crate::time::Timestamp;

verus! {

/// A record is not longer than this when it is serialized.
///
/// A full batch of records then stays below what the receiver accepts, with room for what is added
/// to each of them on the way.
pub const MAX_SERIALIZED_DIAGNOSTIC_LOG_BYTES: usize = 7168;

/// An attribute does not have more characters than this.
pub const MAX_DIAGNOSTIC_LOG_ATTRIBUTE_CHARACTERS: usize = 200;

/// Every clock can tell times up to this many seconds after the Unix epoch.
pub const MAX_TIMESTAMP_SECS: i64 = 900_000_000_000;

/// How severe a record is.
#[derive(Clone, Copy, PartialEq, Eq, Structural, Debug)]
pub enum LogLevel {
    Debug,
    Info,
    Warn,
    Error,
    Fatal,
}

/// One record.
#[derive(Debug)]
pub struct LogRecord {
    pub level: LogLevel,
    pub body: String,
    pub trace_id: Option<[u8; 16]>,
    pub timestamp: Timestamp,
    pub attributes: Vec<(String, Datum)>,
}

/// The content of one record.
#[verifier::ext_equal]
pub struct Record {
    pub level: LogLevel,
    pub body: Seq<char>,
    pub trace_id: Option<[u8; 16]>,
    pub timestamp: Timestamp,
    pub attributes: Seq<(Seq<char>, DatumView)>,
}

/// The content of attributes.
pub open spec fn attribute_views(attributes: Seq<(String, Datum)>) -> Seq<(Seq<char>, DatumView)> {
    attributes.map_values(|attribute: (String, Datum)| (attribute.0@, attribute.1@))
}

impl View for LogRecord {
    type V = Record;

    open spec fn view(&self) -> Record {
        Record {
            level: self.level,
            body: self.body@,
            trace_id: self.trace_id,
            timestamp: self.timestamp,
            attributes: attribute_views(self.attributes@),
        }
    }
}

pub open spec fn record_views(records: Seq<LogRecord>) -> Seq<Record> {
    records.map_values(|record: LogRecord| record@)
}

/// How many bytes a character takes in a JSON text.
pub open spec fn json_width(character: char) -> nat {
    let code = character as u32;
    if character == '"' || character == '\\' || code == 8 || code == 9 || code == 10 || code == 12
        || code == 13 {
        2
    } else if code < 0x20 {
        6
    } else if code < 0x80 {
        1
    } else if code < 0x800 {
        2
    } else if code < 0x10000 {
        3
    } else {
        4
    }
}

/// How many bytes some characters take in a JSON text.
pub open spec fn json_len(text: Seq<char>) -> nat
    decreases text.len(),
{
    if text.len() == 0 {
        0
    } else {
        json_len(text.drop_last()) + json_width(text.last())
    }
}

/// How many bytes the value of an attribute takes, with the name of its type.
///
/// A number that is too large for a signed integer is written as a text.
pub open spec fn datum_len(value: DatumView) -> nat {
    match value {
        DatumView::Text(text) => 2 + json_len(text) + 6,
        DatumView::Integer(number) => signed_decimal(number as int).len() + 7,
        DatumView::Natural(number) => if number <= i64::MAX {
            decimal(number as nat).len() + 7
        } else {
            2 + decimal(number as nat).len() + 6
        },
        DatumView::Flag(flag) => if flag {
            4 + 7
        } else {
            5 + 7
        },
    }
}

/// How many bytes one attribute takes: `"key":{"value":…,"type":"…"}`.
pub open spec fn attribute_len(key: Seq<char>, value: DatumView) -> nat {
    2 + json_len(key) + 1 + 9 + datum_len(value) + 9 + 2
}

/// How many bytes some attributes take, with a comma behind each.
pub open spec fn attributes_len(attributes: Seq<(Seq<char>, DatumView)>) -> nat
    decreases attributes.len(),
{
    if attributes.len() == 0 {
        0
    } else {
        attributes_len(attributes.drop_last()) + attribute_len(
            attributes.last().0,
            attributes.last().1,
        ) + 1
    }
}

/// How many bytes the name of a level takes.
pub open spec fn level_len(level: LogLevel) -> nat {
    match level {
        LogLevel::Debug => 5,
        LogLevel::Info => 4,
        LogLevel::Warn => 4,
        LogLevel::Error => 5,
        LogLevel::Fatal => 5,
    }
}

/// How many bytes `serde_json` writes for a point in time, which is a number of seconds with as many
/// digits as the clock of the target keeps.
pub uninterp spec fn timestamp_len(secs: i64, nanos: u32) -> nat;

/// How many bytes a record takes besides its body and its point in time.
///
/// `{"level":"…","body":"…","trace_id":"…","timestamp":…,"attributes":{…}}`, where the trace and the
/// attributes are left out when there are none.
pub open spec fn frame_len(
    level: LogLevel,
    trace_id: Option<[u8; 16]>,
    attributes: Seq<(Seq<char>, DatumView)>,
) -> nat {
    10 + level_len(level) + 10 + 1 + (if trace_id is Some {
        46nat
    } else {
        0
    }) + 13 + (if attributes.len() == 0 {
        0
    } else {
        (15 + attributes_len(attributes)) as nat
    }) + 1
}

/// How many bytes a record takes.
pub open spec fn record_len(record: Record) -> nat {
    frame_len(record.level, record.trace_id, record.attributes) + timestamp_len(
        record.timestamp.secs,
        record.timestamp.nanos,
    ) + json_len(record.body)
}

/// No key occurs twice.
pub open spec fn distinct_keys(attributes: Seq<(Seq<char>, DatumView)>) -> bool {
    forall|i: int, j: int|
        0 <= i < j < attributes.len() ==> (#[trigger] attributes[i]).0 != (
        #[trigger] attributes[j]).0
}

/// A point in time that every clock can tell, not before the Unix epoch.
pub open spec fn is_tellable(timestamp: Timestamp) -> bool {
    timestamp.wf() && 0 <= timestamp.secs <= MAX_TIMESTAMP_SECS
}

/// `serde_json::to_vec` on a `Log`: the number of bytes that it writes.
///
/// The record is an object of its fields, in which each attribute is an object of its value and the
/// name of its type. Characters are escaped as JSON asks for, and no others. A point in time takes
/// at most 24 bytes.
#[verifier::external_body]
fn serialized_len(
    level: LogLevel,
    body: &str,
    attributes: &Vec<(String, Datum)>,
    trace_id: Option<[u8; 16]>,
    timestamp: Timestamp,
) -> (len: usize)
    requires
        is_tellable(timestamp),
        distinct_keys(attribute_views(attributes@)),
    ensures
        len == frame_len(level, trace_id, attribute_views(attributes@)) + timestamp_len(
            timestamp.secs,
            timestamp.nanos,
        ) + json_len(body@),
        len <= frame_len(level, trace_id, attribute_views(attributes@)) + 24 + json_len(body@),
{
    let level = match level {
        LogLevel::Debug => WireDebug,
        LogLevel::Info => WireInfo,
        LogLevel::Warn => WireWarn,
        LogLevel::Error => WireError,
        LogLevel::Fatal => WireFatal,
    };
    let attributes = attributes.iter().map(|(key, value)| (key.clone(), match value {
        Text(text) => text.as_str().into(),
        Integer(number) => (*number).into(),
        Natural(number) => (*number).into(), Flag(flag) => (*flag).into(),
    })).collect();
    let timestamp = UNIX_EPOCH + Duration::new(timestamp.secs as u64, timestamp.nanos);
    serde_json::to_vec(&Log { level, body: body.into(), trace_id: trace_id.map(From::from),
        timestamp, severity_number: None, attributes }).unwrap().len()
}

/// Whether a record with the given body is not too long, whatever its level is.
///
/// It is measured with one of the longest names of a level.
pub fn diagnostic_log_fits(
    body: &str,
    attributes: &Vec<(String, Datum)>,
    trace_id: Option<[u8; 16]>,
    timestamp: Timestamp,
) -> (fits: bool)
    requires
        is_tellable(timestamp),
        distinct_keys(attribute_views(attributes@)),
    ensures
        fits == (json_len(body@) <= room_for_body(
            attribute_views(attributes@),
            trace_id,
            timestamp,
        )),
        room_for_body(attribute_views(attributes@), trace_id, timestamp)
            >= MAX_SERIALIZED_DIAGNOSTIC_LOG_BYTES - frame_len(
            LogLevel::Fatal,
            trace_id,
            attribute_views(attributes@),
        ) - 24,
{
    serialized_len(LogLevel::Fatal, body, attributes, trace_id, timestamp)
        <= MAX_SERIALIZED_DIAGNOSTIC_LOG_BYTES
}

/// How many bytes the body of a record may take.
pub open spec fn room_for_body(
    attributes: Seq<(Seq<char>, DatumView)>,
    trace_id: Option<[u8; 16]>,
    timestamp: Timestamp,
) -> int {
    MAX_SERIALIZED_DIAGNOSTIC_LOG_BYTES - frame_len(LogLevel::Fatal, trace_id, attributes)
        - timestamp_len(timestamp.secs, timestamp.nanos)
}

/// How many characters from the start of a text fit into the given number of bytes.
pub open spec fn fitting(text: Seq<char>, room: int) -> nat
    decreases text.len(),
{
    if text.len() == 0 || json_width(text[0]) > room {
        0
    } else {
        1 + fitting(text.skip(1), room - json_width(text[0]))
    }
}

/// A text cut into pieces, each as long as fits into the given number of bytes.
pub open spec fn pieces(text: Seq<char>, room: int) -> Seq<Seq<char>>
    decreases text.len(),
{
    let len = fitting(text, room);
    if text.len() == 0 || len == 0 || len > text.len() {
        seq![]
    } else {
        seq![text.take(len as int)] + pieces(text.skip(len as int), room)
    }
}

/// Every character fits into the given number of bytes.
pub open spec fn each_fits(text: Seq<char>, room: int) -> bool {
    forall|i: int| 0 <= i < text.len() ==> json_width(#[trigger] text[i]) <= room
}

proof fn lemma_json_len_first(text: Seq<char>)
    requires
        text.len() > 0,
    ensures
        json_len(text) == json_width(text[0]) + json_len(text.skip(1)),
    decreases text.len(),
{
    if text.len() == 1 {
        assert(text.skip(1) =~= seq![]);
        assert(text.drop_last() =~= seq![]);
    } else {
        let front = text.drop_last();
        lemma_json_len_first(front);
        assert(front.skip(1) =~= text.skip(1).drop_last());
        assert(text.skip(1).last() == text.last());
    }
}

proof fn lemma_json_len_grows(text: Seq<char>, short: int, long: int)
    requires
        0 <= short <= long <= text.len(),
    ensures
        json_len(text.take(short)) + (long - short) <= json_len(text.take(long)),
    decreases long,
{
    if short < long {
        let part = text.take(long);
        assert(part.drop_last() =~= text.take(long - 1));
        lemma_json_len_grows(text, short, long - 1);
    } else {
        assert(text.take(short) =~= text.take(long));
    }
}

/// What fits is the longest start whose length is not too large.
proof fn lemma_fitting(text: Seq<char>, room: int)
    requires
        room >= 0,
    ensures
        fitting(text, room) <= text.len(),
        json_len(text.take(fitting(text, room) as int)) <= room,
        fitting(text, room) < text.len() ==> json_len(
            text.take(fitting(text, room) as int + 1),
        ) > room,
    decreases text.len(),
{
    if text.len() == 0 {
        assert(text.take(0) =~= seq![]);
    } else if json_width(text[0]) > room {
        assert(text.take(0) =~= seq![]);
        lemma_json_len_first(text.take(1));
        assert(text.take(1)[0] == text[0]);
    } else {
        let rest = text.skip(1);
        let left = room - json_width(text[0]);
        lemma_fitting(rest, left);
        let count = fitting(rest, left) as int;
        let part = text.take(count + 1);
        lemma_json_len_first(part);
        assert(part.skip(1) =~= rest.take(count));
        if count < rest.len() {
            let longer = text.take(count + 2);
            lemma_json_len_first(longer);
            assert(longer.skip(1) =~= rest.take(count + 1));
        }
    }
}

proof fn lemma_fitting_is(text: Seq<char>, room: int, count: int)
    requires
        room >= 0,
        0 <= count <= text.len(),
        json_len(text.take(count)) <= room,
        count < text.len() ==> json_len(text.take(count + 1)) > room,
    ensures
        fitting(text, room) == count,
{
    lemma_fitting(text, room);
    let found = fitting(text, room) as int;
    if found < count {
        lemma_json_len_grows(text, found + 1, count);
    } else if count < found {
        lemma_json_len_grows(text, count + 1, found);
    }
}

/// The number of characters from `start` on that fit into one record.
fn fitting_from(
    chars: &Vec<char>,
    start: usize,
    attributes: &Vec<(String, Datum)>,
    trace_id: Option<[u8; 16]>,
    timestamp: Timestamp,
) -> (end: usize)
    requires
        is_tellable(timestamp),
        distinct_keys(attribute_views(attributes@)),
        start < chars@.len(),
        room_for_body(attribute_views(attributes@), trace_id, timestamp) >= 0,
    ensures
        start <= end <= chars@.len(),
        end - start == fitting(
            chars@.skip(start as int),
            room_for_body(attribute_views(attributes@), trace_id, timestamp),
        ),
{
    let ghost room = room_for_body(attribute_views(attributes@), trace_id, timestamp);
    let ghost text = chars@.skip(start as int);
    let limit: usize = if chars.len() - start <= MAX_SERIALIZED_DIAGNOSTIC_LOG_BYTES {
        chars.len()
    } else {
        start + MAX_SERIALIZED_DIAGNOSTIC_LOG_BYTES
    };
    let mut low: usize = start;
    let mut high: usize = limit;
    proof {
        assert(text.take(0) =~= seq![]);
        if limit < chars@.len() {
            lemma_json_len_grows(text, 0, limit - start + 1);
        }
    }
    while low < high
        invariant
            start <= low <= high <= limit <= chars@.len(),
            text == chars@.skip(start as int),
            room == room_for_body(attribute_views(attributes@), trace_id, timestamp),
            is_tellable(timestamp),
            distinct_keys(attribute_views(attributes@)),
            json_len(text.take(low - start)) <= room,
            high < chars@.len() ==> json_len(text.take(high - start + 1)) > room,
        decreases high - low,
    {
        let middle: usize = low + (high - low) / 2 + 1;
        let body = from_chars(chars, start, middle);
        assert(body@ =~= text.take(middle - start));
        if diagnostic_log_fits(body.as_str(), attributes, trace_id, timestamp) {
            low = middle;
        } else {
            high = middle - 1;
        }
    }
    proof {
        lemma_fitting_is(text, room, low - start);
    }
    low
}

/// Cuts a text into the bodies of records that are not too long.
///
/// The attributes leave room for every character of the text.
pub fn serialized_log_chunks(
    value: &str,
    attributes: &Vec<(String, Datum)>,
    trace_id: Option<[u8; 16]>,
    timestamp: Timestamp,
) -> (chunks: Vec<String>)
    requires
        is_tellable(timestamp),
        distinct_keys(attribute_views(attributes@)),
        each_fits(value@, room_for_body(attribute_views(attributes@), trace_id, timestamp)),
    ensures
        views(chunks@) == pieces(
            value@,
            room_for_body(attribute_views(attributes@), trace_id, timestamp),
        ),
{
    let ghost room = room_for_body(attribute_views(attributes@), trace_id, timestamp);
    let chars = to_chars(value);
    let mut chunks: Vec<String> = Vec::new();
    let mut start: usize = 0;
    proof {
        assert(value@.skip(0) =~= value@);
        assert(views(chunks@) + pieces(value@.skip(0), room) =~= pieces(value@, room));
    }
    while start < chars.len()
        invariant
            start <= chars@.len(),
            chars@ == value@,
            room == room_for_body(attribute_views(attributes@), trace_id, timestamp),
            is_tellable(timestamp),
            distinct_keys(attribute_views(attributes@)),
            each_fits(value@, room),
            views(chunks@) + pieces(value@.skip(start as int), room) == pieces(value@, room),
        decreases chars@.len() - start,
    {
        let ghost rest = value@.skip(start as int);
        let ghost before = chunks@;
        assert(json_width(value@[start as int]) <= room);
        let end: usize = fitting_from(&chars, start, attributes, trace_id, timestamp);
        proof {
            assert(rest[0] == value@[start as int]);
            assert(fitting(rest, room) >= 1);
        }
        let chunk = from_chars(&chars, start, end);
        proof {
            let len = end - start;
            assert(chunk@ =~= rest.take(len));
            assert(rest.skip(len) =~= value@.skip(end as int));
            assert(pieces(rest, room) == seq![rest.take(len)] + pieces(rest.skip(len), room));
        }
        chunks.push(chunk);
        proof {
            assert(views(chunks@) =~= views(before).push(chunk@));
            assert(views(before) + (seq![chunk@] + pieces(value@.skip(end as int), room))
                =~= views(before).push(chunk@) + pieces(value@.skip(end as int), room));
        }
        start = end;
    }
    proof {
        assert(value@.skip(start as int) =~= seq![]);
        assert(views(chunks@) + pieces(value@.skip(start as int), room) =~= views(
            chunks@,
        ));
    }
    chunks
}

/// A character that controls a device and has no form of its own.
pub open spec fn is_control(character: char) -> bool {
    let code = character as u32;
    code < 0x20 || 0x7f <= code < 0xa0
}

/// The value as an attribute: bounded, and without control characters.
pub open spec fn bounded(value: Seq<char>) -> Seq<char> {
    shortened(
        value.map_values(
            |character: char|
                if is_control(character) {
                    '\u{fffd}'
                } else {
                    character
                },
        ),
        MAX_DIAGNOSTIC_LOG_ATTRIBUTE_CHARACTERS as nat,
    )
}

/// The value as an attribute: bounded, and without control characters.
pub fn bounded_log_attribute(value: &str) -> (text: String)
    ensures
        text@ == bounded(value@),
{
    let chars = to_chars(value);
    let ghost mapped = value@.map_values(
        |character: char|
            if is_control(character) {
                '\u{fffd}'
            } else {
                character
            },
    );
    let end: usize = if chars.len() <= MAX_DIAGNOSTIC_LOG_ATTRIBUTE_CHARACTERS {
        chars.len()
    } else {
        MAX_DIAGNOSTIC_LOG_ATTRIBUTE_CHARACTERS
    };
    let mut text = String::new();
    let mut index: usize = 0;
    while index < end
        invariant
            index <= end <= chars@.len(),
            chars@ == value@,
            mapped == value@.map_values(
                |character: char|
                    if is_control(character) {
                        '\u{fffd}'
                    } else {
                        character
                    },
            ),
            text@ == mapped.take(index as int),
        decreases end - index,
    {
        let character = chars[index];
        let code: u32 = character as u32;
        if code < 0x20 || (0x7f <= code && code < 0xa0) {
            text.push('\u{fffd}');
        } else {
            text.push(character);
        }
        assert(text@ =~= mapped.take(index + 1));
        index += 1;
    }
    assert(text@ =~= bounded(value@));
    text
}

/// The level of a record, told by the marks that its body holds.
pub open spec fn level_of(content: Seq<char>) -> LogLevel {
    let upper = raised(content);
    if contains(upper, "[FTL]"@) || contains(upper, "[FATAL]"@) {
        LogLevel::Fatal
    } else if contains(upper, "[ERR]"@) || contains(upper, "[ERROR]"@) {
        LogLevel::Error
    } else if contains(upper, "[WRN]"@) || contains(upper, "[WARN]"@) {
        LogLevel::Warn
    } else if contains(upper, "[DBG]"@) || contains(upper, "[DEBUG]"@) {
        LogLevel::Debug
    } else {
        LogLevel::Info
    }
}

/// The level of a record, told by the marks that its body holds.
pub fn diagnostic_log_level(content: &str) -> (level: LogLevel)
    ensures
        level == level_of(content@),
{
    let upper = upper_chars(content);
    if has_part(&upper, "[FTL]") || has_part(&upper, "[FATAL]") {
        LogLevel::Fatal
    } else if has_part(&upper, "[ERR]") || has_part(&upper, "[ERROR]") {
        LogLevel::Error
    } else if has_part(&upper, "[WRN]") || has_part(&upper, "[WARN]") {
        LogLevel::Warn
    } else if has_part(&upper, "[DBG]") || has_part(&upper, "[DEBUG]") {
        LogLevel::Debug
    } else {
        LogLevel::Info
    }
}

/// What a record is linked to: the event, the run, the task, and the node and stage that failed.
#[derive(Clone, Copy, Debug)]
pub struct DiagnosticLogContext<'a> {
    pub event_id: &'a str,
    pub run_id: &'a str,
    pub maa_task_id: i64,
    pub task_name: &'a str,
    pub failure_node: &'a str,
    pub failure_stage: &'a str,
    pub trace_id: Option<[u8; 16]>,
    pub span_id: Option<[u8; 8]>,
}

/// The content of what a record is linked to.
#[verifier::ext_equal]
pub struct Links {
    pub event_id: Seq<char>,
    pub run_id: Seq<char>,
    pub maa_task_id: i64,
    pub task_name: Seq<char>,
    pub failure_node: Seq<char>,
    pub failure_stage: Seq<char>,
    pub trace_id: Option<[u8; 16]>,
    pub span_id: Option<[u8; 8]>,
}

impl<'a> View for DiagnosticLogContext<'a> {
    type V = Links;

    open spec fn view(&self) -> Links {
        Links {
            event_id: self.event_id@,
            run_id: self.run_id@,
            maa_task_id: self.maa_task_id,
            task_name: self.task_name@,
            failure_node: self.failure_node@,
            failure_stage: self.failure_stage@,
            trace_id: self.trace_id,
            span_id: self.span_id,
        }
    }
}

/// An attribute that is a text, bounded.
pub open spec fn bounded_attribute(key: Seq<char>, value: Seq<char>) -> (Seq<char>, DatumView) {
    (key, DatumView::Text(bounded(value)))
}

/// What the records of the logs of an event are linked to.
pub open spec fn links_of<T>(
    event: Event<T>,
    run_id: Seq<char>,
    maa_task_id: i64,
    event_id: Seq<char>,
) -> Links {
    Links {
        event_id,
        run_id,
        maa_task_id,
        task_name: event.task_name,
        failure_node: event.failure_node,
        failure_stage: event.failure_stage,
        trace_id: match event.trace {
            Some(trace) => Some(trace.trace_id),
            None => None,
        },
        span_id: match event.trace {
            Some(trace) => Some(trace.span_id),
            None => None,
        },
    }
}

/// Links the records of logs to the event that they belong to.
pub fn log_context<'a, T>(
    event: &'a FailureEvent<T>,
    run_id: &'a str,
    maa_task_id: i64,
    event_id: &'a str,
) -> (context: DiagnosticLogContext<'a>)
    ensures
        context@ == links_of(event@, run_id@, maa_task_id, event_id@),
{
    let (trace_id, span_id) = match &event.trace {
        Some(trace) => (Some(trace.trace_id), Some(trace.span_id)),
        None => (None, None),
    };
    DiagnosticLogContext {
        event_id,
        run_id,
        maa_task_id,
        task_name: event.task_name.as_str(),
        failure_node: event.failure_node.as_str(),
        failure_stage: event.failure_stage.as_str(),
        trace_id,
        span_id,
    }
}

/// Some attribute was changed when it was bounded.
pub open spec fn any_changed(source: LogText, links: Links) -> bool {
    ||| bounded("task_failure"@) != "task_failure"@
    ||| bounded(source.source) != source.source
    ||| bounded(source.kind) != source.kind
    ||| bounded(links.event_id) != links.event_id
    ||| bounded(links.run_id) != links.run_id
    ||| bounded(links.task_name) != links.task_name
    ||| bounded(links.failure_node) != links.failure_node
    ||| bounded(links.failure_stage) != links.failure_stage
}

/// The attributes that every record has.
pub open spec fn common_attributes(source: LogText, links: Links, index: u64, count: u64) -> Seq<
    (Seq<char>, DatumView),
> {
    seq![
        bounded_attribute("diagnostic.reason"@, "task_failure"@),
        bounded_attribute("diagnostic.source"@, source.source),
        bounded_attribute("diagnostic.kind"@, source.kind),
        bounded_attribute("sentry.event_id"@, links.event_id),
        bounded_attribute("run.id"@, links.run_id),
        bounded_attribute("task.name"@, links.task_name),
        bounded_attribute("failure.node"@, links.failure_node),
        bounded_attribute("failure.stage"@, links.failure_stage),
        ("task.id"@, DatumView::Integer(links.maa_task_id)),
        ("log.raw_bytes"@, DatumView::Natural(source.raw_bytes)),
        ("log.chunk_index"@, DatumView::Natural(index)),
        ("log.chunk_count"@, DatumView::Natural(count)),
    ]
}

/// The attributes of a record, which is one of `count` and the one at `index`.
pub open spec fn attributes_of(source: LogText, links: Links, index: u64, count: u64) -> Seq<
    (Seq<char>, DatumView),
> {
    let attributes = common_attributes(source, links, index, count);
    let attributes = if any_changed(source, links) {
        attributes.push(("diagnostic.attributes_truncated"@, DatumView::Flag(true)))
    } else {
        attributes
    };
    let attributes = match links.trace_id {
        Some(trace_id) => attributes.push(("trace.id"@, DatumView::Text(hex(trace_id@)))),
        None => attributes,
    };
    match links.span_id {
        Some(span_id) => attributes.push(("span.id"@, DatumView::Text(hex(span_id@)))),
        None => attributes,
    }
}

/// How many bytes the body of a record of the given log may take.
///
/// Room is left for the widest index and count, so that the real ones fit as well.
pub open spec fn room_of(source: LogText, links: Links, timestamp: Timestamp) -> int {
    room_for_body(
        attributes_of(source, links, u64::MAX, u64::MAX),
        links.trace_id,
        timestamp,
    )
}

/// The record of the piece at `index` of a log.
pub open spec fn record_of(
    source: LogText,
    links: Links,
    timestamp: Timestamp,
    parts: Seq<Seq<char>>,
    index: int,
) -> Record {
    Record {
        level: level_of(parts[index]),
        body: parts[index],
        trace_id: links.trace_id,
        timestamp,
        attributes: attributes_of(source, links, index as u64, parts.len() as u64),
    }
}

/// The records of a log.
pub open spec fn records_of(source: LogText, links: Links, timestamp: Timestamp) -> Seq<Record> {
    let parts = pieces(source.content, room_of(source, links, timestamp));
    Seq::new(parts.len(), |index: int| record_of(source, links, timestamp, parts, index))
}

proof fn lemma_reason_key()
    ensures
        json_len("diagnostic.reason"@) == 17,
{
    reveal_strlit("diagnostic.reason");
    reveal_with_fuel(json_len, 18);
}

proof fn lemma_source_key()
    ensures
        json_len("diagnostic.source"@) == 17,
{
    reveal_strlit("diagnostic.source");
    reveal_with_fuel(json_len, 18);
}

proof fn lemma_kind_key()
    ensures
        json_len("diagnostic.kind"@) == 15,
{
    reveal_strlit("diagnostic.kind");
    reveal_with_fuel(json_len, 16);
}

proof fn lemma_event_key()
    ensures
        json_len("sentry.event_id"@) == 15,
{
    reveal_strlit("sentry.event_id");
    reveal_with_fuel(json_len, 16);
}

proof fn lemma_run_key()
    ensures
        json_len("run.id"@) == 6,
{
    reveal_strlit("run.id");
    reveal_with_fuel(json_len, 7);
}

proof fn lemma_name_key()
    ensures
        json_len("task.name"@) == 9,
{
    reveal_strlit("task.name");
    reveal_with_fuel(json_len, 10);
}

proof fn lemma_node_key()
    ensures
        json_len("failure.node"@) == 12,
{
    reveal_strlit("failure.node");
    reveal_with_fuel(json_len, 13);
}

proof fn lemma_stage_key()
    ensures
        json_len("failure.stage"@) == 13,
{
    reveal_strlit("failure.stage");
    reveal_with_fuel(json_len, 14);
}

proof fn lemma_task_key()
    ensures
        json_len("task.id"@) == 7,
{
    reveal_strlit("task.id");
    reveal_with_fuel(json_len, 8);
}

proof fn lemma_bytes_key()
    ensures
        json_len("log.raw_bytes"@) == 13,
{
    reveal_strlit("log.raw_bytes");
    reveal_with_fuel(json_len, 14);
}

proof fn lemma_index_key()
    ensures
        json_len("log.chunk_index"@) == 15,
{
    reveal_strlit("log.chunk_index");
    reveal_with_fuel(json_len, 16);
}

proof fn lemma_count_key()
    ensures
        json_len("log.chunk_count"@) == 15,
{
    reveal_strlit("log.chunk_count");
    reveal_with_fuel(json_len, 16);
}

#[verifier::rlimit(40)]
proof fn lemma_truncated_key()
    ensures
        json_len("diagnostic.attributes_truncated"@) == 31,
{
    reveal_strlit("diagnostic.attributes_truncated");
    reveal_with_fuel(json_len, 32);
}

proof fn lemma_trace_key()
    ensures
        json_len("trace.id"@) == 8,
{
    reveal_strlit("trace.id");
    reveal_with_fuel(json_len, 9);
}

proof fn lemma_span_key()
    ensures
        json_len("span.id"@) == 7,
{
    reveal_strlit("span.id");
    reveal_with_fuel(json_len, 8);
}

pub(crate) proof fn lemma_common_keys(source: LogText, links: Links, index: u64, count: u64)
    ensures
        distinct_keys(attributes_of(source, links, index, count)),
{
    reveal_strlit("diagnostic.reason");
    reveal_strlit("diagnostic.source");
    reveal_strlit("diagnostic.kind");
    reveal_strlit("sentry.event_id");
    reveal_strlit("run.id");
    reveal_strlit("task.name");
    reveal_strlit("failure.node");
    reveal_strlit("failure.stage");
    reveal_strlit("task.id");
    reveal_strlit("log.raw_bytes");
    reveal_strlit("log.chunk_index");
    reveal_strlit("log.chunk_count");
    reveal_strlit("diagnostic.attributes_truncated");
    reveal_strlit("trace.id");
    reveal_strlit("span.id");
    assert("diagnostic.reason"@.len() == 17);
    assert("diagnostic.source"@.len() == 17);
    assert("diagnostic.kind"@.len() == 15);
    assert("sentry.event_id"@.len() == 15);
    assert("run.id"@.len() == 6);
    assert("task.name"@.len() == 9);
    assert("failure.node"@.len() == 12);
    assert("failure.stage"@.len() == 13);
    assert("task.id"@.len() == 7);
    assert("log.raw_bytes"@.len() == 13);
    assert("log.chunk_index"@.len() == 15);
    assert("log.chunk_count"@.len() == 15);
    assert("diagnostic.attributes_truncated"@.len() == 31);
    assert("trace.id"@.len() == 8);
    assert("span.id"@.len() == 7);
    assert("diagnostic.reason"@[11] == 'r' && "diagnostic.source"@[11] == 's');
    assert("diagnostic.kind"@[0] == 'd' && "sentry.event_id"@[0] == 's' && "log.chunk_index"@[0]
        == 'l' && "log.chunk_count"@[0] == 'l');
    assert("log.chunk_index"@[10] == 'i' && "log.chunk_count"@[10] == 'c');
    assert("failure.stage"@[0] == 'f' && "log.raw_bytes"@[0] == 'l');
    assert("task.id"@[0] == 't' && "span.id"@[0] == 's');
    let attributes = attributes_of(source, links, index, count);
    assert forall|i: int, j: int| 0 <= i < j < attributes.len() implies (
    #[trigger] attributes[i]).0 != (#[trigger] attributes[j]).0 by {}
}

proof fn lemma_json_len_bound(text: Seq<char>, width: nat)
    requires
        forall|i: int| 0 <= i < text.len() ==> json_width(#[trigger] text[i]) <= width,
    ensures
        json_len(text) <= width * text.len(),
    decreases text.len(),
{
    if text.len() > 0 {
        let front = text.drop_last();
        assert forall|i: int| 0 <= i < front.len() implies json_width(#[trigger] front[i])
            <= width by {
            assert(json_width(text[i]) <= width);
        }
        lemma_json_len_bound(front, width);
        assert(json_width(text[text.len() - 1]) <= width);
        assert(width * (text.len() - 1) + width == width * text.len()) by (nonlinear_arith);
    }
}

/// A bounded text takes at most four bytes for each of its characters.
proof fn lemma_bounded_len(value: Seq<char>)
    ensures
        json_len(bounded(value)) <= 800,
{
    let text = bounded(value);
    assert forall|i: int| 0 <= i < text.len() implies json_width(#[trigger] text[i]) <= 4 by {
        assert(!is_control(value[i]) || text[i] == '\u{fffd}');
    }
    lemma_json_len_bound(text, 4);
    assert(text.len() <= 200);
}

proof fn lemma_hex_len(bytes: Seq<u8>)
    ensures
        json_len(hex(bytes)) == 2 * bytes.len(),
{
    let text = hex(bytes);
    assert forall|i: int| 0 <= i < text.len() implies json_width(#[trigger] text[i]) == 1 by {}
    lemma_json_len_bound(text, 1);
    lemma_json_len_at_least(text);
}

proof fn lemma_json_len_at_least(text: Seq<char>)
    ensures
        json_len(text) >= text.len(),
    decreases text.len(),
{
    if text.len() > 0 {
        lemma_json_len_at_least(text.drop_last());
    }
}

/// A number of 64 bits has at most twenty digits, and one that a signed integer can hold at most
/// nineteen.
proof fn lemma_number_len(value: u64)
    ensures
        1 <= decimal(value as nat).len() <= 20,
        value <= i64::MAX ==> decimal(value as nat).len() <= 19,
        decimal(u64::MAX as nat).len() == 20,
{
    reveal_with_fuel(decimal, 21);
}

/// No number takes more bytes as an attribute than the largest.
proof fn lemma_natural_len(value: u64)
    ensures
        datum_len(DatumView::Natural(value)) <= datum_len(DatumView::Natural(u64::MAX)),
        datum_len(DatumView::Natural(u64::MAX)) == 28,
{
    lemma_number_len(value);
}

proof fn lemma_integer_len(value: i64)
    ensures
        datum_len(DatumView::Integer(value)) <= 27,
{
    if value >= 0 {
        lemma_number_len(value as u64);
    } else if value > i64::MIN {
        lemma_number_len((-value) as u64);
    } else {
        assert(-(value as int) == 0x8000_0000_0000_0000int);
        reveal_with_fuel(decimal, 20);
    }
}

proof fn lemma_attributes_push(attributes: Seq<(Seq<char>, DatumView)>, key: Seq<char>, value: DatumView)
    ensures
        attributes_len(attributes.push((key, value))) == attributes_len(attributes) + attribute_len(
            key,
            value,
        ) + 1,
{
    assert(attributes.push((key, value)).drop_last() =~= attributes);
}

/// How many bytes the attributes that every record has take.
proof fn lemma_common_len(source: LogText, links: Links, index: u64, count: u64)
    ensures
        attributes_len(common_attributes(source, links, index, count)) == attribute_len(
            "diagnostic.reason"@,
            DatumView::Text(bounded("task_failure"@)),
        ) + attribute_len("diagnostic.source"@, DatumView::Text(bounded(source.source)))
            + attribute_len("diagnostic.kind"@, DatumView::Text(bounded(source.kind)))
            + attribute_len("sentry.event_id"@, DatumView::Text(bounded(links.event_id)))
            + attribute_len("run.id"@, DatumView::Text(bounded(links.run_id))) + attribute_len(
            "task.name"@,
            DatumView::Text(bounded(links.task_name)),
        ) + attribute_len("failure.node"@, DatumView::Text(bounded(links.failure_node)))
            + attribute_len("failure.stage"@, DatumView::Text(bounded(links.failure_stage)))
            + attribute_len("task.id"@, DatumView::Integer(links.maa_task_id)) + attribute_len(
            "log.raw_bytes"@,
            DatumView::Natural(source.raw_bytes),
        ) + attribute_len("log.chunk_index"@, DatumView::Natural(index)) + attribute_len(
            "log.chunk_count"@,
            DatumView::Natural(count),
        ) + 12,
{
    let empty = Seq::<(Seq<char>, DatumView)>::empty();
    let a1 = empty.push(bounded_attribute("diagnostic.reason"@, "task_failure"@));
    let a2 = a1.push(bounded_attribute("diagnostic.source"@, source.source));
    let a3 = a2.push(bounded_attribute("diagnostic.kind"@, source.kind));
    let a4 = a3.push(bounded_attribute("sentry.event_id"@, links.event_id));
    let a5 = a4.push(bounded_attribute("run.id"@, links.run_id));
    let a6 = a5.push(bounded_attribute("task.name"@, links.task_name));
    let a7 = a6.push(bounded_attribute("failure.node"@, links.failure_node));
    let a8 = a7.push(bounded_attribute("failure.stage"@, links.failure_stage));
    let a9 = a8.push(("task.id"@, DatumView::Integer(links.maa_task_id)));
    let a10 = a9.push(("log.raw_bytes"@, DatumView::Natural(source.raw_bytes)));
    let a11 = a10.push(("log.chunk_index"@, DatumView::Natural(index)));
    let a12 = a11.push(("log.chunk_count"@, DatumView::Natural(count)));
    assert(a12 =~= common_attributes(source, links, index, count));
    lemma_attributes_push(empty, a1[0].0, a1[0].1);
    lemma_attributes_push(a1, a2[1].0, a2[1].1);
    lemma_attributes_push(a2, a3[2].0, a3[2].1);
    lemma_attributes_push(a3, a4[3].0, a4[3].1);
    lemma_attributes_push(a4, a5[4].0, a5[4].1);
    lemma_attributes_push(a5, a6[5].0, a6[5].1);
    lemma_attributes_push(a6, a7[6].0, a7[6].1);
    lemma_attributes_push(a7, a8[7].0, a8[7].1);
    lemma_attributes_push(a8, a9[8].0, a9[8].1);
    lemma_attributes_push(a9, a10[9].0, a10[9].1);
    lemma_attributes_push(a10, a11[10].0, a11[10].1);
    lemma_attributes_push(a11, a12[11].0, a12[11].1);
}

/// How many bytes the attributes take that only some records have.
pub open spec fn optional_len(source: LogText, links: Links) -> nat {
    (if any_changed(source, links) {
        attribute_len("diagnostic.attributes_truncated"@, DatumView::Flag(true)) + 1
    } else {
        0
    }) + (match links.trace_id {
        Some(trace_id) => attribute_len("trace.id"@, DatumView::Text(hex(trace_id@))) + 1,
        None => 0,
    }) + (match links.span_id {
        Some(span_id) => attribute_len("span.id"@, DatumView::Text(hex(span_id@))) + 1,
        None => 0,
    })
}

proof fn lemma_all_len(source: LogText, links: Links, index: u64, count: u64)
    ensures
        attributes_len(attributes_of(source, links, index, count)) == attributes_len(
            common_attributes(source, links, index, count),
        ) + optional_len(source, links),
{
    let a = common_attributes(source, links, index, count);
    lemma_attributes_push(a, "diagnostic.attributes_truncated"@, DatumView::Flag(true));
    let b = if any_changed(source, links) {
        a.push(("diagnostic.attributes_truncated"@, DatumView::Flag(true)))
    } else {
        a
    };
    if links.trace_id is Some {
        lemma_attributes_push(b, "trace.id"@, DatumView::Text(hex(links.trace_id->0@)));
    }
    let c = match links.trace_id {
        Some(trace_id) => b.push(("trace.id"@, DatumView::Text(hex(trace_id@)))),
        None => b,
    };
    if links.span_id is Some {
        lemma_attributes_push(c, "span.id"@, DatumView::Text(hex(links.span_id->0@)));
    }
}

/// However long the names are that a record is linked to, room is left for every character.
proof fn lemma_room(source: LogText, links: Links)
    ensures
        frame_len(
            LogLevel::Fatal,
            links.trace_id,
            attributes_of(source, links, u64::MAX, u64::MAX),
        ) + 24 + 6 <= MAX_SERIALIZED_DIAGNOSTIC_LOG_BYTES,
{
    lemma_reason_key();
    lemma_source_key();
    lemma_kind_key();
    lemma_event_key();
    lemma_run_key();
    lemma_name_key();
    lemma_node_key();
    lemma_stage_key();
    lemma_task_key();
    lemma_bytes_key();
    lemma_index_key();
    lemma_count_key();
    lemma_truncated_key();
    lemma_trace_key();
    lemma_span_key();
    lemma_common_len(source, links, u64::MAX, u64::MAX);
    lemma_all_len(source, links, u64::MAX, u64::MAX);
    assert(json_len(bounded("task_failure"@)) <= 72) by {
        reveal_strlit("task_failure");
        let text = bounded("task_failure"@);
        lemma_json_len_bound(text, 6);
        assert(text.len() == 12);
    }
    lemma_bounded_len(source.source);
    lemma_bounded_len(source.kind);
    lemma_bounded_len(links.event_id);
    lemma_bounded_len(links.run_id);
    lemma_bounded_len(links.task_name);
    lemma_bounded_len(links.failure_node);
    lemma_bounded_len(links.failure_stage);
    lemma_integer_len(links.maa_task_id);
    lemma_natural_len(source.raw_bytes);
    if links.trace_id is Some {
        lemma_hex_len(links.trace_id->0@);
        assert(links.trace_id->0@.len() == 16);
    }
    if links.span_id is Some {
        lemma_hex_len(links.span_id->0@);
        assert(links.span_id->0@.len() == 8);
    }
}

/// The pieces put together again.
pub open spec fn glued(parts: Seq<Seq<char>>) -> Seq<char>
    decreases parts.len(),
{
    if parts.len() == 0 {
        seq![]
    } else {
        parts[0] + glued(parts.skip(1))
    }
}

/// Pieces lose and repeat nothing, none is empty, and each fits.
pub proof fn lemma_pieces(text: Seq<char>, room: int)
    requires
        each_fits(text, room),
    ensures
        glued(pieces(text, room)) == text,
        forall|i: int|
            0 <= i < pieces(text, room).len() ==> (#[trigger] pieces(text, room)[i]).len() > 0
                && json_len(pieces(text, room)[i]) <= room,
    decreases text.len(),
{
    let parts = pieces(text, room);
    if text.len() == 0 {
        assert(glued(parts) =~= text);
    } else {
        assert(json_width(text[0]) <= room);
        lemma_fitting(text, room);
        let len = fitting(text, room) as int;
        let rest = text.skip(len);
        assert(len >= 1);
        assert forall|i: int| 0 <= i < rest.len() implies json_width(#[trigger] rest[i])
            <= room by {
            assert(json_width(text[i + len]) <= room);
        }
        lemma_pieces(rest, room);
        let others = pieces(rest, room);
        assert(parts == seq![text.take(len)] + others);
        assert(parts.skip(1) =~= others);
        assert(parts[0] == text.take(len));
        assert(text.take(len) + rest =~= text);
        assert forall|i: int| 0 <= i < parts.len() implies (#[trigger] parts[i]).len() > 0
            && json_len(parts[i]) <= room by {
            if i > 0 {
                assert(parts[i] == others[i - 1]);
            }
        }
    }
}

/// Every piece but the last is as long as fits: with the character behind it, it is too long.
pub proof fn lemma_pieces_full(text: Seq<char>, room: int, index: int)
    requires
        each_fits(text, room),
        0 <= index < pieces(text, room).len() - 1,
    ensures
        pieces(text, room)[index + 1].len() > 0,
        json_len(pieces(text, room)[index].push(pieces(text, room)[index + 1][0])) > room,
    decreases text.len(),
{
    lemma_first_piece(text, room);
    let len = fitting(text, room) as int;
    let rest = text.skip(len);
    let parts = pieces(text, room);
    let others = pieces(rest, room);
    lemma_fitting(text, room);
    assert(parts[index + 1] == others[index]);
    if index == 0 {
        lemma_first_piece(rest, room);
        assert(others[0][0] == rest[0]);
        assert(text.take(len).push(rest[0]) =~= text.take(len + 1));
    } else {
        assert(parts[index] == others[index - 1]);
        lemma_pieces_full(rest, room, index - 1);
    }
}

/// The first piece of a text that is not empty, and what the other pieces are of.
proof fn lemma_first_piece(text: Seq<char>, room: int)
    requires
        each_fits(text, room),
    ensures
        text.len() == 0 ==> pieces(text, room).len() == 0,
        text.len() > 0 ==> {
            let len = fitting(text, room) as int;
            &&& 0 < len <= text.len()
            &&& json_len(text.take(len)) <= room
            &&& pieces(text, room) == seq![text.take(len)] + pieces(text.skip(len), room)
            &&& each_fits(text.skip(len), room)
        },
{
    if text.len() > 0 {
        assert(json_width(text[0]) <= room);
        lemma_fitting(text, room);
        let len = fitting(text, room) as int;
        lemma_each_fits_skip(text, room, len);
    }
}

proof fn lemma_each_fits_skip(text: Seq<char>, room: int, count: int)
    requires
        each_fits(text, room),
        0 <= count <= text.len(),
    ensures
        each_fits(text.skip(count), room),
{
    let rest = text.skip(count);
    assert forall|i: int| 0 <= i < rest.len() implies json_width(#[trigger] rest[i]) <= room by {
        assert(json_width(text[i + count]) <= room);
    }
}

/// A start that is not too long is not longer than what fits.
proof fn lemma_fitting_longest(text: Seq<char>, room: int, count: int)
    requires
        room >= 0,
        0 <= count <= text.len(),
        json_len(text.take(count)) <= room,
    ensures
        count <= fitting(text, room),
{
    lemma_fitting(text, room);
    let found = fitting(text, room) as int;
    if found < count {
        lemma_json_len_grows(text, found + 1, count);
    }
}

/// What comes behind a position takes no more than the whole.
proof fn lemma_json_len_skip(text: Seq<char>, count: int)
    requires
        0 <= count <= text.len(),
    ensures
        json_len(text.skip(count)) <= json_len(text),
    decreases count,
{
    if count > 0 {
        lemma_json_len_first(text);
        assert(text.skip(count) =~= text.skip(1).skip(count - 1));
        lemma_json_len_skip(text.skip(1), count - 1);
    } else {
        assert(text.skip(0) =~= text);
    }
}

/// The end of a text is not cut into more pieces than the text.
proof fn lemma_pieces_of_end(text: Seq<char>, room: int, count: int)
    requires
        each_fits(text, room),
        0 <= count <= text.len(),
    ensures
        pieces(text.skip(count), room).len() <= pieces(text, room).len(),
    decreases text.len(),
{
    let tail = text.skip(count);
    lemma_each_fits_skip(text, room, count);
    lemma_first_piece(text, room);
    lemma_first_piece(tail, room);
    if tail.len() > 0 {
        let len = fitting(text, room) as int;
        let rest = text.skip(len);
        if count >= len {
            assert(tail =~= rest.skip(count - len));
            lemma_pieces_of_end(rest, room, count - len);
        } else {
            let start = text.take(len).skip(count);
            lemma_json_len_skip(text.take(len), count);
            assert(start =~= tail.take(len - count));
            assert(json_width(text[0]) <= room);
            lemma_fitting_longest(tail, room, len - count);
            let found = fitting(tail, room) as int;
            assert(tail.skip(found) =~= rest.skip(count + found - len));
            lemma_pieces_of_end(rest, room, count + found - len);
        }
    }
}

/// No way of cutting a text into parts that fit has fewer parts.
pub proof fn lemma_pieces_fewest(text: Seq<char>, room: int, parts: Seq<Seq<char>>)
    requires
        each_fits(text, room),
        glued(parts) == text,
        forall|i: int| 0 <= i < parts.len() ==> json_len(#[trigger] parts[i]) <= room,
    ensures
        pieces(text, room).len() <= parts.len(),
    decreases parts.len(),
{
    lemma_first_piece(text, room);
    if text.len() > 0 {
        let count = parts[0].len() as int;
        let rest = parts.skip(1);
        let left = glued(rest);
        assert(text == parts[0] + left);
        assert(text.take(count) =~= parts[0]);
        assert(text.skip(count) =~= left);
        assert(json_width(text[0]) <= room);
        lemma_fitting_longest(text, room, count);
        lemma_each_fits_skip(text, room, count);
        assert forall|i: int| 0 <= i < rest.len() implies json_len(#[trigger] rest[i]) <= room by {
            assert(rest[i] == parts[i + 1]);
        }
        lemma_pieces_fewest(left, room, rest);
        let len = fitting(text, room) as int;
        lemma_pieces_of_end(left, room, len - count);
        assert(left.skip(len - count) =~= text.skip(len));
    }
}

/// A record of a piece that fits is not too long, whatever its level, index and count are.
proof fn lemma_record_len(
    source: LogText,
    links: Links,
    timestamp: Timestamp,
    parts: Seq<Seq<char>>,
    index: int,
)
    requires
        0 <= index < parts.len(),
        json_len(parts[index]) <= room_of(source, links, timestamp),
    ensures
        record_len(record_of(source, links, timestamp, parts, index))
            <= MAX_SERIALIZED_DIAGNOSTIC_LOG_BYTES,
{
    let count = parts.len() as u64;
    lemma_common_len(source, links, u64::MAX, u64::MAX);
    lemma_common_len(source, links, index as u64, count);
    lemma_all_len(source, links, u64::MAX, u64::MAX);
    lemma_all_len(source, links, index as u64, count);
    lemma_natural_len(index as u64);
    lemma_natural_len(count);
}

/// Adds an attribute that is a text, bounded, and tells whether it was changed.
fn push_bounded(attributes: &mut Vec<(String, Datum)>, key: &str, value: &str) -> (changed: bool)
    ensures
        attribute_views(final(attributes)@) == attribute_views(old(attributes)@).push(
            bounded_attribute(key@, value@),
        ),
        changed == (bounded(value@) != value@),
{
    let ghost before = attributes@;
    let text = bounded_log_attribute(value);
    let changed = !same_text(text.as_str(), value);
    attributes.push((key.to_owned(), Datum::Text(text)));
    assert(attribute_views(attributes@) =~= attribute_views(before).push(
        bounded_attribute(key@, value@),
    ));
    changed
}

fn push_datum(attributes: &mut Vec<(String, Datum)>, key: &str, value: Datum)
    ensures
        attribute_views(final(attributes)@) == attribute_views(old(attributes)@).push(
            (key@, value@),
        ),
{
    let ghost before = attributes@;
    attributes.push((key.to_owned(), value));
    assert(attribute_views(attributes@) =~= attribute_views(before).push((key@, value@)));
}

/// The attributes of a record, which is one of `count` and the one at `index`.
fn record_attributes(
    source: &DiagnosticLog,
    context: &DiagnosticLogContext<'_>,
    index: u64,
    count: u64,
) -> (attributes: Vec<(String, Datum)>)
    ensures
        attribute_views(attributes@) == attributes_of(source@, context@, index, count),
{
    let mut attributes: Vec<(String, Datum)> = Vec::new();
    assert(attribute_views(attributes@) =~= seq![]);
    let c1 = push_bounded(&mut attributes, "diagnostic.reason", "task_failure");
    let c2 = push_bounded(&mut attributes, "diagnostic.source", source.source.as_str());
    let c3 = push_bounded(&mut attributes, "diagnostic.kind", source.kind);
    let c4 = push_bounded(&mut attributes, "sentry.event_id", context.event_id);
    let c5 = push_bounded(&mut attributes, "run.id", context.run_id);
    let c6 = push_bounded(&mut attributes, "task.name", context.task_name);
    let c7 = push_bounded(&mut attributes, "failure.node", context.failure_node);
    let c8 = push_bounded(&mut attributes, "failure.stage", context.failure_stage);
    push_datum(&mut attributes, "task.id", Datum::Integer(context.maa_task_id));
    push_datum(&mut attributes, "log.raw_bytes", Datum::Natural(source.raw_bytes));
    push_datum(&mut attributes, "log.chunk_index", Datum::Natural(index));
    push_datum(&mut attributes, "log.chunk_count", Datum::Natural(count));
    assert(attribute_views(attributes@) =~= common_attributes(source@, context@, index, count));
    if c1 || c2 || c3 || c4 || c5 || c6 || c7 || c8 {
        push_datum(&mut attributes, "diagnostic.attributes_truncated", Datum::Flag(true));
    }
    if let Some(trace_id) = context.trace_id {
        push_datum(&mut attributes, "trace.id", Datum::Text(format_hex(trace_id.as_slice())));
    }
    if let Some(span_id) = context.span_id {
        push_datum(&mut attributes, "span.id", Datum::Text(format_hex(span_id.as_slice())));
    }
    attributes
}

/// The bodies of records.
pub open spec fn bodies(records: Seq<Record>) -> Seq<Seq<char>> {
    records.map_values(|record: Record| record.body)
}

/// Makes the records of one log.
///
/// Their bodies together are the log, and none of them is too long when it is serialized.
pub fn build_diagnostic_log_records(
    source: &DiagnosticLog,
    context: DiagnosticLogContext<'_>,
    timestamp: Timestamp,
) -> (records: Vec<LogRecord>)
    requires
        is_tellable(timestamp),
    ensures
        record_views(records@) == records_of(source@, context@, timestamp),
        glued(bodies(record_views(records@))) == source@.content,
        forall|i: int|
            0 <= i < records@.len() ==> record_len((#[trigger] records@[i])@)
                <= MAX_SERIALIZED_DIAGNOSTIC_LOG_BYTES,
        forall|i: int|
            0 <= i < records@.len() ==> {
                let record = (#[trigger] records@[i])@;
                let upper = raised(record.body);
                let fatal = contains(upper, "[FTL]"@) || contains(upper, "[FATAL]"@);
                let error = contains(upper, "[ERR]"@) || contains(upper, "[ERROR]"@);
                let warn = contains(upper, "[WRN]"@) || contains(upper, "[WARN]"@);
                let debug = contains(upper, "[DBG]"@) || contains(upper, "[DEBUG]"@);
                &&& record.level is Fatal <==> fatal
                &&& record.level is Error <==> !fatal && error
                &&& record.level is Warn <==> !fatal && !error && warn
                &&& record.level is Debug <==> !fatal && !error && !warn && debug
                &&& record.level is Info <==> !fatal && !error && !warn && !debug
            },
{
    let attributes = record_attributes(source, &context, u64::MAX, u64::MAX);
    let ghost room = room_of(source@, context@, timestamp);
    proof {
        lemma_common_keys(source@, context@, u64::MAX, u64::MAX);
        lemma_room(source@, context@);
    }
    // Measured once with an empty body, which shows that there is room for every character.
    let _fits = diagnostic_log_fits("", &attributes, context.trace_id, timestamp);
    assert(each_fits(source@.content, room));
    let chunks = serialized_log_chunks(
        source.content.as_str(),
        &attributes,
        context.trace_id,
        timestamp,
    );
    let ghost parts = pieces(source@.content, room);
    let count: u64 = chunks.len() as u64;
    let mut records: Vec<LogRecord> = Vec::new();
    let mut index: usize = 0;
    while index < chunks.len()
        invariant
            index <= chunks@.len(),
            count == chunks@.len(),
            views(chunks@) == parts,
            record_views(records@) == Seq::new(
                index as nat,
                |i: int| record_of(source@, context@, timestamp, parts, i),
            ),
        decreases chunks@.len() - index,
    {
        let ghost before = records@;
        assert(parts[index as int] == chunks@[index as int]@);
        let record = LogRecord {
            level: diagnostic_log_level(chunks[index].as_str()),
            body: chunks[index].clone(),
            trace_id: context.trace_id,
            timestamp,
            attributes: record_attributes(source, &context, index as u64, count),
        };
        assert(record@ =~= record_of(source@, context@, timestamp, parts, index as int));
        let ghost added = record@;
        records.push(record);
        assert(record_views(records@) =~= record_views(before).push(added));
        assert(record_views(records@) =~= Seq::new(
            (index + 1) as nat,
            |i: int| record_of(source@, context@, timestamp, parts, i),
        ));
        index += 1;
    }
    proof {
        lemma_pieces(source@.content, room);
        let made = record_views(records@);
        assert(made =~= records_of(source@, context@, timestamp));
        assert(bodies(made) =~= parts);
        assert forall|i: int| 0 <= i < records@.len() implies record_len((#[trigger] records@[i])@)
            <= MAX_SERIALIZED_DIAGNOSTIC_LOG_BYTES by {
            assert(made[i] == records@[i]@);
            assert(json_len(parts[i]) <= room);
            lemma_record_len(source@, context@, timestamp, parts, i);
        }
        assert forall|i: int| 0 <= i < records@.len() implies (#[trigger] records@[i])@.level
            == level_of(records@[i]@.body) by {
            assert(made[i] == records@[i]@);
        }
    }
    records
}

/// The records of some logs, one log after the other, each with its own time.
pub open spec fn all_records(entries: Seq<LogText>, links: Links, times: Seq<Timestamp>) -> Seq<
    Record,
>
    decreases entries.len(),
{
    if entries.len() == 0 {
        seq![]
    } else {
        all_records(entries.drop_last(), links, times.drop_last()) + records_of(
            entries.last(),
            links,
            times.last(),
        )
    }
}

/// `times` are readings of `clock`.
pub open spec fn are_readings<C: Fn() -> Timestamp>(clock: C, times: Seq<Timestamp>) -> bool {
    forall|i: int| 0 <= i < times.len() ==> call_ensures(clock, (), #[trigger] times[i])
}

/// `records` are those of all logs, where each log has a time of its own. The bodies of the records
/// of each log together are that log.
pub open spec fn are_records_of<C: Fn() -> Timestamp>(
    records: Seq<Record>,
    logs: Seq<LogText>,
    context: Links,
    clock: C,
    times: Seq<Timestamp>,
) -> bool {
    &&& times.len() == logs.len()
    &&& are_readings(clock, times)
    &&& records == all_records(logs, context, times)
    &&& forall|i: int|
        0 <= i < logs.len() ==> glued(bodies(#[trigger] records_of(logs[i], context, times[i])))
            == logs[i].content
}

/// Makes the records of all logs of a task.
///
/// `clock` tells the time, once for each log.
pub fn capture_diagnostic_logs<C: Fn() -> Timestamp>(
    logs: &DiagnosticLogs,
    context: DiagnosticLogContext<'_>,
    clock: C,
) -> (records: Vec<LogRecord>)
    requires
        call_requires(clock, ()),
        forall|time: Timestamp| call_ensures(clock, (), time) ==> is_tellable(time),
    ensures
        exists|times: Seq<Timestamp>| #[trigger]
            are_records_of(record_views(records@), logs@.entries, context@, clock, times),
        forall|i: int|
            0 <= i < records@.len() ==> record_len((#[trigger] records@[i])@)
                <= MAX_SERIALIZED_DIAGNOSTIC_LOG_BYTES,
{
    let mut records: Vec<LogRecord> = Vec::new();
    let ghost all = log_texts(logs.entries@);
    let ghost mut times: Seq<Timestamp> = seq![];
    let mut index: usize = 0;
    assert(all.take(0) =~= seq![]);
    assert(record_views(records@) =~= seq![]);
    while index < logs.entries.len()
        invariant
            index <= logs.entries@.len(),
            call_requires(clock, ()),
            forall|time: Timestamp| call_ensures(clock, (), time) ==> is_tellable(time),
            all == log_texts(logs.entries@),
            times.len() == index,
            are_readings(clock, times),
            record_views(records@) == all_records(all.take(index as int), context@, times),
            forall|i: int|
                0 <= i < index ==> glued(bodies(#[trigger] records_of(all[i], context@, times[i])))
                    == all[i].content,
            forall|i: int|
                0 <= i < records@.len() ==> record_len((#[trigger] records@[i])@)
                    <= MAX_SERIALIZED_DIAGNOSTIC_LOG_BYTES,
        decreases logs.entries@.len() - index,
    {
        let ghost before = records@;
        let ghost earlier = times;
        assert(all.take(index + 1).drop_last() =~= all.take(index as int));
        assert(all[index as int] == logs.entries@[index as int]@);
        let time = clock();
        let mut more = build_diagnostic_log_records(&logs.entries[index], context, time);
        let ghost added = more@;
        records.append(&mut more);
        proof {
            times = times.push(time);
            assert(times.drop_last() =~= earlier);
            assert forall|i: int| 0 <= i < index + 1 implies glued(
                bodies(#[trigger] records_of(all[i], context@, times[i])),
            ) == all[i].content by {
                if i < index {
                    assert(times[i] == earlier[i]);
                }
            }
            assert(record_views(records@) =~= record_views(before) + record_views(added));
            assert forall|i: int| 0 <= i < records@.len() implies record_len(
                (#[trigger] records@[i])@,
            ) <= MAX_SERIALIZED_DIAGNOSTIC_LOG_BYTES by {
                if i < before.len() {
                    assert(records@[i] == before[i]);
                } else {
                    assert(records@[i] == added[i - before.len()]);
                }
            }
        }
        index += 1;
    }
    assert(all.take(index as int) =~= all);
    assert(are_records_of(record_views(records@), logs@.entries, context@, clock, times));
    records
}

/// A record names what it is linked to.
pub open spec fn is_linked(record: Record, links: Links) -> bool {
    &&& record.trace_id == links.trace_id
    &&& record.attributes.contains(bounded_attribute("sentry.event_id"@, links.event_id))
    &&& record.attributes.contains(bounded_attribute("run.id"@, links.run_id))
    &&& record.attributes.contains(("task.id"@, DatumView::Integer(links.maa_task_id)))
    &&& record.attributes.contains(bounded_attribute("task.name"@, links.task_name))
    &&& record.attributes.contains(bounded_attribute("failure.node"@, links.failure_node))
    &&& record.attributes.contains(bounded_attribute("failure.stage"@, links.failure_stage))
    &&& links.trace_id matches Some(trace_id) ==> record.attributes.contains(
        ("trace.id"@, DatumView::Text(hex(trace_id@))),
    )
    &&& links.span_id matches Some(span_id) ==> record.attributes.contains(
        ("span.id"@, DatumView::Text(hex(span_id@))),
    )
}

proof fn lemma_record_linked(
    source: LogText,
    links: Links,
    timestamp: Timestamp,
    parts: Seq<Seq<char>>,
    index: int,
)
    ensures
        is_linked(record_of(source, links, timestamp, parts, index), links),
{
    let common = common_attributes(source, links, index as u64, parts.len() as u64);
    let all = attributes_of(source, links, index as u64, parts.len() as u64);
    assert forall|i: int| 0 <= i < common.len() implies all[i] == common[i] by {}
    assert(all[3] == bounded_attribute("sentry.event_id"@, links.event_id));
    assert(all[4] == bounded_attribute("run.id"@, links.run_id));
    assert(all[5] == bounded_attribute("task.name"@, links.task_name));
    assert(all[6] == bounded_attribute("failure.node"@, links.failure_node));
    assert(all[7] == bounded_attribute("failure.stage"@, links.failure_stage));
    assert(all[8] == ("task.id"@, DatumView::Integer(links.maa_task_id)));
    if links.trace_id is Some {
        let at = if links.span_id is Some {
            all.len() - 2
        } else {
            all.len() - 1
        };
        assert(all[at] == ("trace.id"@, DatumView::Text(hex(links.trace_id->0@))));
    }
    if links.span_id is Some {
        assert(all[all.len() - 1] == ("span.id"@, DatumView::Text(hex(links.span_id->0@))));
    }
}

/// Every record of the logs of a failed task names the event that it belongs to, and the run, the
/// task, the node, the stage and the trace that the event is about, as far as an attribute has room.
pub proof fn lemma_records_name_event<T>(
    event: Event<T>,
    run_id: Seq<char>,
    maa_task_id: i64,
    event_id: Seq<char>,
    entries: Seq<LogText>,
    times: Seq<Timestamp>,
    index: int,
)
    requires
        times.len() == entries.len(),
        0 <= index < all_records(
            entries,
            links_of(event, run_id, maa_task_id, event_id),
            times,
        ).len(),
    ensures
        is_linked(
            all_records(entries, links_of(event, run_id, maa_task_id, event_id), times)[index],
            links_of(event, run_id, maa_task_id, event_id),
        ),
    decreases entries.len(),
{
    let links = links_of(event, run_id, maa_task_id, event_id);
    let earlier = all_records(entries.drop_last(), links, times.drop_last());
    if index < earlier.len() {
        lemma_records_name_event(
            event,
            run_id,
            maa_task_id,
            event_id,
            entries.drop_last(),
            times.drop_last(),
            index,
        );
    } else {
        let parts = pieces(
            entries.last().content,
            room_of(entries.last(), links, times.last()),
        );
        lemma_record_linked(entries.last(), links, times.last(), parts, index - earlier.len());
    }
}

/// The most records that are sent together.
pub const MAX_BATCHED_RECORDS: usize = 100;

/// The most bytes that are accepted of records that are sent together.
pub const MAX_BATCH_BYTES: usize = 1048576;

/// How many bytes records take together, with a comma behind each.
pub open spec fn batch_len(records: Seq<Record>) -> nat
    decreases records.len(),
{
    if records.len() == 0 {
        0
    } else {
        batch_len(records.drop_last()) + record_len(records.last()) + 1
    }
}

proof fn lemma_batch_len(records: Seq<Record>)
    requires
        forall|i: int|
            0 <= i < records.len() ==> record_len(#[trigger] records[i])
                <= MAX_SERIALIZED_DIAGNOSTIC_LOG_BYTES,
    ensures
        batch_len(records) <= records.len() * (MAX_SERIALIZED_DIAGNOSTIC_LOG_BYTES + 1),
    decreases records.len(),
{
    if records.len() > 0 {
        let rest = records.drop_last();
        assert forall|i: int| 0 <= i < rest.len() implies record_len(#[trigger] rest[i])
            <= MAX_SERIALIZED_DIAGNOSTIC_LOG_BYTES by {
            assert(rest[i] == records[i]);
        }
        lemma_batch_len(rest);
        assert(records.last() == records[records.len() - 1]);
    }
}

/// Records of bounded length that are sent together are accepted, and each may still grow by three
/// kibibytes on the way.
pub proof fn lemma_batch_accepted(records: Seq<Record>)
    requires
        records.len() <= MAX_BATCHED_RECORDS,
        forall|i: int|
            0 <= i < records.len() ==> record_len(#[trigger] records[i])
                <= MAX_SERIALIZED_DIAGNOSTIC_LOG_BYTES,
    ensures
        batch_len(records) + 3072 * records.len() < MAX_BATCH_BYTES,
{
    lemma_batch_len(records);
}

} // verus!
