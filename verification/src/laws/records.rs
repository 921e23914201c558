//! The records in which the logs of a failed task are sent.

use vstd::prelude::*;
use crate::event::{Datum, DatumView, Event, FailureEvent};
use crate::logs::{DiagnosticLog, DiagnosticLogs, LogText};
use crate::records::{
    all_records, are_readings, attribute_views, attributes_of, batch_len, bounded,
    bounded_log_attribute, build_diagnostic_log_records, capture_diagnostic_logs, common_attributes,
    diagnostic_log_fits, diagnostic_log_level, each_fits, frame_len, glued, json_len, json_width,
    lemma_batch_accepted, lemma_common_keys, lemma_pieces, lemma_pieces_full, level_of, links_of,
    log_context, pieces, record_len, record_views, records_of, room_of, serialized_log_chunks,
    timestamp_len, DiagnosticLogContext, Links, LogLevel, LogRecord, Record,
};
use crate::text::{contains, hex, raised, views};
use crate::time::Timestamp;

verus! {

/// A record is as severe as the gravest mark that its body holds, in letters of any case.
pub proof fn lemma_record_level(source: LogText, links: Links, timestamp: Timestamp, index: int)
    requires
        0 <= index < records_of(source, links, timestamp).len(),
    ensures
        ({
            let record = records_of(source, links, timestamp)[index];
            let upper = raised(record.body);
            let fatal = contains(upper, "[FTL]"@) || contains(upper, "[FATAL]"@);
            let error = contains(upper, "[ERR]"@) || contains(upper, "[ERROR]"@);
            let warn = contains(upper, "[WRN]"@) || contains(upper, "[WARN]"@);
            let debug = contains(upper, "[DBG]"@) || contains(upper, "[DEBUG]"@);
            &&& record.level is Fatal <==> fatal
            &&& record.level is Error <==> !fatal && error
            &&& record.level is Warn <==> !fatal && !error && warn
            &&& record.level is Debug <==> !fatal && !error && !warn && debug
            &&& record.level is Info <==> !fatal && !error && !warn && !debug
        }),
{
}

/// The level of a text does not change with the case of its letters, and more text never makes it
/// less severe than a fatal mark does.
pub proof fn lemma_level_grows(front: Seq<char>, rest: Seq<char>)
    ensures
        level_of(front + "[FATAL]"@ + rest) is Fatal,
        level_of(front + "[fatal]"@ + rest) is Fatal,
        level_of(front + "[FTL]"@ + rest) is Fatal,
        !(level_of(front + "[ERR]"@ + rest) is Warn),
        !(level_of(front + "[ERR]"@ + rest) is Info),
        !(level_of(front + "[ERR]"@ + rest) is Debug),
{
    reveal_strlit("[FATAL]");
    reveal_strlit("[fatal]");
    reveal_strlit("[FTL]");
    reveal_strlit("[ERR]");
    assert(raised("[FATAL]"@) =~= "[FATAL]"@);
    assert(raised("[fatal]"@) =~= "[FATAL]"@);
    assert(raised("[FTL]"@) =~= "[FTL]"@);
    assert(raised("[ERR]"@) =~= "[ERR]"@);
    lemma_raised_around(front, "[FATAL]"@, rest);
    lemma_raised_around(front, "[fatal]"@, rest);
    lemma_raised_around(front, "[FTL]"@, rest);
    lemma_raised_around(front, "[ERR]"@, rest);
}

proof fn lemma_raised_around(front: Seq<char>, part: Seq<char>, rest: Seq<char>)
    ensures
        contains(raised(front + part + rest), raised(part)),
{
    assert(raised(front + part + rest) =~= raised(front) + raised(part) + raised(rest));
    crate::laws::basics::lemma_contains(raised(front + part + rest), raised(part));
}

/// The value of an attribute: the first two hundred characters, with a replacement for each that
/// controls a device.
pub proof fn lemma_bounded(value: Seq<char>)
    ensures
        bounded(value).len() == (if value.len() <= 200 {
            value.len()
        } else {
            200
        }),
        forall|i: int|
            0 <= i < bounded(value).len() ==> {
                let code = value[i] as u32;
                if code < 32 || 127 <= code < 160 {
                    (#[trigger] bounded(value)[i]) as u32 == 0xfffd
                } else {
                    bounded(value)[i] == value[i]
                }
            },
{
}

/// What the record at `index` tells: when and in which trace, where its log came from, which event,
/// run, task, node and stage it belongs to, and which of how many pieces it is.
pub proof fn lemma_record_told(source: LogText, links: Links, timestamp: Timestamp, index: int)
    requires
        0 <= index < records_of(source, links, timestamp).len(),
    ensures
        ({
            let records = records_of(source, links, timestamp);
            let record = records[index];
            let told = record.attributes;
            &&& record.timestamp == timestamp
            &&& record.trace_id == links.trace_id
            &&& told.contains(("diagnostic.reason"@, DatumView::Text("task_failure"@)))
            &&& told.contains(("diagnostic.source"@, DatumView::Text(bounded(source.source))))
            &&& told.contains(("diagnostic.kind"@, DatumView::Text(bounded(source.kind))))
            &&& told.contains(("sentry.event_id"@, DatumView::Text(bounded(links.event_id))))
            &&& told.contains(("run.id"@, DatumView::Text(bounded(links.run_id))))
            &&& told.contains(("task.name"@, DatumView::Text(bounded(links.task_name))))
            &&& told.contains(("failure.node"@, DatumView::Text(bounded(links.failure_node))))
            &&& told.contains(("failure.stage"@, DatumView::Text(bounded(links.failure_stage))))
            &&& told.contains(("task.id"@, DatumView::Integer(links.maa_task_id)))
            &&& told.contains(("log.raw_bytes"@, DatumView::Natural(source.raw_bytes)))
            &&& told.contains(("log.chunk_index"@, DatumView::Natural(index as u64)))
            &&& told.contains(("log.chunk_count"@, DatumView::Natural(records.len() as u64)))
            &&& links.trace_id matches Some(id) ==> told.contains(
                ("trace.id"@, DatumView::Text(hex(id@))),
            )
            &&& links.span_id matches Some(id) ==> told.contains(
                ("span.id"@, DatumView::Text(hex(id@))),
            )
        }),
{
    let records = records_of(source, links, timestamp);
    let told = records[index].attributes;
    let common = common_attributes(source, links, index as u64, records.len() as u64);
    lemma_reason_kept();
    assert forall|i: int| 0 <= i < common.len() implies told[i] == common[i] by {}
    assert(told[0] == ("diagnostic.reason"@, DatumView::Text("task_failure"@)));
    assert(told[1].0 == "diagnostic.source"@);
    assert(told[2].0 == "diagnostic.kind"@);
    assert(told[3].0 == "sentry.event_id"@);
    assert(told[4].0 == "run.id"@);
    assert(told[5].0 == "task.name"@);
    assert(told[6].0 == "failure.node"@);
    assert(told[7].0 == "failure.stage"@);
    assert(told[8].0 == "task.id"@);
    assert(told[9].0 == "log.raw_bytes"@);
    assert(told[10].0 == "log.chunk_index"@);
    assert(told[11].0 == "log.chunk_count"@);
    if links.trace_id is Some {
        let at = if links.span_id is Some {
            told.len() - 2
        } else {
            told.len() - 1
        };
        assert(told[at].0 == "trace.id"@);
    }
    if links.span_id is Some {
        assert(told[told.len() - 1].0 == "span.id"@);
    }
}

proof fn lemma_reason_kept()
    ensures
        bounded("task_failure"@) == "task_failure"@,
{
    reveal_strlit("task_failure");
    assert(bounded("task_failure"@) =~= "task_failure"@);
}

/// A record tells that attributes were shortened exactly when one of them was, and tells nothing else
/// besides: no key occurs twice, and there are as many as there is to tell.
pub proof fn lemma_record_tells_no_more(
    source: LogText,
    links: Links,
    timestamp: Timestamp,
    index: int,
)
    requires
        0 <= index < records_of(source, links, timestamp).len(),
    ensures
        ({
            let told = records_of(source, links, timestamp)[index].attributes;
            let shortened = bounded(source.source) != source.source || bounded(source.kind)
                != source.kind || bounded(links.event_id) != links.event_id || bounded(
                links.run_id,
            ) != links.run_id || bounded(links.task_name) != links.task_name || bounded(
                links.failure_node,
            ) != links.failure_node || bounded(links.failure_stage) != links.failure_stage;
            &&& told.contains(("diagnostic.attributes_truncated"@, DatumView::Flag(true)))
                <==> shortened
            &&& told.len() == 12 + (if shortened {
                1int
            } else {
                0
            }) + (if links.trace_id is Some {
                1int
            } else {
                0
            }) + (if links.span_id is Some {
                1int
            } else {
                0
            })
            &&& forall|i: int, j: int|
                0 <= i < j < told.len() ==> (#[trigger] told[i]).0 != (#[trigger] told[j]).0
        }),
{
    let records = records_of(source, links, timestamp);
    let told = records[index].attributes;
    let count = records.len() as u64;
    lemma_reason_kept();
    lemma_common_keys(source, links, index as u64, count);
    let common = common_attributes(source, links, index as u64, count);
    let flag = ("diagnostic.attributes_truncated"@, DatumView::Flag(true));
    if crate::records::any_changed(source, links) {
        assert(told[12] == flag);
    } else if told.contains(flag) {
        let at = choose|at: int| 0 <= at < told.len() && told[at] == flag;
        assert forall|i: int| 0 <= i < common.len() implies told[i] == common[i] by {}
        assert(at >= 12);
    }
}

/// The bodies of the records of a log are pieces of its text, in order and without gaps; none is empty.
pub proof fn lemma_record_bodies(source: LogText, links: Links, timestamp: Timestamp)
    requires
        forall|i: int|
            0 <= i < source.content.len() ==> json_width(#[trigger] source.content[i]) <= room_of(
                source,
                links,
                timestamp,
            ),
    ensures
        ({
            let records = records_of(source, links, timestamp);
            &&& glued(records.map_values(|record: Record| record.body)) == source.content
            &&& forall|i: int| 0 <= i < records.len() ==> (#[trigger] records[i]).body.len() > 0
            &&& source.content.len() > 0 ==> records.len() > 0
        }),
{
    let room = room_of(source, links, timestamp);
    let records = records_of(source, links, timestamp);
    let parts = pieces(source.content, room);
    lemma_pieces(source.content, room);
    assert(records.map_values(|record: Record| record.body) =~= parts);
    assert forall|i: int| 0 <= i < records.len() implies (#[trigger] records[i]).body.len() > 0 by {
        assert(records[i].body == parts[i]);
    }
}

/// Pieces are put together by writing one behind the other.
pub proof fn lemma_glued(parts: Seq<Seq<char>>, last: Seq<char>)
    ensures
        glued(Seq::<Seq<char>>::empty()) == Seq::<char>::empty(),
        glued(parts.push(last)) == glued(parts) + last,
    decreases parts.len(),
{
    reveal_with_fuel(glued, 2);
    let all = parts.push(last);
    if parts.len() == 0 {
        assert(all.skip(1) =~= seq![]);
        assert(glued(all) =~= last);
        assert(glued(parts) + last =~= last);
    } else {
        lemma_glued(parts.skip(1), last);
        assert(all.skip(1) =~= parts.skip(1).push(last));
        assert(glued(all) =~= glued(parts) + last);
    }
}

/// All logs are sent, one after the other, each with all of its records and at its own time.
pub proof fn lemma_all_records(
    entries: Seq<LogText>,
    more: Seq<LogText>,
    links: Links,
    times: Seq<Timestamp>,
    later: Seq<Timestamp>,
)
    requires
        times.len() == entries.len(),
        later.len() == more.len(),
    ensures
        all_records(Seq::<LogText>::empty(), links, Seq::<Timestamp>::empty()) == Seq::<
            Record,
        >::empty(),
        entries.len() == 1 ==> all_records(entries, links, times) == records_of(
            entries[0],
            links,
            times[0],
        ),
        all_records(entries + more, links, times + later) == all_records(entries, links, times)
            + all_records(more, links, later),
    decreases more.len(),
{
    reveal_with_fuel(all_records, 2);
    if entries.len() == 1 {
        assert(entries.drop_last() =~= seq![]);
        assert(all_records(entries, links, times) =~= records_of(entries[0], links, times[0]));
    }
    if more.len() == 0 {
        assert(entries + more =~= entries);
        assert(times + later =~= times);
        assert(all_records(entries, links, times) + all_records(more, links, later)
            =~= all_records(entries, links, times));
    } else {
        lemma_all_records(entries, more.drop_last(), links, times, later.drop_last());
        assert((entries + more).drop_last() =~= entries + more.drop_last());
        assert((times + later).drop_last() =~= times + later.drop_last());
        assert(all_records(entries + more, links, times + later) =~= all_records(
            entries,
            links,
            times,
        ) + all_records(more, links, later));
    }
}

/// The records of the logs of an event carry what the event carries: its task, node, stage and trace.
pub proof fn lemma_links<T>(
    event: Event<T>,
    run_id: Seq<char>,
    maa_task_id: i64,
    event_id: Seq<char>,
)
    ensures
        ({
            let links = links_of(event, run_id, maa_task_id, event_id);
            &&& links.event_id == event_id
            &&& links.run_id == run_id
            &&& links.maa_task_id == maa_task_id
            &&& links.task_name == event.task_name
            &&& links.failure_node == event.failure_node
            &&& links.failure_stage == event.failure_stage
            &&& event.trace is None ==> links.trace_id is None && links.span_id is None
            &&& event.trace matches Some(trace) ==> links.trace_id == Some(trace.trace_id)
                && links.span_id == Some(trace.span_id)
        }),
{
}

/// How much room a text takes in JSON: as much as its characters, where quotes, backslashes and
/// control characters are escaped and the others are written in UTF-8.
pub proof fn lemma_json_len(text: Seq<char>, more: Seq<char>, character: char)
    ensures
        json_len(text + more) == json_len(text) + json_len(more),
        json_len(seq![character]) == json_width(character),
        character == '"' || character == '\\' || character == '\n' || character == '\t'
            || character == '\r' ==> json_width(character) == 2,
        character as u32 >= 32 && (character as u32) < 128 && character != '"' && character != '\\'
            ==> json_width(character) == 1,
        128 <= character as u32 ==> 2 <= json_width(character) <= 4,
    decreases more.len(),
{
    reveal_with_fuel(json_len, 2);
    assert(seq![character].drop_last() =~= seq![]);
    if more.len() == 0 {
        assert(text + more =~= text);
    } else {
        lemma_json_len(text, more.drop_last(), character);
        assert((text + more).drop_last() =~= text + more.drop_last());
    }
}

/// The records of a log: as severe as their bodies say, none longer than seven kibibytes, and together
/// the whole log.
pub proof fn lemma_build_records(
    source: &DiagnosticLog,
    context: DiagnosticLogContext<'_>,
    timestamp: Timestamp,
    records: Vec<LogRecord>,
    i: int,
)
    requires
        call_ensures(build_diagnostic_log_records, (source, context, timestamp), records),
    ensures
        record_views(records@) == records_of(source@, context@, timestamp),
        glued(record_views(records@).map_values(|record: Record| record.body)) == source@.content,
        0 <= i < records@.len() ==> {
            let record = records@[i]@;
            let upper = raised(record.body);
            let fatal = contains(upper, "[FTL]"@) || contains(upper, "[FATAL]"@);
            let error = contains(upper, "[ERR]"@) || contains(upper, "[ERROR]"@);
            let warn = contains(upper, "[WRN]"@) || contains(upper, "[WARN]"@);
            let debug = contains(upper, "[DBG]"@) || contains(upper, "[DEBUG]"@);
            &&& record.level is Fatal <==> fatal
            &&& record.level is Error <==> !fatal && error
            &&& record.level is Warn <==> !fatal && !error && warn
            &&& record.level is Debug <==> !fatal && !error && !warn && debug
            &&& record.level is Info <==> !fatal && !error && !warn && !debug
            &&& record_len(record) <= 7168
            &&& record.timestamp == timestamp
            &&& record.trace_id == context.trace_id
        },
{
    if 0 <= i < records@.len() {
        assert(record_views(records@)[i] == records@[i]@);
        lemma_record_level(source@, context@, timestamp, i);
        lemma_record_told(source@, context@, timestamp, i);
    }
}

/// The records of all logs are those of each, at a time that the clock told for it.
pub proof fn lemma_capture_records<C: Fn() -> Timestamp>(
    logs: &DiagnosticLogs,
    context: DiagnosticLogContext<'_>,
    clock: C,
    records: Vec<LogRecord>,
    i: int,
)
    requires
        call_ensures(capture_diagnostic_logs::<C>, (logs, context, clock), records),
    ensures
        exists|times: Seq<Timestamp>|
            {
                &&& times.len() == logs@.entries.len()
                &&& #[trigger] are_readings(clock, times)
                &&& record_views(records@) == all_records(logs@.entries, context@, times)
            },
        0 <= i < records@.len() ==> record_len(records@[i]@) <= 7168,
{
}

/// The level of a text is that of the gravest mark in it.
pub proof fn lemma_level(content: &str, level: LogLevel)
    requires
        call_ensures(diagnostic_log_level, (content,), level),
    ensures
        ({
            let upper = raised(content@);
            let fatal = contains(upper, "[FTL]"@) || contains(upper, "[FATAL]"@);
            let error = contains(upper, "[ERR]"@) || contains(upper, "[ERROR]"@);
            let warn = contains(upper, "[WRN]"@) || contains(upper, "[WARN]"@);
            let debug = contains(upper, "[DBG]"@) || contains(upper, "[DEBUG]"@);
            &&& level is Fatal <==> fatal
            &&& level is Error <==> !fatal && error
            &&& level is Warn <==> !fatal && !error && warn
            &&& level is Debug <==> !fatal && !error && !warn && debug
        }),
{
}

/// The value of an attribute is bounded and holds no control characters.
pub proof fn lemma_bounded_log_attribute(value: &str, text: String, i: int)
    requires
        call_ensures(bounded_log_attribute, (value,), text),
    ensures
        text@ == bounded(value@),
        text@.len() <= 200,
        value@.len() <= 200 ==> text@.len() == value@.len(),
        0 <= i < text@.len() && !((value@[i] as u32) < 32) && !(127 <= (value@[i] as u32) < 160)
            ==> text@[i] == value@[i],
{
    lemma_bounded(value@);
}

/// The records of an event are linked to it, to its run and task, and to its trace.
pub proof fn lemma_log_context<'a, T>(
    event: &'a FailureEvent<T>,
    run_id: &'a str,
    maa_task_id: i64,
    event_id: &'a str,
    context: DiagnosticLogContext<'a>,
)
    requires
        call_ensures(log_context::<T>, (event, run_id, maa_task_id, event_id), context),
    ensures
        context.event_id@ == event_id@,
        context.run_id@ == run_id@,
        context.maa_task_id == maa_task_id,
        context.task_name@ == event@.task_name,
        context.failure_node@ == event@.failure_node,
        context.failure_stage@ == event@.failure_stage,
        event@.trace matches Some(trace) ==> context.trace_id == Some(trace.trace_id)
            && context.span_id == Some(trace.span_id),
        event@.trace is None ==> context.trace_id is None && context.span_id is None,
{
    lemma_links(event@, run_id@, maa_task_id, event_id@);
    assert(context@.event_id == context.event_id@);
}

/// How many bytes each character takes in a JSON text.
pub proof fn lemma_json_width(character: char)
    ensures
        ({
            let code = character as u32;
            let short = code == 34 || code == 92 || code == 8 || code == 9 || code == 10 || code
                == 12 || code == 13;
            &&& short ==> json_width(character) == 2
            &&& !short && code < 32 ==> json_width(character) == 6
            &&& !short && 32 <= code < 128 ==> json_width(character) == 1
            &&& 128 <= code < 2048 ==> json_width(character) == 2
            &&& 2048 <= code < 65536 ==> json_width(character) == 3
            &&& 65536 <= code ==> json_width(character) == 4
        }),
{
}

/// A record fits when it takes no more than seven kibibytes, with the longest name of a level.
pub proof fn lemma_log_fits(
    body: &str,
    attributes: &Vec<(String, Datum)>,
    trace_id: Option<[u8; 16]>,
    timestamp: Timestamp,
    fits: bool,
)
    requires
        call_ensures(diagnostic_log_fits, (body, attributes, trace_id, timestamp), fits),
    ensures
        fits <==> frame_len(LogLevel::Fatal, trace_id, attribute_views(attributes@))
            + timestamp_len(timestamp.secs, timestamp.nanos) + json_len(body@) <= 7168,
{
}

/// A text is cut into pieces that fit, in order and without gaps. None is empty, and none would fit
/// with one more character.
pub proof fn lemma_log_chunks(
    value: &str,
    attributes: &Vec<(String, Datum)>,
    trace_id: Option<[u8; 16]>,
    timestamp: Timestamp,
    chunks: Vec<String>,
    i: int,
)
    requires
        call_ensures(serialized_log_chunks, (value, attributes, trace_id, timestamp), chunks),
        each_fits(
            value@,
            7168 - frame_len(LogLevel::Fatal, trace_id, attribute_views(attributes@))
                - timestamp_len(timestamp.secs, timestamp.nanos),
        ),
        0 <= i < chunks@.len(),
    ensures
        ({
            let frame = frame_len(LogLevel::Fatal, trace_id, attribute_views(attributes@))
                + timestamp_len(timestamp.secs, timestamp.nanos);
            &&& glued(views(chunks@)) == value@
            &&& chunks@[i]@.len() > 0
            &&& frame + json_len(chunks@[i]@) <= 7168
            &&& i + 1 < chunks@.len() ==> chunks@[i + 1]@.len() > 0 && frame + json_len(
                chunks@[i]@.push(chunks@[i + 1]@[0]),
            ) > 7168
        }),
{
    let room = 7168 - frame_len(LogLevel::Fatal, trace_id, attribute_views(attributes@))
        - timestamp_len(timestamp.secs, timestamp.nanos);
    lemma_pieces(value@, room);
    assert(views(chunks@)[i] == chunks@[i]@);
    if i + 1 < chunks@.len() {
        lemma_pieces_full(value@, room, i);
        assert(views(chunks@)[i + 1] == chunks@[i + 1]@);
    }
}

/// Each record of a log but the last one is full: with the first character of the next one it would
/// be longer than seven kibibytes, measured with the longest level and the largest numbers.
pub proof fn lemma_records_full(source: LogText, links: Links, timestamp: Timestamp, i: int)
    requires
        forall|i: int|
            0 <= i < source.content.len() ==> json_width(#[trigger] source.content[i]) <= room_of(
                source,
                links,
                timestamp,
            ),
        0 <= i,
        i + 1 < records_of(source, links, timestamp).len(),
    ensures
        ({
            let records = records_of(source, links, timestamp);
            let frame = frame_len(
                LogLevel::Fatal,
                links.trace_id,
                attributes_of(source, links, u64::MAX, u64::MAX),
            ) + timestamp_len(timestamp.secs, timestamp.nanos);
            &&& frame + json_len(records[i].body) <= 7168
            &&& frame + json_len(records[i].body.push(records[i + 1].body[0])) > 7168
        }),
{
    let room = room_of(source, links, timestamp);
    lemma_pieces(source.content, room);
    lemma_pieces_full(source.content, room, i);
    assert(json_len(pieces(source.content, room)[i]) <= room);
}

/// A hundred records fit into a mebibyte, also when each grows by three kibibytes on the way.
pub proof fn lemma_batch(records: Seq<Record>)
    requires
        records.len() <= 100,
        forall|i: int| 0 <= i < records.len() ==> record_len(#[trigger] records[i]) <= 7168,
    ensures
        batch_len(records) + 3072 * records.len() < 1048576,
{
    lemma_batch_accepted(records);
}

} // verus!
