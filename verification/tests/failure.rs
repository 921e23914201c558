use mxu_telemetry::bundle::{ImageBundle, ImageBundleError};
use mxu_telemetry::event::{capture_failure_event, tag_value, Datum, FailureEvent};
use mxu_telemetry::logs::{DiagnosticLog, DiagnosticLogs};
use mxu_telemetry::map::StringMap;
use mxu_telemetry::nodes::retain_failure_signals;
use mxu_telemetry::records::{
    bounded_log_attribute, build_diagnostic_log_records, capture_diagnostic_logs,
    diagnostic_log_fits, diagnostic_log_level, log_context, serialized_log_chunks, DiagnosticLogContext,
    LogLevel, LogRecord, MAX_BATCHED_RECORDS, MAX_BATCH_BYTES,
    MAX_DIAGNOSTIC_LOG_ATTRIBUTE_CHARACTERS,
    MAX_SERIALIZED_DIAGNOSTIC_LOG_BYTES,
};
use mxu_telemetry::report::{
    attachment_error_outcome, FailureAttachmentOutcome, FailureEventConfig, FailureSignal,
    TaskFailureReport, TaskMeta, TraceContext,
};
use mxu_telemetry::sampling::SampleRate;
use mxu_telemetry::time::Timestamp;
use std::borrow::Cow;
use std::collections::HashMap;
use std::time::{Duration, UNIX_EPOCH};

fn map_of(entries: &[(&str, &str)]) -> StringMap<String> {
    let mut map = StringMap::new();
    for (key, value) in entries {
        map.insert(key.to_string(), value.to_string());
    }
    map
}

fn now() -> Timestamp {
    let time = UNIX_EPOCH.elapsed().expect("time after the epoch");
    Timestamp { secs: time.as_secs() as i64, nanos: time.subsec_nanos() }
}

fn failure_report() -> TaskFailureReport<()> {
    TaskFailureReport {
        run_id: "run-123".to_string(),
        maa_task_id: 42,
        task: TaskMeta { name: "DailyTask".to_string(), options: map_of(&[("mode", "normal")]) },
        duration_ms: Some(1_500),
        started_wall_time: Some(Timestamp { secs: 10, nanos: 0 }),
        failure: Some(FailureSignal {
            node: "EnterBattle".to_string(),
            stage: "recognition".to_string(),
            source_task_id: 43,
            node_id: Some(7),
            duration_ms: Some(800),
        }),
        terminal_failure: Some(FailureSignal {
            node: "FailureCollector".to_string(),
            stage: "action".to_string(),
            source_task_id: 42,
            node_id: Some(9),
            duration_ms: Some(20),
        }),
        failed_node_count: 3,
        trace_context: None,
        tags: map_of(&[("run.id", "run-123")]),
        event_config: FailureEventConfig {
            app_name: "MaaEnd".to_string(),
            app_version: "2.0.0".to_string(),
            mxu_version: "0.1.0".to_string(),
            failure_attachments_sample_rate: SampleRate { bits: 1.0f32.to_bits() },
        },
        evidence_start: None,
        evidence_isolated: true,
        evidence_epoch: 1,
    }
}

fn value_of(datum: &Datum) -> sentry::protocol::Value {
    match datum {
        Datum::Text(text) => text.clone().into(),
        Datum::Integer(number) => (*number).into(),
        Datum::Natural(number) => (*number).into(),
        Datum::Flag(flag) => (*flag).into(),
    }
}

fn level_of(level: LogLevel) -> sentry::protocol::LogLevel {
    match level {
        LogLevel::Debug => sentry::protocol::LogLevel::Debug,
        LogLevel::Info => sentry::protocol::LogLevel::Info,
        LogLevel::Warn => sentry::protocol::LogLevel::Warn,
        LogLevel::Error => sentry::protocol::LogLevel::Error,
        LogLevel::Fatal => sentry::protocol::LogLevel::Fatal,
    }
}

fn log_of(record: &LogRecord) -> sentry::protocol::Log {
    sentry::protocol::Log {
        level: level_of(record.level),
        body: record.body.clone(),
        trace_id: record.trace_id.map(sentry::protocol::TraceId::from),
        timestamp: UNIX_EPOCH
            + Duration::new(record.timestamp.secs as u64, record.timestamp.nanos),
        severity_number: None,
        attributes: record
            .attributes
            .iter()
            .map(|(key, value)| (key.clone(), value_of(value).into()))
            .collect(),
    }
}

/// Sends a failure event, its logs and its attachment to the current client.
fn send(
    report: TaskFailureReport<()>,
    logs: Option<DiagnosticLogs>,
    outcome: FailureAttachmentOutcome,
) {
    let run_id = report.run_id.clone();
    let maa_task_id = report.maa_task_id;
    let failure: FailureEvent<()> = capture_failure_event(report, logs.as_ref(), outcome);
    let own_id = sentry::types::random_uuid();
    let event_id = own_id.to_string();
    if let Some(logs) = &logs {
        let context = log_context(&failure, &run_id, maa_task_id, &event_id);
        for record in capture_diagnostic_logs(logs, context, now) {
            sentry::Hub::current().capture_log(log_of(&record));
        }
    }
    let event = sentry::protocol::Event {
        event_id: own_id,
        message: Some(failure.message),
        logger: Some(failure.logger),
        transaction: Some(failure.transaction),
        fingerprint: Cow::Owned(failure.fingerprint.into_iter().map(Cow::Owned).collect()),
        tags: failure.tags.into_entries().into_iter().collect(),
        extra: failure
            .extra
            .entries()
            .iter()
            .map(|(key, value)| (key.clone(), value_of(value)))
            .collect(),
        ..Default::default()
    };
    match failure.attachment {
        None => {
            sentry::capture_event(event);
        }
        Some(attachment) => {
            let attachment = sentry::protocol::Attachment {
                buffer: attachment.buffer.into(),
                filename: attachment.filename,
                content_type: Some(attachment.content_type),
                ..Default::default()
            };
            sentry::with_scope(
                |scope| scope.add_attachment(attachment),
                || sentry::capture_event(event),
            );
        }
    }
}

fn one_log(content: String) -> DiagnosticLogs {
    let raw_bytes = content.len() as u64;
    DiagnosticLogs {
        entries: vec![DiagnosticLog {
            source: "maafw.log".to_string(),
            kind: "maafw",
            content,
            raw_bytes,
        }],
        selected_raw_bytes: raw_bytes,
        truncated: false,
        warnings: Vec::new(),
    }
}

fn context() -> DiagnosticLogContext<'static> {
    DiagnosticLogContext {
        event_id: "00000000000000000000000000000000",
        run_id: "run-123",
        maa_task_id: 42,
        task_name: "DailyTask",
        failure_node: "EnterBattle",
        failure_stage: "recognition",
        trace_id: None,
        span_id: None,
    }
}

fn text_in<'a, T>(event: &'a FailureEvent<T>, key: &str) -> Option<&'a str> {
    match event.extra.get(key) {
        Some(Datum::Text(text)) => Some(text.as_str()),
        _ => None,
    }
}

fn natural_in<T>(event: &FailureEvent<T>, key: &str) -> Option<u64> {
    match event.extra.get(key) {
        Some(Datum::Natural(number)) => Some(*number),
        _ => None,
    }
}

#[test]
fn terminal_failure_creates_one_groupable_event_with_one_attachment() {
    let envelopes = sentry::test::with_captured_envelopes(|| {
        send(
            failure_report(),
            None,
            FailureAttachmentOutcome::Attached(ImageBundle {
                buffer: b"zip-body".to_vec(),
                filename: "failure.zip".to_string(),
                image_count: 1,
                selected_raw_bytes: 1024,
                warnings: Vec::new(),
            }),
        );
    });

    assert_eq!(envelopes.len(), 1);
    let items: Vec<_> = envelopes[0].items().collect();
    assert_eq!(items.len(), 2);
    let sentry::protocol::EnvelopeItem::Event(event) = items[0] else {
        panic!("first envelope item should be an event");
    };
    assert_eq!(event.tags["task.name"], "DailyTask");
    assert_eq!(event.tags["failure.node"], "EnterBattle");
    assert_eq!(
        event.extra["terminal_failure.node"],
        sentry::protocol::Value::from("FailureCollector")
    );
    assert_eq!(event.extra["run.id"], sentry::protocol::Value::from("run-123"));
    assert_eq!(event.extra["task.id"], sentry::protocol::Value::from(42i64));
    assert_eq!(event.tags["failure.stage"], "recognition");
    assert_eq!(event.fingerprint.len(), 5);
    assert_eq!(event.fingerprint[0], "mxu-task-failure");
    assert_eq!(event.fingerprint[2], "DailyTask");
    assert_eq!(event.fingerprint[3], "EnterBattle");
    let sentry::protocol::EnvelopeItem::Attachment(attachment) = items[1] else {
        panic!("second envelope item should be an attachment");
    };
    assert_eq!(attachment.filename, "failure.zip");
    assert_eq!(attachment.buffer, b"zip-body");
}

#[test]
#[allow(deprecated)]
fn diagnostic_logs_are_chunked_and_linked_to_the_failure_event() {
    let content = format!("[ERR] {}", "界".repeat(16 * 1024 + 5));
    let expected_content = content.clone();
    let options = sentry::ClientOptions::new().enable_logs(true);
    let envelopes = sentry::test::with_captured_envelopes_options(
        || {
            send(failure_report(), Some(one_log(content)), FailureAttachmentOutcome::NotSelected);
        },
        options,
    );

    let mut event_id = None;
    let mut log_bodies = Vec::new();
    let mut linked_event_ids = Vec::new();
    for envelope in &envelopes {
        for item in envelope.items() {
            match item {
                sentry::protocol::EnvelopeItem::Event(event) => {
                    event_id = Some(event.event_id.to_string());
                    assert_eq!(
                        event.extra["logs.status"],
                        sentry::protocol::Value::String("captured".to_string())
                    );
                }
                sentry::protocol::EnvelopeItem::ItemContainer(
                    sentry::protocol::ItemContainer::Logs(logs),
                ) => {
                    for log in logs.iter() {
                        log_bodies.push(log.body.clone());
                        linked_event_ids.push(
                            log.attributes
                                .get("sentry.event_id")
                                .expect("linked failure event id")
                                .clone(),
                        );
                        assert_eq!(
                            log.attributes["diagnostic.source"],
                            sentry::protocol::LogAttribute::from("maafw.log")
                        );
                    }
                }
                _ => {}
            }
        }
    }

    assert!(log_bodies.len() > 2);
    assert_eq!(log_bodies.concat(), expected_content);
    let expected_event_id = sentry::protocol::LogAttribute::from(
        event_id.expect("failure event should be captured"),
    );
    assert!(linked_event_ids.iter().all(|linked| linked == &expected_event_id));
}

#[test]
fn serialized_log_chunking_preserves_unicode_and_bounds_every_record() {
    let content = format!("{}{}", "界".repeat(8 * 1024), "\0".repeat(8 * 1024));
    let source = DiagnosticLog {
        source: "maafw.log".to_string(),
        kind: "maafw",
        content: content.clone(),
        raw_bytes: content.len() as u64,
    };
    let records = build_diagnostic_log_records(&source, context(), now());

    assert!(records.len() > 2);
    assert_eq!(
        records.iter().map(|record| record.body.as_str()).collect::<String>(),
        content
    );
    assert!(records.iter().all(|record| {
        serde_json::to_vec(&log_of(record))
            .is_ok_and(|serialized| serialized.len() <= MAX_SERIALIZED_DIAGNOSTIC_LOG_BYTES)
    }));
}

#[test]
#[allow(deprecated)]
fn sdk_log_batches_stay_below_the_relay_item_limit() {
    const SENTRY_LOG_ITEM_LIMIT_BYTES: usize = 1024 * 1024;

    // Control characters are a deliberate worst case: each byte expands to a
    // six-byte JSON escape sequence and forces more than one 100-record batch.
    let content = "\0".repeat(160 * 1024);
    let expected_content = content.clone();
    let options = sentry::ClientOptions::new().enable_logs(true);
    let envelopes = sentry::test::with_captured_envelopes_options(
        || {
            send(failure_report(), Some(one_log(content)), FailureAttachmentOutcome::NotSelected);
        },
        options,
    );

    let mut batch_count = 0;
    let mut bodies = Vec::new();
    for envelope in &envelopes {
        for item in envelope.items() {
            if let sentry::protocol::EnvelopeItem::ItemContainer(
                sentry::protocol::ItemContainer::Logs(logs),
            ) = item
            {
                batch_count += 1;
                assert!(logs.len() <= 100);
                assert!(
                    serde_json::to_vec(logs).expect("serialize logs item").len()
                        < SENTRY_LOG_ITEM_LIMIT_BYTES
                );
                bodies.extend(logs.iter().map(|record| record.body.clone()));
            }
        }
    }

    assert!(batch_count > 1);
    assert_eq!(bodies.concat(), expected_content);
}

#[test]
fn first_failure_is_retained_for_grouping_and_last_failure_is_preserved() {
    let mut roots = HashMap::new();
    let mut terminals = HashMap::new();
    let root = FailureSignal {
        node: "RootNode".to_string(),
        stage: "recognition".to_string(),
        source_task_id: 7,
        node_id: Some(1),
        duration_ms: Some(100),
    };
    let terminal = FailureSignal {
        node: "Collector".to_string(),
        stage: "action".to_string(),
        source_task_id: 8,
        node_id: Some(2),
        duration_ms: Some(10),
    };

    retain_failure_signals(&mut roots, &mut terminals, 42, root.clone());
    retain_failure_signals(&mut roots, &mut terminals, 42, terminal.clone());

    assert!(roots.get(&42).is_some_and(|kept| kept.same(&root)));
    assert!(terminals.get(&42).is_some_and(|kept| kept.same(&terminal)));
    assert!(!root.same(&terminal));
}

#[test]
fn event_tells_what_failed() {
    let event = capture_failure_event(failure_report(), None, FailureAttachmentOutcome::NotSelected);
    assert_eq!(event.message, "Maa task failed: DailyTask at EnterBattle (recognition)");
    assert_eq!(event.logger, "mxu.task");
    assert_eq!(event.transaction, "mxu.task.failure");
    assert_eq!(
        event.fingerprint,
        vec!["mxu-task-failure", "MaaEnd", "DailyTask", "EnterBattle", "recognition"]
    );
    assert_eq!(event.tags.get("result").map(String::as_str), Some("failure"));
    assert_eq!(event.tags.get("run.id").map(String::as_str), Some("run-123"));
    assert_eq!(event.tags.get("app.name").map(String::as_str), Some("MaaEnd"));
    assert_eq!(text_in(&event, "option.mode"), Some("normal"));
    assert_eq!(natural_in(&event, "failure.count"), Some(3));
    assert_eq!(natural_in(&event, "task.duration_ms"), Some(1_500));
    assert_eq!(natural_in(&event, "task.started_at_ms"), Some(10_000));
    assert_eq!(text_in(&event, "attachment.status"), Some("not_selected"));
    assert!(event.attachment.is_none());
    assert!(event.trace.is_none());
}

#[test]
fn event_without_names_or_signals_uses_placeholders() {
    let mut report = failure_report();
    report.task.name = String::new();
    report.failure = None;
    report.event_config.app_version = String::new();
    let event = capture_failure_event(report, None, FailureAttachmentOutcome::NotSelected);
    assert_eq!(event.message, "Maa task failed: unknown-task at terminal_failure (unknown)");
    assert_eq!(event.task_name, "unknown-task");
    assert_eq!(event.failure_node, "terminal_failure");
    assert_eq!(event.failure_stage, "unknown");
    assert!(!event.tags.contains_key("app.version"));
}

#[test]
fn repeated_terminal_failure_is_told_once() {
    let mut report = failure_report();
    report.terminal_failure = report.failure.clone();
    let event = capture_failure_event(report, None, FailureAttachmentOutcome::NotSelected);
    assert_eq!(text_in(&event, "failure.node"), Some("EnterBattle"));
    assert!(!event.extra.contains_key("terminal_failure.node"));
}

#[test]
fn omitted_evidence_is_explained() {
    let outcome = attachment_error_outcome(ImageBundleError::TooLarge {
        selected_raw_bytes: 9,
        bundle_bytes: Some(11),
    });
    let event = capture_failure_event(failure_report(), None, outcome);
    assert_eq!(text_in(&event, "attachment.status"), Some("bundle_too_large"));
    assert_eq!(natural_in(&event, "attachment.selected_raw_bytes"), Some(9));
    assert_eq!(natural_in(&event, "attachment.bundle_bytes"), Some(11));
    let event = capture_failure_event(
        failure_report(),
        None,
        attachment_error_outcome(ImageBundleError::NoEvidence),
    );
    assert_eq!(
        text_in(&event, "attachment.detail"),
        Some("no task-scoped evidence was found")
    );
}

#[test]
fn trace_of_the_report_goes_with_the_event() {
    let mut report = failure_report();
    report.trace_context =
        Some(TraceContext { trace_id: [1; 16], span_id: [2; 8], detail: () });
    let event = capture_failure_event(report, None, FailureAttachmentOutcome::NotSelected);
    let trace = event.trace.expect("trace");
    assert_eq!(trace.trace_id, [1; 16]);
    assert_eq!(trace.span_id, [2; 8]);
}

#[test]
fn tags_are_cut_to_two_hundred_characters() {
    assert_eq!(tag_value("short"), "short");
    assert_eq!(tag_value(&"界".repeat(250)), "界".repeat(200));
}

#[test]
fn log_levels_follow_their_marks() {
    for (text, level) in [
        ("[FTL] x [ERR]", LogLevel::Fatal),
        ("a [fatal] b", LogLevel::Fatal),
        ("[ERR] failed [WRN]", LogLevel::Error),
        ("[Error]", LogLevel::Error),
        ("[WRN] slow", LogLevel::Warn),
        ("[warn][DBG]", LogLevel::Warn),
        ("[dbg]", LogLevel::Debug),
        ("[DEBUG]", LogLevel::Debug),
        ("ERROR", LogLevel::Info),
        ("", LogLevel::Info),
    ] {
        assert_eq!(diagnostic_log_level(text), level);
    }
}

#[test]
fn log_attributes_are_bounded() {
    assert_eq!(bounded_log_attribute("short"), "short");
    assert_eq!(bounded_log_attribute("a\tb\u{85}c"), "a\u{fffd}b\u{fffd}c");
    assert_eq!(
        bounded_log_attribute(&"界".repeat(MAX_DIAGNOSTIC_LOG_ATTRIBUTE_CHARACTERS + 1)),
        "界".repeat(MAX_DIAGNOSTIC_LOG_ATTRIBUTE_CHARACTERS)
    );
}

#[test]
fn records_number_their_parts() {
    let logs = one_log("x".repeat(20_000));
    let records = build_diagnostic_log_records(&logs.entries[0], context(), now());
    let count = records.len() as u64;
    assert!(count > 1);
    for (index, record) in records.iter().enumerate() {
        let log = log_of(record);
        assert_eq!(
            log.attributes["log.chunk_index"],
            sentry::protocol::LogAttribute::from(index as u64)
        );
        assert_eq!(
            log.attributes["log.chunk_count"],
            sentry::protocol::LogAttribute::from(count)
        );
    }
}

#[test]
fn fitting_is_decided_by_the_serialized_length() {
    let attributes = vec![
        ("diagnostic.source".to_string(), Datum::Text("a \"quoted\"\n界\u{1}".to_string())),
        ("task.id".to_string(), Datum::Integer(-42)),
        ("log.raw_bytes".to_string(), Datum::Natural(u64::MAX)),
        ("diagnostic.attributes_truncated".to_string(), Datum::Flag(true)),
    ];
    let time = Timestamp { secs: 1_700_000_000, nanos: 123_456_789 };
    let length_of = |body: &str, trace_id: Option<[u8; 16]>| {
        let record = LogRecord {
            level: LogLevel::Fatal,
            body: body.to_string(),
            trace_id,
            timestamp: time,
            attributes: Vec::new(),
        };
        let mut log = log_of(&record);
        log.attributes = attributes
            .iter()
            .map(|(key, value)| (key.clone(), value_of(value).into()))
            .collect();
        serde_json::to_vec(&log).expect("serialize").len()
    };
    for trace_id in [None, Some([7u8; 16])] {
        let room = MAX_SERIALIZED_DIAGNOSTIC_LOG_BYTES - length_of("", trace_id);
        let full = "x".repeat(room);
        assert_eq!(length_of(&full, trace_id), MAX_SERIALIZED_DIAGNOSTIC_LOG_BYTES);
        assert!(diagnostic_log_fits(&full, &attributes, trace_id, time));
        let over = "x".repeat(room + 1);
        assert!(!diagnostic_log_fits(&over, &attributes, trace_id, time));
        let escaped = "\u{1}".repeat(room / 6 + 1);
        assert!(!diagnostic_log_fits(&escaped, &attributes, trace_id, time));
        let chunks = serialized_log_chunks(&over, &attributes, trace_id, time);
        assert_eq!(chunks.len(), 2);
        assert_eq!(chunks[0], full);
        assert_eq!(chunks[1], "x");
    }
}

#[test]
fn full_batches_of_records_are_accepted() {
    let logs = one_log("\u{1}".repeat(200_000));
    let records = capture_diagnostic_logs(&logs, context(), now);
    assert!(records.len() > MAX_BATCHED_RECORDS);
    let batch: Vec<sentry::protocol::Log> =
        records.iter().take(MAX_BATCHED_RECORDS).map(log_of).collect();
    let length = serde_json::to_vec(&batch).expect("serialize").len();
    assert!(length + 3 * 1024 * MAX_BATCHED_RECORDS < MAX_BATCH_BYTES);
}

#[test]
fn records_name_the_event_they_belong_to() {
    let mut report = failure_report();
    report.trace_context =
        Some(TraceContext { trace_id: [1; 16], span_id: [2; 8], detail: () });
    let mut logs = one_log("first".to_string());
    logs.entries.extend(one_log("second".to_string()).entries);
    let event = capture_failure_event(report, Some(&logs), FailureAttachmentOutcome::NotSelected);
    let context = log_context(&event, "run-123", 42, "event-1");
    let records = capture_diagnostic_logs(&logs, context, now);
    let bodies: Vec<&str> = records.iter().map(|record| record.body.as_str()).collect();
    assert_eq!(bodies, vec!["first", "second"]);
    for record in &records {
        assert_eq!(record.trace_id, Some([1; 16]));
        let log = log_of(record);
        for (key, value) in [
            ("sentry.event_id", "event-1"),
            ("run.id", "run-123"),
            ("task.name", "DailyTask"),
            ("failure.node", "EnterBattle"),
            ("failure.stage", "recognition"),
            ("trace.id", "01010101010101010101010101010101"),
            ("span.id", "0202020202020202"),
        ] {
            assert_eq!(log.attributes[key], sentry::protocol::LogAttribute::from(value));
        }
        assert_eq!(log.attributes["task.id"], sentry::protocol::LogAttribute::from(42i64));
    }
}

#[test]
fn chunks_are_as_long_and_as_few_as_can_be() {
    let attributes = vec![("task.id".to_string(), Datum::Integer(7))];
    let time = Timestamp { secs: 1_700_000_000, nanos: 0 };
    let text = "a\"\u{1}界".repeat(60_000);
    let chunks = serialized_log_chunks(&text, &attributes, None, time);
    assert_eq!(chunks.concat(), text);
    assert!(chunks.len() > 2);
    for pair in chunks.windows(2) {
        assert!(diagnostic_log_fits(&pair[0], &attributes, None, time));
        let mut longer = pair[0].clone();
        longer.push(pair[1].chars().next().expect("a character"));
        assert!(!diagnostic_log_fits(&longer, &attributes, None, time));
    }
    let mut room: usize = 0;
    while diagnostic_log_fits(&"x".repeat(room + 1), &attributes, None, time) {
        room += 1024;
    }
    while !diagnostic_log_fits(&"x".repeat(room), &attributes, None, time) {
        room -= 1;
    }
    let width = serde_json::to_string(&text).expect("serialize").len() - 2;
    let fewest = (width + room - 1) / room;
    assert_eq!(chunks.len(), fewest);
}
