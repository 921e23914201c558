//! The bounded tails of the logs of a failed task.

use vstd::prelude::*;
use vstd::utf8::{decode_utf8, valid_utf8};
use crate::evidence::{less, log_views, push_text, LogPick, LogSlice};
use crate::order::{lemma_sorted_mapped, sorted_by, stable_sort};
use crate::path::{kind_of, log_kind, log_priority, priority_of};
use crate::selection::{file_warning, Selection, TaskEvidenceSelection};
use crate::text::{
    at_most, blank, is_blank, text_le, trim, trimmed, views, Padding,
};

verus! {

/// All logs together contribute no more bytes than this.
pub const MAX_LOG_RAW_BYTES: u64 = 1048576;

/// One log contributes no more bytes than this.
pub const MAX_LOG_FILE_BYTES: u64 = 524288;

/// The tail of one log.
#[derive(Debug)]
pub struct DiagnosticLog {
    pub source: String,
    pub kind: &'static str,
    pub content: String,
    pub raw_bytes: u64,
}

/// The content of the tail of one log.
#[verifier::ext_equal]
pub struct LogText {
    pub source: Seq<char>,
    pub kind: Seq<char>,
    pub content: Seq<char>,
    pub raw_bytes: u64,
}

impl View for DiagnosticLog {
    type V = LogText;

    open spec fn view(&self) -> LogText {
        LogText {
            source: self.source@,
            kind: self.kind@,
            content: self.content@,
            raw_bytes: self.raw_bytes,
        }
    }
}

/// The tails of the logs of a task.
#[derive(Debug)]
pub struct DiagnosticLogs {
    pub entries: Vec<DiagnosticLog>,
    pub selected_raw_bytes: u64,
    pub truncated: bool,
    pub warnings: Vec<String>,
}

/// The content of the tails of the logs of a task.
#[verifier::ext_equal]
pub struct LogTexts {
    pub entries: Seq<LogText>,
    pub selected_raw_bytes: u64,
    pub truncated: bool,
    pub warnings: Seq<Seq<char>>,
}

pub open spec fn log_texts(entries: Seq<DiagnosticLog>) -> Seq<LogText> {
    entries.map_values(|entry: DiagnosticLog| entry@)
}

impl View for DiagnosticLogs {
    type V = LogTexts;

    open spec fn view(&self) -> LogTexts {
        LogTexts {
            entries: log_texts(self.entries@),
            selected_raw_bytes: self.selected_raw_bytes,
            truncated: self.truncated,
            warnings: views(self.warnings@),
        }
    }
}

impl Default for DiagnosticLogs {
    fn default() -> (logs: Self)
        ensures
            logs@ == LogTexts::empty(seq![]),
    {
        let logs = DiagnosticLogs {
            entries: Vec::new(),
            selected_raw_bytes: 0,
            truncated: false,
            warnings: Vec::new(),
        };
        assert(logs@ =~= LogTexts::empty(seq![]));
        logs
    }
}

/// What `String::from_utf8_lossy` makes of some bytes.
pub uninterp spec fn lossy_text(bytes: Seq<u8>) -> Seq<char>;

/// `String::from_utf8_lossy` decodes bytes and puts a replacement character where they are not
/// UTF-8. Bytes that are UTF-8 throughout are decoded as they stand.
#[verifier::external_body]
fn decode_lossy(bytes: &[u8]) -> (text: String)
    ensures
        text@ == lossy_text(bytes@),
        valid_utf8(bytes@) ==> text@ == decode_utf8(bytes@),
{
    String::from_utf8_lossy(bytes).into_owned()
}

/// The smaller of two numbers.
pub open spec fn least(left: u64, right: u64) -> u64 {
    if left <= right {
        left
    } else {
        right
    }
}

impl LogTexts {
    /// No log was read yet.
    pub open spec fn empty(warnings: Seq<Seq<char>>) -> LogTexts {
        LogTexts { entries: seq![], selected_raw_bytes: 0, truncated: false, warnings }
    }

    /// How many bytes may still be read.
    pub open spec fn budget(self) -> u64 {
        less(MAX_LOG_RAW_BYTES, self.selected_raw_bytes)
    }

    /// How many bytes of a log range of the given length are read.
    pub open spec fn read_len(self, selected_len: u64) -> u64 {
        least(least(selected_len, MAX_LOG_FILE_BYTES), self.budget())
    }

    /// The logs after `raw_bytes` bytes of one more were decoded to `text`.
    ///
    /// A blank text is left out, but not that its range was longer than what was read.
    pub open spec fn after_text(
        self,
        name: Seq<char>,
        cut: bool,
        raw_bytes: u64,
        text: Seq<char>,
    ) -> LogTexts {
        let content = trimmed(text, Padding::Nul);
        if is_blank(content) {
            LogTexts { truncated: self.truncated || cut, ..self }
        } else {
            LogTexts {
                entries: self.entries.push(
                    LogText { source: name, kind: kind_of(name), content, raw_bytes },
                ),
                selected_raw_bytes: if self.selected_raw_bytes + raw_bytes <= u64::MAX {
                    (self.selected_raw_bytes + raw_bytes) as u64
                } else {
                    u64::MAX
                },
                truncated: self.truncated || cut,
                ..self
            }
        }
    }

    /// The logs after one more was read.
    pub open spec fn after_read(
        self,
        name: Seq<char>,
        cut: bool,
        outcome: Result<Vec<u8>, String>,
    ) -> LogTexts {
        match outcome {
            Ok(bytes) => if bytes@.len() == 0 {
                self
            } else {
                self.after_text(name, cut, bytes@.len() as u64, lossy_text(bytes@))
            },
            Err(error) => LogTexts {
                warnings: self.warnings.push("read_log_failed:"@ + name + ":"@ + error@),
                ..self
            },
        }
    }

    /// The logs after one more range, of which the outcome of reading is given.
    pub open spec fn after_log<H>(
        self,
        log: LogPick<H>,
        outcome: Result<Vec<u8>, String>,
    ) -> LogTexts {
        let selected_len = less(log.end, log.start);
        if self.budget() == 0 {
            LogTexts { truncated: true, ..self }
        } else if self.read_len(selected_len) == 0 {
            self
        } else {
            self.after_read(log.archive_name, self.read_len(selected_len) < selected_len, outcome)
        }
    }

    /// The logs after the given ranges.
    pub open spec fn after_logs<H>(
        self,
        logs: Seq<LogPick<H>>,
        outcomes: Seq<Result<Vec<u8>, String>>,
    ) -> LogTexts
        decreases logs.len(),
    {
        if logs.len() == 0 {
            self
        } else {
            self.after_logs(logs.drop_last(), outcomes.drop_last()).after_log(
                logs.last(),
                outcomes.last(),
            )
        }
    }
}

/// The order in which logs are read: the most telling first, then by name.
pub open spec fn log_order<H>() -> spec_fn(LogPick<H>, LogPick<H>) -> bool {
    |left: LogPick<H>, right: LogPick<H>|
        {
            let (first, second) = (
                priority_of(left.archive_name),
                priority_of(right.archive_name),
            );
            first < second || first == second && text_le(left.archive_name, right.archive_name)
        }
}

/// `read` was asked for the tail of `log` that still fits, and gave `outcome`.
pub open spec fn read_gave<H, R: Fn(&H, u64, u64) -> Result<Vec<u8>, String>>(
    read: R,
    logs: LogTexts,
    log: LogPick<H>,
    outcome: Result<Vec<u8>, String>,
) -> bool {
    let len = logs.read_len(less(log.end, log.start));
    call_ensures(read, (&log.source, less(log.end, len), len), outcome)
}

/// `outcomes` are what `read` gave for the ranges that were read.
pub open spec fn are_reads<H, R: Fn(&H, u64, u64) -> Result<Vec<u8>, String>>(
    read: R,
    start: LogTexts,
    logs: Seq<LogPick<H>>,
    outcomes: Seq<Result<Vec<u8>, String>>,
) -> bool {
    &&& outcomes.len() == logs.len()
    &&& forall|i: int|
        0 <= i < logs.len() && start.after_logs(logs.take(i), outcomes.take(i)).read_len(
            less(logs[i].end, logs[i].start),
        ) > 0 ==> #[trigger] read_gave(
            read,
            start.after_logs(logs.take(i), outcomes.take(i)),
            logs[i],
            outcomes[i],
        )
}

/// Adds the text of a log: `raw_bytes` bytes, of which `text` was decoded.
///
/// `cut` says that the range of the log is longer than that.
pub fn keep_log_text(
    logs: &mut DiagnosticLogs,
    name: &str,
    cut: bool,
    raw_bytes: u64,
    text: &str,
)
    ensures
        final(logs)@ == old(logs)@.after_text(name@, cut, raw_bytes, text@),
{
    logs.truncated = logs.truncated || cut;
    let content = trim(text, Padding::Nul);
    if blank(content.as_str()) {
        return;
    }
    let ghost before = logs.entries@;
    logs.selected_raw_bytes = logs.selected_raw_bytes.saturating_add(raw_bytes);
    let entry = DiagnosticLog {
        source: name.to_owned(),
        kind: log_kind(name),
        content,
        raw_bytes,
    };
    let ghost added = entry@;
    logs.entries.push(entry);
    assert(log_texts(logs.entries@) =~= log_texts(before).push(added));
}

/// What was read is decoded as it stands where it is UTF-8.
pub open spec fn is_decoded(outcome: Result<Vec<u8>, String>) -> bool {
    outcome matches Ok(bytes) ==> bytes@.len() > 0 && valid_utf8(bytes@) ==> lossy_text(bytes@)
        == decode_utf8(bytes@)
}

/// Adds the outcome of reading a log.
fn keep_read(
    logs: &mut DiagnosticLogs,
    name: &str,
    cut: bool,
    outcome: Result<Vec<u8>, String>,
)
    ensures
        final(logs)@ == old(logs)@.after_read(name@, cut, outcome),
        is_decoded(outcome),
{
    match outcome {
        Ok(bytes) => {
            if bytes.len() > 0 {
                let text = decode_lossy(bytes.as_slice());
                keep_log_text(logs, name, cut, bytes.len() as u64, text.as_str());
            }
        },
        Err(error) => {
            push_text(&mut logs.warnings, file_warning("read_log_failed:", name, error.as_str()));
        },
    }
}

/// Sorts logs into the order in which they are read.
fn sort_for_reading<H>(logs: Vec<LogSlice<H>>) -> (sorted: Vec<LogSlice<H>>)
    ensures
        log_views(sorted@) == sorted_by(log_views(logs@), log_order()),
{
    let ghost order = |a: LogSlice<H>, b: LogSlice<H>| log_order()(a@, b@);
    let le = |a: &LogSlice<H>, b: &LogSlice<H>| -> (answer: bool)
        ensures
            answer == log_order()(a@, b@),
        {
            let first: u8 = log_priority(a.archive_name.as_str());
            let second: u8 = log_priority(b.archive_name.as_str());
            first < second || first == second && at_most(
                a.archive_name.as_str(),
                b.archive_name.as_str(),
            )
        };
    proof {
        lemma_sorted_mapped(logs@, |log: LogSlice<H>| log@, order, log_order());
    }
    stable_sort(logs, le, Ghost(order))
}

/// `logs` is what `read` gives for the given ranges, read in their order.
pub open spec fn are_logs_of<H, R: Fn(&H, u64, u64) -> Result<Vec<u8>, String>>(
    logs: LogTexts,
    warnings: Seq<Seq<char>>,
    ranges: Seq<LogPick<H>>,
    read: R,
) -> bool {
    exists|outcomes: Seq<Result<Vec<u8>, String>>|
        {
            &&& #[trigger] are_reads(read, LogTexts::empty(warnings), ranges, outcomes)
            &&& forall|i: int| 0 <= i < outcomes.len() ==> is_decoded(#[trigger] outcomes[i])
            &&& logs == LogTexts::empty(warnings).after_logs(ranges, outcomes)
        }
}

/// `read` gives no more bytes than it is asked for.
pub open spec fn gives_at_most<H, R: Fn(&H, u64, u64) -> Result<Vec<u8>, String>>(read: R) -> bool {
    forall|source: &H, start: u64, len: u64, bytes: Vec<u8>| #[trigger]
        call_ensures(read, (source, start, len), Ok::<Vec<u8>, String>(bytes)) ==> bytes@.len()
            <= len
}

/// Reads the tails of the selected logs, the most telling logs first.
///
/// The tail of each range is kept because what explains a failure is normally written last. That a
/// range is longer than what may be read of it is told by `truncated`.
/// `read` reads a number of bytes of an open file from an offset.
pub fn build_diagnostic_logs<H, R: Fn(&H, u64, u64) -> Result<Vec<u8>, String>>(
    selection: &mut TaskEvidenceSelection<H>,
    read: R,
) -> (logs: DiagnosticLogs)
    requires
        forall|source: &H, start: u64, len: u64| call_requires(read, (source, start, len)),
    ensures
        final(selection)@ == (Selection {
            logs: sorted_by(old(selection)@.logs, log_order()),
            warnings: seq![],
            ..old(selection)@
        }),
        are_logs_of(logs@, old(selection)@.warnings, final(selection)@.logs, read),
        gives_at_most::<H, R>(read) ==> logs_bounded(logs@),
{
    let ghost given = selection@;
    let mut unsorted: Vec<LogSlice<H>> = Vec::new();
    std::mem::swap(&mut unsorted, &mut selection.logs);
    selection.logs = sort_for_reading(unsorted);
    let mut logs = DiagnosticLogs::default();
    std::mem::swap(&mut logs.warnings, &mut selection.warnings);
    let ghost start = LogTexts::empty(given.warnings);
    let ghost all = log_views(selection.logs@);
    let ghost mut outcomes: Seq<Result<Vec<u8>, String>> = seq![];
    proof {
        assert(logs@ =~= start);
        assert(views(selection.warnings@) =~= seq![]);
        assert(selection@ =~= (Selection {
            logs: sorted_by(given.logs, log_order()),
            warnings: seq![],
            ..given
        }));
        assert(all.take(0) =~= seq![]);
    }
    let mut index: usize = 0;
    while index < selection.logs.len()
        invariant
            index <= selection.logs@.len(),
            all == log_views(selection.logs@),
            outcomes.len() == index,
            logs@ == start.after_logs(all.take(index as int), outcomes),
            forall|i: int| 0 <= i < index ==> is_decoded(#[trigger] outcomes[i]),
            selection@ == (Selection {
                logs: sorted_by(given.logs, log_order()),
                warnings: seq![],
                ..given
            }),
            forall|source: &H, start: u64, len: u64| call_requires(read, (source, start, len)),
            forall|i: int|
                0 <= i < index && start.after_logs(all.take(i), outcomes.take(i)).read_len(
                    less(all[i].end, all[i].start),
                ) > 0 ==> #[trigger] read_gave(
                    read,
                    start.after_logs(all.take(i), outcomes.take(i)),
                    all[i],
                    outcomes[i],
                ),
        decreases selection.logs@.len() - index,
    {
        let ghost before = logs@;
        let ghost earlier = outcomes;
        let ghost mut answer: Result<Vec<u8>, String> = Err(arbitrary());
        let entry = &selection.logs[index];
        assert(all[index as int] == entry@);
        let budget: u64 = MAX_LOG_RAW_BYTES.saturating_sub(logs.selected_raw_bytes);
        if budget == 0 {
            logs.truncated = true;
        } else {
            let selected_len: u64 = entry.end.saturating_sub(entry.start);
            let mut read_len: u64 = selected_len;
            if read_len > MAX_LOG_FILE_BYTES {
                read_len = MAX_LOG_FILE_BYTES;
            }
            if read_len > budget {
                read_len = budget;
            }
            if read_len > 0 {
                let outcome = read(&entry.source, entry.end.saturating_sub(read_len), read_len);
                proof {
                    answer = outcome;
                    assert(read_gave(read, before, all[index as int], outcome));
                }
                keep_read(
                    &mut logs,
                    entry.archive_name.as_str(),
                    read_len < selected_len,
                    outcome,
                );
            }
        }
        proof {
            outcomes = outcomes.push(answer);
            assert(logs@ == before.after_log(all[index as int], answer));
            assert(all.take(index + 1).drop_last() =~= all.take(index as int));
            assert(outcomes.drop_last() =~= earlier);
            assert forall|i: int| 0 <= i < index + 1 implies is_decoded(#[trigger] outcomes[i]) by {
                if i < index {
                    assert(outcomes[i] == earlier[i]);
                }
            }
            assert forall|i: int|
                0 <= i < index + 1 && start.after_logs(all.take(i), outcomes.take(i)).read_len(
                    less(all[i].end, all[i].start),
                ) > 0 implies #[trigger] read_gave(
                read,
                start.after_logs(all.take(i), outcomes.take(i)),
                all[i],
                outcomes[i],
            ) by {
                assert(outcomes.take(i) =~= earlier.take(i));
                if i < index {
                    assert(read_gave(
                        read,
                        start.after_logs(all.take(i), earlier.take(i)),
                        all[i],
                        earlier[i],
                    ));
                } else {
                    assert(earlier.take(i) =~= earlier);
                }
            }
        }
        index += 1;
    }
    assert(all.take(index as int) =~= all);
    assert(are_reads(read, LogTexts::empty(given.warnings), selection@.logs, outcomes));
    proof {
        if gives_at_most::<H, R>(read) {
            lemma_reads_fit(read, LogTexts::empty(given.warnings), selection@.logs, outcomes);
            lemma_logs_bounded(given.warnings, selection@.logs, outcomes);
        }
    }
    logs
}

/// The bytes that the given logs have together.
pub open spec fn total_raw_bytes(entries: Seq<LogText>) -> int
    decreases entries.len(),
{
    if entries.len() == 0 {
        0
    } else {
        total_raw_bytes(entries.drop_last()) + entries.last().raw_bytes
    }
}

/// No read gave more bytes than it was asked for. What was not read does not matter.
pub open spec fn reads_fit<H>(
    start: LogTexts,
    logs: Seq<LogPick<H>>,
    outcomes: Seq<Result<Vec<u8>, String>>,
) -> bool {
    &&& outcomes.len() == logs.len()
    &&& forall|i: int|
        0 <= i < logs.len() ==> fits_read(
            start.after_logs(logs.take(i), outcomes.take(i)),
            logs[i],
            #[trigger] outcomes[i],
        )
}

/// If the range is read at all, no more bytes came than were asked for.
pub open spec fn fits_read<H>(
    logs: LogTexts,
    log: LogPick<H>,
    outcome: Result<Vec<u8>, String>,
) -> bool {
    let len = logs.read_len(less(log.end, log.start));
    len > 0 ==> (outcome matches Ok(bytes) ==> bytes@.len() <= len)
}

proof fn lemma_reads_fit<H, R: Fn(&H, u64, u64) -> Result<Vec<u8>, String>>(
    read: R,
    start: LogTexts,
    logs: Seq<LogPick<H>>,
    outcomes: Seq<Result<Vec<u8>, String>>,
)
    requires
        are_reads(read, start, logs, outcomes),
        gives_at_most::<H, R>(read),
    ensures
        reads_fit(start, logs, outcomes),
{
    assert forall|i: int| 0 <= i < logs.len() implies fits_read(
        start.after_logs(logs.take(i), outcomes.take(i)),
        logs[i],
        #[trigger] outcomes[i],
    ) by {
        let before = start.after_logs(logs.take(i), outcomes.take(i));
        let len = before.read_len(less(logs[i].end, logs[i].start));
        if len > 0 {
            assert(read_gave(read, before, logs[i], outcomes[i]));
        }
    }
}

/// The logs are within their common budget and each within its own, the sum that is reported is
/// the sum of the parts, and no log is empty.
pub open spec fn logs_bounded(logs: LogTexts) -> bool {
    &&& logs.selected_raw_bytes <= MAX_LOG_RAW_BYTES
    &&& logs.selected_raw_bytes == total_raw_bytes(logs.entries)
    &&& forall|i: int|
        0 <= i < logs.entries.len() ==> {
            &&& 0 < (#[trigger] logs.entries[i]).raw_bytes <= MAX_LOG_FILE_BYTES
            &&& !is_blank(logs.entries[i].content)
            &&& logs.entries[i].kind == kind_of(logs.entries[i].source)
        }
}

proof fn lemma_log_bounded<H>(
    before: LogTexts,
    log: LogPick<H>,
    outcome: Result<Vec<u8>, String>,
)
    requires
        logs_bounded(before),
        fits_read(before, log, outcome),
    ensures
        logs_bounded(before.after_log(log, outcome)),
        before.after_log(log, outcome).entries.len() <= before.entries.len() + 1,
{
    let result = before.after_log(log, outcome);
    if result.entries.len() > before.entries.len() {
        assert(result.entries.drop_last() =~= before.entries);
        assert forall|i: int| 0 <= i < result.entries.len() implies {
            &&& 0 < (#[trigger] result.entries[i]).raw_bytes <= MAX_LOG_FILE_BYTES
            &&& !is_blank(result.entries[i].content)
            &&& result.entries[i].kind == kind_of(result.entries[i].source)
        } by {
            if i < before.entries.len() {
                assert(result.entries[i] == before.entries[i]);
            }
        }
    }
}

/// Whatever is read, the logs stay within their budgets.
pub proof fn lemma_logs_bounded<H>(
    warnings: Seq<Seq<char>>,
    logs: Seq<LogPick<H>>,
    outcomes: Seq<Result<Vec<u8>, String>>,
)
    requires
        reads_fit(LogTexts::empty(warnings), logs, outcomes),
    ensures
        logs_bounded(LogTexts::empty(warnings).after_logs(logs, outcomes)),
        LogTexts::empty(warnings).after_logs(logs, outcomes).entries.len() <= logs.len(),
    decreases logs.len(),
{
    let start = LogTexts::empty(warnings);
    if logs.len() > 0 {
        let last = logs.len() - 1;
        let front = logs.drop_last();
        let outcomes_front = outcomes.drop_last();
        let before = start.after_logs(front, outcomes_front);
        assert forall|i: int| 0 <= i < front.len() implies fits_read(
            start.after_logs(front.take(i), outcomes_front.take(i)),
            front[i],
            #[trigger] outcomes_front[i],
        ) by {
            assert(outcomes[i] == outcomes_front[i]);
            assert(front.take(i) =~= logs.take(i));
            assert(outcomes_front.take(i) =~= outcomes.take(i));
        }
        lemma_logs_bounded(warnings, front, outcomes_front);
        assert(logs.take(last) =~= front);
        assert(outcomes.take(last) =~= outcomes_front);
        assert(outcomes[last] == outcomes.last());
        lemma_log_bounded(before, logs.last(), outcomes.last());
    }
}

/// Where the budget is used up, and where bytes of a range were read but the range is longer than
/// what may be read of it, the logs are reported as truncated, even if what was read is blank. They
/// stay so.
pub proof fn lemma_truncation_reported<H>(
    logs: LogTexts,
    log: LogPick<H>,
    outcome: Result<Vec<u8>, String>,
)
    ensures
        logs.truncated ==> logs.after_log(log, outcome).truncated,
        logs.budget() == 0 ==> logs.after_log(log, outcome).truncated,
        logs.read_len(less(log.end, log.start)) < less(log.end, log.start) && outcome is Ok
            && outcome->Ok_0@.len() > 0 ==> logs.after_log(log, outcome).truncated,
{
}

/// A limit that any of the ranges ran into is reported once all of them were read.
pub proof fn lemma_limit_hit_reported<H>(
    start: LogTexts,
    logs: Seq<LogPick<H>>,
    outcomes: Seq<Result<Vec<u8>, String>>,
    index: int,
)
    requires
        outcomes.len() == logs.len(),
        0 <= index < logs.len(),
        ({
            let before = start.after_logs(logs.take(index), outcomes.take(index));
            let selected_len = less(logs[index].end, logs[index].start);
            ||| before.budget() == 0
            ||| before.read_len(selected_len) < selected_len && outcomes[index] is Ok
                && outcomes[index]->Ok_0@.len() > 0
        }),
    ensures
        start.after_logs(logs, outcomes).truncated,
    decreases logs.len(),
{
    let last = logs.len() - 1;
    let front = logs.drop_last();
    let outcomes_front = outcomes.drop_last();
    let before = start.after_logs(front, outcomes_front);
    if index < last {
        assert(front.take(index) =~= logs.take(index));
        assert(outcomes_front.take(index) =~= outcomes.take(index));
        lemma_limit_hit_reported(start, front, outcomes_front, index);
    } else {
        assert(logs.take(index) =~= front);
        assert(outcomes.take(index) =~= outcomes_front);
    }
    lemma_truncation_reported(before, logs.last(), outcomes.last());
}

/// Two readings came to the same.
pub open spec fn same_outcome(
    first: Result<Vec<u8>, String>,
    second: Result<Vec<u8>, String>,
) -> bool {
    match (first, second) {
        (Ok(bytes), Ok(others)) => bytes@ == others@,
        (Err(error), Err(other)) => error@ == other@,
        _ => false,
    }
}

/// `read` always gives the same for the same range of an open file.
pub open spec fn reads_alike<H, R: Fn(&H, u64, u64) -> Result<Vec<u8>, String>>(read: R) -> bool {
    forall|
        source: &H,
        start: u64,
        len: u64,
        first: Result<Vec<u8>, String>,
        second: Result<Vec<u8>, String>,
    |
        #[trigger] call_ensures(read, (source, start, len), first) && #[trigger] call_ensures(
            read,
            (source, start, len),
            second,
        ) ==> same_outcome(first, second)
}

proof fn lemma_same_reads<H, R: Fn(&H, u64, u64) -> Result<Vec<u8>, String>>(
    read: R,
    start: LogTexts,
    logs: Seq<LogPick<H>>,
    first: Seq<Result<Vec<u8>, String>>,
    second: Seq<Result<Vec<u8>, String>>,
    count: int,
)
    requires
        reads_alike::<H, R>(read),
        are_reads(read, start, logs, first),
        are_reads(read, start, logs, second),
        0 <= count <= logs.len(),
    ensures
        start.after_logs(logs.take(count), first.take(count)) == start.after_logs(
            logs.take(count),
            second.take(count),
        ),
    decreases count,
{
    if count > 0 {
        let at = count - 1;
        lemma_same_reads(read, start, logs, first, second, at);
        assert(logs.take(count).drop_last() =~= logs.take(at));
        assert(first.take(count).drop_last() =~= first.take(at));
        assert(second.take(count).drop_last() =~= second.take(at));
        let before = start.after_logs(logs.take(at), first.take(at));
        if before.read_len(less(logs[at].end, logs[at].start)) > 0 {
            assert(read_gave(read, before, logs[at], first[at]));
            assert(read_gave(
                read,
                start.after_logs(logs.take(at), second.take(at)),
                logs[at],
                second[at],
            ));
            assert(same_outcome(first[at], second[at]));
        }
    }
}

/// The same ranges, read in the same state of the files, come to the same logs.
pub proof fn lemma_same_logs<H, R: Fn(&H, u64, u64) -> Result<Vec<u8>, String>>(
    first: LogTexts,
    second: LogTexts,
    warnings: Seq<Seq<char>>,
    ranges: Seq<LogPick<H>>,
    read: R,
)
    requires
        reads_alike::<H, R>(read),
        are_logs_of(first, warnings, ranges, read),
        are_logs_of(second, warnings, ranges, read),
    ensures
        first == second,
{
    let start = LogTexts::empty(warnings);
    let ones = choose|outcomes: Seq<Result<Vec<u8>, String>>|
        #[trigger] are_reads(read, start, ranges, outcomes) && first == start.after_logs(
            ranges,
            outcomes,
        );
    let others = choose|outcomes: Seq<Result<Vec<u8>, String>>|
        #[trigger] are_reads(read, start, ranges, outcomes) && second == start.after_logs(
            ranges,
            outcomes,
        );
    lemma_same_reads(read, start, ranges, ones, others, ranges.len() as int);
    assert(ranges.take(ranges.len() as int) =~= ranges);
    assert(ones.take(ranges.len() as int) =~= ones);
    assert(others.take(ranges.len() as int) =~= others);
}

} // verus!
