//! The log that is shown to the user and kept in a file.

use crate::text;
use crate::text::{byte_len, decimal_text, truncate_to_bytes};
use vstd::prelude::*;
use vstd::utf8::*;

verus! {

/// How many log lines are kept in memory.
pub const LOG_LIMIT: usize = 800;

/// How many log lines are shown if nothing else is asked for.
pub const DEFAULT_LOG_TAIL: usize = 200;

/// The size at which the log file is rotated (2 MiB).
pub const MAX_LOG_FILE_BYTES: u64 = 2_097_152;

/// The longest message in bytes (8 KiB).
pub const MAX_LOG_MESSAGE_BYTES: usize = 8_192;

/// What a line of the log file takes beside its message, at most.
pub const LOG_RECORD_OVERHEAD_BYTES: u64 = 96;

/// A line of the log.
#[derive(Debug)]
pub struct RuntimeLog {
    pub ts_ms: u64,
    pub level: String,
    pub message: String,
}

/// A line of the log as plain values.
#[verifier::ext_equal]
pub struct LogView {
    pub ts_ms: u64,
    pub level: Seq<char>,
    pub message: Seq<char>,
}

impl View for RuntimeLog {
    type V = LogView;

    open spec fn view(&self) -> LogView {
        LogView { ts_ms: self.ts_ms, level: self.level@, message: self.message@ }
    }
}

impl Clone for RuntimeLog {
    fn clone(&self) -> (copy: Self)
        ensures
            copy == *self,
    {
        RuntimeLog {
            ts_ms: self.ts_ms,
            level: self.level.clone(),
            message: self.message.clone(),
        }
    }
}

/// What ends a message that was cut off.
pub open spec fn truncation_suffix() -> Seq<char> {
    "… [truncated]"@
}

/// A message, cut off where it is too long.
pub open spec fn bounded(message: Seq<char>) -> Seq<char> {
    if encode_utf8(message).len() <= MAX_LOG_MESSAGE_BYTES {
        message
    } else {
        text::fitting_start(
            message,
            MAX_LOG_MESSAGE_BYTES - encode_utf8(truncation_suffix()).len(),
        ) + truncation_suffix()
    }
}

/// The last `n` elements of a log.
pub open spec fn last_lines<T>(lines: Seq<T>, n: int) -> Seq<T> {
    if lines.len() > n {
        lines.skip(lines.len() - n)
    } else {
        lines
    }
}

/// A log as plain values.
pub open spec fn log_views(logs: Seq<RuntimeLog>) -> Seq<LogView> {
    logs.map_values(|line: RuntimeLog| line@)
}

/// The log with one more line.
pub open spec fn logged(
    logs: Seq<LogView>,
    level: Seq<char>,
    message: Seq<char>,
    now_ms: u64,
) -> Seq<LogView> {
    last_lines(
        logs.push(LogView { ts_ms: now_ms, level, message: bounded(message) }),
        LOG_LIMIT as int,
    )
}

proof fn suffix_length()
    ensures
        encode_utf8(truncation_suffix()).len() == 15,
{
    reveal_strlit("… [truncated]");
    let s = truncation_suffix();
    let head = seq!['…'];
    let tail = s.skip(1);
    assert(s =~= head + tail);
    text::encode_concat(head, tail);
    assert(is_ascii_chars(tail));
    is_ascii_chars_encode_utf8(tail);
    assert(head.drop_first() =~= Seq::<char>::empty());
    assert(encode_utf8(head) == encode_scalar('…' as u32) + encode_utf8(head.drop_first()));
    assert(encode_utf8(head).len() == 3);
}

/// Cuts a message off where it is too long, between two characters.
pub fn bounded_message(message: &str) -> (text: String)
    ensures
        text@ == bounded(message@),
        encode_utf8(text@).len() <= MAX_LOG_MESSAGE_BYTES,
{
    if byte_len(message) <= MAX_LOG_MESSAGE_BYTES {
        return message.to_owned();
    }
    proof {
        suffix_length();
    }
    let limit: usize = MAX_LOG_MESSAGE_BYTES - byte_len("… [truncated]");
    let mut text = truncate_to_bytes(message, limit);
    proof {
        text::fitting_start_is_longest(message@, limit as int);
        text::encode_concat(text@, truncation_suffix());
    }
    text.append("… [truncated]");
    text
}

/// Adds a line to the log and drops the oldest ones beyond the limit.
pub fn push_log(logs: &mut Vec<RuntimeLog>, level: &str, message: &str, now_ms: u64)
    ensures
        log_views(final(logs)@) == logged(log_views(old(logs)@), level@, message@, now_ms),
        final(logs)@.len() <= LOG_LIMIT,
{
    let line = RuntimeLog {
        ts_ms: now_ms,
        level: level.to_owned(),
        message: bounded_message(message),
    };
    let ghost all = logs@.push(line);
    let ghost new_line = line@;
    logs.push(line);
    if logs.len() > LOG_LIMIT {
        let excess: usize = logs.len() - LOG_LIMIT;
        let kept = logs.split_off(excess);
        *logs = kept;
        assert(logs@ =~= all.skip(excess as int));
    }
    assert(log_views(all) =~= log_views(old(logs)@).push(new_line));
    assert(logs@ == last_lines(all, LOG_LIMIT as int));
    assert(log_views(logs@) =~= last_lines(log_views(all), LOG_LIMIT as int));
}

/// Notes an error: it is shown as the last error and added to the log.
pub fn set_error(
    last_error: &mut Option<String>,
    logs: &mut Vec<RuntimeLog>,
    message: &str,
    now_ms: u64,
)
    ensures
        match *final(last_error) {
            Some(text) => text@ == bounded(message@),
            None => false,
        },
        log_views(final(logs)@) == logged(log_views(old(logs)@), "ERROR"@, message@, now_ms),
{
    let text = bounded_message(message);
    proof {
        bounded_is_idempotent(message@);
    }
    push_log(logs, "ERROR", &text, now_ms);
    *last_error = Some(text);
}

/// A message that was cut off once is not cut off again.
pub proof fn bounded_is_idempotent(message: Seq<char>)
    ensures
        bounded(bounded(message)) == bounded(message),
        encode_utf8(bounded(message)).len() <= MAX_LOG_MESSAGE_BYTES,
{
    suffix_length();
    let limit = MAX_LOG_MESSAGE_BYTES - 15;
    text::fitting_start_is_longest(message, limit);
    text::encode_concat(text::fitting_start(message, limit), truncation_suffix());
}

/// How many lines are shown for a request, where zero stands for the default.
pub open spec fn tail_length(limit: usize) -> int {
    if limit == 0 {
        DEFAULT_LOG_TAIL as int
    } else if limit <= LOG_LIMIT {
        limit as int
    } else {
        LOG_LIMIT as int
    }
}

/// The last lines of the log.
pub fn logs_tail(logs: &Vec<RuntimeLog>, limit: usize) -> (tail: Vec<RuntimeLog>)
    ensures
        tail@ == last_lines(logs@, tail_length(limit)),
{
    let target: usize = if limit == 0 {
        DEFAULT_LOG_TAIL
    } else if limit <= LOG_LIMIT {
        limit
    } else {
        LOG_LIMIT
    };
    let start: usize = if logs.len() > target {
        logs.len() - target
    } else {
        0
    };
    let mut tail: Vec<RuntimeLog> = Vec::new();
    let mut i: usize = start;
    while i < logs.len()
        invariant
            start <= i <= logs.len(),
            tail@ == logs@.subrange(start as int, i as int),
        decreases logs.len() - i,
    {
        tail.push(logs[i].clone());
        i = i + 1;
        assert(tail@ =~= logs@.subrange(start as int, i as int));
    }
    assert(tail@ =~= last_lines(logs@, tail_length(limit)));
    tail
}

/// Tells whether the log file is rotated before a message is added to it, by
/// its present size if it exists.
pub fn should_rotate_log_file(file_bytes: Option<u64>, message: &str) -> (rotate: bool)
    ensures
        rotate == match file_bytes {
            Some(size) => size + encode_utf8(message@).len() + LOG_RECORD_OVERHEAD_BYTES
                > MAX_LOG_FILE_BYTES || size >= MAX_LOG_FILE_BYTES,
            None => false,
        },
{
    match file_bytes {
        None => false,
        Some(size) => {
            let record: u64 = (byte_len(message) as u64).saturating_add(LOG_RECORD_OVERHEAD_BYTES);
            size >= MAX_LOG_FILE_BYTES || size.saturating_add(record) > MAX_LOG_FILE_BYTES
        },
    }
}

/// The line of the log file for a message.
pub fn log_file_line(now_ms: u64, level: &str, pid: u32, message: &str) -> (line: String)
    ensures
        line@ == text::decimal(now_ms as nat) + " ["@ + level@ + "] [pid="@ + text::decimal(
            pid as nat,
        ) + "] "@ + message@ + "\n"@,
{
    let mut line = decimal_text(now_ms);
    line.append(" [");
    line.append(level);
    line.append("] [pid=");
    line.append(&decimal_text(pid as u64));
    line.append("] ");
    line.append(message);
    line.append("\n");
    line
}

/// A message of up to 8192 bytes is kept as it is; of a longer one a start is kept that fits, and
/// a sign that it was cut off.
pub proof fn short_messages_are_kept(message: Seq<char>)
    ensures
        encode_utf8(message).len() <= 8_192 ==> bounded(message) == message,
        encode_utf8(message).len() > 8_192 ==> ({
            let cut = bounded(message);
            &&& encode_utf8(cut).len() <= 8_192
            &&& "… [truncated]"@.is_suffix_of(cut)
            &&& cut.len() >= 13 && cut.take(cut.len() - 13).is_prefix_of(message)
        }),
{
    if encode_utf8(message).len() > 8_192 {
        bounded_is_idempotent(message);
        suffix_length();
        reveal_strlit("… [truncated]");
        let start = text::fitting_start(message, 8_192 - 15);
        text::fitting_start_is_longest(message, 8_192 - 15);
        let cut = bounded(message);
        assert(cut == start + "… [truncated]"@);
        assert(cut.take(cut.len() - 13) =~= start);
        assert(cut.skip(cut.len() - 13) =~= "… [truncated]"@);
        assert(message.take(start.len() as int) =~= start);
    }
}

/// The last line of the log is the one that was added, at its time and level, and the lines
/// before it stay: all of them as long as there are fewer than 800, and else the last 799.
pub proof fn new_lines_come_last(logs: Seq<LogView>, level: Seq<char>, message: Seq<char>, now_ms: u64)
    requires
        encode_utf8(message).len() <= 8_192,
    ensures
        ({
            let after = logged(logs, level, message, now_ms);
            &&& after.len() > 0
            &&& after.last() == LogView { ts_ms: now_ms, level, message }
            &&& logs.len() < 800 ==> after.drop_last() == logs
            &&& logs.len() >= 800 ==> after.len() == 800 && after.drop_last() == logs.skip(
                logs.len() - 799,
            )
        }),
{
    let after = logged(logs, level, message, now_ms);
    if logs.len() < 800 {
        assert(after.drop_last() =~= logs);
    } else {
        assert(after.drop_last() =~= logs.skip(logs.len() - 799));
    }
}

/// As many of the last lines are shown as were asked for, 200 if no number was given, and
/// never more than 800.
pub proof fn the_last_lines_are_shown(lines: Seq<LogView>, limit: usize)
    ensures
        tail_length(0) == 200,
        1 <= limit <= 800 ==> tail_length(limit) == limit,
        limit > 800 ==> tail_length(limit) == 800,
        lines.len() <= tail_length(limit) ==> last_lines(lines, tail_length(limit)) == lines,
        lines.len() > tail_length(limit) ==> last_lines(lines, tail_length(limit)).len()
            == tail_length(limit) && last_lines(lines, tail_length(limit)).is_suffix_of(lines),
{
    let n = tail_length(limit);
    if lines.len() > n {
        assert(lines.skip(lines.len() - n) =~= last_lines(lines, n));
    }
}

} // verus!
