//! Streams of raw chunks: how a content is cut into frames, and how long
//! receiving it may take.

use crate::bytes::copy_range;
use crate::net::deadline;
use crate::net::deadline::ReadDeadline;
use crate::net::marker;
use crate::net::marker::{is_stale_marker, ItemMarker};
use crate::net::state::{RuntimeState, StateView};
use crate::net::transfers;
use crate::net::transfers::transfer_should_abort;
use crate::net::wire;
use crate::net::wire::RAW_PAYLOAD_PLAIN_BYTES;
use crate::primitives;
use crate::primitives::{finish_digest, running_digest, update_digest, RunningDigest};
use crate::settings::Settings;
use crate::text;
use crate::text::decimal_text;
use vstd::prelude::*;

verus! {

/// How often the progress of a stream is shown.
pub const FILE_STREAM_PROGRESS_EMIT_INTERVAL_MS: u64 = 250;

/// How long a stream pauses for something more urgent.
pub const HIGH_PRIORITY_YIELD_MS: u64 = 12;

/// How long receiving may stand still.
pub const FILE_RECEIVE_IDLE_TIMEOUT_MS: u64 = 30_000;

/// What receiving may take at least.
pub const FILE_RECEIVE_MIN_TOTAL_TIMEOUT_MS: u64 = 30_000;

/// What receiving may take at most.
pub const FILE_RECEIVE_MAX_TOTAL_TIMEOUT_MS: u64 = 1_800_000;

/// How many bytes add one second.
pub const FILE_RECEIVE_BUDGET_BYTES_PER_SECOND: u64 = 1_048_576;

/// Why a stream ends early.
#[derive(Debug, Clone, Copy, PartialEq, Eq, Structural)]
pub enum StreamError {
    Stopped,
    Canceled,
    Superseded,
    ExceededDeclaredSize,
    ExceededExpectedSize,
    Disconnected,
    Incomplete { received: u64, expected: u64 },
    Stale,
    ReceiveLimit,
    Integrity,
    UnexpectedEnd,
    ImageSizeMismatch { sent: u64, expected: u64 },
    ArchiveSizeMismatch { sent: u64, expected: u64 },
    FilesChanged,
}

/// Two numbers of bytes in a sentence.
pub open spec fn sizes_sentence(
    start: Seq<char>,
    a: u64,
    b: u64,
) -> Seq<char> {
    start + text::decimal(a as nat) + " bytes, expected "@ + text::decimal(b as nat) + " bytes"@
}

fn sizes_text(start: &str, a: u64, b: u64) -> (text: String)
    ensures
        text@ == sizes_sentence(start@, a, b),
{
    let mut out: String = start.to_owned();
    out.append(&decimal_text(a));
    out.append(" bytes, expected ");
    out.append(&decimal_text(b));
    out.append(" bytes");
    out
}

impl StreamError {
    /// What went wrong, in words.
    pub open spec fn spec_message(self) -> Seq<char> {
        match self {
            StreamError::Stopped => "sync stopped"@,
            StreamError::Canceled => "transfer canceled"@,
            StreamError::Superseded => "superseded by newer clipboard item"@,
            StreamError::ExceededDeclaredSize => "raw file stream exceeded declared size"@,
            StreamError::ExceededExpectedSize => "raw file stream exceeded expected size"@,
            StreamError::Disconnected => "sender disconnected during raw file stream"@,
            StreamError::Incomplete { received, expected } => sizes_sentence(
                "raw file stream incomplete: received "@,
                received,
                expected,
            ),
            StreamError::Stale => "stale inbound raw file stream"@,
            StreamError::ReceiveLimit => "concurrent file receive limit reached"@,
            StreamError::Integrity => "file stream integrity check failed"@,
            StreamError::UnexpectedEnd => "unexpected file stream end frame"@,
            StreamError::ImageSizeMismatch { sent, expected } => sizes_sentence(
                "streamed image size mismatch: sent "@,
                sent,
                expected,
            ),
            StreamError::ArchiveSizeMismatch { sent, expected } => sizes_sentence(
                "streamed archive size mismatch: sent "@,
                sent,
                expected,
            ),
            StreamError::FilesChanged => {
                "clipboard files changed while the transfer was being prepared"@
            },
        }
    }

    /// What went wrong, in words.
    pub fn message(&self) -> (text: String)
        ensures
            text@ == self.spec_message(),
    {
        match self {
            StreamError::Stopped => "sync stopped".to_owned(),
            StreamError::Canceled => "transfer canceled".to_owned(),
            StreamError::Superseded => "superseded by newer clipboard item".to_owned(),
            StreamError::ExceededDeclaredSize => {
                "raw file stream exceeded declared size".to_owned()
            },
            StreamError::ExceededExpectedSize => {
                "raw file stream exceeded expected size".to_owned()
            },
            StreamError::Disconnected => "sender disconnected during raw file stream".to_owned(),
            StreamError::Incomplete { received, expected } => sizes_text(
                "raw file stream incomplete: received ",
                *received,
                *expected,
            ),
            StreamError::Stale => "stale inbound raw file stream".to_owned(),
            StreamError::ReceiveLimit => "concurrent file receive limit reached".to_owned(),
            StreamError::Integrity => "file stream integrity check failed".to_owned(),
            StreamError::UnexpectedEnd => "unexpected file stream end frame".to_owned(),
            StreamError::ImageSizeMismatch { sent, expected } => sizes_text(
                "streamed image size mismatch: sent ",
                *sent,
                *expected,
            ),
            StreamError::ArchiveSizeMismatch { sent, expected } => sizes_text(
                "streamed archive size mismatch: sent ",
                *sent,
                *expected,
            ),
            StreamError::FilesChanged => {
                "clipboard files changed while the transfer was being prepared".to_owned()
            },
        }
    }
}

/// How long receiving a stream may take.
#[derive(Debug, Clone, Copy, PartialEq, Eq, Structural)]
pub struct FileReceiveTimeouts {
    pub total_ms: u64,
    pub idle_ms: u64,
}

/// What receiving so many bytes may take: half a minute, and one second for
/// every mebibyte that is begun, half an hour at most.
pub open spec fn receive_budget(total_bytes: u64) -> int {
    let calculated = FILE_RECEIVE_MIN_TOTAL_TIMEOUT_MS + 1000 * wire::rounded_up(
        total_bytes as int,
        FILE_RECEIVE_BUDGET_BYTES_PER_SECOND as int,
    );
    deadline::earlier(calculated, FILE_RECEIVE_MAX_TOTAL_TIMEOUT_MS as int)
}

/// How long receiving a stream of so many bytes may take.
pub fn file_receive_timeouts(total_bytes: u64) -> (timeouts: FileReceiveTimeouts)
    ensures
        timeouts.total_ms == receive_budget(total_bytes),
        timeouts.idle_ms == FILE_RECEIVE_IDLE_TIMEOUT_MS,
        total_bytes > 0 ==> 31_000 <= timeouts.total_ms,
        timeouts.total_ms <= FILE_RECEIVE_MAX_TOTAL_TIMEOUT_MS,
{
    let seconds: u64 = total_bytes / FILE_RECEIVE_BUDGET_BYTES_PER_SECOND + (if total_bytes
        % FILE_RECEIVE_BUDGET_BYTES_PER_SECOND == 0 {
        0
    } else {
        1
    });
    let calculated: u64 = FILE_RECEIVE_MIN_TOTAL_TIMEOUT_MS + seconds * 1000;
    FileReceiveTimeouts {
        total_ms: if calculated <= FILE_RECEIVE_MAX_TOTAL_TIMEOUT_MS {
            calculated
        } else {
            FILE_RECEIVE_MAX_TOTAL_TIMEOUT_MS
        },
        idle_ms: FILE_RECEIVE_IDLE_TIMEOUT_MS,
    }
}

/// The deadline for receiving a stream that starts now.
pub fn file_receive_deadline(timeouts: FileReceiveTimeouts, now_ms: u64) -> (d: ReadDeadline)
    ensures
        d.total_deadline_ms == deadline::within_clock(now_ms + timeouts.total_ms),
        d.idle_timeout_ms == timeouts.idle_ms,
{
    ReadDeadline {
        total_deadline_ms: now_ms.saturating_add(timeouts.total_ms),
        idle_timeout_ms: timeouts.idle_ms,
    }
}

/// The size of frames under a size limit.
pub open spec fn frame_bytes(max_item_bytes: u64) -> int {
    if max_item_bytes == 0 {
        1
    } else {
        wire::raw_limit(max_item_bytes)
    }
}

/// The size of frames under the configured limit.
pub fn file_stream_buffer_bytes(settings: &Settings) -> (size: usize)
    ensures
        size == frame_bytes(settings@.max_item_bytes),
        1 <= size <= RAW_PAYLOAD_PLAIN_BYTES,
{
    if settings.limits.max_item_bytes == 0 {
        1
    } else if settings.limits.max_item_bytes <= RAW_PAYLOAD_PLAIN_BYTES {
        settings.limits.max_item_bytes as usize
    } else {
        RAW_PAYLOAD_PLAIN_BYTES as usize
    }
}

/// Why work on a transfer should stop, if it should.
pub open spec fn interruption(
    s: StateView,
    transfer_id: Seq<char>,
    m: marker::MarkerView,
    stopping: bool,
) -> Option<StreamError> {
    let i = transfers::place_of(s.transfers, transfer_id);
    if stopping {
        Some(StreamError::Stopped)
    } else if i < s.transfers.len() && s.transfers[i].status == "failed"@ {
        Some(StreamError::Canceled)
    } else if marker::is_stale(s.latest, m) {
        Some(StreamError::Superseded)
    } else {
        None
    }
}

/// Tells whether work on a transfer may go on: synchronization is not stopping,
/// the transfer has not failed, and no newer event has overtaken it.
pub fn ensure_current(
    state: &RuntimeState,
    transfer_id: &str,
    item_marker: &ItemMarker,
    stopping: bool,
) -> (result: Result<(), StreamError>)
    ensures
        match result {
            Ok(_) => interruption(state@, transfer_id@, item_marker@, stopping) is None,
            Err(e) => interruption(state@, transfer_id@, item_marker@, stopping) == Some(e),
        },
{
    if stopping {
        return Err(StreamError::Stopped);
    }
    if transfer_should_abort(&state.transfers, transfer_id) {
        return Err(StreamError::Canceled);
    }
    if is_stale_marker(&state.latest_item, item_marker) {
        return Err(StreamError::Superseded);
    }
    Ok(())
}

/// Tells whether the progress of a stream is shown now.
pub fn should_emit_progress(elapsed_ms: u64, done_bytes: u64, total_bytes: u64) -> (emit: bool)
    ensures
        emit == (elapsed_ms >= FILE_STREAM_PROGRESS_EMIT_INTERVAL_MS || done_bytes >= total_bytes),
{
    elapsed_ms >= FILE_STREAM_PROGRESS_EMIT_INTERVAL_MS || done_bytes >= total_bytes
}

/// The full pieces of `n` bytes at the start of `s`.
pub open spec fn pieces(s: Seq<u8>, n: int) -> Seq<Seq<u8>>
    decreases s.len(),
{
    if n <= 0 || s.len() < n {
        Seq::empty()
    } else {
        seq![s.take(n)] + pieces(s.skip(n), n)
    }
}

/// What is left of `s` after its full pieces.
pub open spec fn remainder(s: Seq<u8>, n: int) -> Seq<u8>
    decreases s.len(),
{
    if n <= 0 || s.len() < n {
        s
    } else {
        remainder(s.skip(n), n)
    }
}

/// Pieces one after the other.
pub open spec fn joined(p: Seq<Seq<u8>>) -> Seq<u8>
    decreases p.len(),
{
    if p.len() == 0 {
        Seq::empty()
    } else {
        p[0] + joined(p.skip(1))
    }
}

/// Frames as plain values.
pub open spec fn frame_views(v: Seq<Vec<u8>>) -> Seq<Seq<u8>> {
    v.map_values(|f: Vec<u8>| f@)
}

/// A content that is cut into frames as it comes.
pub struct FrameCutter {
    pub buffer: Vec<u8>,
    pub chunk_bytes: usize,
    pub total_bytes: u64,
    pub sent_bytes: u64,
    pub frame_count: u64,
    pub digest: RunningDigest,
}

impl FrameCutter {
    /// Frames have a size, what waits does not fill one, and no more was sent than
    /// was declared.
    pub open spec fn wf(self) -> bool {
        &&& 0 < self.chunk_bytes
        &&& self.buffer@.len() < self.chunk_bytes
        &&& self.sent_bytes <= self.total_bytes
        &&& self.frame_count <= self.sent_bytes
        &&& self.content().len() == self.sent_bytes
    }

    /// The frames that were sent, one after the other.
    pub open spec fn content(self) -> Seq<u8> {
        primitives::taken_bytes(self.digest)
    }

    /// Starts to cut a content of so many bytes.
    pub fn new(settings: &Settings, total_bytes: u64) -> (cutter: Self)
        ensures
            cutter.wf(),
            cutter.buffer@.len() == 0,
            cutter.chunk_bytes == frame_bytes(settings@.max_item_bytes),
            cutter.total_bytes == total_bytes,
            cutter.sent_bytes == 0,
            cutter.frame_count == 0,
            cutter.content() == Seq::<u8>::empty(),
    {
        FrameCutter {
            buffer: Vec::new(),
            chunk_bytes: file_stream_buffer_bytes(settings),
            total_bytes,
            sent_bytes: 0,
            frame_count: 0,
            digest: running_digest(),
        }
    }

    /// Takes more of the content; returns the frames that are full.
    pub fn push(&mut self, input: &[u8]) -> (frames: Vec<Vec<u8>>)
        requires
            old(self).wf(),
        ensures
            final(self).wf(),
            frame_views(frames@) == pieces(
                old(self).buffer@ + input@,
                old(self).chunk_bytes as int,
            ),
            final(self).buffer@ == remainder(
                old(self).buffer@ + input@,
                old(self).chunk_bytes as int,
            ),
            final(self).chunk_bytes == old(self).chunk_bytes,
            final(self).total_bytes == old(self).total_bytes,
            final(self).sent_bytes == old(self).sent_bytes,
            final(self).frame_count == old(self).frame_count,
            final(self).content() == old(self).content(),
    {
        let ghost n = self.chunk_bytes as int;
        let ghost all = self.buffer@ + input@;
        let mut frames: Vec<Vec<u8>> = Vec::new();
        let mut at: usize = 0;
        assert(frame_views(frames@) + pieces(all, n) =~= pieces(all, n));
        assert(self.buffer@ + input@.skip(0) =~= all);
        while input.len() - at >= self.chunk_bytes - self.buffer.len()
            invariant
                self.wf(),
                n == self.chunk_bytes,
                at <= input@.len(),
                pieces(all, n) == frame_views(frames@) + pieces(
                    self.buffer@ + input@.skip(at as int),
                    n,
                ),
                remainder(all, n) == remainder(self.buffer@ + input@.skip(at as int), n),
                self.chunk_bytes == old(self).chunk_bytes,
                self.total_bytes == old(self).total_bytes,
                self.sent_bytes == old(self).sent_bytes,
                self.frame_count == old(self).frame_count,
                self.digest == old(self).digest,
            decreases input@.len() - at,
        {
            let ghost rest = self.buffer@ + input@.skip(at as int);
            let take: usize = self.chunk_bytes - self.buffer.len();
            let mut frame = self.buffer.split_off(0);
            let ghost head = frame@;
            let part = copy_range(input, at, at + take);
            crate::bytes::push_all(&mut frame, &part);
            let ghost full = frame@;
            let ghost before = frames@;
            frames.push(frame);
            proof {
                assert(head + input@.skip(at as int) =~= rest);
                assert(full =~= rest.take(n));
                assert(self.buffer@ =~= Seq::<u8>::empty());
                assert(rest.skip(n) =~= self.buffer@ + input@.skip(at + take));
                assert(frame_views(frames@) =~= frame_views(before).push(full));
                assert(pieces(rest, n) =~= seq![full] + pieces(rest.skip(n), n));
                assert(frame_views(before) + pieces(rest, n) =~= frame_views(frames@) + pieces(
                    rest.skip(n),
                    n,
                ));
            }
            at = at + take;
        }
        let rest = copy_range(input, at, input.len());
        let ghost last = self.buffer@ + input@.skip(at as int);
        crate::bytes::push_all(&mut self.buffer, &rest);
        proof {
            assert(self.buffer@ =~= last);
            assert(pieces(last, n) =~= Seq::<Seq<u8>>::empty());
            assert(frame_views(frames@) + pieces(last, n) =~= frame_views(frames@));
        }
        frames
    }

    /// Takes what is left at the end of the content.
    pub fn take_rest(&mut self) -> (rest: Option<Vec<u8>>)
        requires
            old(self).wf(),
        ensures
            final(self).wf(),
            final(self).buffer@.len() == 0,
            match rest {
                Some(frame) => frame@ == old(self).buffer@ && frame@.len() > 0,
                None => old(self).buffer@.len() == 0,
            },
            final(self).chunk_bytes == old(self).chunk_bytes,
            final(self).total_bytes == old(self).total_bytes,
            final(self).sent_bytes == old(self).sent_bytes,
            final(self).frame_count == old(self).frame_count,
            final(self).content() == old(self).content(),
    {
        if self.buffer.len() == 0 {
            return None;
        }
        let frame = self.buffer.split_off(0);
        assert(frame@ =~= old(self).buffer@);
        Some(frame)
    }

    /// Claims the next index for a frame; returns its index. No more may be
    /// sent than was declared.
    pub fn claim(&mut self, frame: &[u8]) -> (result: Result<u64, StreamError>)
        requires
            old(self).wf(),
        ensures
            final(self).wf(),
            match result {
                Ok(index) => {
                    &&& 0 < frame@.len() <= old(self).total_bytes - old(self).sent_bytes
                    &&& index == old(self).frame_count
                    &&& final(self).frame_count == old(self).frame_count + 1
                    &&& final(self).sent_bytes == old(self).sent_bytes + frame@.len()
                    &&& final(self).content() == old(self).content() + frame@
                },
                Err(e) => {
                    &&& frame@.len() == 0 || frame@.len() > old(self).total_bytes - old(
                        self,
                    ).sent_bytes
                    &&& e == StreamError::ExceededDeclaredSize
                    &&& final(self).frame_count == old(self).frame_count
                    &&& final(self).sent_bytes == old(self).sent_bytes
                    &&& final(self).content() == old(self).content()
                },
            },
            final(self).buffer@ == old(self).buffer@,
            final(self).chunk_bytes == old(self).chunk_bytes,
            final(self).total_bytes == old(self).total_bytes,
    {
        let remaining: u64 = self.total_bytes - self.sent_bytes;
        if frame.len() == 0 || frame.len() as u64 > remaining {
            return Err(StreamError::ExceededDeclaredSize);
        }
        let index: u64 = self.frame_count;
        self.frame_count = self.frame_count + 1;
        self.sent_bytes = self.sent_bytes + frame.len() as u64;
        update_digest(&mut self.digest, frame);
        Ok(index)
    }

    /// The digest of everything that was sent.
    pub fn digest_sha256(self) -> (digest: [u8; 32])
        ensures
            digest@ == primitives::sha256(self.content()),
    {
        finish_digest(self.digest)
    }
}

/// A content that is received chunk by chunk.
pub struct ChunkCounter {
    pub total_bytes: u64,
    pub received_bytes: u64,
    pub chunk_count: u64,
    pub digest: RunningDigest,
}

impl ChunkCounter {
    /// No more was received than was declared.
    pub open spec fn wf(self) -> bool {
        &&& self.received_bytes <= self.total_bytes
        &&& self.chunk_count <= self.received_bytes
        &&& self.content().len() == self.received_bytes
    }

    /// The chunks that were received, one after the other.
    pub open spec fn content(self) -> Seq<u8> {
        primitives::taken_bytes(self.digest)
    }

    /// Starts to receive a content of so many bytes.
    pub fn new(total_bytes: u64) -> (counter: Self)
        ensures
            counter.wf(),
            counter.total_bytes == total_bytes,
            counter.received_bytes == 0,
            counter.chunk_count == 0,
            counter.content() == Seq::<u8>::empty(),
    {
        ChunkCounter { total_bytes, received_bytes: 0, chunk_count: 0, digest: running_digest() }
    }

    /// Tells whether more chunks are to come.
    pub fn expects_more(&self) -> (more: bool)
        ensures
            more == (self.received_bytes < self.total_bytes),
    {
        self.received_bytes < self.total_bytes
    }

    /// Takes note of a chunk that was received.
    pub fn accept(&mut self, chunk: &[u8]) -> (result: Result<(), StreamError>)
        requires
            old(self).wf(),
            chunk@.len() > 0,
        ensures
            final(self).wf(),
            final(self).total_bytes == old(self).total_bytes,
            match result {
                Ok(_) => {
                    &&& chunk@.len() <= old(self).total_bytes - old(self).received_bytes
                    &&& final(self).received_bytes == old(self).received_bytes + chunk@.len()
                    &&& final(self).chunk_count == old(self).chunk_count + 1
                    &&& final(self).content() == old(self).content() + chunk@
                },
                Err(e) => {
                    &&& chunk@.len() > old(self).total_bytes - old(self).received_bytes
                    &&& e == StreamError::ExceededExpectedSize
                    &&& *final(self) == *old(self)
                },
            },
    {
        if chunk.len() as u64 > self.total_bytes - self.received_bytes {
            return Err(StreamError::ExceededExpectedSize);
        }
        self.received_bytes = self.received_bytes + chunk.len() as u64;
        self.chunk_count = self.chunk_count + 1;
        update_digest(&mut self.digest, chunk);
        Ok(())
    }

    /// Tells whether everything that was declared was received.
    pub fn ensure_complete(&self) -> (result: Result<(), StreamError>)
        ensures
            match result {
                Ok(_) => self.received_bytes == self.total_bytes,
                Err(e) => self.received_bytes != self.total_bytes && e == (
                StreamError::Incomplete {
                    received: self.received_bytes,
                    expected: self.total_bytes,
                }),
            },
    {
        if self.received_bytes == self.total_bytes {
            Ok(())
        } else {
            Err(
                StreamError::Incomplete {
                    received: self.received_bytes,
                    expected: self.total_bytes,
                },
            )
        }
    }

    /// The digest of everything that was received.
    pub fn digest_sha256(self) -> (digest: [u8; 32])
        ensures
            digest@ == primitives::sha256(self.content()),
    {
        finish_digest(self.digest)
    }
}

/// Cutting loses nothing: the pieces and the remainder together are the content,
/// every piece is full, and the remainder is not.
pub proof fn pieces_are_the_content(s: Seq<u8>, n: int)
    requires
        n > 0,
    ensures
        joined(pieces(s, n)) + remainder(s, n) == s,
        forall|i: int| 0 <= i < pieces(s, n).len() ==> (#[trigger] pieces(s, n)[i]).len() == n,
        remainder(s, n).len() < n,
        n * pieces(s, n).len() + remainder(s, n).len() == s.len(),
    decreases s.len(),
{
    if s.len() < n {
        assert(joined(pieces(s, n)) + remainder(s, n) =~= s);
        assert(n * pieces(s, n).len() == 0) by (nonlinear_arith)
            requires
                pieces(s, n).len() == 0,
        ;
    } else {
        pieces_are_the_content(s.skip(n), n);
        let p = pieces(s, n);
        assert(p.skip(1) =~= pieces(s.skip(n), n));
        assert(joined(p) + remainder(s, n) =~= s.take(n) + (joined(p.skip(1)) + remainder(
            s.skip(n),
            n,
        )));
        assert(s.take(n) + s.skip(n) =~= s);
        assert forall|i: int| 0 <= i < p.len() implies (#[trigger] p[i]).len() == n by {
            if i > 0 {
                assert(p[i] == pieces(s.skip(n), n)[i - 1]);
            }
        }
        let k = pieces(s.skip(n), n).len() as int;
        assert(n * (k + 1) == n * k + n) by (nonlinear_arith);
    }
}

/// Into which frames a content is cut does not depend on how it is handed over:
/// first `a` and then `b` gives the same frames as both at once.
pub proof fn frames_do_not_depend_on_writes(a: Seq<u8>, b: Seq<u8>, n: int)
    requires
        n > 0,
    ensures
        pieces(a + b, n) == pieces(a, n) + pieces(remainder(a, n) + b, n),
        remainder(a + b, n) == remainder(remainder(a, n) + b, n),
    decreases a.len(),
{
    if a.len() < n {
        assert(pieces(a, n) + pieces(a + b, n) =~= pieces(a + b, n));
    } else {
        frames_do_not_depend_on_writes(a.skip(n), b, n);
        assert((a + b).skip(n) =~= a.skip(n) + b);
        assert((a + b).take(n) =~= a.take(n));
        assert(pieces(a + b, n) =~= pieces(a, n) + pieces(remainder(a, n) + b, n));
    }
}

/// A content within the limit takes as many frames as its announcement declares,
/// whatever the limit is.
pub proof fn declared_chunk_count_is_exact(size_bytes: u64, max_item_bytes: u64)
    requires
        0 < size_bytes <= max_item_bytes,
    ensures
        wire::rounded_up(size_bytes as int, frame_bytes(max_item_bytes)) == wire::rounded_up(
            size_bytes as int,
            RAW_PAYLOAD_PLAIN_BYTES as int,
        ),
{
    if max_item_bytes < RAW_PAYLOAD_PLAIN_BYTES {
        let m = max_item_bytes as int;
        let s = size_bytes as int;
        assert(wire::rounded_up(s, m) == 1) by (nonlinear_arith)
            requires
                0 < s <= m,
                wire::rounded_up(s, m) == (s + m - 1) / m,
        ;
    }
}

/// Receiving may take half a minute and one second for every MiB that is begun, half an hour
/// at most, and more bytes never get less time.
pub proof fn larger_streams_get_more_time(bytes: u64, more: u64)
    requires
        bytes <= more,
    ensures
        receive_budget(0) == 30_000,
        0 < bytes <= 1_048_576 ==> receive_budget(bytes) == 31_000,
        bytes <= 1_770 * 1_048_576 ==> receive_budget(bytes) == 30_000 + 1_000 * ((bytes + 1_048_575)
            / 1_048_576),
        bytes > 1_770 * 1_048_576 ==> receive_budget(bytes) == 1_800_000,
        receive_budget(bytes) <= receive_budget(more),
{
}

/// Frames carry one MiB, or as much as an item may have if that is less.
pub proof fn frames_carry_one_mebibyte(max_item_bytes: u64)
    ensures
        max_item_bytes >= 1_048_576 ==> frame_bytes(max_item_bytes) == 1_048_576,
        0 < max_item_bytes < 1_048_576 ==> frame_bytes(max_item_bytes) == max_item_bytes,
        frame_bytes(0) == 1,
{
}

/// Work on a transfer goes on unless synchronization stops, the transfer has failed, or a later
/// event came; and it stops for each of these.
pub proof fn transfers_go_on_unless_interrupted(
    s: StateView,
    transfer_id: Seq<char>,
    m: marker::MarkerView,
)
    ensures
        interruption(s, transfer_id, m, true) == Some(StreamError::Stopped),
        (forall|i: int|
            0 <= i < s.transfers.len() ==> (#[trigger] s.transfers[i]).id != transfer_id
                || s.transfers[i].status != "failed"@) && (s.latest is None
            || s.latest->Some_0.created_at_us < m.created_at_us || s.latest == Some(m))
            ==> interruption(s, transfer_id, m, false) is None,
        s.latest is Some && s.latest->Some_0.created_at_us > m.created_at_us ==> interruption(
            s,
            transfer_id,
            m,
            false,
        ) is Some,
{
    transfers::place_is_the_first(s.transfers, transfer_id);
    marker::marker_order_is_total(m, m);
}

} // verus!
