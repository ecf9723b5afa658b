//! How long reading may take.
//!
//! Times are milliseconds of one clock that never goes back.

use crate::net::socket;
use crate::net::socket::{write_timeout_for_payload, HANDSHAKE_TIMEOUT_MS};
use vstd::prelude::*;

verus! {

/// How long a frame may stand still.
pub const FRAME_IDLE_TIMEOUT_MS: u64 = 30_000;

/// How long reading may take: up to a point in time, and so long without progress.
#[derive(Debug, Clone, Copy)]
pub struct ReadDeadline {
    pub total_deadline_ms: u64,
    pub idle_timeout_ms: u64,
}

/// The lesser of two times.
pub open spec fn earlier(a: int, b: int) -> int {
    if a <= b {
        a
    } else {
        b
    }
}

/// The latest time that can be told.
pub open spec fn within_clock(t: int) -> int {
    earlier(t, u64::MAX as int)
}

impl ReadDeadline {
    /// A deadline with a limit for standing still.
    pub fn new(total_deadline_ms: u64, idle_timeout_ms: u64) -> (deadline: Self)
        ensures
            deadline.total_deadline_ms == total_deadline_ms,
            deadline.idle_timeout_ms == idle_timeout_ms,
    {
        ReadDeadline { total_deadline_ms, idle_timeout_ms }
    }
}

/// How long a frame of so many bytes may take: no longer than writing it might, nor
/// stand still longer than a frame may, and neither longer than is given from outside.
pub fn effective_read_deadline(
    started_at_ms: u64,
    frame_bytes: u64,
    external: Option<ReadDeadline>,
) -> (deadline: ReadDeadline)
    ensures
        match external {
            Some(e) => {
                &&& deadline.total_deadline_ms == earlier(
                    within_clock(started_at_ms + socket::write_timeout(frame_bytes)),
                    e.total_deadline_ms as int,
                )
                &&& deadline.idle_timeout_ms == earlier(
                    FRAME_IDLE_TIMEOUT_MS as int,
                    e.idle_timeout_ms as int,
                )
            },
            None => {
                &&& deadline.total_deadline_ms == within_clock(
                    started_at_ms + socket::write_timeout(frame_bytes),
                )
                &&& deadline.idle_timeout_ms == FRAME_IDLE_TIMEOUT_MS
            },
        },
{
    let total: u64 = started_at_ms.saturating_add(write_timeout_for_payload(frame_bytes));
    match external {
        Some(e) => ReadDeadline {
            total_deadline_ms: if total <= e.total_deadline_ms {
                total
            } else {
                e.total_deadline_ms
            },
            idle_timeout_ms: if FRAME_IDLE_TIMEOUT_MS <= e.idle_timeout_ms {
                FRAME_IDLE_TIMEOUT_MS
            } else {
                e.idle_timeout_ms
            },
        },
        None => ReadDeadline { total_deadline_ms: total, idle_timeout_ms: FRAME_IDLE_TIMEOUT_MS },
    }
}

/// A read that is under way.
#[derive(Debug, Clone, Copy)]
pub struct TimedRead {
    pub deadline: ReadDeadline,
    pub idle_deadline_ms: u64,
}

/// When a read stands still for too long.
pub open spec fn idle_end(d: ReadDeadline, now_ms: u64) -> int {
    earlier(d.total_deadline_ms as int, within_clock(now_ms + d.idle_timeout_ms))
}

fn idle_end_at(d: &ReadDeadline, now_ms: u64) -> (end: u64)
    ensures
        end == idle_end(*d, now_ms),
{
    let end: u64 = now_ms.saturating_add(d.idle_timeout_ms);
    if d.total_deadline_ms <= end {
        d.total_deadline_ms
    } else {
        end
    }
}

impl TimedRead {
    /// Standing still never outlasts the whole.
    pub open spec fn wf(self) -> bool {
        self.idle_deadline_ms <= self.deadline.total_deadline_ms
    }

    /// A read that starts now.
    pub fn start(deadline: ReadDeadline, now_ms: u64) -> (read: Self)
        ensures
            read.wf(),
            read.deadline == deadline,
            read.idle_deadline_ms == idle_end(deadline, now_ms),
    {
        TimedRead { deadline, idle_deadline_ms: idle_end_at(&deadline, now_ms) }
    }

    /// How long to wait for more; nothing once the time is over.
    pub fn remaining(&self, now_ms: u64) -> (wait: Option<u64>)
        ensures
            match wait {
                Some(ms) => 0 < ms && now_ms + ms == earlier(
                    self.deadline.total_deadline_ms as int,
                    self.idle_deadline_ms as int,
                ),
                None => now_ms >= earlier(
                    self.deadline.total_deadline_ms as int,
                    self.idle_deadline_ms as int,
                ),
            },
    {
        let end: u64 = if self.deadline.total_deadline_ms <= self.idle_deadline_ms {
            self.deadline.total_deadline_ms
        } else {
            self.idle_deadline_ms
        };
        if now_ms >= end {
            None
        } else {
            Some(end - now_ms)
        }
    }

    /// Takes note that something was read.
    pub fn progress(&mut self, now_ms: u64)
        ensures
            final(self).wf(),
            final(self).deadline == old(self).deadline,
            final(self).idle_deadline_ms == idle_end(old(self).deadline, now_ms),
    {
        self.idle_deadline_ms = idle_end_at(&self.deadline, now_ms);
    }
}

/// How long until something has to be over; nothing once the time is over.
pub open spec fn time_left(deadline_ms: int, now_ms: int) -> Option<int> {
    if now_ms < deadline_ms {
        Some(deadline_ms - now_ms)
    } else {
        None
    }
}

/// How long until something has to be over; nothing once the time is over.
pub fn remaining_before(deadline_ms: u64, now_ms: u64) -> (wait: Option<u64>)
    ensures
        match wait {
            Some(ms) => time_left(deadline_ms as int, now_ms as int) == Some(ms as int),
            None => time_left(deadline_ms as int, now_ms as int) is None,
        },
{
    if now_ms >= deadline_ms {
        None
    } else {
        Some(deadline_ms - now_ms)
    }
}

/// Why a message of the handshake was not transferred.
#[derive(Debug, Clone, Copy, PartialEq, Eq, Structural)]
pub enum ExchangeError {
    DeadlineExceeded,
    PeerClosed,
    PeerStoppedAccepting,
}

impl ExchangeError {
    /// The error in words.
    pub open spec fn spec_message(self) -> Seq<char> {
        match self {
            ExchangeError::DeadlineExceeded => "handshake deadline exceeded"@,
            ExchangeError::PeerClosed => "peer closed during handshake"@,
            ExchangeError::PeerStoppedAccepting => "peer stopped accepting handshake bytes"@,
        }
    }

    /// The error in words.
    pub fn message(&self) -> (text: &'static str)
        ensures
            text@ == self.spec_message(),
    {
        match self {
            ExchangeError::DeadlineExceeded => "handshake deadline exceeded",
            ExchangeError::PeerClosed => "peer closed during handshake",
            ExchangeError::PeerStoppedAccepting => "peer stopped accepting handshake bytes",
        }
    }
}

/// Which way a message goes.
#[derive(Debug, Clone, Copy, PartialEq, Eq, Structural)]
pub enum Direction {
    Read,
    Write,
}

/// A message of the handshake that is transferred part by part. All messages of one
/// handshake have to be over at the same time.
#[derive(Debug)]
pub struct TimedExchange {
    pub direction: Direction,
    pub length: usize,
    pub done: usize,
    pub deadline_ms: u64,
}

impl TimedExchange {
    /// No more was transferred than there is.
    pub open spec fn wf(self) -> bool {
        self.done <= self.length
    }

    /// A message of which nothing was transferred yet.
    pub fn start(direction: Direction, length: usize, deadline_ms: u64) -> (exchange: Self)
        ensures
            exchange.wf(),
            exchange.direction == direction,
            exchange.length == length,
            exchange.done == 0,
            exchange.deadline_ms == deadline_ms,
    {
        TimedExchange { direction, length, done: 0, deadline_ms }
    }

    /// How long to wait for the next part of the message; nothing once all of it was
    /// transferred. Whatever was transferred so far, nothing is waited for beyond the
    /// deadline.
    pub fn next(&self, now_ms: u64) -> (wait: Result<Option<u64>, ExchangeError>)
        requires
            self.wf(),
        ensures
            match wait {
                Ok(None) => self.done == self.length,
                Ok(Some(ms)) => self.done < self.length && time_left(
                    self.deadline_ms as int,
                    now_ms as int,
                ) == Some(ms as int),
                Err(e) => self.done < self.length && time_left(
                    self.deadline_ms as int,
                    now_ms as int,
                ) is None && e == ExchangeError::DeadlineExceeded,
            },
    {
        if self.done >= self.length {
            return Ok(None);
        }
        match remaining_before(self.deadline_ms, now_ms) {
            Some(ms) => Ok(Some(ms)),
            None => Err(ExchangeError::DeadlineExceeded),
        }
    }

    /// Takes note of what was transferred; a peer with which nothing moves is gone.
    pub fn moved(&mut self, count: usize) -> (result: Result<(), ExchangeError>)
        requires
            old(self).wf(),
            count <= old(self).length - old(self).done,
        ensures
            final(self).wf(),
            final(self).direction == old(self).direction,
            final(self).length == old(self).length,
            final(self).deadline_ms == old(self).deadline_ms,
            final(self).done == old(self).done + count,
            match result {
                Ok(_) => count > 0,
                Err(e) => count == 0 && e == match old(self).direction {
                    Direction::Read => ExchangeError::PeerClosed,
                    Direction::Write => ExchangeError::PeerStoppedAccepting,
                },
            },
    {
        if count == 0 {
            return Err(
                match self.direction {
                    Direction::Read => ExchangeError::PeerClosed,
                    Direction::Write => ExchangeError::PeerStoppedAccepting,
                },
            );
        }
        self.done = self.done + count;
        Ok(())
    }
}

/// When a handshake that starts now has to be over.
pub fn handshake_deadline(started_ms: u64) -> (deadline_ms: u64)
    ensures
        deadline_ms == earlier(started_ms + HANDSHAKE_TIMEOUT_MS, u64::MAX as int),
{
    started_ms.saturating_add(HANDSHAKE_TIMEOUT_MS)
}

/// The times at which parts of a message are asked for, one after the other: each time there
/// is time left, and what was asked for is over before that time is.
pub open spec fn is_timed_run(times: Seq<int>, deadline_ms: int) -> bool {
    forall|i: int|
        0 <= i < times.len() - 1 ==> time_left(deadline_ms, #[trigger] times[i]) is Some
            && times[i] <= times[i + 1] <= times[i] + time_left(deadline_ms, times[i])->Some_0
}

/// However slowly a peer feeds or takes the bytes of a handshake, the handshake is over within
/// two seconds of its start.
pub proof fn handshake_ends_within_two_seconds(started_ms: u64, times: Seq<int>)
    requires
        times.len() > 0,
        times[0] == started_ms,
        is_timed_run(
            times,
            earlier(started_ms + HANDSHAKE_TIMEOUT_MS, u64::MAX as int),
        ),
    ensures
        times.last() <= started_ms + 2_000,
{
    if times.len() > 1 {
        let i = times.len() - 2;
        assert(time_left(
            earlier(started_ms + HANDSHAKE_TIMEOUT_MS, u64::MAX as int),
            times[i],
        ) is Some);
    }
}

/// A trickle of data moves the limit for standing still, but never the end of the
/// whole: whatever was read so far, nothing is waited for beyond it.
pub proof fn trickle_does_not_extend_the_deadline(read: TimedRead, now_ms: u64)
    requires
        read.wf(),
    ensures
        idle_end(read.deadline, now_ms) <= read.deadline.total_deadline_ms,
        earlier(read.deadline.total_deadline_ms as int, idle_end(read.deadline, now_ms))
            <= read.deadline.total_deadline_ms,
        now_ms >= read.deadline.total_deadline_ms ==> now_ms >= earlier(
            read.deadline.total_deadline_ms as int,
            idle_end(read.deadline, now_ms),
        ),
{
}

/// A read ends when its time is over or when it stands still for too long, whichever comes
/// first, and not before.
pub proof fn reads_end_at_the_earlier_time(d: ReadDeadline, now_ms: u64)
    ensures
        idle_end(d, now_ms) <= d.total_deadline_ms,
        now_ms + d.idle_timeout_ms <= d.total_deadline_ms ==> idle_end(d, now_ms) == now_ms
            + d.idle_timeout_ms,
        now_ms + d.idle_timeout_ms > d.total_deadline_ms ==> idle_end(d, now_ms)
            == d.total_deadline_ms,
{
}

/// What is left until a deadline gets less as time goes by, to nothing at the deadline.
pub proof fn time_runs_out_at_the_deadline(deadline_ms: int, now_ms: int)
    ensures
        now_ms >= deadline_ms ==> time_left(deadline_ms, now_ms) is None,
        now_ms < deadline_ms ==> time_left(deadline_ms, now_ms) == Some(deadline_ms - now_ms),
{
}

} // verus!
