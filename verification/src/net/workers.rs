//! How long the loops of a running synchronization rest.

use crate::net::state::{RuntimeState, StateView};
use crate::net::transfers;
use crate::net::transfers::has_active_transfers;
use vstd::prelude::*;

verus! {

pub const MAIN_LOOP_ACTIVE_SLEEP_MS: u64 = 15;

pub const MAIN_LOOP_IDLE_SLEEP_MS: u64 = 80;

pub const QUEUE_LOOP_ACTIVE_SLEEP_MS: u64 = 5;

pub const QUEUE_LOOP_IDLE_SLEEP_MS: u64 = 40;

/// Some transfer is under way.
pub open spec fn is_transferring(s: StateView) -> bool {
    exists|i: int|
        0 <= i < s.transfers.len() && transfers::is_active_status(
            (#[trigger] s.transfers[i]).status,
        )
}

/// Something is under way or waits.
pub open spec fn is_busy(s: StateView) -> bool {
    is_transferring(s) || s.outbound.len() > 0 || s.inbound.len() > 0
}

/// How long the main loop rests.
pub fn main_loop_sleep_ms(state: &RuntimeState) -> (ms: u64)
    ensures
        ms == if is_busy(state@) {
            MAIN_LOOP_ACTIVE_SLEEP_MS
        } else {
            MAIN_LOOP_IDLE_SLEEP_MS
        },
{
    if state.outbound_queue.len() > 0 || state.inbound_queue.len() > 0 || has_active_transfers(
        &state.transfers,
    ) {
        MAIN_LOOP_ACTIVE_SLEEP_MS
    } else {
        MAIN_LOOP_IDLE_SLEEP_MS
    }
}

/// How long a loop that works off a queue rests.
pub fn queue_loop_sleep_ms(did_work: bool) -> (ms: u64)
    ensures
        ms == if did_work {
            QUEUE_LOOP_ACTIVE_SLEEP_MS
        } else {
            QUEUE_LOOP_IDLE_SLEEP_MS
        },
{
    if did_work {
        QUEUE_LOOP_ACTIVE_SLEEP_MS
    } else {
        QUEUE_LOOP_IDLE_SLEEP_MS
    }
}

/// The loops are busy exactly while something waits to be sent or applied, or a transfer is
/// sending, receiving, queued, applying or retrying.
pub proof fn loops_are_busy_while_something_waits(s: StateView)
    ensures
        s.outbound.len() > 0 || s.inbound.len() > 0 ==> is_busy(s),
        is_transferring(s) ==> is_busy(s),
        s.outbound.len() == 0 && s.inbound.len() == 0 && (forall|i: int|
            0 <= i < s.transfers.len() ==> (#[trigger] s.transfers[i]).status == "completed"@
                || s.transfers[i].status == "failed"@) ==> !is_busy(s),
{
    if forall|i: int|
        0 <= i < s.transfers.len() ==> (#[trigger] s.transfers[i]).status == "completed"@
            || s.transfers[i].status == "failed"@ {
        transfers::transfers_under_way_are_active("failed"@);
    }
}

} // verus!
