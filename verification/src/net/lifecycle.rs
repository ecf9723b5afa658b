//! Starting and running the main loop of synchronization.

use crate::net::discovery;
use crate::net::discovery::{resolve_local_ip_override, LocalInterface};
use crate::net::ipv4;
use crate::net::ipv4::Ipv4;
use crate::net::members;
use crate::net::members::refresh_discovered_devices;
use crate::net::device::DiscoveredDevice;
use crate::net::flow;
use crate::net::logs::set_error;
use crate::net::state::{RuntimeState, StateView};
use crate::net::transfers::has_active_transfers;
use crate::net::workers;
use crate::text;
use crate::text::trim;
use vstd::prelude::*;

verus! {

/// The time between two scans for devices.
pub const DISCOVERY_REFRESH_MS: u64 = 3_000;

/// How long a scan takes.
pub const DISCOVERY_TIMEOUT_MS: u64 = 900;

/// The time between two announcements.
pub const UDP_ANNOUNCE_MS: u64 = 500;

/// Where the listener is bound: a configured address, all addresses of this machine
/// (none), or an error in words.
pub open spec fn bind_outcome(
    local_ip: Seq<char>,
    is_ipv6: bool,
    interfaces: Option<Seq<LocalInterface>>,
) -> Result<Option<Seq<u8>>, Seq<char>> {
    let value = text::trimmed(local_ip);
    match discovery::resolved_ip(local_ip, is_ipv6, interfaces) {
        Ok(Some(ip)) => Ok(Some(ip)),
        Ok(None) => if value.len() == 0 {
            Ok(None)
        } else {
            Err("selected local ip is not assigned on this machine: "@ + value)
        },
        Err(e) => Err(
            "selected local ip is invalid: "@ + discovery::local_ip_error_text(e, value),
        ),
    }
}

/// Decides where the listener is bound. `is_ipv6` tells whether the configured text is an
/// IPv6 address, which is refused in words of its own.
pub fn bind_address(
    local_ip: &str,
    is_ipv6: bool,
    interfaces: &Option<Vec<LocalInterface>>,
) -> (result: Result<Option<Ipv4>, String>)
    ensures
        ({
            let expected = bind_outcome(local_ip@, is_ipv6, discovery::listed(*interfaces));
            match result {
                Ok(ip) => expected == Ok::<Option<Seq<u8>>, Seq<char>>(discovery::ip_option(ip)),
                Err(e) => expected == Err::<Option<Seq<u8>>, Seq<char>>(e@),
            }
        }),
{
    let value = trim(local_ip);
    match resolve_local_ip_override(local_ip, is_ipv6, interfaces) {
        Ok(Some(ip)) => Ok(Some(ip)),
        Ok(None) => {
            if value.as_str().is_empty() {
                return Ok(None);
            }
            let mut message: String =
                "selected local ip is not assigned on this machine: ".to_owned();
            message.append(&value);
            Err(message)
        },
        Err(e) => {
            let mut message: String = "selected local ip is invalid: ".to_owned();
            message.append(&e.message(&value));
            Err(message)
        },
    }
}

/// What the main loop does next besides accepting connections.
#[derive(Debug, Clone, Copy, PartialEq, Eq, Structural)]
pub struct LoopPlan {
    /// Send an announcement; its time counts from now.
    pub announce: bool,
    /// Scan for devices.
    pub scan: bool,
    /// The time of the next scan counts from now, whether or not one is made.
    pub restart_scan_clock: bool,
}

/// Plans a round of the main loop by the time since the last announcement and the last
/// scan. While something is transferred no scan is made.
pub fn plan_round(
    state: &RuntimeState,
    has_udp: bool,
    since_announcement_ms: u64,
    since_scan_ms: u64,
) -> (plan: LoopPlan)
    ensures
        plan.announce == (has_udp && since_announcement_ms >= UDP_ANNOUNCE_MS),
        plan.restart_scan_clock == (since_scan_ms >= DISCOVERY_REFRESH_MS),
        plan.scan == (plan.restart_scan_clock && !workers::is_transferring(state@)),
{
    let due = since_scan_ms >= DISCOVERY_REFRESH_MS;
    LoopPlan {
        announce: has_udp && since_announcement_ms >= UDP_ANNOUNCE_MS,
        scan: due && !has_active_transfers(&state.transfers),
        restart_scan_clock: due,
    }
}

/// Takes note of an error of the main loop, with what failed before its words.
pub fn note_loop_failure(state: &mut RuntimeState, what: &str, error: &str, now_ms: u64)
    ensures
        old(state).wf() ==> final(state).wf(),
        final(state)@ == flow::with_error(old(state)@, what@ + ": "@ + error@, now_ms),
{
    let mut message: String = what.to_owned();
    message.append(": ");
    message.append(error);
    set_error(&mut state.last_error, &mut state.logs, &message, now_ms);
    assert(state@ =~= flow::with_error(old(state)@, what@ + ": "@ + error@, now_ms));
}

/// Takes note of what a scan found. A scan that failed changes nothing but the last
/// error.
pub fn finish_scan(
    state: &mut RuntimeState,
    found: Result<Vec<DiscoveredDevice>, String>,
    now_ms: u64,
)
    requires
        old(state).wf(),
    ensures
        final(state).wf(),
        match found {
            Ok(devices) => members::is_merged(
                old(state).members,
                final(state).members,
                devices@,
                now_ms,
            ) && final(state)@ == (StateView { members: final(state).members, ..old(state)@ }),
            Err(e) => final(state)@ == flow::with_error(
                old(state)@,
                "peer discovery failed"@ + ": "@ + e@,
                now_ms,
            ),
        },
{
    match found {
        Ok(devices) => {
            refresh_discovered_devices(&mut state.members, devices, now_ms);
        },
        Err(e) => {
            note_loop_failure(state, "peer discovery failed", &e, now_ms);
        },
    }
}

/// Without a configured address the listener is bound to all addresses; with one that can be
/// used and belongs to this machine, to that; and otherwise it is not bound at all.
pub proof fn listeners_are_bound_where_configured(
    ip: Seq<u8>,
    interfaces: Seq<LocalInterface>,
    is_ipv6: bool,
    blank: Seq<char>,
)
    requires
        ip.len() == 4,
        text::trimmed(blank).len() == 0,
    ensures
        bind_outcome(blank, is_ipv6, Some(interfaces)) == Ok::<Option<Seq<u8>>, Seq<char>>(None),
        ({
            let offered = exists|i: int|
                0 <= i < interfaces.len() && (#[trigger] interfaces[i]).ip@ == ip;
            let found = bind_outcome(ipv4::ipv4_text(ip), is_ipv6, Some(interfaces));
            &&& ipv4::is_usable(ip) && offered ==> found == Ok::<_, Seq<char>>(Some(ip))
            &&& !(ipv4::is_usable(ip) && offered) ==> found is Err
        }),
{
    discovery::configured_addresses_are_used(ip, interfaces, is_ipv6, blank);
    let t = ipv4::ipv4_text(ip);
    ipv4::ipv4_text_is_read_back(ip);
    if text::trimmed(t).len() == 0 {
        discovery::configured_addresses_are_used(ip, interfaces, is_ipv6, t);
        ipv4::decimal_is_read_back(ip[0] as nat);
        ipv4::decimal_is_read_back(ip[3] as nat);
        let a = text::decimal(ip[0] as nat);
        let d = text::decimal(ip[3] as nat);
        assert(ipv4::is_digit(a[0]));
        assert(ipv4::is_digit(d[d.len() - 1]));
        assert(t[0] == a[0]);
        assert(t.last() == d.last());
        text::trim_keeps(t);
    }
}

} // verus!
