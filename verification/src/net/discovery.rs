//! Finding the other devices of the sharing domain.

use crate::net::deadline::remaining_before;
use crate::net::device;
use crate::net::device::{
    is_valid_device_id, is_valid_discovery_domain_id, normalize_device_name,
    validate_discovered_device, DeviceView, DiscoveredDevice, MIN_DEVICE_PORT,
};
use crate::net::ipv4;
use crate::net::ipv4::{
    ipv4_to_text, is_private_lan_ipv4, is_same_lan_scope, is_usable_ipv4, parse_ipv4, Ipv4,
};
use crate::order;
use crate::order::stable_sort;
use crate::settings::Settings;
use crate::text;
use crate::text::{chars_of, contains_text, is_text_before, lower_text, same_text, trim};
use crate::uuid_text;
use vstd::prelude::*;

verus! {

/// The type of the service that devices announce.
pub const SERVICE_TYPE: &'static str = "_lan-clipboard._tcp.local.";

/// The port for announcements over UDP.
pub const UDP_DISCOVERY_PORT: u16 = 32911;

/// How many devices are kept.
pub const DISCOVERED_DEVICE_LIMIT: usize = 100;

/// How many answers one scan takes note of.
pub const MDNS_RESOLVED_EVENT_LIMIT: usize = 256;

/// How many devices are probed at a time.
pub const DISCOVERY_REACHABILITY_WORKER_LIMIT: usize = 8;

/// The longest time for one probe.
pub const DISCOVERY_REACHABILITY_TIMEOUT_MS: u64 = 220;

/// The longest time for all probes of a scan.
pub const DISCOVERY_REACHABILITY_MAX_BUDGET_MS: u64 = 400;

/// The longest time for ending a scan.
pub const DISCOVERY_SHUTDOWN_BUDGET_MS: u64 = 100;

/// A network interface of this machine that can be chosen.
#[derive(Debug)]
pub struct NetworkInterfaceOption {
    pub name: String,
    pub ip: String,
    pub label: String,
}

/// An address of this machine.
#[derive(Debug)]
pub struct LocalInterface {
    pub name: String,
    pub ip: Ipv4,
}

/// Why a configured address cannot be used.
#[derive(Debug, Clone, Copy, PartialEq, Eq, Structural)]
pub enum LocalIpError {
    /// It is no address.
    Invalid,
    /// It is an IPv6 address.
    NotIpv4,
    /// No device can be reached at it.
    NotUsable,
}

/// Words for a configured address that cannot be used.
pub open spec fn local_ip_error_text(e: LocalIpError, value: Seq<char>) -> Seq<char> {
    match e {
        LocalIpError::Invalid => "invalid selected local ip: "@ + value,
        LocalIpError::NotIpv4 => "selected local ip must be ipv4: "@ + value,
        LocalIpError::NotUsable => "selected local ip is not usable: "@ + value,
    }
}

impl LocalIpError {
    /// The error in words, given the address without white space around it.
    pub fn message(&self, value: &str) -> (text: String)
        ensures
            text@ == local_ip_error_text(*self, value@),
    {
        let mut text: String = match self {
            LocalIpError::Invalid => "invalid selected local ip: ".to_owned(),
            LocalIpError::NotIpv4 => "selected local ip must be ipv4: ".to_owned(),
            LocalIpError::NotUsable => "selected local ip is not usable: ".to_owned(),
        };
        text.append(value);
        text
    }
}

/// The time for the parts of a scan in milliseconds.
#[derive(Debug, Clone, Copy, PartialEq, Eq, Structural)]
pub struct DiscoveryBudget {
    pub browse_ms: u64,
    pub shutdown_ms: u64,
    pub reachability_ms: u64,
}

/// What an answer to a scan says.
#[derive(Debug)]
pub struct ResolvedService {
    pub fullname: String,
    pub device_id: Option<String>,
    pub domain_id: Option<String>,
    pub device_name: Option<String>,
    pub addresses: Vec<Ipv4>,
    pub port: u16,
}

/// What this device announces about itself.
#[derive(Debug)]
pub struct PresenceConfig {
    pub device_id: String,
    pub device_name: String,
    pub domain_id: String,
    pub local_ip: String,
    pub listen_port: u16,
}

/// The service record that this device registers.
#[derive(Debug)]
pub struct ServiceRecord {
    pub instance: String,
    pub host_name: String,
    pub ip: String,
    pub port: u16,
    pub device_name: String,
    pub domain_id: String,
}

/// Why this device cannot announce itself.
#[derive(Debug, Clone, Copy, PartialEq, Eq, Structural)]
pub enum PresenceError {
    InvalidIdentity,
    InvalidName,
    LocalIp(LocalIpError),
    NoLocalIp,
}

/// The addresses of interfaces.
pub open spec fn addresses_of(list: Seq<LocalInterface>) -> Seq<Seq<u8>> {
    list.map_values(|i: LocalInterface| i.ip@)
}

/// This machine has an address. If its interfaces cannot be listed, it is given
/// the benefit of the doubt.
pub open spec fn is_assigned(interfaces: Option<Seq<LocalInterface>>, ip: Seq<u8>) -> bool {
    match interfaces {
        Some(list) => addresses_of(list).contains(ip),
        None => true,
    }
}

/// Interfaces, if they could be listed.
pub open spec fn listed(interfaces: Option<Vec<LocalInterface>>) -> Option<Seq<LocalInterface>> {
    match interfaces {
        Some(list) => Some(list@),
        None => None,
    }
}

/// What a configured address comes to: nothing if it is empty or not assigned. `is_ipv6`
/// tells whether it is an IPv6 address, which is an error of its own.
pub open spec fn resolved_ip(
    value: Seq<char>,
    is_ipv6: bool,
    interfaces: Option<Seq<LocalInterface>>,
) -> Result<Option<Seq<u8>>, LocalIpError> {
    let s = text::trimmed(value);
    if s.len() == 0 {
        Ok(None)
    } else {
        match ipv4::ipv4_of(s) {
            None => Err(
                if is_ipv6 {
                    LocalIpError::NotIpv4
                } else {
                    LocalIpError::Invalid
                },
            ),
            Some(ip) => if !ipv4::is_usable(ip) {
                Err(LocalIpError::NotUsable)
            } else if is_assigned(interfaces, ip) {
                Ok(Some(ip))
            } else {
                Ok(None)
            },
        }
    }
}

/// The place of the first address that a device can be reached at, or the length.
pub open spec fn first_usable(c: Seq<Ipv4>) -> int
    decreases c.len(),
{
    if c.len() == 0 || ipv4::is_usable(c[0]@) {
        0
    } else {
        1 + first_usable(c.skip(1))
    }
}

/// The place of the first private address, or the length.
pub open spec fn first_private(c: Seq<Ipv4>) -> int
    decreases c.len(),
{
    if c.len() == 0 || ipv4::private_scope(c[0]@) is Some {
        0
    } else {
        1 + first_private(c.skip(1))
    }
}

/// The best of some addresses: the first private one, else the first usable one.
pub open spec fn best_ipv4(c: Seq<Ipv4>) -> Option<Seq<u8>> {
    if first_private(c) < c.len() {
        Some(c[first_private(c)]@)
    } else if first_usable(c) < c.len() {
        Some(c[first_usable(c)]@)
    } else {
        None
    }
}

/// The name of an interface of a virtual machine or a tunnel, as Windows names them.
pub open spec fn is_virtual_name(name: Seq<char>, on_windows: bool) -> bool {
    let lower = text::ascii_lowered(name);
    on_windows && {
        ||| text::holds(lower, "vethernet"@)
        ||| text::holds(lower, "hyper-v"@)
        ||| text::holds(lower, "virtual"@)
        ||| text::holds(lower, "vmware"@)
        ||| text::holds(lower, "virtualbox"@)
        ||| text::holds(lower, "wsl"@)
        ||| text::holds(lower, "tailscale"@)
        ||| text::holds(lower, "hamachi"@)
        ||| text::holds(lower, "tap"@)
        ||| text::holds(lower, "tun"@)
        ||| text::holds(lower, "loopback"@)
    }
}

/// The addresses of the interfaces that this device may choose by itself.
pub open spec fn own_candidates(list: Seq<LocalInterface>, on_windows: bool) -> Seq<Ipv4>
    decreases list.len(),
{
    if list.len() == 0 {
        Seq::empty()
    } else {
        let rest = own_candidates(list.drop_last(), on_windows);
        if ipv4::is_usable(list.last().ip@) && !is_virtual_name(list.last().name@, on_windows) {
            rest.push(list.last().ip)
        } else {
            rest
        }
    }
}

/// The address that this device chooses by itself.
pub open spec fn own_ip(interfaces: Option<Seq<LocalInterface>>, on_windows: bool) -> Option<
    Seq<u8>,
> {
    match interfaces {
        Some(list) => best_ipv4(own_candidates(list, on_windows)),
        None => None,
    }
}

/// How the time for a scan is divided: a third for probing, at most 400 ms, a
/// tenth of a second for ending, the rest for listening.
pub open spec fn is_budget(b: DiscoveryBudget, timeout_ms: u64) -> bool {
    &&& b.reachability_ms == if timeout_ms / 3 <= DISCOVERY_REACHABILITY_MAX_BUDGET_MS {
        timeout_ms / 3
    } else {
        DISCOVERY_REACHABILITY_MAX_BUDGET_MS
    }
    &&& b.shutdown_ms == if timeout_ms - b.reachability_ms <= DISCOVERY_SHUTDOWN_BUDGET_MS {
        timeout_ms - b.reachability_ms
    } else {
        DISCOVERY_SHUTDOWN_BUDGET_MS as int
    }
    &&& b.browse_ms + b.shutdown_ms + b.reachability_ms == timeout_ms
}

/// Divides the time for a scan.
pub fn discovery_budget(timeout_ms: u64) -> (budget: DiscoveryBudget)
    ensures
        is_budget(budget, timeout_ms),
{
    let third: u64 = timeout_ms / 3;
    let reachability_ms: u64 = if third <= DISCOVERY_REACHABILITY_MAX_BUDGET_MS {
        third
    } else {
        DISCOVERY_REACHABILITY_MAX_BUDGET_MS
    };
    let rest: u64 = timeout_ms - reachability_ms;
    let shutdown_ms: u64 = if rest <= DISCOVERY_SHUTDOWN_BUDGET_MS {
        rest
    } else {
        DISCOVERY_SHUTDOWN_BUDGET_MS
    };
    DiscoveryBudget { browse_ms: rest - shutdown_ms, shutdown_ms, reachability_ms }
}

/// Tells whether this machine has an address.
pub fn is_ipv4_assigned_locally(ip: &Ipv4, interfaces: &Option<Vec<LocalInterface>>) -> (assigned:
    bool)
    ensures
        assigned == is_assigned(listed(*interfaces), ip@),
{
    match interfaces {
        None => true,
        Some(list) => {
            let mut i: usize = 0;
            while i < list.len()
                invariant
                    i <= list.len(),
                    listed(*interfaces) == Some(list@),
                    forall|j: int| 0 <= j < i ==> (#[trigger] addresses_of(list@)[j]) != ip@,
                decreases list.len() - i,
            {
                assert(addresses_of(list@)[i as int] == list@[i as int].ip@);
                if crate::bytes::same_bytes(&list[i].ip, ip) {
                    return true;
                }
                i = i + 1;
            }
            false
        },
    }
}

/// Reads a configured address: empty, or not assigned to this machine, it comes
/// to nothing. `is_ipv6` tells whether it is, without white space around it, an IPv6 address.
pub fn resolve_local_ip_override(
    value: &str,
    is_ipv6: bool,
    interfaces: &Option<Vec<LocalInterface>>,
) -> (result: Result<Option<Ipv4>, LocalIpError>)
    ensures
        match result {
            Ok(Some(ip)) => resolved_ip(value@, is_ipv6, listed(*interfaces)) == Ok::<_, LocalIpError>(
                Some(ip@),
            ),
            Ok(None) => resolved_ip(value@, is_ipv6, listed(*interfaces)) == Ok::<
                Option<Seq<u8>>,
                LocalIpError,
            >(None),
            Err(e) => resolved_ip(value@, is_ipv6, listed(*interfaces)) == Err::<Option<Seq<u8>>, _>(e),
        },
{
    let trimmed = trim(value);
    if trimmed.as_str().is_empty() {
        return Ok(None);
    }
    match parse_ipv4(&trimmed) {
        None => Err(
            if is_ipv6 {
                LocalIpError::NotIpv4
            } else {
                LocalIpError::Invalid
            },
        ),
        Some(ip) => if !is_usable_ipv4(&ip) {
            Err(LocalIpError::NotUsable)
        } else if is_ipv4_assigned_locally(&ip, interfaces) {
            Ok(Some(ip))
        } else {
            Ok(None)
        },
    }
}

/// A text that may be missing: missing, it is empty.
pub open spec fn or_empty(value: Option<&str>) -> Seq<char> {
    match value {
        Some(s) => s@,
        None => Seq::empty(),
    }
}

/// Reads the address that was selected, if one was. `is_ipv6` tells whether it is an IPv6
/// address.
pub fn parse_selected_ipv4(
    selected_local_ip: Option<&str>,
    is_ipv6: bool,
    interfaces: &Option<Vec<LocalInterface>>,
) -> (result: Result<Option<Ipv4>, LocalIpError>)
    ensures
        match result {
            Ok(Some(ip)) => resolved_ip(or_empty(selected_local_ip), is_ipv6, listed(*interfaces)) == Ok::<
                _,
                LocalIpError,
            >(Some(ip@)),
            Ok(None) => resolved_ip(or_empty(selected_local_ip), is_ipv6, listed(*interfaces)) == Ok::<
                Option<Seq<u8>>,
                LocalIpError,
            >(None),
            Err(e) => resolved_ip(or_empty(selected_local_ip), is_ipv6, listed(*interfaces)) == Err::<
                Option<Seq<u8>>,
                _,
            >(e),
        },
{
    match selected_local_ip {
        Some(value) => resolve_local_ip_override(value, is_ipv6, interfaces),
        None => {
            proof {
                text::trim_keeps(Seq::<char>::empty());
            }
            Ok(None)
        },
    }
}

/// The best of some addresses.
pub fn pick_best_ipv4(candidates: &Vec<Ipv4>) -> (best: Option<Ipv4>)
    ensures
        match best {
            Some(ip) => best_ipv4(candidates@) == Some(ip@),
            None => best_ipv4(candidates@) is None,
        },
{
    let mut fallback: Option<Ipv4> = None;
    let mut i: usize = 0;
    let ghost all = candidates@;
    assert(all.skip(0) =~= all);
    while i < candidates.len()
        invariant
            i <= candidates.len(),
            all == candidates@,
            first_private(all) == i + first_private(all.skip(i as int)),
            match fallback {
                Some(ip) => first_usable(all) < i && all[first_usable(all)] == ip,
                None => first_usable(all) == i + first_usable(all.skip(i as int)),
            },
        decreases candidates.len() - i,
    {
        let ip = candidates[i];
        proof {
            assert(all.skip(i as int)[0] == ip);
            assert(all.skip(i as int).skip(1) =~= all.skip(i + 1));
        }
        if is_private_lan_ipv4(&ip) {
            return Some(ip);
        }
        if fallback.is_none() && is_usable_ipv4(&ip) {
            fallback = Some(ip);
        }
        i = i + 1;
    }
    fallback
}

/// Tells whether an interface belongs to a virtual machine or a tunnel.
pub fn is_likely_virtual_interface(name: &str, on_windows: bool) -> (virtual_one: bool)
    ensures
        virtual_one == is_virtual_name(name@, on_windows),
{
    let lower = lower_text(name);
    on_windows && (contains_text(&lower, "vethernet") || contains_text(&lower, "hyper-v")
        || contains_text(&lower, "virtual") || contains_text(&lower, "vmware") || contains_text(
        &lower,
        "virtualbox",
    ) || contains_text(&lower, "wsl") || contains_text(&lower, "tailscale") || contains_text(
        &lower,
        "hamachi",
    ) || contains_text(&lower, "tap") || contains_text(&lower, "tun") || contains_text(
        &lower,
        "loopback",
    ))
}

/// The address that this device chooses by itself.
pub fn pick_local_ip(interfaces: &Option<Vec<LocalInterface>>, on_windows: bool) -> (ip: Option<
    Ipv4,
>)
    ensures
        match ip {
            Some(b) => own_ip(listed(*interfaces), on_windows) == Some(b@),
            None => own_ip(listed(*interfaces), on_windows) is None,
        },
{
    match interfaces {
        None => None,
        Some(list) => {
            let mut candidates: Vec<Ipv4> = Vec::new();
            let mut i: usize = 0;
            while i < list.len()
                invariant
                    i <= list.len(),
                    candidates@ == own_candidates(list@.take(i as int), on_windows),
                decreases list.len() - i,
            {
                proof {
                    assert(list@.take(i + 1).drop_last() =~= list@.take(i as int));
                    assert(list@.take(i + 1).last() == list@[i as int]);
                }
                if is_usable_ipv4(&list[i].ip) && !is_likely_virtual_interface(
                    &list[i].name,
                    on_windows,
                ) {
                    candidates.push(list[i].ip);
                }
                i = i + 1;
            }
            assert(list@.take(i as int) =~= list@);
            pick_best_ipv4(&candidates)
        },
    }
}

/// The address that peers are chosen for: the selected one, else the one that
/// connections came in on, else the one that this device chooses.
pub open spec fn effective_ip(
    selected: Seq<char>,
    active: Option<Seq<char>>,
    interfaces: Option<Seq<LocalInterface>>,
    on_windows: bool,
) -> Option<Seq<char>> {
    match resolved_ip(selected, false, interfaces) {
        Ok(Some(ip)) => Some(ipv4::ipv4_text(ip)),
        _ => match active {
            Some(s) => Some(s),
            None => match own_ip(interfaces, on_windows) {
                Some(ip) => Some(ipv4::ipv4_text(ip)),
                None => None,
            },
        },
    }
}

/// The address that peers are chosen for.
pub fn selected_or_active_local_ip(
    settings: &Settings,
    selected_local_ip: Option<&str>,
    active_local_ip: Option<String>,
    interfaces: &Option<Vec<LocalInterface>>,
    on_windows: bool,
) -> (ip: Option<String>)
    ensures
        crate::net::transfers::text_option(ip) == effective_ip(
            match selected_local_ip {
                Some(s) => s@,
                None => settings@.local_ip,
            },
            crate::net::transfers::text_option(active_local_ip),
            listed(*interfaces),
            on_windows,
        ),
{
    let selected: &str = match selected_local_ip {
        Some(s) => s,
        None => settings.sync.local_ip.as_str(),
    };
    match resolve_local_ip_override(selected, false, interfaces) {
        Ok(Some(ip)) => Some(ipv4_to_text(&ip)),
        _ => match active_local_ip {
            Some(active) => Some(active),
            None => match pick_local_ip(interfaces, on_windows) {
                Some(ip) => Some(ipv4_to_text(&ip)),
                None => None,
            },
        },
    }
}

/// A device may be on the local network of an address.
pub open spec fn is_in_scope(d: DiscoveredDevice, selected: Seq<u8>) -> bool {
    match ipv4::ipv4_of(d.addr@) {
        Some(ip) => ipv4::same_scope(selected, ip),
        None => false,
    }
}

/// Tells whether a device may be on the local network of an address.
pub fn device_matches_selected_scope(device: &DiscoveredDevice, selected: &Ipv4) -> (matches: bool)
    ensures
        matches == is_in_scope(*device, selected@),
{
    match parse_ipv4(&device.addr) {
        Some(ip) => is_same_lan_scope(selected, &ip),
        None => false,
    }
}

/// The devices that may be on the local network of the selected address.
pub open spec fn devices_in_scope(
    devices: Seq<DiscoveredDevice>,
    selected: Result<Option<Seq<u8>>, LocalIpError>,
) -> Seq<DiscoveredDevice> {
    match selected {
        Ok(Some(ip)) => devices.filter(|d: DiscoveredDevice| is_in_scope(d, ip)),
        _ => devices,
    }
}

/// No device is shown that is not known.
pub proof fn scope_only_narrows(
    devices: Seq<DiscoveredDevice>,
    selected: Result<Option<Seq<u8>>, LocalIpError>,
)
    ensures
        devices_in_scope(devices, selected).len() <= devices.len(),
{
    if let Ok(Some(ip)) = selected {
        devices.lemma_filter_len(|d: DiscoveredDevice| is_in_scope(d, ip));
    }
}

/// Keeps the devices that may be on the local network of the selected address;
/// all of them if none is selected.
pub fn filter_devices_for_local_ip(
    devices: Vec<DiscoveredDevice>,
    selected_local_ip: Option<&str>,
    interfaces: &Option<Vec<LocalInterface>>,
) -> (kept: Vec<DiscoveredDevice>)
    ensures
        kept@ == devices_in_scope(
            devices@,
            resolved_ip(or_empty(selected_local_ip), false, listed(*interfaces)),
        ),
{
    let selected = match parse_selected_ipv4(selected_local_ip, false, interfaces) {
        Ok(Some(ip)) => ip,
        _ => return devices,
    };
    let ghost fits = |d: DiscoveredDevice| is_in_scope(d, selected@);
    let mut kept: Vec<DiscoveredDevice> = Vec::new();
    let mut i: usize = 0;
    proof {
        reveal(Seq::filter);
    }
    assert(kept@ =~= devices@.take(0).filter(fits));
    while i < devices.len()
        invariant
            i <= devices.len(),
            fits == (|d: DiscoveredDevice| is_in_scope(d, selected@)),
            kept@ == devices@.take(i as int).filter(fits),
        decreases devices.len() - i,
    {
        proof {
            assert(devices@.take(i + 1) =~= devices@.take(i as int).push(devices@[i as int]));
            devices@.take(i as int).lemma_filter_push(devices@[i as int], fits);
        }
        if device_matches_selected_scope(&devices[i], &selected) {
            kept.push(devices[i].clone());
        }
        i = i + 1;
    }
    assert(devices@.take(i as int) =~= devices@);
    kept
}

/// The broadcast address of the 24-bit network of an address.
pub open spec fn broadcast_of(ip: Seq<u8>) -> Seq<u8> {
    seq![ip[0], ip[1], ip[2], 255u8]
}

/// An address that announcements are sent to: the broadcast address for all
/// networks, and those of the selected address or else of all usable interfaces.
pub open spec fn is_broadcast_target(
    target: Seq<u8>,
    selected: Seq<char>,
    interfaces: Option<Seq<LocalInterface>>,
) -> bool {
    ||| target == seq![255u8, 255u8, 255u8, 255u8]
    ||| match resolved_ip(selected, false, interfaces) {
        Ok(Some(ip)) => target == broadcast_of(ip),
        _ => match interfaces {
            Some(list) => exists|i: int|
                0 <= i < list.len() && ipv4::is_usable((#[trigger] list[i]).ip@) && target
                    == broadcast_of(list[i].ip@),
            None => false,
        },
    }
}

fn push_unique(targets: &mut Vec<Ipv4>, target: Ipv4)
    requires
        forall|i: int, j: int|
            0 <= i < j < old(targets)@.len() ==> (#[trigger] old(targets)@[i])@ != (
            #[trigger] old(targets)@[j])@,
    ensures
        forall|i: int, j: int|
            0 <= i < j < final(targets)@.len() ==> (#[trigger] final(targets)@[i])@ != (
            #[trigger] final(targets)@[j])@,
        forall|t: Seq<u8>|
            #[trigger] is_among(final(targets)@, t) <==> t == target@ || is_among(
                old(targets)@,
                t,
            ),
{
    let ghost before = targets@;
    let mut i: usize = 0;
    while i < targets.len()
        invariant
            i <= targets.len(),
            targets@ == before,
            before == old(targets)@,
            forall|a: int, b: int|
                0 <= a < b < before.len() ==> (#[trigger] before[a])@ != (#[trigger] before[b])@,
            forall|j: int| 0 <= j < i ==> (#[trigger] before[j])@ != target@,
        decreases targets.len() - i,
    {
        if crate::bytes::same_bytes(&targets[i], &target) {
            assert(is_among(before, target@));
            return ;
        }
        i = i + 1;
    }
    targets.push(target);
    proof {
        let after = targets@;
        assert(after[before.len() as int] == target);
        assert forall|t: Seq<u8>|
            #[trigger] is_among(after, t) <==> t == target@ || is_among(before, t) by {
            if is_among(before, t) {
                let i = choose|i: int| 0 <= i < before.len() && (#[trigger] before[i])@ == t;
                assert(after[i]@ == t);
            }
            if is_among(after, t) {
                let i = choose|i: int| 0 <= i < after.len() && (#[trigger] after[i])@ == t;
                if i < before.len() {
                    assert(before[i]@ == t);
                }
            }
        }
    }
}

/// `target` is one of `targets`.
pub open spec fn is_among(targets: Seq<Ipv4>, target: Seq<u8>) -> bool {
    exists|i: int| 0 <= i < targets.len() && (#[trigger] targets[i])@ == target
}

/// The addresses that announcements are sent to, each once.
pub fn udp_broadcast_targets(
    selected_local_ip: &str,
    interfaces: &Option<Vec<LocalInterface>>,
) -> (targets: Vec<Ipv4>)
    ensures
        forall|t: Seq<u8>|
            #[trigger] is_among(targets@, t) <==> is_broadcast_target(
                t,
                selected_local_ip@,
                listed(*interfaces),
            ),
        forall|i: int, j: int|
            0 <= i < j < targets@.len() ==> (#[trigger] targets@[i])@ != (#[trigger] targets@[j])@,
{
    let mut targets: Vec<Ipv4> = Vec::new();
    let all: Ipv4 = [255, 255, 255, 255];
    targets.push(all);
    assert(all@ =~= seq![255u8, 255u8, 255u8, 255u8]);
    assert(targets@[0]@ == all@);
    match resolve_local_ip_override(selected_local_ip, false, interfaces) {
        Ok(Some(ip)) => {
            let own: Ipv4 = [ip[0], ip[1], ip[2], 255];
            assert(own@ =~= broadcast_of(ip@));
            push_unique(&mut targets, own);
            return targets;
        },
        _ => {},
    }
    assert forall|t: Seq<u8>| #[trigger] is_among(targets@, t) <==> t == all@ by {
        if t == all@ {
            assert(targets@[0]@ == t);
        }
    }
    if let Some(list) = interfaces {
        let mut i: usize = 0;
        while i < list.len()
            invariant
                i <= list.len(),
                listed(*interfaces) == Some(list@),
                all@ == seq![255u8, 255u8, 255u8, 255u8],
                forall|a: int, b: int|
                    0 <= a < b < targets@.len() ==> (#[trigger] targets@[a])@ != (
                    #[trigger] targets@[b])@,
                forall|t: Seq<u8>|
                    #[trigger] is_among(targets@, t) <==> t == all@ || exists|k: int|
                        0 <= k < i && ipv4::is_usable((#[trigger] list@[k]).ip@) && t
                            == broadcast_of(list@[k].ip@),
            decreases list.len() - i,
        {
            let ip = list[i].ip;
            let ghost before = targets@;
            if is_usable_ipv4(&ip) {
                let own: Ipv4 = [ip[0], ip[1], ip[2], 255];
                assert(own@ =~= broadcast_of(list@[i as int].ip@));
                push_unique(&mut targets, own);
            }
            i = i + 1;
        }
        assert forall|t: Seq<u8>| #[trigger] is_among(targets@, t) <==> is_broadcast_target(
            t,
            selected_local_ip@,
            listed(*interfaces),
        ) by {
            assert(listed(*interfaces)->Some_0 == list@);
        }
    }
    targets
}

/// The name that this device shows to others: the first that the system knows
/// it by, else its identifier.
pub open spec fn shown_name(candidates: Seq<Seq<char>>, device_id: Seq<char>) -> Seq<char>
    decreases candidates.len(),
{
    if candidates.len() == 0 {
        device_id
    } else if text::trimmed(candidates[0]).len() > 0 {
        text::trimmed(candidates[0])
    } else {
        shown_name(candidates.skip(1), device_id)
    }
}

/// The name that this device shows to others.
pub fn local_device_name(candidates: &Vec<String>, device_id: &str) -> (name: String)
    ensures
        name@ == shown_name(crate::protocol::texts(candidates@), device_id@),
{
    let ghost all = crate::protocol::texts(candidates@);
    let mut i: usize = 0;
    assert(all.skip(0) =~= all);
    while i < candidates.len()
        invariant
            i <= candidates.len(),
            all == crate::protocol::texts(candidates@),
            shown_name(all, device_id@) == shown_name(all.skip(i as int), device_id@),
        decreases candidates.len() - i,
    {
        proof {
            assert(all.skip(i as int)[0] == candidates@[i as int]@);
            assert(all.skip(i as int).skip(1) =~= all.skip(i + 1));
        }
        let trimmed = trim(&candidates[i]);
        if !trimmed.as_str().is_empty() {
            return trimmed;
        }
        i = i + 1;
    }
    device_id.to_owned()
}

/// The instance name at the start of a service's full name.
pub open spec fn instance_name(fullname: Seq<char>) -> Seq<char> {
    fullname.take(ipv4::next_dot(fullname, 0))
}

/// A text that may be missing: missing, it is empty.
pub open spec fn text_or_empty(value: Option<String>) -> Seq<char> {
    match value {
        Some(s) => s@,
        None => Seq::empty(),
    }
}

/// The device that an answer to a scan describes, if it is another device of
/// the domain that can be contacted.
pub open spec fn described_device(
    info: ResolvedService,
    self_device_id: Seq<char>,
    domain_id: Seq<char>,
    selected: Option<Seq<u8>>,
) -> Option<DeviceView> {
    let id = instance_name(info.fullname@);
    if info.device_id is None || id != info.device_id->Some_0@ || id == self_device_id
        || !device::is_device_id(id) || info.port < MIN_DEVICE_PORT {
        None
    } else if text_or_empty(info.domain_id) != domain_id || !device::is_domain_id(domain_id) {
        None
    } else {
        match (best_ipv4(info.addresses@), device::normal_name(text_or_empty(info.device_name))) {
            (Some(ip), Some(name)) => if selected is Some && !ipv4::same_scope(
                selected->Some_0,
                ip,
            ) {
                None
            } else {
                Some(
                    DeviceView {
                        device_id: id,
                        device_name: name,
                        addr: ipv4::ipv4_text(ip),
                        port: info.port,
                    },
                )
            },
            _ => None,
        }
    }
}

/// An address that may be missing, as plain values.
pub open spec fn ip_option(ip: Option<Ipv4>) -> Option<Seq<u8>> {
    match ip {
        Some(b) => Some(b@),
        None => None,
    }
}

proof fn best_ipv4_is_usable(c: Seq<Ipv4>)
    ensures
        best_ipv4(c) is Some ==> best_ipv4(c)->Some_0.len() == 4 && ipv4::is_usable(
            best_ipv4(c)->Some_0,
        ),
    decreases c.len(),
{
    first_places(c);
    if first_private(c) < c.len() {
        ipv4::private_addresses_are_usable(c[first_private(c)]@);
    }
}

proof fn first_places(c: Seq<Ipv4>)
    ensures
        0 <= first_private(c) <= c.len(),
        0 <= first_usable(c) <= c.len(),
        first_private(c) < c.len() ==> ipv4::private_scope(c[first_private(c)]@) is Some,
        first_usable(c) < c.len() ==> ipv4::is_usable(c[first_usable(c)]@),
    decreases c.len(),
{
    if c.len() > 0 {
        first_places(c.skip(1));
    }
}

/// Reads an answer to a scan. What it describes can be contacted.
pub fn info_to_device(
    info: &ResolvedService,
    self_device_id: &str,
    domain_id: &str,
    selected_local_ip: Option<Ipv4>,
) -> (found: Option<DiscoveredDevice>)
    ensures
        match found {
            Some(d) => {
                &&& described_device(
                    *info,
                    self_device_id@,
                    domain_id@,
                    ip_option(selected_local_ip),
                ) == Some(d@)
                &&& device::is_valid_device(d@)
            },
            None => described_device(
                *info,
                self_device_id@,
                domain_id@,
                ip_option(selected_local_ip),
            ) is None,
        },
{
    let chars = chars_of(&info.fullname);
    let mut end: usize = 0;
    while end < chars.len() && chars[end] != '.'
        invariant
            end <= chars.len(),
            ipv4::next_dot(chars@, 0) == ipv4::next_dot(chars@, end as int),
        decreases chars.len() - end,
    {
        end = end + 1;
    }
    let device_id = crate::text::text_of(&chars, 0, end);
    assert(device_id@ =~= instance_name(info.fullname@));
    match &info.device_id {
        None => return None,
        Some(property) => {
            if !same_text(&device_id, property) {
                return None;
            }
        },
    }
    if same_text(&device_id, self_device_id) || !is_valid_device_id(&device_id) || info.port
        < MIN_DEVICE_PORT {
        return None;
    }
    let found_domain_id: &str = match &info.domain_id {
        Some(id) => id.as_str(),
        None => "",
    };
    proof {
        reveal_strlit("");
        assert(""@ =~= Seq::<char>::empty());
    }
    if !same_text(found_domain_id, domain_id) || !is_valid_discovery_domain_id(domain_id) {
        return None;
    }
    let ip = match pick_best_ipv4(&info.addresses) {
        Some(ip) => ip,
        None => return None,
    };
    if let Some(selected) = selected_local_ip {
        if !is_same_lan_scope(&selected, &ip) {
            return None;
        }
    }
    let own_name: &str = match &info.device_name {
        Some(name) => name.as_str(),
        None => "",
    };
    let device_name = match normalize_device_name(own_name) {
        Some(name) => name,
        None => return None,
    };
    proof {
        text::trim_is_idempotent(own_name@);
        best_ipv4_is_usable(info.addresses@);
    }
    let found = DiscoveredDevice { device_id, device_name, addr: ipv4_to_text(&ip), port: info.port };
    if validate_discovered_device(&found) {
        Some(found)
    } else {
        None
    }
}

/// A scan under way.
#[derive(Debug)]
pub struct DiscoveryScan {
    pub devices: Vec<DiscoveredDevice>,
    pub resolved_events: usize,
}

/// Devices as plain values.
pub open spec fn device_views(list: Seq<DiscoveredDevice>) -> Seq<DeviceView> {
    list.map_values(|d: DiscoveredDevice| d@)
}

/// A device is listed already, at the same address and port.
pub open spec fn is_listed(list: Seq<DeviceView>, d: DeviceView) -> bool {
    exists|i: int|
        0 <= i < list.len() && (#[trigger] list[i]).device_id == d.device_id && list[i].addr
            == d.addr && list[i].port == d.port
}

fn lists_device(devices: &Vec<DiscoveredDevice>, found: &DiscoveredDevice) -> (listed: bool)
    ensures
        listed == is_listed(device_views(devices@), found@),
{
    let ghost views = device_views(devices@);
    let mut i: usize = 0;
    while i < devices.len()
        invariant
            i <= devices.len(),
            views == device_views(devices@),
            forall|j: int|
                0 <= j < i ==> !((#[trigger] views[j]).device_id == found@.device_id
                    && views[j].addr == found@.addr && views[j].port == found@.port),
        decreases devices.len() - i,
    {
        assert(views[i as int] == devices@[i as int]@);
        if same_text(&devices[i].device_id, &found.device_id) && same_text(
            &devices[i].addr,
            &found.addr,
        ) && devices[i].port == found.port {
            return true;
        }
        i = i + 1;
    }
    false
}

impl DiscoveryScan {
    /// A scan that has found nothing yet.
    pub fn new() -> (scan: Self)
        ensures
            scan.devices@.len() == 0,
            scan.resolved_events == 0,
    {
        DiscoveryScan { devices: Vec::new(), resolved_events: 0 }
    }

    /// Takes note of an answer; tells whether to go on listening. A scan ends
    /// with the 257th answer or the hundredth device.
    pub fn observe(
        &mut self,
        info: &ResolvedService,
        self_device_id: &str,
        domain_id: &str,
        selected_local_ip: Option<Ipv4>,
    ) -> (go_on: bool)
        requires
            old(self).resolved_events <= MDNS_RESOLVED_EVENT_LIMIT,
        ensures
            ({
                let before = device_views(old(self).devices@);
                let after = device_views(final(self).devices@);
                let found = described_device(
                    *info,
                    self_device_id@,
                    domain_id@,
                    ip_option(selected_local_ip),
                );
                &&& final(self).resolved_events == old(self).resolved_events + 1
                &&& if final(self).resolved_events > MDNS_RESOLVED_EVENT_LIMIT {
                    !go_on && after == before
                } else if found is Some && !is_listed(before, found->Some_0) {
                    after == before.push(found->Some_0) && go_on == (after.len()
                        < DISCOVERED_DEVICE_LIMIT)
                } else {
                    go_on && after == before
                }
            }),
    {
        self.resolved_events = self.resolved_events + 1;
        if self.resolved_events > MDNS_RESOLVED_EVENT_LIMIT {
            return false;
        }
        let found = match info_to_device(info, self_device_id, domain_id, selected_local_ip) {
            Some(found) => found,
            None => return true,
        };
        let ghost before = device_views(self.devices@);
        if lists_device(&self.devices, &found) {
            return true;
        }
        self.devices.push(found);
        assert(device_views(self.devices@) =~= before.push(found@));
        self.devices.len() < DISCOVERED_DEVICE_LIMIT
    }
}

/// Devices are listed by name, then by identifier.
pub open spec fn is_listed_before(a: DiscoveredDevice, b: DiscoveredDevice) -> bool {
    if a.device_name@ != b.device_name@ {
        text::text_before(a.device_name@, b.device_name@)
    } else {
        text::text_before(a.device_id@, b.device_id@)
    }
}

/// How many devices are probed at one time.
pub fn reachability_workers(devices: usize) -> (workers: usize)
    ensures
        workers == if devices <= DISCOVERY_REACHABILITY_WORKER_LIMIT {
            devices
        } else {
            DISCOVERY_REACHABILITY_WORKER_LIMIT
        },
{
    if devices <= DISCOVERY_REACHABILITY_WORKER_LIMIT {
        devices
    } else {
        DISCOVERY_REACHABILITY_WORKER_LIMIT
    }
}

/// How long the next probe may take: what is left of the time for all of them, and no
/// more than one probe gets. Once that time is over there is no further probe.
pub fn next_probe_timeout(deadline_ms: u64, now_ms: u64) -> (timeout_ms: Option<u64>)
    ensures
        timeout_ms == if now_ms >= deadline_ms {
            None
        } else if deadline_ms - now_ms <= DISCOVERY_REACHABILITY_TIMEOUT_MS {
            Some((deadline_ms - now_ms) as u64)
        } else {
            Some(DISCOVERY_REACHABILITY_TIMEOUT_MS)
        },
{
    match remaining_before(deadline_ms, now_ms) {
        None => None,
        Some(left) => if left <= DISCOVERY_REACHABILITY_TIMEOUT_MS {
            Some(left)
        } else {
            Some(DISCOVERY_REACHABILITY_TIMEOUT_MS)
        },
    }
}

/// Orders the devices that answered a probe by name, then by identifier.
pub fn sort_reachable_devices(devices: &mut Vec<DiscoveredDevice>)
    ensures
        final(devices)@ == order::sorted(
            old(devices)@,
            |a: DiscoveredDevice, b: DiscoveredDevice| is_listed_before(a, b),
        ),
{
    let is_before = |a: &DiscoveredDevice, b: &DiscoveredDevice| -> (r: bool)
        ensures
            r == is_listed_before(*a, *b),
        {
            if same_text(&a.device_name, &b.device_name) {
                is_text_before(&a.device_id, &b.device_id)
            } else {
                is_text_before(&a.device_name, &b.device_name)
            }
        };
    stable_sort(
        devices,
        is_before,
        Ghost(|a: DiscoveredDevice, b: DiscoveredDevice| is_listed_before(a, b)),
    );
}

impl Clone for LocalInterface {
    fn clone(&self) -> (copy: Self)
        ensures
            copy == *self,
    {
        LocalInterface { name: self.name.clone(), ip: self.ip }
    }
}

/// Interfaces are offered by use: private addresses first, then real
/// interfaces, then by name and address.
pub open spec fn is_offered_before(a: LocalInterface, b: LocalInterface, on_windows: bool) -> bool {
    let private_a = ipv4::private_scope(a.ip@) is Some;
    let private_b = ipv4::private_scope(b.ip@) is Some;
    let virtual_a = is_virtual_name(a.name@, on_windows);
    let virtual_b = is_virtual_name(b.name@, on_windows);
    if private_a != private_b {
        private_a
    } else if virtual_a != virtual_b {
        virtual_b
    } else if a.name@ != b.name@ {
        text::text_before(a.name@, b.name@)
    } else {
        text::text_before(ipv4::ipv4_text(a.ip@), ipv4::ipv4_text(b.ip@))
    }
}

/// Neighbours with one address reduced to the first of them.
pub open spec fn without_repeats(list: Seq<LocalInterface>) -> Seq<LocalInterface>
    decreases list.len(),
{
    if list.len() == 0 {
        list
    } else {
        let rest = without_repeats(list.drop_last());
        if rest.len() > 0 && rest.last().ip@ == list.last().ip@ {
            rest
        } else {
            rest.push(list.last())
        }
    }
}

/// The interfaces that are offered, in order.
pub open spec fn offered(list: Seq<LocalInterface>, on_windows: bool) -> Seq<LocalInterface> {
    without_repeats(
        order::sorted(
            list.filter(|i: LocalInterface| ipv4::is_usable(i.ip@)),
            |a: LocalInterface, b: LocalInterface| is_offered_before(a, b, on_windows),
        ),
    )
}

/// How an interface is offered.
pub open spec fn is_offer_of(o: NetworkInterfaceOption, i: LocalInterface) -> bool {
    &&& o.name@ == i.name@
    &&& o.ip@ == ipv4::ipv4_text(i.ip@)
    &&& o.label@ == if ipv4::private_scope(i.ip@) is Some {
        i.name@ + " ("@ + ipv4::ipv4_text(i.ip@) + ")"@
    } else {
        i.name@ + " ("@ + ipv4::ipv4_text(i.ip@) + ", 非局域网优先)"@
    }
}

/// The interfaces that the user can choose from.
pub fn list_network_interfaces(interfaces: &Option<Vec<LocalInterface>>, on_windows: bool) -> (options:
    Vec<NetworkInterfaceOption>)
    ensures
        match *interfaces {
            None => options@.len() == 0,
            Some(list) => {
                &&& options@.len() == offered(list@, on_windows).len()
                &&& forall|k: int|
                    0 <= k < options@.len() ==> is_offer_of(
                        #[trigger] options@[k],
                        offered(list@, on_windows)[k],
                    )
            },
        },
{
    let mut options: Vec<NetworkInterfaceOption> = Vec::new();
    let list = match interfaces {
        None => return options,
        Some(list) => list,
    };
    let ghost usable = |i: LocalInterface| ipv4::is_usable(i.ip@);
    let ghost before = |a: LocalInterface, b: LocalInterface| is_offered_before(a, b, on_windows);
    let mut chosen: Vec<LocalInterface> = Vec::new();
    let mut i: usize = 0;
    proof {
        reveal(Seq::filter);
    }
    assert(chosen@ =~= list@.take(0).filter(usable));
    while i < list.len()
        invariant
            i <= list.len(),
            usable == (|i: LocalInterface| ipv4::is_usable(i.ip@)),
            chosen@ == list@.take(i as int).filter(usable),
        decreases list.len() - i,
    {
        proof {
            assert(list@.take(i + 1) =~= list@.take(i as int).push(list@[i as int]));
            list@.take(i as int).lemma_filter_push(list@[i as int], usable);
        }
        if is_usable_ipv4(&list[i].ip) {
            chosen.push(list[i].clone());
        }
        i = i + 1;
    }
    assert(list@.take(i as int) =~= list@);
    let is_before = |a: &LocalInterface, b: &LocalInterface| -> (r: bool)
        ensures
            r == is_offered_before(*a, *b, on_windows),
        {
            let private_a = is_private_lan_ipv4(&a.ip);
            let private_b = is_private_lan_ipv4(&b.ip);
            let virtual_a = is_likely_virtual_interface(&a.name, on_windows);
            let virtual_b = is_likely_virtual_interface(&b.name, on_windows);
            if private_a != private_b {
                private_a
            } else if virtual_a != virtual_b {
                virtual_b
            } else if !same_text(&a.name, &b.name) {
                is_text_before(&a.name, &b.name)
            } else {
                is_text_before(&ipv4_to_text(&a.ip), &ipv4_to_text(&b.ip))
            }
        };
    stable_sort(&mut chosen, is_before, Ghost(before));
    let mut last: usize = 0;
    let mut k: usize = 0;
    let ghost mut kept: Seq<LocalInterface> = Seq::empty();
    assert(kept =~= without_repeats(chosen@.take(0)));
    while k < chosen.len()
        invariant
            k <= chosen.len(),
            kept == without_repeats(chosen@.take(k as int)),
            options@.len() == kept.len(),
            forall|j: int| 0 <= j < kept.len() ==> is_offer_of(#[trigger] options@[j], kept[j]),
            kept.len() > 0 ==> last < k && kept.last() == chosen@[last as int],
        decreases chosen.len() - k,
    {
        proof {
            assert(chosen@.take(k + 1).drop_last() =~= chosen@.take(k as int));
            assert(chosen@.take(k + 1).last() == chosen@[k as int]);
        }
        if options.len() == 0 || !crate::bytes::same_bytes(&chosen[last].ip, &chosen[k].ip) {
            let ip = ipv4_to_text(&chosen[k].ip);
            let mut label = chosen[k].name.clone();
            label.append(" (");
            label.append(&ip);
            if is_private_lan_ipv4(&chosen[k].ip) {
                label.append(")");
            } else {
                label.append(", 非局域网优先)");
            }
            options.push(NetworkInterfaceOption { name: chosen[k].name.clone(), ip, label });
            proof {
                kept = kept.push(chosen@[k as int]);
            }
            last = k;
        }
        k = k + 1;
    }
    assert(chosen@.take(k as int) =~= chosen@);
    options
}

/// What is announced about this device, or why it cannot be.
pub fn build_service_info(
    config: &PresenceConfig,
    is_ipv6: bool,
    interfaces: &Option<Vec<LocalInterface>>,
    on_windows: bool,
) -> (result: Result<ServiceRecord, PresenceError>)
    ensures
        ({
            let ip = resolved_ip(config.local_ip@, is_ipv6, listed(*interfaces));
            let own = own_ip(listed(*interfaces), on_windows);
            let valid = device::is_device_id(config.device_id@) && device::is_domain_id(
                config.domain_id@,
            ) && config.listen_port >= MIN_DEVICE_PORT;
            match result {
                Ok(r) => {
                    &&& valid
                    &&& ip is Ok
                    &&& own is Some
                    &&& device::normal_name(config.device_name@) == Some(r.device_name@)
                    &&& r.instance@ == config.device_id@
                    &&& r.host_name@ == "lan-clipboard-"@ + config.device_id@ + ".local."@
                    &&& r.domain_id@ == config.domain_id@
                    &&& r.port == config.listen_port
                    &&& r.ip@ == ipv4::ipv4_text(
                        if ip->Ok_0 is Some {
                            ip->Ok_0->Some_0
                        } else {
                            own->Some_0
                        },
                    )
                },
                Err(PresenceError::InvalidIdentity) => !valid,
                Err(PresenceError::InvalidName) => valid && device::normal_name(
                    config.device_name@,
                ) is None,
                Err(PresenceError::LocalIp(e)) => valid && device::normal_name(
                    config.device_name@,
                ) is Some && ip == Err::<Option<Seq<u8>>, _>(e),
                Err(PresenceError::NoLocalIp) => valid && device::normal_name(
                    config.device_name@,
                ) is Some && ip is Ok && own is None,
            }
        }),
{
    if !is_valid_device_id(&config.device_id) || !is_valid_discovery_domain_id(&config.domain_id)
        || config.listen_port < MIN_DEVICE_PORT {
        return Err(PresenceError::InvalidIdentity);
    }
    let device_name = match normalize_device_name(&config.device_name) {
        Some(name) => name,
        None => return Err(PresenceError::InvalidName),
    };
    let resolved = match resolve_local_ip_override(&config.local_ip, is_ipv6, interfaces) {
        Ok(resolved) => resolved,
        Err(e) => return Err(PresenceError::LocalIp(e)),
    };
    let own = match pick_local_ip(interfaces, on_windows) {
        Some(own) => own,
        None => return Err(PresenceError::NoLocalIp),
    };
    let ip: Ipv4 = match resolved {
        Some(ip) => ip,
        None => own,
    };
    let mut host_name: String = "lan-clipboard-".to_owned();
    host_name.append(&config.device_id);
    host_name.append(".local.");
    Ok(
        ServiceRecord {
            instance: config.device_id.clone(),
            host_name,
            ip: ipv4_to_text(&ip),
            port: config.listen_port,
            device_name,
            domain_id: config.domain_id.clone(),
        },
    )
}

/// Of several addresses the first private one is taken; without a private one, the first that
/// can be used; and none only if none can be used.
pub proof fn private_addresses_are_preferred(c: Seq<Ipv4>, i: int)
    requires
        0 <= i < c.len(),
    ensures
        ipv4::private_scope(c[i]@) is Some && (forall|j: int|
            0 <= j < i ==> ipv4::private_scope((#[trigger] c[j])@) is None) ==> best_ipv4(c) == Some(
            c[i]@,
        ),
        (forall|j: int| 0 <= j < c.len() ==> ipv4::private_scope((#[trigger] c[j])@) is None)
            && ipv4::is_usable(c[i]@) && (forall|j: int|
            0 <= j < i ==> !ipv4::is_usable((#[trigger] c[j])@)) ==> best_ipv4(c) == Some(c[i]@),
        best_ipv4(c) is None ==> !ipv4::is_usable(c[i]@),
{
    first_places(c);
    first_places_are_first(c);
    let p = first_private(c);
    let u = first_usable(c);
    if ipv4::private_scope(c[i]@) is Some && p < i {
        assert(ipv4::private_scope(c[p]@) is Some);
    }
    if p < c.len() {
        assert(ipv4::private_scope(c[p]@) is Some);
    }
    if u < i {
        assert(ipv4::is_usable(c[u]@));
    }
}

proof fn first_places_are_first(c: Seq<Ipv4>)
    ensures
        forall|j: int| 0 <= j < first_private(c) ==> ipv4::private_scope((#[trigger] c[j])@) is None,
        forall|j: int| 0 <= j < first_usable(c) ==> !ipv4::is_usable((#[trigger] c[j])@),
        first_usable(c) < c.len() ==> ipv4::is_usable(c[first_usable(c)]@),
    decreases c.len(),
{
    if c.len() > 0 {
        let rest = c.skip(1);
        first_places_are_first(rest);
        first_places(rest);
        first_places(c);
        assert forall|j: int| 0 <= j < first_private(c) implies ipv4::private_scope(
            (#[trigger] c[j])@,
        ) is None by {
            if j > 0 {
                assert(rest[j - 1] == c[j]);
            }
        }
        assert forall|j: int| 0 <= j < first_usable(c) implies !ipv4::is_usable(
            (#[trigger] c[j])@,
        ) by {
            if j > 0 {
                assert(rest[j - 1] == c[j]);
            }
        }
        if 0 < first_usable(c) < c.len() {
            assert(rest[first_usable(rest)] == c[first_usable(c)]);
        }
    }
}

/// An address that is configured, can be used and belongs to this machine is used; one that
/// does not belong to it is not; and one that cannot be used is an error.
pub proof fn configured_addresses_are_used(
    ip: Seq<u8>,
    interfaces: Seq<LocalInterface>,
    is_ipv6: bool,
    blank: Seq<char>,
)
    requires
        ip.len() == 4,
        text::trimmed(blank).len() == 0,
    ensures
        ({
            let offered = exists|i: int|
                0 <= i < interfaces.len() && (#[trigger] interfaces[i]).ip@ == ip;
            let found = resolved_ip(ipv4::ipv4_text(ip), is_ipv6, Some(interfaces));
            &&& ipv4::is_usable(ip) && offered ==> found == Ok::<_, LocalIpError>(Some(ip))
            &&& ipv4::is_usable(ip) && !offered ==> found == Ok::<Option<Seq<u8>>, LocalIpError>(
                None,
            )
            &&& !ipv4::is_usable(ip) ==> found == Err::<Option<Seq<u8>>, _>(LocalIpError::NotUsable)
        }),
        ipv4::is_usable(ip) ==> resolved_ip(ipv4::ipv4_text(ip), is_ipv6, None) == Ok::<
            _,
            LocalIpError,
        >(Some(ip)),
        resolved_ip(blank, is_ipv6, Some(interfaces)) == Ok::<Option<Seq<u8>>, LocalIpError>(None),
{
    let t = ipv4::ipv4_text(ip);
    ipv4::ipv4_text_is_read_back(ip);
    ipv4::decimal_is_read_back(ip[0] as nat);
    ipv4::decimal_is_read_back(ip[3] as nat);
    let a = text::decimal(ip[0] as nat);
    let d = text::decimal(ip[3] as nat);
    assert(ipv4::is_digit(a[0]));
    assert(ipv4::is_digit(d[d.len() - 1]));
    assert(t[0] == a[0]);
    assert(t.last() == d.last());
    text::trim_keeps(t);
    let all = addresses_of(interfaces);
    if exists|i: int| 0 <= i < interfaces.len() && (#[trigger] interfaces[i]).ip@ == ip {
        let i = choose|i: int| 0 <= i < interfaces.len() && (#[trigger] interfaces[i]).ip@ == ip;
        assert(all[i] == ip);
    }
    if all.contains(ip) {
        let i = all.index_of(ip);
        assert(interfaces[i].ip@ == ip);
    }
}

proof fn candidates_are_complete(list: Seq<LocalInterface>, on_windows: bool, i: int)
    requires
        0 <= i < list.len(),
        ipv4::is_usable(list[i].ip@),
        !is_virtual_name(list[i].name@, on_windows),
    ensures
        own_candidates(list, on_windows).contains(list[i].ip),
    decreases list.len(),
{
    let front = list.drop_last();
    let rest = own_candidates(front, on_windows);
    let all = own_candidates(list, on_windows);
    if i == list.len() - 1 {
        assert(all.last() == list[i].ip);
        assert(all[all.len() - 1] == list[i].ip);
    } else {
        assert(front[i] == list[i]);
        candidates_are_complete(front, on_windows, i);
        let k = rest.index_of(list[i].ip);
        assert(all[k] == list[i].ip);
    }
}

/// A device with an interface that can be used, and that is none of a virtual machine or a
/// tunnel, always chooses an address, and chooses a private one if one of those interfaces has
/// one. Names count on Windows alone.
pub proof fn usable_interfaces_give_an_address(list: Seq<LocalInterface>, on_windows: bool, i: int)
    requires
        0 <= i < list.len(),
        ipv4::is_usable(list[i].ip@),
        !on_windows || !is_virtual_name(list[i].name@, on_windows),
    ensures
        own_ip(Some(list), on_windows) is Some,
        ipv4::private_scope(list[i].ip@) is Some ==> ipv4::private_scope(
            own_ip(Some(list), on_windows)->Some_0,
        ) is Some,
{
    let c = own_candidates(list, on_windows);
    candidates_are_complete(list, on_windows, i);
    let k = c.index_of(list[i].ip);
    first_places(c);
    first_places_are_first(c);
    private_addresses_are_preferred(c, k);
}

/// Peers are chosen for the address that the user selected, if this machine has it; else for
/// the one that connections came in on; else for the one that the device chooses by itself.
pub proof fn selected_addresses_come_first(
    ip: Seq<u8>,
    blank: Seq<char>,
    active: Option<Seq<char>>,
    interfaces: Seq<LocalInterface>,
    on_windows: bool,
    i: int,
)
    requires
        ip.len() == 4,
        ipv4::is_usable(ip),
        0 <= i < interfaces.len(),
        interfaces[i].ip@ == ip,
        text::trimmed(blank).len() == 0,
    ensures
        effective_ip(ipv4::ipv4_text(ip), active, Some(interfaces), on_windows) == Some(
            ipv4::ipv4_text(ip),
        ),
        active is Some ==> effective_ip(blank, active, Some(interfaces), on_windows) == active,
        active is None && !on_windows ==> effective_ip(blank, active, Some(interfaces), on_windows)
            is Some,
{
    configured_addresses_are_used(ip, interfaces, false, blank);
    if !on_windows {
        usable_interfaces_give_an_address(interfaces, on_windows, i);
    }
}

/// The devices that are shown for a selected address are exactly those of its network, and all
/// devices are shown if none is selected.
pub proof fn shown_devices_are_those_of_the_network(
    devices: Seq<DiscoveredDevice>,
    selected: Seq<u8>,
    d: DiscoveredDevice,
    ip: Seq<u8>,
)
    requires
        ip.len() == 4,
        d.addr@ == ipv4::ipv4_text(ip),
    ensures
        devices_in_scope(devices, Ok(Some(selected))).contains(d) <==> devices.contains(d)
            && ipv4::private_scope(selected) == ipv4::private_scope(ip),
        devices_in_scope(devices, Ok(None)) == devices,
{
    ipv4::ipv4_text_is_read_back(ip);
    let keep = |d: DiscoveredDevice| is_in_scope(d, selected);
    if devices.contains(d) && keep(d) {
        devices.lemma_filter_contains(keep, devices.index_of(d));
    }
    if devices.filter(keep).contains(d) {
        devices.lemma_filter_contains_rev(keep, d);
        devices.lemma_filter_pred(keep, devices.filter(keep).index_of(d));
    }
}

/// Announcements go to 255.255.255.255 in any case. With a selected address they also go to
/// the last address of its 24-bit network; without one, to that of each usable interface.
pub proof fn announcements_reach_every_network(
    selected: Seq<char>,
    interfaces: Seq<LocalInterface>,
    i: int,
)
    requires
        0 <= i < interfaces.len(),
        ipv4::is_usable(interfaces[i].ip@),
    ensures
        is_broadcast_target(seq![255u8, 255, 255, 255], selected, Some(interfaces)),
        ({
            let ip = interfaces[i].ip@;
            text::trimmed(selected).len() == 0 || selected == ipv4::ipv4_text(ip)
                ==> is_broadcast_target(
                seq![ip[0], ip[1], ip[2], 255u8],
                selected,
                Some(interfaces),
            )
        }),
{
    let ip = interfaces[i].ip@;
    let none = Seq::<char>::empty();
    text::trim_keeps(none);
    configured_addresses_are_used(ip, interfaces, false, none);
    if text::trimmed(selected).len() == 0 {
        configured_addresses_are_used(ip, interfaces, false, selected);
    }
}

/// The first name that is not blank is shown, and the identifier only if there is none.
pub proof fn the_first_name_is_shown(candidates: Seq<Seq<char>>, device_id: Seq<char>, i: int)
    requires
        0 <= i <= candidates.len(),
        forall|j: int| 0 <= j < i ==> text::trimmed(#[trigger] candidates[j]).len() == 0,
        i < candidates.len() ==> text::trimmed(candidates[i]).len() > 0,
    ensures
        shown_name(candidates, device_id) == (if i < candidates.len() {
            text::trimmed(candidates[i])
        } else {
            device_id
        }),
    decreases candidates.len(),
{
    if i > 0 {
        let rest = candidates.skip(1);
        assert(text::trimmed(candidates[0]).len() == 0);
        assert forall|j: int| 0 <= j < i - 1 implies text::trimmed(#[trigger] rest[j]).len()
            == 0 by {
            assert(rest[j] == candidates[j + 1]);
        }
        the_first_name_is_shown(rest, device_id, i - 1);
    }
}

proof fn dots_are_found(s: Seq<char>, from: int, to: int)
    requires
        0 <= from <= to <= s.len(),
        forall|i: int| from <= i < to ==> #[trigger] s[i] != '.',
        to < s.len() ==> s[to] == '.',
    ensures
        ipv4::next_dot(s, from) == to,
    decreases to - from,
{
    if from < to {
        assert(s[from] != '.');
        dots_are_found(s, from + 1, to);
    }
}

/// An answer by another device of the domain is understood if the device can be contacted:
/// it goes by its identifier, has a port from 1024 on, a name that can be shown and an address
/// on the network that is selected. The device is listed by just these.
pub proof fn answers_of_the_domain_count(
    info: ResolvedService,
    suffix: Seq<char>,
    b: Seq<u8>,
    self_device_id: Seq<char>,
    domain_id: Seq<char>,
    selected: Option<Seq<u8>>,
)
    requires
        b.len() == 16,
        exists|i: int| 0 <= i < 16 && #[trigger] b[i] != 0,
        info.fullname@ == uuid_text::hyphenated(b) + seq!['.'] + suffix,
        info.device_id is Some && info.device_id->Some_0@ == uuid_text::hyphenated(b),
        uuid_text::hyphenated(b) != self_device_id,
        info.domain_id is Some && info.domain_id->Some_0@ == domain_id,
        device::is_domain_id(domain_id),
        info.device_name is Some && device::normal_name(info.device_name->Some_0@) is Some,
        best_ipv4(info.addresses@) is Some,
    ensures
        ({
            let ip = best_ipv4(info.addresses@)->Some_0;
            let found = described_device(info, self_device_id, domain_id, selected);
            &&& found is Some <==> info.port >= 1024 && (selected is None || ipv4::private_scope(
                selected->Some_0,
            ) == ipv4::private_scope(ip))
            &&& found is Some ==> found->Some_0 == DeviceView {
                device_id: uuid_text::hyphenated(b),
                device_name: device::normal_name(info.device_name->Some_0@)->Some_0,
                addr: ipv4::ipv4_text(ip),
                port: info.port,
            }
        }),
{
    let h = uuid_text::hyphenated(b);
    let s = info.fullname@;
    uuid_text::hyphenated_is_read_back(b);
    assert forall|i: int| 0 <= i < 36 implies #[trigger] s[i] != '.' by {
        assert(s[i] == h[i]);
    }
    assert(s[36] == '.');
    dots_are_found(s, 0, 36);
    assert(s.take(36) =~= h);
    assert(device::is_device_id(h)) by {
        device::identifiers_are_lowercase(b, h);
    }
}

/// A third of the time for a scan goes to probing, but no more than 400 milliseconds, a tenth
/// of a second to ending; all the rest is spent listening, and nothing is lost.
pub proof fn most_of_a_scan_is_listening(b: DiscoveryBudget, timeout_ms: u64)
    requires
        is_budget(b, timeout_ms),
    ensures
        b.browse_ms + b.reachability_ms + b.shutdown_ms == timeout_ms,
        timeout_ms >= 1_200 ==> b.reachability_ms == 400 && b.shutdown_ms == 100 && b.browse_ms
            == timeout_ms - 500,
        150 <= timeout_ms < 1_200 ==> b.reachability_ms == timeout_ms / 3 && b.shutdown_ms == 100,
{
}

proof fn without_repeats_keeps_addresses(list: Seq<LocalInterface>, i: int)
    requires
        0 <= i < list.len(),
    ensures
        without_repeats(list).len() > 0,
        without_repeats(list).last().ip@ == list.last().ip@,
        exists|k: int|
            0 <= k < without_repeats(list).len() && (#[trigger] without_repeats(list)[k]).ip@
                == list[i].ip@,
    decreases list.len(),
{
    let front = list.drop_last();
    let rest = without_repeats(front);
    let all = without_repeats(list);
    if i < front.len() {
        without_repeats_keeps_addresses(front, i);
        let k = choose|k: int| 0 <= k < rest.len() && (#[trigger] rest[k]).ip@ == front[i].ip@;
        assert(all[k] == rest[k]);
    } else {
        assert(all[all.len() - 1].ip@ == list[i].ip@);
    }
}

/// The user can choose every address of this machine that can be used.
pub proof fn every_usable_address_is_offered(list: Seq<LocalInterface>, on_windows: bool, i: int)
    requires
        0 <= i < list.len(),
        ipv4::is_usable(list[i].ip@),
    ensures
        exists|k: int|
            0 <= k < offered(list, on_windows).len() && (#[trigger] offered(list, on_windows)[k]).ip@
                == list[i].ip@,
{
    let usable = |i: LocalInterface| ipv4::is_usable(i.ip@);
    let before = |a: LocalInterface, b: LocalInterface| is_offered_before(a, b, on_windows);
    let part = list.filter(usable);
    list.lemma_filter_contains(usable, i);
    order::sorted_contains(part, before, list[i]);
    let sorted = order::sorted(part, before);
    let m = sorted.index_of(list[i]);
    without_repeats_keeps_addresses(sorted, m);
    assert(offered(list, on_windows) == without_repeats(sorted));
    let k = choose|k: int|
        0 <= k < without_repeats(sorted).len() && (#[trigger] without_repeats(sorted)[k]).ip@
            == sorted[m].ip@;
    assert(offered(list, on_windows)[k].ip@ == list[i].ip@);
}

/// A private address is offered before any other; among equals real interfaces before virtual
/// ones, and then by name.
pub proof fn private_addresses_are_offered_first(a: LocalInterface, b: LocalInterface, on_windows: bool)
    ensures
        ipv4::private_scope(a.ip@) is Some && ipv4::private_scope(b.ip@) is None
            ==> is_offered_before(a, b, on_windows) && !is_offered_before(b, a, on_windows),
        (ipv4::private_scope(a.ip@) is Some <==> ipv4::private_scope(b.ip@) is Some)
            && !is_virtual_name(a.name@, on_windows) && is_virtual_name(b.name@, on_windows)
            ==> is_offered_before(a, b, on_windows) && !is_offered_before(b, a, on_windows),
        (ipv4::private_scope(a.ip@) is Some <==> ipv4::private_scope(b.ip@) is Some)
            && is_virtual_name(a.name@, on_windows) == is_virtual_name(b.name@, on_windows)
            && text::text_before(a.name@, b.name@) ==> is_offered_before(a, b, on_windows),
{
    text::text_order_is_total(a.name@, b.name@);
    text::text_order_is_total(a.name@, a.name@);
}

/// A device is listed already exactly if one with its identifier, its address and its port is;
/// a device that was found at another address or port is listed again.
pub proof fn devices_are_listed_by_address_and_port(list: Seq<DeviceView>, d: DeviceView, i: int)
    ensures
        0 <= i < list.len() && list[i].device_id == d.device_id && list[i].addr == d.addr
            && list[i].port == d.port ==> is_listed(list, d),
        (forall|k: int|
            0 <= k < list.len() ==> (#[trigger] list[k]).device_id != d.device_id || list[k].addr
                != d.addr || list[k].port != d.port) ==> !is_listed(list, d),
{
}

/// Devices that answered are ordered by name, and those of one name by identifier.
pub proof fn answering_devices_are_ordered_by_name(a: DiscoveredDevice, b: DiscoveredDevice)
    ensures
        text::text_before(a.device_name@, b.device_name@) ==> is_listed_before(a, b)
            && !is_listed_before(b, a),
        a.device_name@ == b.device_name@ && text::text_before(a.device_id@, b.device_id@)
            ==> is_listed_before(a, b) && !is_listed_before(b, a),
{
    text::text_order_is_total(a.device_name@, b.device_name@);
    text::text_order_is_total(a.device_id@, b.device_id@);
    text::text_order_is_total(a.device_name@, a.device_name@);
}

/// An interface is offered by its name and its address; one that is not private says so.
pub proof fn interfaces_are_offered_by_name(o: NetworkInterfaceOption, i: LocalInterface)
    requires
        is_offer_of(o, i),
    ensures
        o.name@ == i.name@,
        o.ip@ == ipv4::ipv4_text(i.ip@),
        ipv4::private_scope(i.ip@) is Some ==> o.label@ == i.name@ + " ("@ + o.ip@ + ")"@,
        ipv4::private_scope(i.ip@) is None ==> o.label@ == i.name@ + " ("@ + o.ip@
            + ", 非局域网优先)"@,
{
}

/// Interfaces of virtual machines and tunnels are known by their names on Windows, in whatever
/// case; elsewhere no interface is taken for one.
pub proof fn virtual_interfaces_are_known_by_name(name: Seq<char>)
    ensures
        !is_virtual_name(name, false),
        is_virtual_name(name, true) <==> {
            let n = text::ascii_lowered(name);
            ||| text::holds(n, "vethernet"@) || text::holds(n, "hyper-v"@)
            ||| text::holds(n, "virtual"@) || text::holds(n, "vmware"@)
            ||| text::holds(n, "virtualbox"@) || text::holds(n, "wsl"@)
            ||| text::holds(n, "tailscale"@) || text::holds(n, "hamachi"@)
            ||| text::holds(n, "tap"@) || text::holds(n, "tun"@) || text::holds(n, "loopback"@)
        },
{
}

} // verus!
