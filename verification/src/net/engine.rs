//! What a running synchronization shows, and when it is started anew.

use crate::net::crypto;
use crate::net::crypto::discovery_domain_id;
use crate::net::device::DiscoveredDevice;
use crate::net::discovery;
use crate::net::discovery::{
    filter_devices_for_local_ip, local_device_name, selected_or_active_local_ip, LocalInterface,
    PresenceConfig,
};
use crate::net::domain;
use crate::net::domain::clear_member_cache;
use crate::net::ipv4;
use crate::net::members;
use crate::net::members::prune_stale_discovered_devices;
use crate::net::state::{RuntimeState, RuntimeStatus, StateView};
use crate::net::transfers;
use crate::protocol;
use crate::protocol::ClipboardPayload;
use crate::settings::Settings;
use crate::text;
use crate::text::{decimal_text, same_text, trim};
use vstd::prelude::*;

verus! {

/// How many log lines are shown if no number is given.
pub const DEFAULT_SHOWN_LOGS: usize = 250;

fn copied_devices(devices: &Vec<DiscoveredDevice>) -> (copy: Vec<DiscoveredDevice>)
    ensures
        copy@ == devices@,
{
    let mut copy: Vec<DiscoveredDevice> = Vec::new();
    let mut i: usize = 0;
    while i < devices.len()
        invariant
            i <= devices.len(),
            copy@ == devices@.take(i as int),
        decreases devices.len() - i,
    {
        copy.push(devices[i].clone());
        i = i + 1;
        assert(copy@ =~= devices@.take(i as int));
    }
    assert(devices@.take(i as int) =~= devices@);
    copy
}

/// The devices that were heard of lately and may be on the network of the selected
/// address.
pub fn devices(
    state: &mut RuntimeState,
    selected_local_ip: Option<&str>,
    interfaces: &Option<Vec<LocalInterface>>,
    now_ms: u64,
) -> (shown: Vec<DiscoveredDevice>)
    requires
        old(state).wf(),
    ensures
        final(state).wf(),
        members::is_pruned(old(state).members, final(state).members, now_ms),
        final(state)@ == (StateView { members: final(state).members, ..old(state)@ }),
        shown@ == discovery::devices_in_scope(
            final(state).members.devices@,
            discovery::resolved_ip(
                discovery::or_empty(selected_local_ip),
                false,
                discovery::listed(*interfaces),
            ),
        ),
{
    prune_stale_discovered_devices(&mut state.members, now_ms);
    let all = copied_devices(&state.members.devices);
    filter_devices_for_local_ip(all, selected_local_ip, interfaces)
}

/// A text that may be missing: missing, it is empty.
pub open spec fn text_or_empty(value: Option<String>) -> Seq<char> {
    match value {
        Some(s) => s@,
        None => Seq::empty(),
    }
}

/// The address that a status shows.
pub open spec fn shown_ip(
    s: StateView,
    local_ip: Seq<char>,
    selected_local_ip: Option<&str>,
    interfaces: Option<Seq<LocalInterface>>,
    on_windows: bool,
) -> Option<Seq<char>> {
    discovery::effective_ip(
        match selected_local_ip {
            Some(selected) => selected@,
            None => local_ip,
        },
        s.active_ip,
        interfaces,
        on_windows,
    )
}

/// What the user is shown of a running synchronization. This device counts as a peer.
pub fn status(
    state: &mut RuntimeState,
    running: bool,
    settings: &Settings,
    name_candidates: &Vec<String>,
    selected_local_ip: Option<&str>,
    interfaces: &Option<Vec<LocalInterface>>,
    on_windows: bool,
    now_ms: u64,
) -> (status: RuntimeStatus)
    requires
        old(state).wf(),
    ensures
        final(state).wf(),
        members::is_pruned(old(state).members, final(state).members, now_ms),
        final(state)@ == (StateView { members: final(state).members, ..old(state)@ }),
        status.running == running,
        status.device_id@ == text::trimmed(settings.sync.device_id@),
        status.device_name@ == discovery::shown_name(
            protocol::texts(name_candidates@),
            text::trimmed(settings.sync.device_id@),
        ),
        transfers::text_option(status.local_ip) == shown_ip(
            old(state)@,
            settings@.local_ip,
            selected_local_ip,
            discovery::listed(*interfaces),
            on_windows,
        ),
        transfers::text_option(status.last_error) == old(state)@.last_error,
        status.settings_notice is None,
        status.recent_log_count == old(state)@.logs.len(),
        status.peer_count == discovery::devices_in_scope(
            final(state).members.devices@,
            discovery::resolved_ip(
                text_or_empty(status.local_ip),
                false,
                discovery::listed(*interfaces),
            ),
        ).len() + 1,
{
    let active = match &state.active_local_ip {
        Some(ip) => Some(ip.clone()),
        None => None,
    };
    let last_error = match &state.last_error {
        Some(error) => Some(error.clone()),
        None => None,
    };
    let recent_log_count: usize = state.logs.len();
    let local_ip = selected_or_active_local_ip(
        settings,
        selected_local_ip,
        active,
        interfaces,
        on_windows,
    );
    let selected: Option<&str> = match &local_ip {
        Some(ip) => Some(ip.as_str()),
        None => None,
    };
    let shown = devices(state, selected, interfaces, now_ms);
    proof {
        members_are_few(*state);
        discovery::scope_only_narrows(
            state.members.devices@,
            discovery::resolved_ip(
                text_or_empty(local_ip),
                false,
                discovery::listed(*interfaces),
            ),
        );
    }
    let peer_count: usize = shown.len() + 1;
    let device_id = settings.sync_device_id();
    let device_name = local_device_name(name_candidates, &device_id);
    RuntimeStatus {
        running,
        device_id,
        device_name,
        local_ip,
        last_error,
        settings_notice: None,
        recent_log_count,
        peer_count,
    }
}

proof fn members_are_few(state: RuntimeState)
    requires
        state.wf(),
    ensures
        state.members.devices@.len() <= discovery::DISCOVERED_DEVICE_LIMIT,
{
}

/// Prepares a start: what an earlier run learned is forgotten. Returns the contents that
/// waited to be applied. Without encryption there is no start.
pub fn prepare_start(state: &mut RuntimeState, settings: &Settings) -> (result: Result<
    Vec<ClipboardPayload>,
    String,
>)
    requires
        old(state).wf(),
    ensures
        final(state).wf(),
        match result {
            Ok(discarded) => settings@.encryption_enabled && final(state)@ == (StateView {
                active_ip: None,
                last_error: None,
                ..domain::forgotten(old(state)@, final(state).members)
            }) && final(state).members.devices@.len() == 0 && domain::payloads(discarded@)
                == domain::contents(old(state)@.inbound),
            Err(e) => !settings@.encryption_enabled && final(state)@ == old(state)@ && e@
                == "protocol v5 requires encrypted authenticated sessions"@,
        },
{
    if !settings.security.encryption_enabled {
        return Err("protocol v5 requires encrypted authenticated sessions".to_owned());
    }
    let discarded = clear_member_cache(state);
    state.active_local_ip = None;
    state.last_error = None;
    assert(state@ =~= (StateView {
        active_ip: None,
        last_error: None,
        ..domain::forgotten(old(state)@, state.members)
    }));
    Ok(discarded)
}

/// What this device announces under given settings.
pub fn presence_config(settings: &Settings, device_id: &str, name_candidates: &Vec<String>) -> (config:
    PresenceConfig)
    ensures
        config.device_id@ == device_id@,
        config.device_name@ == discovery::shown_name(
            protocol::texts(name_candidates@),
            text::trimmed(settings.sync.device_id@),
        ),
        config.domain_id@ == crypto::domain_id(settings@.shared_code),
        config.local_ip@ == text::trimmed(settings@.local_ip),
        config.listen_port == settings@.listen_port,
{
    PresenceConfig {
        device_id: device_id.to_owned(),
        device_name: local_device_name(name_candidates, &settings.sync_device_id()),
        domain_id: discovery_domain_id(settings),
        local_ip: trim(&settings.sync.local_ip),
        listen_port: settings.sync.listen_port,
    }
}

/// What tells one announcement from another.
pub open spec fn signature_of(c: PresenceConfig) -> Seq<char> {
    c.device_id@ + ":"@ + c.device_name@ + ":"@ + c.domain_id@ + ":"@ + c.local_ip@ + ":"@
        + text::decimal(c.listen_port as nat)
}

/// What tells one announcement from another.
pub fn presence_signature(config: &PresenceConfig) -> (signature: String)
    ensures
        signature@ == signature_of(*config),
{
    let mut signature: String = config.device_id.clone();
    signature.append(":");
    signature.append(&config.device_name);
    signature.append(":");
    signature.append(&config.domain_id);
    signature.append(":");
    signature.append(&config.local_ip);
    signature.append(":");
    signature.append(&decimal_text(config.listen_port as u64));
    signature
}

/// Tells whether the announcement has to be started anew: unless the same one is running.
pub fn presence_must_restart(current: &Option<String>, worker_running: bool, signature: &str) -> (restart:
    bool)
    ensures
        restart == !(transfers::text_option(*current) == Some(signature@) && worker_running),
{
    match current {
        Some(s) => !(same_text(s, signature) && worker_running),
        None => true,
    }
}

/// The address that is shown is that of the settings, or the one that the user looks at instead:
/// as selected if this machine has it, else the one in use.
pub proof fn selected_addresses_are_shown(
    s: StateView,
    ip: Seq<u8>,
    local_ip: Seq<char>,
    interfaces: Seq<LocalInterface>,
    on_windows: bool,
    i: int,
)
    requires
        ip.len() == 4,
        ipv4::is_usable(ip),
        0 <= i < interfaces.len(),
        interfaces[i].ip@ == ip,
        local_ip == ipv4::ipv4_text(ip) || (text::trimmed(local_ip).len() == 0 && s.active_ip == Some(
            ipv4::ipv4_text(ip),
        )),
    ensures
        shown_ip(s, local_ip, None, Some(interfaces), on_windows) == Some(ipv4::ipv4_text(ip)),
{
    let none = Seq::<char>::empty();
    text::trim_keeps(none);
    discovery::selected_addresses_come_first(ip, none, s.active_ip, interfaces, on_windows, i);
    if text::trimmed(local_ip).len() == 0 {
        discovery::selected_addresses_come_first(
            ip,
            local_ip,
            s.active_ip,
            interfaces,
            on_windows,
            i,
        );
    }
}

/// An announcement is told from another one by each of its parts: a change of the name, the
/// domain or the address alone changes it.
pub proof fn announcements_are_told_apart(a: PresenceConfig, b: PresenceConfig)
    requires
        a.device_id@ == b.device_id@,
        a.listen_port == b.listen_port,
    ensures
        a.domain_id@ == b.domain_id@ && a.local_ip@ == b.local_ip@ ==> (signature_of(a)
            == signature_of(b) <==> a.device_name@ == b.device_name@),
        a.device_name@ == b.device_name@ && a.local_ip@ == b.local_ip@ ==> (signature_of(a)
            == signature_of(b) <==> a.domain_id@ == b.domain_id@),
        a.device_name@ == b.device_name@ && a.domain_id@ == b.domain_id@ ==> (signature_of(a)
            == signature_of(b) <==> a.local_ip@ == b.local_ip@),
{
    reveal_strlit(":");
    let colon = ":"@;
    let port = text::decimal(a.listen_port as nat);
    let n = a.device_id@.len() as int + 1;
    if a.domain_id@ == b.domain_id@ && a.local_ip@ == b.local_ip@ && signature_of(a)
        == signature_of(b) {
        let m = a.device_name@.len() as int;
        assert(signature_of(a).len() == n + m + 1 + a.domain_id@.len() + 1 + a.local_ip@.len() + 1
            + port.len());
        assert(signature_of(b).len() == n + b.device_name@.len() + 1 + b.domain_id@.len() + 1
            + b.local_ip@.len() + 1 + port.len());
        assert(signature_of(a).subrange(n, n + m) =~= a.device_name@);
        assert(signature_of(b).subrange(n, n + m) =~= b.device_name@);
    }
    if a.device_name@ == b.device_name@ && a.local_ip@ == b.local_ip@ && signature_of(a)
        == signature_of(b) {
        let from = n + a.device_name@.len() + 1;
        let m = a.domain_id@.len() as int;
        assert(signature_of(a).len() == from + m + 1 + a.local_ip@.len() + 1 + port.len());
        assert(signature_of(b).len() == from + b.domain_id@.len() + 1 + b.local_ip@.len() + 1
            + port.len());
        assert(signature_of(a).subrange(from, from + m) =~= a.domain_id@);
        assert(signature_of(b).subrange(from, from + m) =~= b.domain_id@);
    }
    if a.device_name@ == b.device_name@ && a.domain_id@ == b.domain_id@ && signature_of(a)
        == signature_of(b) {
        let from = n + a.device_name@.len() + 1 + a.domain_id@.len() + 1;
        let m = a.local_ip@.len() as int;
        assert(signature_of(a).len() == from + m + 1 + port.len());
        assert(signature_of(b).len() == from + b.local_ip@.len() + 1 + port.len());
        assert(signature_of(a).subrange(from, from + m) =~= a.local_ip@);
        assert(signature_of(b).subrange(from, from + m) =~= b.local_ip@);
    }
}

} // verus!
