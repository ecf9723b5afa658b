//! Announcements over UDP.

use crate::net::crypto;
use crate::net::crypto::discovery_domain_id;
use crate::net::device;
use crate::net::device::{
    is_valid_device_id, is_valid_discovery_domain_id, normalize_device_name,
    validate_discovered_device, DeviceView, DiscoveredDevice, MIN_DEVICE_PORT,
};
use crate::net::discovery;
use crate::net::ipv4;
use crate::net::ipv4::{ipv4_to_text, is_usable_ipv4, Ipv4};
use crate::settings::Settings;
use crate::text;
use crate::text::same_text;
use vstd::prelude::*;

verus! {

/// The version of announcements.
pub const ANNOUNCEMENT_VERSION: u8 = 2;

/// How many packets one round of receiving takes.
pub const UDP_RECEIVE_PACKET_LIMIT: usize = 64;

/// How long one round of receiving lasts.
pub const UDP_RECEIVE_TIME_BUDGET_MS: u64 = 3;

/// How a device announces itself.
#[derive(Debug)]
pub struct DiscoveryAnnouncement {
    pub v: u8,
    pub app: String,
    pub device_id: String,
    pub device_name: String,
    pub domain_id: String,
    pub tcp_port: u16,
}

/// An announcement as plain values.
#[verifier::ext_equal]
pub struct AnnouncementView {
    pub v: u8,
    pub app: Seq<char>,
    pub device_id: Seq<char>,
    pub device_name: Seq<char>,
    pub domain_id: Seq<char>,
    pub tcp_port: u16,
}

impl View for DiscoveryAnnouncement {
    type V = AnnouncementView;

    open spec fn view(&self) -> AnnouncementView {
        AnnouncementView {
            v: self.v,
            app: self.app@,
            device_id: self.device_id@,
            device_name: self.device_name@,
            domain_id: self.domain_id@,
            tcp_port: self.tcp_port,
        }
    }
}

/// What a device announces, if it can be announced.
pub open spec fn announcement_of(
    device_id: Seq<char>,
    device_name: Seq<char>,
    domain_id: Seq<char>,
    port: u16,
) -> Option<AnnouncementView> {
    if device::normal_name(device_name) is None || !device::is_device_id(device_id)
        || !device::is_domain_id(domain_id) || port < MIN_DEVICE_PORT {
        None
    } else {
        Some(
            AnnouncementView {
                v: ANNOUNCEMENT_VERSION,
                app: "lan-clipboard"@,
                device_id,
                device_name: device::normal_name(device_name)->Some_0,
                domain_id,
                tcp_port: port,
            },
        )
    }
}

/// The device that an announcement from an address describes, if it is another
/// device of the domain that can be contacted.
pub open spec fn announced_device(
    a: AnnouncementView,
    source: Option<Seq<u8>>,
    self_device_id: Seq<char>,
    domain_id: Seq<char>,
) -> Option<DeviceView> {
    if a.v != ANNOUNCEMENT_VERSION || a.app != "lan-clipboard"@ || a.device_id == self_device_id
        || !device::is_device_id(a.device_id) || a.domain_id != domain_id
        || !device::is_domain_id(domain_id) || a.tcp_port < MIN_DEVICE_PORT {
        None
    } else if source is None || !ipv4::is_usable(source->Some_0) || device::normal_name(
        a.device_name,
    ) is None {
        None
    } else {
        Some(
            DeviceView {
                device_id: a.device_id,
                device_name: device::normal_name(a.device_name)->Some_0,
                addr: ipv4::ipv4_text(source->Some_0),
                port: a.tcp_port,
            },
        )
    }
}

/// What this device announces, if it can be announced.
pub fn own_announcement(settings: &Settings, device_id: &str, device_name: &str) -> (announcement:
    Option<DiscoveryAnnouncement>)
    ensures
        match announcement {
            Some(a) => announcement_of(
                device_id@,
                device_name@,
                crypto::domain_id(settings@.shared_code),
                settings@.listen_port,
            ) == Some(a@),
            None => announcement_of(
                device_id@,
                device_name@,
                crypto::domain_id(settings@.shared_code),
                settings@.listen_port,
            ) is None,
        },
{
    let domain_id = discovery_domain_id(settings);
    let device_name = match normalize_device_name(device_name) {
        Some(name) => name,
        None => return None,
    };
    if !is_valid_device_id(device_id) || !is_valid_discovery_domain_id(&domain_id)
        || settings.sync.listen_port < MIN_DEVICE_PORT {
        return None;
    }
    Some(
        DiscoveryAnnouncement {
            v: ANNOUNCEMENT_VERSION,
            app: "lan-clipboard".to_owned(),
            device_id: device_id.to_owned(),
            device_name,
            domain_id,
            tcp_port: settings.sync.listen_port,
        },
    )
}

/// Reads an announcement that came from an address, if that is an IPv4 address.
/// What it describes can be contacted.
pub fn announcement_to_device(
    announcement: &DiscoveryAnnouncement,
    source: Option<Ipv4>,
    self_device_id: &str,
    domain_id: &str,
) -> (found: Option<DiscoveredDevice>)
    ensures
        match found {
            Some(d) => {
                &&& announced_device(
                    announcement@,
                    discovery::ip_option(source),
                    self_device_id@,
                    domain_id@,
                ) == Some(d@)
                &&& device::is_valid_device(d@)
            },
            None => announced_device(
                announcement@,
                discovery::ip_option(source),
                self_device_id@,
                domain_id@,
            ) is None,
        },
{
    if announcement.v != ANNOUNCEMENT_VERSION || !same_text(&announcement.app, "lan-clipboard")
        || same_text(&announcement.device_id, self_device_id) || !is_valid_device_id(
        &announcement.device_id,
    ) || !same_text(&announcement.domain_id, domain_id) || !is_valid_discovery_domain_id(domain_id)
        || announcement.tcp_port < MIN_DEVICE_PORT {
        return None;
    }
    let source_ip = match source {
        Some(ip) => ip,
        None => return None,
    };
    if !is_usable_ipv4(&source_ip) {
        return None;
    }
    let device_name = match normalize_device_name(&announcement.device_name) {
        Some(name) => name,
        None => return None,
    };
    proof {
        text::trim_is_idempotent(announcement@.device_name);
    }
    let found = DiscoveredDevice {
        device_id: announcement.device_id.clone(),
        device_name,
        addr: ipv4_to_text(&source_ip),
        port: announcement.tcp_port,
    };
    if validate_discovered_device(&found) {
        Some(found)
    } else {
        None
    }
}

/// Tells whether a round of receiving goes on: a round takes so many packets
/// and so much time, and ends when synchronization stops.
pub fn may_receive_announcement(received_packets: usize, elapsed_ms: u64, stopping: bool) -> (go_on:
    bool)
    ensures
        go_on == (received_packets < UDP_RECEIVE_PACKET_LIMIT && elapsed_ms
            < UDP_RECEIVE_TIME_BUDGET_MS && !stopping),
{
    received_packets < UDP_RECEIVE_PACKET_LIMIT && elapsed_ms < UDP_RECEIVE_TIME_BUDGET_MS
        && !stopping
}

/// A device that announces itself is found by every other device of its domain,
/// under its name and port and the address that it sends from.
pub proof fn announcements_are_understood(
    device_id: Seq<char>,
    device_name: Seq<char>,
    domain_id: Seq<char>,
    port: u16,
    source: Seq<u8>,
    other_device_id: Seq<char>,
)
    requires
        announcement_of(device_id, device_name, domain_id, port) is Some,
        ipv4::is_usable(source),
        other_device_id != device_id,
    ensures
        announced_device(
            announcement_of(device_id, device_name, domain_id, port)->Some_0,
            Some(source),
            other_device_id,
            domain_id,
        ) == Some(
            (DeviceView {
                device_id,
                device_name: device::normal_name(device_name)->Some_0,
                addr: ipv4::ipv4_text(source),
                port,
            }),
        ),
{
    text::trim_is_idempotent(device_name);
}

/// A device does not find itself, nor devices of other domains.
pub proof fn foreign_announcements_are_ignored(
    a: AnnouncementView,
    source: Option<Seq<u8>>,
    self_device_id: Seq<char>,
    domain_id: Seq<char>,
)
    requires
        a.device_id == self_device_id || a.domain_id != domain_id,
    ensures
        announced_device(a, source, self_device_id, domain_id) is None,
{
}

/// Every device announces itself that has an identifier, a name that can be shown, a domain and
/// a port from 1024 on; it announces exactly these, in version 2.
pub proof fn devices_announce_themselves(
    device_id: Seq<char>,
    device_name: Seq<char>,
    domain_id: Seq<char>,
    port: u16,
)
    requires
        device::is_device_id(device_id),
        device::is_domain_id(domain_id),
        device::normal_name(device_name) is Some,
    ensures
        port >= 1024 ==> announcement_of(device_id, device_name, domain_id, port) == Some(
            (AnnouncementView {
                v: 2,
                app: "lan-clipboard"@,
                device_id,
                device_name: device::normal_name(device_name)->Some_0,
                domain_id,
                tcp_port: port,
            }),
        ),
        port < 1024 ==> announcement_of(device_id, device_name, domain_id, port) is None,
{
}

/// An announcement of version 2 by another device of the domain is understood, whatever the
/// device is called and whichever usable address it comes from.
pub proof fn announcements_of_the_domain_count(
    a: AnnouncementView,
    source: Seq<u8>,
    self_device_id: Seq<char>,
)
    requires
        device::is_device_id(a.device_id),
        device::is_domain_id(a.domain_id),
        device::normal_name(a.device_name) is Some,
        a.device_id != self_device_id,
        a.app == "lan-clipboard"@,
    ensures
        ({
            let found = announced_device(a, Some(source), self_device_id, a.domain_id);
            &&& found is Some <==> a.v == 2 && a.tcp_port >= 1024 && ipv4::is_usable(source)
            &&& found is Some ==> found->Some_0 == DeviceView {
                device_id: a.device_id,
                device_name: device::normal_name(a.device_name)->Some_0,
                addr: ipv4::ipv4_text(source),
                port: a.tcp_port,
            }
        }),
{
}

} // verus!
