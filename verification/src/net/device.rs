//! The other devices of the sharing domain, as discovery finds them.

use crate::net::ipv4;
use crate::net::ipv4::{is_usable_ipv4, parse_ipv4};
use crate::text;
use crate::text::{byte_len, chars_of, is_control, same_text, trim};
use crate::uuid_text;
use crate::uuid_text::{hyphenated_text, is_nil_uuid, parse_uuid_text};
use vstd::prelude::*;
use vstd::utf8::*;

verus! {

/// The longest device name in bytes.
pub const DEVICE_NAME_MAX_BYTES: usize = 128;

/// The lowest port that a device can listen on.
pub const MIN_DEVICE_PORT: u16 = 1024;

/// Another device.
#[derive(Debug)]
pub struct DiscoveredDevice {
    pub device_id: String,
    pub device_name: String,
    pub addr: String,
    pub port: u16,
}

/// Another device as plain values.
#[verifier::ext_equal]
pub struct DeviceView {
    pub device_id: Seq<char>,
    pub device_name: Seq<char>,
    pub addr: Seq<char>,
    pub port: u16,
}

impl View for DiscoveredDevice {
    type V = DeviceView;

    open spec fn view(&self) -> DeviceView {
        DeviceView {
            device_id: self.device_id@,
            device_name: self.device_name@,
            addr: self.addr@,
            port: self.port,
        }
    }
}

impl Clone for DiscoveredDevice {
    fn clone(&self) -> (copy: Self)
        ensures
            copy == *self,
    {
        DiscoveredDevice {
            device_id: self.device_id.clone(),
            device_name: self.device_name.clone(),
            addr: self.addr.clone(),
            port: self.port,
        }
    }
}

/// The identifier of a device: the lowercase hyphenated form of sixteen bytes
/// that are not all zero.
pub open spec fn is_device_id(s: Seq<char>) -> bool {
    match uuid_text::uuid_bytes(s) {
        Some(b) => !uuid_text::is_nil(b) && s == uuid_text::hyphenated(b),
        None => false,
    }
}

/// The identifier of a domain: 32 lowercase hexadecimal digits.
pub open spec fn is_domain_id(s: Seq<char>) -> bool {
    s.len() == 32 && forall|i: int|
        0 <= i < s.len() ==> '0' <= #[trigger] s[i] <= '9' || 'a' <= s[i] <= 'f'
}

/// A name that can be shown: not empty, not too long, without control characters.
pub open spec fn is_device_name(s: Seq<char>) -> bool {
    &&& 0 < s.len()
    &&& encode_utf8(s).len() <= DEVICE_NAME_MAX_BYTES
    &&& forall|i: int| 0 <= i < s.len() ==> !text::is_control_char(#[trigger] s[i])
}

/// The name to show for a device, if what it calls itself can be shown.
pub open spec fn normal_name(s: Seq<char>) -> Option<Seq<char>> {
    if is_device_name(text::trimmed(s)) {
        Some(text::trimmed(s))
    } else {
        None
    }
}

/// A device that can be contacted.
pub open spec fn is_valid_device(d: DeviceView) -> bool {
    &&& is_device_id(d.device_id)
    &&& normal_name(d.device_name) == Some(d.device_name)
    &&& d.port >= MIN_DEVICE_PORT
    &&& ipv4::ipv4_of(d.addr) is Some
    &&& ipv4::is_usable(ipv4::ipv4_of(d.addr)->Some_0)
}

/// Tells whether a text is the identifier of a device.
pub fn is_valid_device_id(value: &str) -> (valid: bool)
    ensures
        valid == is_device_id(value@),
{
    match parse_uuid_text(value) {
        None => false,
        Some(bytes) => !is_nil_uuid(&bytes) && same_text(&hyphenated_text(bytes), value),
    }
}

/// Tells whether a text is the identifier of a domain.
pub fn is_valid_discovery_domain_id(value: &str) -> (valid: bool)
    ensures
        valid == is_domain_id(value@),
{
    let chars = chars_of(value);
    if chars.len() != 32 {
        return false;
    }
    let mut i: usize = 0;
    while i < chars.len()
        invariant
            i <= chars.len(),
            chars@ == value@,
            forall|j: int|
                0 <= j < i ==> '0' <= #[trigger] chars@[j] <= '9' || 'a' <= chars@[j] <= 'f',
        decreases chars.len() - i,
    {
        let c = chars[i];
        if !(('0' <= c && c <= '9') || ('a' <= c && c <= 'f')) {
            assert(value@[i as int] == c);
            return false;
        }
        i = i + 1;
    }
    true
}

/// The name to show for a device, if what it calls itself can be shown.
pub fn normalize_device_name(value: &str) -> (name: Option<String>)
    ensures
        match name {
            Some(n) => normal_name(value@) == Some(n@),
            None => normal_name(value@) is None,
        },
{
    let trimmed = trim(value);
    if trimmed.as_str().is_empty() || byte_len(&trimmed) > DEVICE_NAME_MAX_BYTES {
        return None;
    }
    let chars = chars_of(&trimmed);
    let mut i: usize = 0;
    while i < chars.len()
        invariant
            i <= chars.len(),
            chars@ == trimmed@,
            trimmed@ == text::trimmed(value@),
            forall|j: int| 0 <= j < i ==> !text::is_control_char(#[trigger] chars@[j]),
        decreases chars.len() - i,
    {
        if is_control(chars[i]) {
            assert(text::is_control_char(trimmed@[i as int]));
            return None;
        }
        i = i + 1;
    }
    Some(trimmed)
}

/// Tells whether a device can be contacted.
pub fn validate_discovered_device(device: &DiscoveredDevice) -> (valid: bool)
    ensures
        valid == is_valid_device(device@),
{
    if !is_valid_device_id(&device.device_id) || device.port < MIN_DEVICE_PORT {
        return false;
    }
    match normalize_device_name(&device.device_name) {
        None => return false,
        Some(name) => {
            if !same_text(&name, &device.device_name) {
                return false;
            }
        },
    }
    match parse_ipv4(&device.addr) {
        Some(ip) => is_usable_ipv4(&ip),
        None => false,
    }
}

/// A domain identifier that was derived from a shared code is well formed.
pub proof fn derived_domain_ids_are_valid(digest: Seq<u8>)
    requires
        digest.len() == 16,
    ensures
        is_domain_id(crate::bytes::hex_text(digest)),
{
}

/// Any sixteen bytes that are not all zero identify a device, in their lowercase form alone.
pub proof fn identifiers_are_lowercase(b: Seq<u8>, s: Seq<char>)
    requires
        b.len() == 16,
    ensures
        is_device_id(uuid_text::hyphenated(b)) <==> exists|i: int| 0 <= i < 16 && #[trigger] b[i] != 0,
        is_device_id(s) ==> s.len() == 36 && forall|i: int|
            0 <= i < 36 ==> !('A' <= #[trigger] s[i] <= 'F'),
{
    uuid_text::hyphenated_is_read_back(b);
}

/// A name can be shown if it takes 1 to 128 bytes and holds no control characters, blanks and
/// letters of any script included. White space around it is left off, and nothing else is
/// changed.
pub proof fn ordinary_device_names_are_shown(name: Seq<char>)
    requires
        0 < name.len(),
        encode_utf8(name).len() <= 128,
        forall|i: int|
            0 <= i < name.len() ==> (#[trigger] name[i]) as u32 >= 0x20 && !(0x7f <= name[i] as u32
                <= 0x9f),
        !text::is_white(name[0]),
        !text::is_white(name.last()),
    ensures
        normal_name(name) == Some(name),
{
    text::trim_keeps(name);
}

/// A name is not shown if it is empty, takes more than 128 bytes or holds a control character.
pub proof fn unusual_device_names_are_not_shown(name: Seq<char>, i: int)
    requires
        ({
            let t = text::trimmed(name);
            t.len() == 0 || encode_utf8(t).len() > 128 || (0 <= i < t.len() && ((t[i] as u32) < 0x20
                || 0x7f <= t[i] as u32 <= 0x9f))
        }),
    ensures
        normal_name(name) is None,
{
    let t = text::trimmed(name);
    if 0 <= i < t.len() && ((t[i] as u32) < 0x20 || 0x7f <= t[i] as u32 <= 0x9f) {
        assert(text::is_control_char(t[i]));
    }
}

/// A device can be contacted if it has an identifier, a name that can be shown, a port from
/// 1024 on and an address that can be used, and not otherwise.
pub proof fn devices_that_can_be_contacted(b: Seq<u8>, name: Seq<char>, ip: Seq<u8>, port: u16)
    requires
        b.len() == 16,
        exists|i: int| 0 <= i < 16 && #[trigger] b[i] != 0,
        normal_name(name) == Some(name),
        ip.len() == 4,
    ensures
        is_valid_device(
            (DeviceView {
                device_id: uuid_text::hyphenated(b),
                device_name: name,
                addr: ipv4::ipv4_text(ip),
                port,
            }),
        ) <==> port >= 1024 && ipv4::is_usable(ip),
{
    uuid_text::hyphenated_is_read_back(b);
    ipv4::ipv4_text_is_read_back(ip);
}

} // verus!
