//! How connections are addressed, and how long their parts may take.

use crate::bytes::same_bytes;
use crate::net::ipv4;
use crate::net::ipv4::{ipv4_to_text, parse_ipv4, Ipv4};
use crate::protocol::ClipboardItem;
use crate::text;
use crate::text::{chars_of, decimal_text, text_of, trim};
use vstd::prelude::*;

verus! {

/// The shortest time that writing a payload may take.
pub const MIN_WRITE_TIMEOUT_MS: u64 = 8_000;

/// The longest time that writing a payload may take.
pub const MAX_WRITE_TIMEOUT_MS: u64 = 120_000;

/// How many bytes add one millisecond.
pub const WRITE_TIMEOUT_BYTES_PER_MS: u64 = 512;

/// The size of socket buffers while payloads are transferred (16 MiB).
pub const TCP_BUFFER_BYTES: usize = 16_777_216;

/// The size of socket buffers during the handshake (16 KiB).
pub const HANDSHAKE_TCP_BUFFER_BYTES: usize = 16_384;

/// How long the whole handshake may take.
pub const HANDSHAKE_TIMEOUT_MS: u64 = 2_000;

/// How long connecting may take.
pub const CONNECT_TIMEOUT_MS: u64 = 2_000;

/// Why a connection cannot be made from the selected address.
#[derive(Debug, Clone, Copy, PartialEq, Eq, Structural)]
pub enum SourceError {
    Invalid,
    OtherFamily,
}

/// The family of an address.
#[derive(Debug, Clone, Copy, PartialEq, Eq, Structural)]
pub enum AddressFamily {
    V4,
    V6,
}

impl SourceError {
    /// What went wrong, in words.
    pub fn message(&self) -> (text: &'static str)
        ensures
            text@ == match *self {
                SourceError::Invalid => "selected local ip is invalid"@,
                SourceError::OtherFamily => {
                    "selected local ip and peer use different address families"@
                },
            },
    {
        match self {
            SourceError::Invalid => "selected local ip is invalid",
            SourceError::OtherFamily => "selected local ip and peer use different address families",
        }
    }
}

/// Tells whether a connection is bound to the selected address before it is
/// made. `family` is that of the address that the text stands for, if any.
pub fn binds_source(
    local_ip: Option<&str>,
    family: Option<AddressFamily>,
    remote: AddressFamily,
) -> (result: Result<bool, SourceError>)
    ensures
        result == if local_ip is None || text::trimmed(local_ip->Some_0@).len() == 0 {
            Ok::<bool, SourceError>(false)
        } else if family is None {
            Err::<bool, SourceError>(SourceError::Invalid)
        } else if family->Some_0 != remote {
            Err::<bool, SourceError>(SourceError::OtherFamily)
        } else {
            Ok::<bool, SourceError>(true)
        },
{
    match local_ip {
        None => Ok(false),
        Some(value) => {
            if trim(value).as_str().is_empty() {
                return Ok(false);
            }
            match family {
                None => Err(SourceError::Invalid),
                Some(family) => if family == remote {
                    Ok(true)
                } else {
                    Err(SourceError::OtherFamily)
                },
            }
        },
    }
}

/// How long writing a payload of so many bytes may take in milliseconds: eight
/// seconds and one millisecond for every 512 bytes, two minutes at most.
pub open spec fn write_timeout(payload_bytes: u64) -> int {
    let estimated = payload_bytes / WRITE_TIMEOUT_BYTES_PER_MS + MIN_WRITE_TIMEOUT_MS;
    if estimated <= MAX_WRITE_TIMEOUT_MS {
        estimated
    } else {
        MAX_WRITE_TIMEOUT_MS as int
    }
}

/// How long writing a payload may take in milliseconds.
pub fn write_timeout_for_payload(payload_bytes: u64) -> (timeout_ms: u64)
    ensures
        timeout_ms == write_timeout(payload_bytes),
        MIN_WRITE_TIMEOUT_MS <= timeout_ms <= MAX_WRITE_TIMEOUT_MS,
{
    let estimated: u64 = payload_bytes / WRITE_TIMEOUT_BYTES_PER_MS + MIN_WRITE_TIMEOUT_MS;
    if estimated <= MAX_WRITE_TIMEOUT_MS {
        estimated
    } else {
        MAX_WRITE_TIMEOUT_MS
    }
}

/// The place of the first colon, or the length of the text.
pub open spec fn first_colon(s: Seq<char>) -> int
    decreases s.len(),
{
    if s.len() == 0 || s[0] == ':' {
        0
    } else {
        1 + first_colon(s.skip(1))
    }
}

/// All characters are decimal digits.
pub open spec fn all_digits(s: Seq<char>) -> bool {
    forall|i: int| 0 <= i < s.len() ==> ipv4::is_digit(#[trigger] s[i])
}

/// A port as text.
pub open spec fn is_port(s: Seq<char>) -> bool {
    s.len() > 0 && all_digits(s) && ipv4::value(s) <= 65535
}

/// The IPv4 address and port that a text stands for.
pub open spec fn ipv4_peer_of(s: Seq<char>) -> Option<(Seq<u8>, u16)> {
    let c = first_colon(s);
    if c < s.len() && ipv4::ipv4_of(s.take(c)) is Some && is_port(s.skip(c + 1)) {
        Some((ipv4::ipv4_of(s.take(c))->Some_0, ipv4::value(s.skip(c + 1)) as u16))
    } else {
        None
    }
}

/// A peer as text: its address and its port, with a colon between them.
pub open spec fn peer_text(addr: Seq<char>, port: u16) -> Seq<char> {
    addr + seq![':'] + text::decimal(port as nat)
}

proof fn value_grows(s: Seq<char>, k: int)
    requires
        all_digits(s),
        0 <= k <= s.len(),
    ensures
        0 <= ipv4::value(s.take(k)) <= ipv4::value(s),
    decreases s.len(),
{
    if k == s.len() {
        assert(s.take(k) =~= s);
        if s.len() > 0 {
            assert(s.take(k - 1) =~= s.drop_last());
            assert(all_digits(s.drop_last()));
            value_grows(s.drop_last(), k - 1);
            assert(s.drop_last().take(k - 1) =~= s.drop_last());
            assert(ipv4::is_digit(s[s.len() - 1]));
        }
    } else {
        assert(all_digits(s.drop_last()));
        value_grows(s.drop_last(), k);
        assert(s.drop_last().take(k) =~= s.take(k));
        assert(ipv4::is_digit(s[s.len() - 1]));
    }
}

/// Writes a peer as text.
pub fn peer_to_text(addr: &str, port: u16) -> (peer: String)
    ensures
        peer@ == peer_text(addr@, port),
{
    let mut peer: String = addr.to_owned();
    peer.push(':');
    peer.append(&decimal_text(port as u64));
    assert(peer@ =~= peer_text(addr@, port));
    peer
}

/// Reads the IPv4 address and port of a peer.
pub fn parse_ipv4_peer(s: &str) -> (peer: Option<(Ipv4, u16)>)
    ensures
        match peer {
            Some((ip, port)) => ipv4_peer_of(s@) == Some((ip@, port)),
            None => ipv4_peer_of(s@) is None,
        },
{
    let chars = chars_of(s);
    let mut c: usize = 0;
    assert(chars@.skip(0) =~= s@);
    while c < chars.len() && chars[c] != ':'
        invariant
            c <= chars.len(),
            chars@ == s@,
            first_colon(s@) == c + first_colon(s@.skip(c as int)),
        decreases chars.len() - c,
    {
        assert(s@.skip(c as int).skip(1) =~= s@.skip(c + 1));
        c = c + 1;
    }
    if c == chars.len() {
        return None;
    }
    let head = text_of(&chars, 0, c);
    assert(head@ =~= s@.take(c as int));
    let ip = match parse_ipv4(&head) {
        Some(ip) => ip,
        None => return None,
    };
    let ghost tail = s@.skip(c + 1);
    if c + 1 == chars.len() {
        return None;
    }
    let mut port: u32 = 0;
    let mut i: usize = c + 1;
    while i < chars.len()
        invariant
            c + 1 <= i <= chars.len(),
            chars@ == s@,
            tail == s@.skip(c + 1),
            c == first_colon(s@),
            port <= 65535,
            port == ipv4::value(tail.take(i - c - 1)),
            forall|j: int| 0 <= j < i - c - 1 ==> ipv4::is_digit(#[trigger] tail[j]),
        decreases chars.len() - i,
    {
        let digit = chars[i];
        assert(tail[i - c - 1] == digit);
        if digit < '0' || digit > '9' {
            assert(!ipv4::is_digit(tail[i - c - 1]));
            return None;
        }
        proof {
            assert(tail.take(i - c).drop_last() =~= tail.take(i - c - 1));
            assert(tail.take(i - c).last() == digit);
        }
        port = port * 10 + (digit as u32 - 48);
        if port > 65535 {
            proof {
                if all_digits(tail) {
                    value_grows(tail, i - c);
                }
            }
            return None;
        }
        i = i + 1;
    }
    assert(tail.take(i - c - 1) =~= tail);
    Some((ip, port as u16))
}

/// What a peer is called in the identifier of a transfer: by its address. `other_host` is
/// the address of a peer that has one, but no IPv4 address.
pub open spec fn peer_key(peer: Seq<char>, other_host: Option<Seq<char>>) -> Seq<char> {
    match ipv4_peer_of(peer) {
        Some((ip, _)) => ipv4::ipv4_text(ip),
        None => match other_host {
            Some(host) => host,
            None => peer,
        },
    }
}

/// A text that may be missing, as plain values.
pub open spec fn str_option(s: Option<&str>) -> Option<Seq<char>> {
    match s {
        Some(t) => Some(t@),
        None => None,
    }
}

/// The identifier of the transfer that sends an item to a peer. Where `peer` is a socket
/// address, but none of IPv4, `other_host` is the address in it in its usual form.
pub fn send_transfer_id(peer: &str, other_host: Option<&str>, item: &ClipboardItem) -> (id: String)
    ensures
        id@ == "send:"@ + peer_key(peer@, str_option(other_host)) + ":"@ + item@.id,
{
    let mut id: String = "send:".to_owned();
    match parse_ipv4_peer(peer) {
        Some((ip, _)) => id.append(&ipv4_to_text(&ip)),
        None => match other_host {
            Some(host) => id.append(host),
            None => id.append(peer),
        },
    }
    id.append(":");
    id.append(&item.id);
    id
}

/// An address is one of this device: a loopback address, or the one that it uses.
pub open spec fn is_own_address(ip: Seq<u8>, effective_local_ip: Option<Seq<char>>) -> bool {
    ip[0] == 127 || match effective_local_ip {
        Some(own) => ipv4::ipv4_of(own) == Some(ip),
        None => false,
    }
}

/// An address of either family.
#[derive(Debug, Clone, Copy)]
pub enum IpAddress {
    V4(Ipv4),
    V6([u8; 16]),
}

/// An address of either family as plain values.
#[verifier::ext_equal]
pub enum IpView {
    V4(Seq<u8>),
    V6(Seq<u8>),
}

impl View for IpAddress {
    type V = IpView;

    open spec fn view(&self) -> IpView {
        match self {
            IpAddress::V4(ip) => IpView::V4(ip@),
            IpAddress::V6(ip) => IpView::V6(ip@),
        }
    }
}

/// The loopback address of IPv6.
pub open spec fn ipv6_loopback() -> Seq<u8> {
    seq![0u8, 0, 0, 0, 0, 0, 0, 0, 0, 0, 0, 0, 0, 0, 0, 1]
}

/// An address leads back to this device.
pub open spec fn is_loopback(ip: IpView) -> bool {
    match ip {
        IpView::V4(b) => b[0] == 127,
        IpView::V6(b) => b == ipv6_loopback(),
    }
}

/// An address that may be missing, as plain values.
pub open spec fn address_option(ip: Option<IpAddress>) -> Option<IpView> {
    match ip {
        Some(a) => Some(a@),
        None => None,
    }
}

/// Tells whether an address is one of this device: one that leads back to it, or the one
/// that it uses.
pub fn is_self_socket_addr(ip: &IpAddress, effective_local_ip: &Option<IpAddress>) -> (own: bool)
    ensures
        own == (is_loopback(ip@) || address_option(*effective_local_ip) == Some(ip@)),
{
    let loopback = match ip {
        IpAddress::V4(b) => b[0] == 127,
        IpAddress::V6(b) => {
            let expected: [u8; 16] = [0, 0, 0, 0, 0, 0, 0, 0, 0, 0, 0, 0, 0, 0, 0, 1];
            assert(expected@ =~= ipv6_loopback());
            same_bytes(b, &expected)
        },
    };
    if loopback {
        return true;
    }
    match (ip, effective_local_ip) {
        (IpAddress::V4(a), Some(IpAddress::V4(b))) => same_bytes(a, b),
        (IpAddress::V6(a), Some(IpAddress::V6(b))) => same_bytes(a, b),
        _ => false,
    }
}

/// The text of a peer is read back as its address and port.
pub proof fn peer_text_is_read_back(ip: Seq<u8>, port: u16)
    requires
        ip.len() == 4,
    ensures
        ipv4_peer_of(peer_text(ipv4::ipv4_text(ip), port)) == Some((ip, port)),
{
    let addr = ipv4::ipv4_text(ip);
    let s = peer_text(addr, port);
    ipv4::ipv4_text_is_read_back(ip);
    ipv4::decimal_is_read_back(ip[0] as nat);
    ipv4::decimal_is_read_back(ip[1] as nat);
    ipv4::decimal_is_read_back(ip[2] as nat);
    ipv4::decimal_is_read_back(ip[3] as nat);
    ipv4::decimal_is_read_back(port as nat);
    assert(forall|i: int| 0 <= i < addr.len() ==> addr[i] != ':');
    colon_ends_address(addr, text::decimal(port as nat));
    assert(s =~= addr + (seq![':'] + text::decimal(port as nat)));
    assert(s.take(addr.len() as int) =~= addr);
    assert(s.skip(addr.len() as int + 1) =~= text::decimal(port as nat));
}

proof fn colon_ends_address(addr: Seq<char>, rest: Seq<char>)
    requires
        forall|i: int| 0 <= i < addr.len() ==> #[trigger] addr[i] != ':',
    ensures
        first_colon(addr + (seq![':'] + rest)) == addr.len(),
    decreases addr.len(),
{
    let s = addr + (seq![':'] + rest);
    if addr.len() == 0 {
        assert(s[0] == ':');
    } else {
        assert(s[0] == addr[0]);
        assert(s.skip(1) =~= addr.skip(1) + (seq![':'] + rest));
        assert forall|i: int| 0 <= i < addr.skip(1).len() implies #[trigger] addr.skip(1)[i] != ':' by {
            assert(addr[i + 1] != ':');
        }
        colon_ends_address(addr.skip(1), rest);
    }
}

/// Writing may take eight seconds and one more millisecond for every 512 bytes, until two
/// minutes are reached; more bytes never shorten it.
pub proof fn longer_payloads_may_take_longer(payload_bytes: u64, more_bytes: u64)
    requires
        payload_bytes <= more_bytes,
    ensures
        write_timeout(payload_bytes) <= write_timeout(more_bytes),
        payload_bytes < 512 * 112_000 ==> write_timeout(payload_bytes) == 8_000 + payload_bytes as int
            / 512,
        payload_bytes >= 512 * 112_000 ==> write_timeout(payload_bytes) == 120_000,
{
}

/// An address is one's own exactly if it begins with 127 or is the one that is used.
pub proof fn own_addresses_are_loopback_or_used(ip: Seq<u8>, used: Seq<u8>, other: Option<Seq<char>>)
    requires
        ip.len() == 4,
        used.len() == 4,
    ensures
        is_own_address(ip, None) <==> ip[0] == 127,
        is_own_address(ip, Some(ipv4::ipv4_text(used))) <==> ip[0] == 127 || ip == used,
        ip[0] == 127 ==> is_own_address(ip, other),
{
    ipv4::ipv4_text_is_read_back(used);
}

/// A peer is called by its address, whatever its port is; two addresses never share a name.
pub proof fn peers_are_called_by_their_address(
    a: Seq<u8>,
    b: Seq<u8>,
    port: u16,
    other_port: u16,
    other_host: Option<Seq<char>>,
)
    requires
        a.len() == 4,
        b.len() == 4,
    ensures
        peer_key(peer_text(ipv4::ipv4_text(a), port), other_host) == ipv4::ipv4_text(a),
        peer_key(peer_text(ipv4::ipv4_text(a), port), other_host) == peer_key(
            peer_text(ipv4::ipv4_text(b), other_port),
            other_host,
        ) <==> a == b,
{
    peer_text_is_read_back(a, port);
    peer_text_is_read_back(b, other_port);
    ipv4::ipv4_text_is_read_back(a);
    ipv4::ipv4_text_is_read_back(b);
}

/// A peer without an IPv4 address is called by the address that is known otherwise, or by what
/// it was given as.
pub proof fn other_peers_keep_their_names(peer: Seq<char>, host: Seq<char>)
    requires
        ipv4_peer_of(peer) is None,
    ensures
        peer_key(peer, Some(host)) == host,
        peer_key(peer, None) == peer,
{
}

/// An address leads back to this device if it begins with 127, or is the one after zero in IPv6.
pub proof fn loopback_addresses_lead_back(ip: Seq<u8>)
    requires
        ip.len() == 16,
    ensures
        is_loopback(IpView::V4(ip)) <==> ip[0] == 127,
        is_loopback(IpView::V6(ip)) <==> ip[15] == 1 && forall|i: int|
            0 <= i < 15 ==> #[trigger] ip[i] == 0,
{
    let l = ipv6_loopback();
    if ip[15] == 1 && forall|i: int| 0 <= i < 15 ==> #[trigger] ip[i] == 0 {
        assert(ip =~= l);
    }
    if ip == l {
        assert forall|i: int| 0 <= i < 15 implies #[trigger] ip[i] == 0 by {
            assert(l[i] == 0);
        }
    }
}

proof fn colon_is_at(s: Seq<char>, at: int)
    requires
        0 <= at < s.len(),
        s[at] == ':',
        forall|i: int| 0 <= i < at ==> #[trigger] s[i] != ':',
    ensures
        first_colon(s) == at,
    decreases at,
{
    if at > 0 {
        assert(s[0] != ':');
        let rest = s.skip(1);
        assert forall|i: int| 0 <= i < at - 1 implies #[trigger] rest[i] != ':' by {
            assert(rest[i] == s[i + 1]);
        }
        colon_is_at(rest, at - 1);
    }
}

/// Behind an address and a colon, digits are a port if they stand for no more than 65535; without
/// digits, with anything else among them or with a larger number, the text is no peer.
pub proof fn ports_are_digits(ip: Seq<u8>, digits: Seq<char>)
    requires
        ip.len() == 4,
    ensures
        ({
            let found = ipv4_peer_of(ipv4::ipv4_text(ip) + seq![':'] + digits);
            let is_number = digits.len() > 0 && forall|i: int|
                0 <= i < digits.len() ==> '0' <= #[trigger] digits[i] <= '9';
            &&& found is Some <==> is_number && ipv4::value(digits) <= 65_535
            &&& found is Some ==> found->Some_0.0 == ip && found->Some_0.1 as int == ipv4::value(
                digits,
            )
        }),
{
    let addr = ipv4::ipv4_text(ip);
    let s = addr + seq![':'] + digits;
    let n = addr.len() as int;
    ipv4::ipv4_text_is_read_back(ip);
    ipv4::decimal_is_read_back(ip[0] as nat);
    ipv4::decimal_is_read_back(ip[1] as nat);
    ipv4::decimal_is_read_back(ip[2] as nat);
    ipv4::decimal_is_read_back(ip[3] as nat);
    let a = text::decimal(ip[0] as nat);
    let b = text::decimal(ip[1] as nat);
    let c = text::decimal(ip[2] as nat);
    let d = text::decimal(ip[3] as nat);
    assert forall|i: int| 0 <= i < n implies #[trigger] s[i] != ':' by {
        let p = a.len() as int;
        let q = p + 1 + b.len();
        let r = q + 1 + c.len();
        assert(s[i] == addr[i]);
        if i < p {
            assert(addr[i] == a[i]);
        } else if p < i < q {
            assert(addr[i] == b[i - p - 1]);
        } else if q < i < r {
            assert(addr[i] == c[i - q - 1]);
        } else if r < i {
            assert(addr[i] == d[i - r - 1]);
        } else {
            assert(addr[i] == '.');
        }
    }
    assert(s[n] == ':');
    colon_is_at(s, n);
    assert(s.take(n) =~= addr);
    assert(s.skip(n + 1) =~= digits);
    if all_digits(digits) {
        value_grows(digits, 0);
        assert forall|i: int| 0 <= i < digits.len() implies '0' <= #[trigger] digits[i] <= '9' by {
            assert(ipv4::is_digit(digits[i]));
        }
    }
}

} // verus!
