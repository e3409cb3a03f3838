//! The frame codec: address-resolution probes as they go out on the wire,
//! and what an inbound Ethernet frame tells.

use vstd::prelude::*;
use crate::error::ScanError;
use crate::host::Host;
use crate::interface::Interface;
use crate::net::{Ipv4, Mac};
use crate::traffic::{Direction, StatItem, StatKey, StatValues};

verus! {

/// The length of an Ethernet header.
pub const ETHERNET_HEADER: usize = 14;

/// The length of an address-resolution payload for IPv4 over Ethernet.
pub const ARP_PAYLOAD: usize = 28;

/// The length of an IPv4 header without options.
pub const IPV4_HEADER: usize = 20;

/// The length of a probe frame.
pub const PROBE_LENGTH: usize = 42;

/// The least length of a TCP header.
pub const TCP_HEADER: usize = 20;

/// The length of a UDP header.
pub const UDP_HEADER: usize = 8;

/// The ethertype of address resolution.
pub const ETHERTYPE_ARP: u16 = 0x0806;

/// The ethertype of IPv4.
pub const ETHERTYPE_IPV4: u16 = 0x0800;

/// The IPv4 protocol number of TCP.
pub const PROTOCOL_TCP: u8 = 6;

/// The IPv4 protocol number of UDP.
pub const PROTOCOL_UDP: u8 = 17;

/// The number that two octets write in network order.
pub open spec fn be16(hi: u8, lo: u8) -> u16 {
    (hi as u16 * 256 + lo as u16) as u16
}

/// The hardware address written at `at` in `bytes`.
pub open spec fn mac_at(bytes: Seq<u8>, at: int) -> Mac {
    Mac(bytes[at], bytes[at + 1], bytes[at + 2], bytes[at + 3], bytes[at + 4], bytes[at + 5])
}

/// The IPv4 address written at `at` in `bytes`.
pub open spec fn ipv4_at(bytes: Seq<u8>, at: int) -> Ipv4 {
    Ipv4::of_octets(bytes[at], bytes[at + 1], bytes[at + 2], bytes[at + 3])
}

/// The frame of a probe, 42 octets: an Ethernet header from `sender_mac`
/// to the broadcast address with the ethertype of address resolution,
/// then the request: hardware type Ethernet, protocol type IPv4, address
/// lengths 6 and 4, operation request, the sender's hardware and IPv4
/// address, the broadcast address as the target's hardware address, and
/// the address asked for.
pub open spec fn probe_frame(sender_mac: Mac, sender_ip: Ipv4, target_ip: Ipv4) -> Seq<u8> {
    Mac(0xff, 0xff, 0xff, 0xff, 0xff, 0xff).octets() + sender_mac.octets() + seq![0x08u8, 0x06u8]
        + seq![0x00u8, 0x01u8, 0x08u8, 0x00u8, 0x06u8, 0x04u8, 0x00u8, 0x01u8]
        + sender_mac.octets() + sender_ip.octets() + Mac(
        0xff,
        0xff,
        0xff,
        0xff,
        0xff,
        0xff,
    ).octets() + target_ip.octets()
}

fn push_mac(out: &mut Vec<u8>, mac: Mac)
    ensures
        final(out)@ == old(out)@ + mac.octets(),
{
    out.push(mac.0);
    out.push(mac.1);
    out.push(mac.2);
    out.push(mac.3);
    out.push(mac.4);
    out.push(mac.5);
    assert(out@ =~= old(out)@ + mac.octets());
}

fn push_ipv4(out: &mut Vec<u8>, ip: Ipv4)
    ensures
        final(out)@ == old(out)@ + ip.octets(),
{
    let o = ip.to_octets();
    out.push(o.0);
    out.push(o.1);
    out.push(o.2);
    out.push(o.3);
    assert(out@ =~= old(out)@ + seq![o.0, o.1, o.2, o.3]);
}

/// Builds the frame of a probe that asks who has `target_ip`.
pub fn arp_request(sender_mac: Mac, sender_ip: Ipv4, target_ip: Ipv4) -> (frame: Vec<u8>)
    ensures
        frame@ == probe_frame(sender_mac, sender_ip, target_ip),
        frame@.len() == PROBE_LENGTH,
{
    let mut out: Vec<u8> = Vec::new();
    push_mac(&mut out, Mac::broadcast());
    push_mac(&mut out, sender_mac);
    out.push(0x08);
    out.push(0x06);
    let ghost head = out@;
    assert(head =~= Mac(0xff, 0xff, 0xff, 0xff, 0xff, 0xff).octets() + sender_mac.octets()
        + seq![0x08u8, 0x06u8]);
    out.push(0x00);
    out.push(0x01);
    out.push(0x08);
    out.push(0x00);
    out.push(0x06);
    out.push(0x04);
    out.push(0x00);
    out.push(0x01);
    assert(out@ =~= head + seq![0x00u8, 0x01u8, 0x08u8, 0x00u8, 0x06u8, 0x04u8, 0x00u8, 0x01u8]);
    push_mac(&mut out, sender_mac);
    push_ipv4(&mut out, sender_ip);
    push_mac(&mut out, Mac::broadcast());
    push_ipv4(&mut out, target_ip);
    out
}

/// The probe that the interface sends for `target_ip`, or why it cannot
/// send one.
pub open spec fn probe_of(interface: &Interface, target_ip: Ipv4) -> Result<Seq<u8>, ScanError> {
    match interface.mac {
        None => Err(ScanError::InterfaceMissingMac),
        Some(mac) => match interface.source_ip() {
            None => Err(ScanError::ProbeEncodeError),
            Some(ip) => Ok(probe_frame(mac, ip, target_ip)),
        },
    }
}

/// Builds the probe that the interface sends for `target_ip`: from its
/// hardware address and its first IPv4 address. Fails with
/// `InterfaceMissingMac` for an interface without hardware address, and
/// with `ProbeEncodeError` for one without IPv4 address.
pub fn encode_probe(interface: &Interface, target_ip: Ipv4) -> (r: Result<Vec<u8>, ScanError>)
    ensures
        match r {
            Ok(frame) => probe_of(interface, target_ip) == Ok::<Seq<u8>, ScanError>(frame@),
            Err(e) => probe_of(interface, target_ip) == Err::<Seq<u8>, ScanError>(e),
        },
{
    let mac = match interface.mac {
        Some(mac) => mac,
        None => {
            return Err(ScanError::InterfaceMissingMac);
        },
    };
    match interface.find_source_ip() {
        Some(ip) => Ok(arp_request(mac, ip, target_ip)),
        None => Err(ScanError::ProbeEncodeError),
    }
}

/// The ethertype of a frame that is long enough to have one.
pub open spec fn ethertype_of(frame: Seq<u8>) -> Option<u16> {
    if frame.len() < ETHERNET_HEADER {
        None
    } else {
        Some(be16(frame[12], frame[13]))
    }
}

/// The sender that an address-resolution frame names: its hardware
/// address and its IPv4 address, read from the payload behind the Ethernet
/// header; none if the frame is too short to hold that payload.
pub open spec fn arp_sender(frame: Seq<u8>) -> Option<(Mac, Ipv4)> {
    if frame.len() < ETHERNET_HEADER + ARP_PAYLOAD {
        None
    } else {
        Some((mac_at(frame, 22), ipv4_at(frame, 28)))
    }
}

/// The record of the host that sent an address-resolution frame, seen at
/// time `now`.
pub open spec fn host_in(frame: Seq<u8>, own_mac: Option<Mac>, now: i64) -> Option<Host> {
    match arp_sender(frame) {
        None => None,
        Some((mac, ip)) => Some(
            Host {
                time: now,
                ipv4: ip,
                mac,
                hostname: None,
                is_my_device_mac: mac == match own_mac {
                    Some(m) => m,
                    None => Mac(0, 0, 0, 0, 0, 0),
                },
                speed: None,
            },
        ),
    }
}

/// The number of octets of the IPv4 payload of a frame with an IPv4
/// header: what the total-length field announces beyond the 20 octets of
/// a header without options, but no more than the frame holds behind them.
pub open spec fn ipv4_payload_len(frame: Seq<u8>) -> nat
    recommends
        frame.len() >= ETHERNET_HEADER + IPV4_HEADER,
{
    let announced = be16(frame[16], frame[17]) as int - IPV4_HEADER;
    let held = frame.len() - ETHERNET_HEADER - IPV4_HEADER;
    if announced <= 0 {
        0
    } else if announced < held {
        announced as nat
    } else {
        held as nat
    }
}

/// The traffic sample of an IPv4 frame that carries TCP or UDP: the
/// addresses from the IPv4 header, the ports from the first four octets
/// of the IPv4 payload, the direction by which of the addresses are the
/// interface's, and eight bits for each octet of the IPv4 payload. None
/// for a frame too short for an IPv4 header, for another protocol, and
/// for a payload shorter than the header of its protocol.
pub open spec fn sample_in(frame: Seq<u8>, interface: &Interface) -> Option<StatItem> {
    if frame.len() < ETHERNET_HEADER + IPV4_HEADER {
        None
    } else {
        let protocol = frame[23];
        let len = ipv4_payload_len(frame);
        if (protocol == PROTOCOL_TCP && len >= TCP_HEADER) || (protocol == PROTOCOL_UDP && len
            >= UDP_HEADER) {
            let src_ip = ipv4_at(frame, 26);
            let dst_ip = ipv4_at(frame, 30);
            Some(
                StatItem {
                    key: StatKey {
                        src_port: be16(frame[34], frame[35]),
                        dst_port: be16(frame[36], frame[37]),
                        src_ip,
                        dst_ip,
                        direction: Direction::classify(
                            interface.owns(src_ip),
                            interface.owns(dst_ip),
                        ),
                    },
                    value: StatValues { size: (8 * len) as u128 },
                },
            )
        } else {
            None
        }
    }
}

/// What an inbound frame tells.
pub enum Observation {
    /// An address-resolution frame: the host that sent it.
    Host(Host),
    /// A TCP or UDP packet over IPv4: its traffic sample.
    Sample(StatItem),
    /// A frame of another ethertype or another protocol.
    Ignored,
}

/// What an inbound frame tells, apart from the time at which it is seen:
/// the frame is malformed if it is shorter than an Ethernet header, or
/// announces address resolution or IPv4 and is too short for it.
pub open spec fn malformed(frame: Seq<u8>) -> bool {
    match ethertype_of(frame) {
        None => true,
        Some(t) => if t == ETHERTYPE_ARP {
            frame.len() < ETHERNET_HEADER + ARP_PAYLOAD
        } else if t == ETHERTYPE_IPV4 {
            if frame.len() < ETHERNET_HEADER + IPV4_HEADER {
                true
            } else {
                let len = ipv4_payload_len(frame);
                (frame[23] == PROTOCOL_TCP && len < TCP_HEADER) || (frame[23] == PROTOCOL_UDP
                    && len < UDP_HEADER)
            }
        } else {
            false
        },
    }
}

/// What a frame seen at time `now` tells.
pub open spec fn observed(frame: Seq<u8>, interface: &Interface, now: i64) -> Result<
    Observation,
    ScanError,
> {
    if malformed(frame) {
        Err(ScanError::FrameDecodeError)
    } else if ethertype_of(frame) == Some(ETHERTYPE_ARP) {
        Ok(Observation::Host(host_in(frame, interface.mac, now)->0))
    } else if ethertype_of(frame) == Some(ETHERTYPE_IPV4) {
        match sample_in(frame, interface) {
            Some(item) => Ok(Observation::Sample(item)),
            None => Ok(Observation::Ignored),
        }
    } else {
        Ok(Observation::Ignored)
    }
}

fn read_mac(frame: &[u8], at: usize) -> (mac: Mac)
    requires
        at + 6 <= frame@.len(),
    ensures
        mac == mac_at(frame@, at as int),
{
    Mac(frame[at], frame[at + 1], frame[at + 2], frame[at + 3], frame[at + 4], frame[at + 5])
}

fn read_ipv4(frame: &[u8], at: usize) -> (ip: Ipv4)
    requires
        at + 4 <= frame@.len(),
    ensures
        ip == ipv4_at(frame@, at as int),
{
    Ipv4::new(frame[at], frame[at + 1], frame[at + 2], frame[at + 3])
}

fn read_be16(frame: &[u8], at: usize) -> (v: u16)
    requires
        at + 2 <= frame@.len(),
    ensures
        v == be16(frame@[at as int], frame@[at + 1]),
{
    (frame[at] as u16) * 256 + (frame[at + 1] as u16)
}

/// The record of the host that sent the address-resolution frame in
/// `buffer`, seen at time `now`.
pub fn host_at(buffer: &[u8], interface: &Interface, now: i64) -> (r: Option<Host>)
    ensures
        r == host_in(buffer@, interface.mac, now),
{
    if buffer.len() < ETHERNET_HEADER + ARP_PAYLOAD {
        return None;
    }
    let mac = read_mac(buffer, 22);
    let ip = read_ipv4(buffer, 28);
    let own = match interface.mac {
        Some(m) => m,
        None => Mac::zero(),
    };
    Some(
        Host {
            time: now,
            ipv4: ip,
            mac,
            hostname: None,
            is_my_device_mac: mac == own,
            speed: None,
        },
    )
}

/// The traffic sample of the IPv4 frame in `frame`, if it carries TCP or UDP.
pub fn get_stats(frame: &[u8], interface: &Interface) -> (r: Option<StatItem>)
    ensures
        r == sample_in(frame@, interface),
{
    if frame.len() < ETHERNET_HEADER + IPV4_HEADER {
        return None;
    }
    let protocol = frame[23];
    let total = read_be16(frame, 16) as usize;
    let held = frame.len() - ETHERNET_HEADER - IPV4_HEADER;
    let len = if total <= IPV4_HEADER {
        0
    } else if total - IPV4_HEADER < held {
        total - IPV4_HEADER
    } else {
        held
    };
    assert(len == ipv4_payload_len(frame@));
    if (protocol == PROTOCOL_TCP && len >= TCP_HEADER) || (protocol == PROTOCOL_UDP && len
        >= UDP_HEADER) {
        let src_ip = read_ipv4(frame, 26);
        let dst_ip = read_ipv4(frame, 30);
        let direction = Direction::of(interface.has_address(src_ip), interface.has_address(dst_ip));
        Some(
            StatItem {
                key: StatKey {
                    src_port: read_be16(frame, 34),
                    dst_port: read_be16(frame, 36),
                    src_ip,
                    dst_ip,
                    direction,
                },
                value: StatValues { size: 8 * (len as u128) },
            },
        )
    } else {
        None
    }
}

/// What the frame in `frame`, seen at time `now`, tells: the host that
/// sent an address-resolution frame, the sample of a TCP or UDP packet,
/// nothing for other traffic, and `FrameDecodeError` for a frame too short
/// for its headers.
pub fn observe_at(frame: &[u8], interface: &Interface, now: i64) -> (r: Result<
    Observation,
    ScanError,
>)
    ensures
        r == observed(frame@, interface, now),
{
    if frame.len() < ETHERNET_HEADER {
        return Err(ScanError::FrameDecodeError);
    }
    let ethertype = read_be16(frame, 12);
    if ethertype == ETHERTYPE_ARP {
        match host_at(frame, interface, now) {
            Some(host) => Ok(Observation::Host(host)),
            None => Err(ScanError::FrameDecodeError),
        }
    } else if ethertype == ETHERTYPE_IPV4 {
        match get_stats(frame, interface) {
            Some(item) => Ok(Observation::Sample(item)),
            None => {
                if malformed_ipv4(frame) {
                    Err(ScanError::FrameDecodeError)
                } else {
                    Ok(Observation::Ignored)
                }
            },
        }
    } else {
        Ok(Observation::Ignored)
    }
}

/// Whether a frame that announces IPv4 is too short for its headers.
fn malformed_ipv4(frame: &[u8]) -> (b: bool)
    requires
        ethertype_of(frame@) == Some(ETHERTYPE_IPV4),
    ensures
        b == malformed(frame@),
{
    if frame.len() < ETHERNET_HEADER + IPV4_HEADER {
        return true;
    }
    let protocol = frame[23];
    let total = read_be16(frame, 16) as usize;
    let held = frame.len() - ETHERNET_HEADER - IPV4_HEADER;
    let len = if total <= IPV4_HEADER {
        0
    } else if total - IPV4_HEADER < held {
        total - IPV4_HEADER
    } else {
        held
    };
    assert(len == ipv4_payload_len(frame@));
    (protocol == PROTOCOL_TCP && len < TCP_HEADER) || (protocol == PROTOCOL_UDP && len
        < UDP_HEADER)
}

/// A probe that comes back in tells of its sender: decoding the frame of
/// a probe gives a host with the IPv4 address and the hardware address
/// that the probe was sent from.
pub proof fn lemma_probe_round_trip(
    sender_mac: Mac,
    sender_ip: Ipv4,
    target_ip: Ipv4,
    interface: &Interface,
    now: i64,
)
    ensures
        observed(probe_frame(sender_mac, sender_ip, target_ip), interface, now) matches Ok(
            Observation::Host(host),
        ) && host.ipv4 == sender_ip && host.mac == sender_mac && host.time == now,
        arp_sender(probe_frame(sender_mac, sender_ip, target_ip)) == Some((sender_mac, sender_ip)),
{
    let frame = probe_frame(sender_mac, sender_ip, target_ip);
    assert(frame.len() == 42);
    assert(frame[12] == 0x08u8 && frame[13] == 0x06u8);
    assert(be16(frame[12], frame[13]) == ETHERTYPE_ARP);
    assert(mac_at(frame, 22) == sender_mac);
    sender_ip.lemma_octets();
    assert(frame[28] == sender_ip.octets()[0]);
    assert(frame[29] == sender_ip.octets()[1]);
    assert(frame[30] == sender_ip.octets()[2]);
    assert(frame[31] == sender_ip.octets()[3]);
    assert(ipv4_at(frame, 28) == sender_ip);
}

} // verus!
