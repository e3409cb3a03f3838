use lanscan::error::ScanError;
use lanscan::frame::{arp_request, get_stats, host_at, observe_at, encode_probe, Observation};
use lanscan::interface::Interface;
use lanscan::net::{IpNetwork, Ipv4, Ipv4Network, Mac};
use lanscan::traffic::Direction;

fn interface(mac: Option<Mac>, ips: Vec<IpNetwork>) -> Interface {
    Interface { name: String::from("eth0"), mac, ips, up: true, running: true, loopback: false }
}

fn v4(a: u8, b: u8, c: u8, d: u8, prefix: u8) -> IpNetwork {
    IpNetwork::V4(Ipv4Network { addr: Ipv4::new(a, b, c, d), prefix })
}

/// An Ethernet frame with an IPv4 header without options and `payload` behind it.
fn ipv4_frame(protocol: u8, src: [u8; 4], dst: [u8; 4], total_length: u16, payload: &[u8]) -> Vec<u8> {
    let mut f = vec![0u8; 12];
    f.extend_from_slice(&[0x08, 0x00]);
    let mut ip = vec![0x45u8, 0];
    ip.extend_from_slice(&total_length.to_be_bytes());
    ip.extend_from_slice(&[0, 0, 0, 0, 64, protocol, 0, 0]);
    ip.extend_from_slice(&src);
    ip.extend_from_slice(&dst);
    f.extend_from_slice(&ip);
    f.extend_from_slice(payload);
    f
}

#[test]
fn probe_layout_is_bit_exact() {
    let frame = arp_request(
        Mac(0xaa, 0xbb, 0xcc, 0xdd, 0xee, 0xff),
        Ipv4::new(192, 168, 1, 10),
        Ipv4::new(192, 168, 1, 77),
    );
    let expected: Vec<u8> = vec![
        0xff, 0xff, 0xff, 0xff, 0xff, 0xff, // destination: broadcast
        0xaa, 0xbb, 0xcc, 0xdd, 0xee, 0xff, // source
        0x08, 0x06, // ethertype: address resolution
        0x00, 0x01, // hardware type: Ethernet
        0x08, 0x00, // protocol type: IPv4
        0x06, 0x04, // address lengths
        0x00, 0x01, // operation: request
        0xaa, 0xbb, 0xcc, 0xdd, 0xee, 0xff, // sender hardware address
        192, 168, 1, 10, // sender protocol address
        0xff, 0xff, 0xff, 0xff, 0xff, 0xff, // target hardware address
        192, 168, 1, 77, // target protocol address
    ];
    assert_eq!(frame.len(), 42);
    assert_eq!(frame, expected);
}

#[test]
fn probe_needs_hardware_address_and_ipv4_address() {
    let target = Ipv4::new(10, 0, 0, 9);
    let no_mac = interface(None, vec![v4(10, 0, 0, 2, 24)]);
    assert_eq!(encode_probe(&no_mac, target), Err(ScanError::InterfaceMissingMac));
    let no_ip = interface(Some(Mac(1, 2, 3, 4, 5, 6)), vec![IpNetwork::Other]);
    assert_eq!(encode_probe(&no_ip, target), Err(ScanError::ProbeEncodeError));
    let good = interface(Some(Mac(1, 2, 3, 4, 5, 6)), vec![IpNetwork::Other, v4(10, 0, 0, 2, 24), v4(172, 16, 0, 1, 16)]);
    let frame = encode_probe(&good, target).unwrap();
    assert_eq!(frame, arp_request(Mac(1, 2, 3, 4, 5, 6), Ipv4::new(10, 0, 0, 2), target));
}

#[test]
fn probe_round_trip() {
    let mac = Mac(0x02, 0x42, 0xac, 0x11, 0x00, 0x02);
    let ip = Ipv4::new(172, 17, 0, 2);
    let frame = arp_request(mac, ip, Ipv4::new(172, 17, 0, 200));
    let nif = interface(Some(mac), vec![v4(172, 17, 0, 2, 16)]);
    match observe_at(&frame, &nif, 1234) {
        Ok(Observation::Host(host)) => {
            assert_eq!(host.ipv4, ip);
            assert_eq!(host.mac, mac);
            assert_eq!(host.time, 1234);
            assert!(host.is_my_device_mac);
            assert!(host.hostname.is_none());
            assert!(host.speed.is_none());
        }
        _ => panic!("a probe decodes to a host"),
    }
    let other = interface(Some(Mac(9, 9, 9, 9, 9, 9)), vec![]);
    let host = host_at(&frame, &other, 5).unwrap();
    assert!(!host.is_my_device_mac);
    let nameless = interface(None, vec![]);
    let zero = arp_request(Mac(0, 0, 0, 0, 0, 0), ip, ip);
    assert!(host_at(&zero, &nameless, 5).unwrap().is_my_device_mac);
}

#[test]
fn tcp_sample_takes_ports_direction_and_payload_bits() {
    let nif = interface(Some(Mac(1, 2, 3, 4, 5, 6)), vec![v4(10, 0, 0, 2, 24)]);
    let mut tcp = vec![0x0f, 0xa0, 0x01, 0xbb]; // ports 4000 and 443
    tcp.extend_from_slice(&[0u8; 16]);
    tcp.extend_from_slice(&[7u8; 980]);
    let frame = ipv4_frame(6, [10, 0, 0, 2], [8, 8, 8, 8], 20 + 1000, &tcp);
    let item = get_stats(&frame, &nif).unwrap();
    assert_eq!(item.key.src_ip, Ipv4::new(10, 0, 0, 2));
    assert_eq!(item.key.dst_ip, Ipv4::new(8, 8, 8, 8));
    assert_eq!(item.key.src_port, 4000);
    assert_eq!(item.key.dst_port, 443);
    assert_eq!(item.key.direction, Direction::Outgoing);
    assert_eq!(item.value.size, 8000);
}

#[test]
fn direction_follows_the_addresses_of_the_interface() {
    let nif = interface(None, vec![v4(10, 0, 0, 2, 24), IpNetwork::Other, v4(10, 0, 0, 3, 24)]);
    let udp = [0u8, 53, 0xc0, 0x00, 0, 8, 0, 0];
    let dir = |src: [u8; 4], dst: [u8; 4]| {
        get_stats(&ipv4_frame(17, src, dst, 28, &udp), &nif).unwrap().key.direction
    };
    assert_eq!(dir([10, 0, 0, 2], [10, 0, 0, 3]), Direction::Local);
    assert_eq!(dir([10, 0, 0, 3], [1, 1, 1, 1]), Direction::Outgoing);
    assert_eq!(dir([1, 1, 1, 1], [10, 0, 0, 2]), Direction::Incoming);
    // An address of the same network that is not bound to the interface is a stranger.
    assert_eq!(dir([10, 0, 0, 4], [10, 0, 0, 5]), Direction::Neither);
    assert_eq!(Direction::of(true, true), Direction::Local);
    assert_eq!(Direction::of(true, false), Direction::Outgoing);
    assert_eq!(Direction::of(false, true), Direction::Incoming);
    assert_eq!(Direction::of(false, false), Direction::Neither);
}

#[test]
fn udp_sample_counts_the_whole_ipv4_payload() {
    let nif = interface(None, vec![v4(10, 0, 0, 2, 24)]);
    let mut udp = vec![0x00, 0x35, 0xc3, 0x50, 0, 0, 0, 0];
    udp.extend_from_slice(&[1u8; 92]);
    let frame = ipv4_frame(17, [8, 8, 8, 8], [10, 0, 0, 2], 120, &udp);
    let item = get_stats(&frame, &nif).unwrap();
    assert_eq!(item.key.src_port, 53);
    assert_eq!(item.key.dst_port, 50000);
    assert_eq!(item.key.direction, Direction::Incoming);
    assert_eq!(item.value.size, 800);
}

#[test]
fn payload_is_what_the_header_announces_within_the_frame() {
    let nif = interface(None, vec![]);
    let body = [0u8; 40];
    // Padding behind the announced length is not counted.
    let padded = ipv4_frame(17, [1, 1, 1, 1], [2, 2, 2, 2], 20 + 12, &body);
    assert_eq!(get_stats(&padded, &nif).unwrap().value.size, 96);
    // A frame that was cut short counts what it holds.
    let cut = ipv4_frame(17, [1, 1, 1, 1], [2, 2, 2, 2], 1500, &body);
    assert_eq!(get_stats(&cut, &nif).unwrap().value.size, 320);
}

#[test]
fn other_traffic_is_ignored() {
    let nif = interface(None, vec![]);
    let icmp = ipv4_frame(1, [1, 1, 1, 1], [2, 2, 2, 2], 28, &[0u8; 8]);
    assert!(get_stats(&icmp, &nif).is_none());
    assert!(matches!(observe_at(&icmp, &nif, 0), Ok(Observation::Ignored)));
    let mut ipv6 = vec![0u8; 60];
    ipv6[12] = 0x86;
    ipv6[13] = 0xdd;
    assert!(matches!(observe_at(&ipv6, &nif, 0), Ok(Observation::Ignored)));
}

#[test]
fn malformed_frames_are_decode_errors() {
    let nif = interface(None, vec![]);
    let err = |frame: &[u8]| matches!(observe_at(frame, &nif, 0), Err(ScanError::FrameDecodeError));
    assert!(err(&[]));
    assert!(err(&[0u8; 13]));
    let mut arp = vec![0u8; 41];
    arp[12] = 0x08;
    arp[13] = 0x06;
    assert!(err(&arp));
    assert!(host_at(&arp, &nif, 0).is_none());
    arp.push(0);
    assert!(!err(&arp));
    let mut short_ip = vec![0u8; 33];
    short_ip[12] = 0x08;
    short_ip[13] = 0x00;
    assert!(err(&short_ip));
    let short_tcp = ipv4_frame(6, [1, 1, 1, 1], [2, 2, 2, 2], 39, &[0u8; 19]);
    assert!(err(&short_tcp));
    assert!(get_stats(&short_tcp, &nif).is_none());
    let short_udp = ipv4_frame(17, [1, 1, 1, 1], [2, 2, 2, 2], 27, &[0u8; 7]);
    assert!(err(&short_udp));
    let announced_short = ipv4_frame(17, [1, 1, 1, 1], [2, 2, 2, 2], 20, &[0u8; 64]);
    assert!(err(&announced_short));
    let full_tcp = ipv4_frame(6, [1, 1, 1, 1], [2, 2, 2, 2], 40, &[0u8; 20]);
    assert!(matches!(observe_at(&full_tcp, &nif, 0), Ok(Observation::Sample(_))));
}

#[test]
fn ports_are_the_first_octets_behind_twenty_octets_of_header() {
    let nif = interface(None, vec![]);
    let mut body = vec![0x12, 0x34, 0x56, 0x78];
    body.extend_from_slice(&[0u8; 20]);
    let mut frame = ipv4_frame(17, [1, 1, 1, 1], [2, 2, 2, 2], 20 + 24, &body);
    // A header that announces options changes nothing.
    frame[14] = 0x46;
    let item = get_stats(&frame, &nif).unwrap();
    assert_eq!(item.key.src_port, 0x1234);
    assert_eq!(item.key.dst_port, 0x5678);
    assert_eq!(item.value.size, 8 * 24);
}
