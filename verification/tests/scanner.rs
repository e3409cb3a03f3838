use lanscan::error::ScanError;
use lanscan::event::ScannerEvent;
use lanscan::frame::{arp_request, Observation};
use lanscan::host::Host;
use lanscan::interface::{find_interface, find_interface_or_get_default, Interface};
use lanscan::net::{IpNetwork, Ipv4, Ipv4Network, Mac};
use lanscan::scanner::{
    capture, drain, get_host_infos, observe, ready_to_scan, ScanCursor, ScanStep, PROBE_DELAY_MS,
};
use lanscan::tally::StatsMap;
use lanscan::traffic::{Direction, StatItem, StatKey, StatValues};

fn nif(name: &str, up: bool, running: bool, loopback: bool) -> Interface {
    Interface { name: String::from(name), mac: None, ips: vec![], up, running, loopback }
}

fn v4(a: u8, b: u8, c: u8, d: u8, prefix: u8) -> IpNetwork {
    IpNetwork::V4(Ipv4Network { addr: Ipv4::new(a, b, c, d), prefix })
}

fn item(bits: u128) -> StatItem {
    StatItem {
        key: StatKey {
            src_port: 1,
            dst_port: 2,
            src_ip: Ipv4::new(10, 0, 0, 2),
            dst_ip: Ipv4::new(8, 8, 8, 8),
            direction: Direction::Outgoing,
        },
        value: StatValues { size: bits },
    }
}

#[test]
fn interface_is_searched_from_the_back() {
    let all = vec![
        nif("lo", true, true, true),
        nif("eth0", true, true, false),
        nif("wlan0", true, true, false),
        nif("eth1", true, true, false),
        nif("eth2", false, true, false),
        nif("eth3", true, false, false),
    ];
    assert_eq!(find_interface(&all, "eth"), Ok(3));
    assert_eq!(find_interface(&all, "eth0"), Ok(1));
    assert_eq!(find_interface(&all, "wlan"), Ok(2));
    assert_eq!(find_interface(&all, "lo"), Err(ScanError::InterfaceUnavailable));
    assert_eq!(find_interface(&all, "tun"), Err(ScanError::InterfaceUnavailable));
    assert_eq!(find_interface(&all, ""), Ok(3));
}

#[test]
fn interface_name_matches_without_regard_to_case() {
    let all = vec![nif("Ethernet 2", true, true, false), nif("Wi-Fi", true, true, false)];
    assert_eq!(find_interface(&all, "ethernet"), Ok(0));
    assert_eq!(find_interface(&all, "ETHER"), Ok(0));
    assert_eq!(find_interface(&all, "wi-fi"), Ok(1));
    assert_eq!(find_interface(&all, "WI-FI"), Ok(1));
    assert_eq!(find_interface(&all, "fi-wi"), Err(ScanError::InterfaceUnavailable));
}

#[test]
fn interface_falls_back_to_the_last_usable() {
    let all = vec![
        nif("eth0", true, true, false),
        nif("wlan0", true, true, false),
        nif("lo", true, true, true),
    ];
    assert_eq!(find_interface_or_get_default(&all, "wlan"), Ok(1));
    assert_eq!(find_interface_or_get_default(&all, "eth"), Ok(0));
    assert_eq!(find_interface_or_get_default(&all, "nothing"), Ok(1));
    let none = vec![nif("lo", true, true, true), nif("eth0", false, false, false)];
    assert_eq!(find_interface_or_get_default(&none, "eth"), Err(ScanError::InterfaceUnavailable));
    assert_eq!(find_interface_or_get_default(&vec![], "eth"), Err(ScanError::InterfaceUnavailable));
}

#[test]
fn scan_lifecycle() {
    let mac = Mac(2, 0, 0, 0, 0, 1);
    let interface = Interface {
        name: String::from("eth0"),
        mac: Some(mac),
        ips: vec![v4(192, 168, 1, 1, 30)],
        up: true,
        running: true,
        loopback: false,
    };
    let mut cursor = ScanCursor::new();
    assert!(matches!(cursor.next(&interface), ScanStep::Begin));
    for last in 0..4u8 {
        match cursor.next(&interface) {
            ScanStep::Probe { delay_ms, target, probe } => {
                assert_eq!(delay_ms, 37);
                assert_eq!(delay_ms, PROBE_DELAY_MS);
                assert_eq!(target, Ipv4::new(192, 168, 1, last));
                assert_eq!(probe, Ok(arp_request(mac, Ipv4::new(192, 168, 1, 1), target)));
            }
            _ => panic!("a probe is due"),
        }
    }
    assert!(matches!(cursor.next(&interface), ScanStep::Complete));
    assert!(matches!(cursor.next(&interface), ScanStep::Done));
    assert!(matches!(cursor.next(&interface), ScanStep::Done));
}

#[test]
fn scan_goes_through_every_ipv4_network() {
    let interface = Interface {
        name: String::from("eth0"),
        mac: Some(Mac(2, 0, 0, 0, 0, 1)),
        ips: vec![IpNetwork::Other, v4(10, 1, 2, 3, 31), IpNetwork::Other, v4(172, 16, 5, 9, 32), v4(10, 9, 9, 130, 30)],
        up: true,
        running: true,
        loopback: false,
    };
    let mut cursor = ScanCursor::new();
    let mut targets = Vec::new();
    let mut steps = 0;
    loop {
        steps += 1;
        match cursor.next(&interface) {
            ScanStep::Begin => assert_eq!(steps, 1),
            ScanStep::Probe { target, .. } => targets.push(target),
            ScanStep::Complete => break,
            ScanStep::Done => panic!("the scan ends with its completion"),
        }
    }
    assert_eq!(
        targets,
        vec![
            Ipv4::new(10, 1, 2, 2),
            Ipv4::new(10, 1, 2, 3),
            Ipv4::new(172, 16, 5, 9),
            Ipv4::new(10, 9, 9, 128),
            Ipv4::new(10, 9, 9, 129),
            Ipv4::new(10, 9, 9, 130),
            Ipv4::new(10, 9, 9, 131),
        ]
    );
}

#[test]
fn scan_without_hardware_address_goes_on() {
    let interface = Interface {
        name: String::from("eth0"),
        mac: None,
        ips: vec![v4(10, 0, 0, 1, 31)],
        up: true,
        running: true,
        loopback: false,
    };
    let mut cursor = ScanCursor::new();
    assert!(matches!(cursor.next(&interface), ScanStep::Begin));
    for _ in 0..2 {
        assert!(matches!(
            cursor.next(&interface),
            ScanStep::Probe { probe: Err(ScanError::InterfaceMissingMac), .. }
        ));
    }
    assert!(matches!(cursor.next(&interface), ScanStep::Complete));
}

#[test]
fn scan_of_an_interface_without_ipv4_network_is_empty() {
    let interface = nif("eth0", true, true, false);
    let mut cursor = ScanCursor::new();
    assert!(matches!(cursor.next(&interface), ScanStep::Begin));
    assert!(matches!(cursor.next(&interface), ScanStep::Complete));
    assert!(matches!(cursor.next(&interface), ScanStep::Done));
}

#[test]
fn scan_of_a_whole_network_of_256_addresses() {
    let interface = Interface {
        name: String::from("eth0"),
        mac: Some(Mac(2, 0, 0, 0, 0, 1)),
        ips: vec![v4(192, 168, 7, 200, 24)],
        up: true,
        running: true,
        loopback: false,
    };
    let mut cursor = ScanCursor::new();
    assert!(matches!(cursor.next(&interface), ScanStep::Begin));
    for last in 0..=255u8 {
        match cursor.next(&interface) {
            ScanStep::Probe { target, .. } => assert_eq!(target, Ipv4::new(192, 168, 7, last)),
            _ => panic!("a probe is due"),
        }
    }
    assert!(matches!(cursor.next(&interface), ScanStep::Complete));
}

#[test]
fn capture_announces_hosts_and_folds_samples() {
    let mut acc = StatsMap::new();
    let host = Host {
        time: 1,
        ipv4: Ipv4::new(192, 168, 1, 5),
        mac: Mac(0xaa, 0xbb, 0xcc, 0xdd, 0xee, 0xff),
        hostname: None,
        is_my_device_mac: false,
        speed: None,
    };
    match capture(Ok(Observation::Host(host.clone())), &mut acc) {
        Some(ScannerEvent::HostFound(h)) => {
            assert!(h == host);
            assert_eq!(h.time, 1);
        }
        _ => panic!("a host is announced"),
    }
    assert!(acc.is_empty());
    assert!(capture(Ok(Observation::Sample(item(8000))), &mut acc).is_none());
    assert_eq!(acc.get(&item(0).key), Some(8000));
    assert!(capture(Ok(Observation::Sample(item(500))), &mut acc).is_none());
    assert_eq!(acc.get(&item(0).key), Some(8500));
    assert_eq!(acc.total_bits(), 8500);
    assert!(capture(Ok(Observation::Ignored), &mut acc).is_none());
    assert!(capture(Err(ScanError::FrameDecodeError), &mut acc).is_none());
    assert_eq!(acc.total_bits(), 8500);
    assert_eq!(acc.items().len(), 1);
}

#[test]
fn record_refuses_what_does_not_fit() {
    let mut acc = StatsMap::new();
    assert!(acc.record(item(u128::MAX - 10)));
    assert!(!acc.record(item(11)));
    assert_eq!(acc.total_bits(), u128::MAX - 10);
    assert!(acc.record(item(10)));
    assert_eq!(acc.get(&item(0).key), Some(u128::MAX));
    let mut other = item(1);
    other.key.src_port = 9;
    assert!(!acc.record(other));
    assert_eq!(acc.get(&other.key), None);
}

#[test]
fn drain_moves_the_second_out() {
    let mut acc = StatsMap::new();
    assert!(acc.record(item(100)));
    assert!(acc.record(item(23)));
    match drain(&mut acc) {
        ScannerEvent::StatTick(m) => {
            assert_eq!(m.get(&item(0).key), Some(123));
            assert_eq!(m.total_bits(), 123);
        }
        _ => panic!("a statistics tick is due"),
    }
    assert!(acc.is_empty());
    assert_eq!(acc.total_bits(), 0);
    match drain(&mut acc) {
        ScannerEvent::StatTick(m) => assert!(m.is_empty()),
        _ => panic!("a statistics tick is due"),
    }
}

#[test]
fn observed_hosts_carry_the_time_of_day() {
    let mac = Mac(2, 0, 0, 0, 0, 7);
    let ip = Ipv4::new(10, 0, 0, 7);
    let frame = arp_request(mac, ip, Ipv4::new(10, 0, 0, 8));
    let interface = nif("eth0", true, true, false);
    let host = get_host_infos(&frame, &interface).unwrap();
    assert_eq!(host.ipv4, ip);
    assert_eq!(host.mac, mac);
    // Some time after the year 2020.
    assert!(host.time > 1_577_836_800_000);
    assert!(get_host_infos(&frame[..41], &interface).is_none());
    assert!(matches!(observe(&frame, &interface), Ok(Observation::Host(_))));
    assert!(matches!(observe(&frame[..10], &interface), Err(ScanError::FrameDecodeError)));
}

#[test]
fn no_scan_without_hardware_address() {
    let mut interface = nif("eth0", true, true, false);
    assert_eq!(ready_to_scan(&interface), Err(ScanError::InterfaceMissingMac));
    interface.mac = Some(Mac(2, 0, 0, 0, 0, 1));
    assert_eq!(ready_to_scan(&interface), Ok(()));
    // With a hardware address every probe of a scan can be built.
    interface.ips = vec![IpNetwork::Other, v4(10, 0, 0, 9, 30)];
    let mut cursor = ScanCursor::new();
    assert!(matches!(cursor.next(&interface), ScanStep::Begin));
    for _ in 0..4 {
        assert!(matches!(cursor.next(&interface), ScanStep::Probe { probe: Ok(_), .. }));
    }
    assert!(matches!(cursor.next(&interface), ScanStep::Complete));
}
