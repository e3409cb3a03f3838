use lanscan::app::{App, KeyCode, KeyPress};
use lanscan::event::{ScannerEvent, ScannerInputEvent};
use lanscan::host::{assign_speeds, clean_host_and_olders, find_host, note_host, Host};
use lanscan::hosts_table::{constraint_len_calculator, host_row, mac_string, seen_string};
use lanscan::net::{Ipv4, Mac};
use lanscan::speed::Speed;
use lanscan::tally::{SpeedMap, StatsMap};
use lanscan::traffic::{Direction, StatItem, StatKey, StatValues};

fn host(last: u8, time: i64) -> Host {
    Host {
        time,
        ipv4: Ipv4::new(192, 168, 1, last),
        mac: Mac(0xaa, 0xbb, 0xcc, 0xdd, 0xee, last),
        hostname: None,
        is_my_device_mac: false,
        speed: None,
    }
}

fn key(c: char) -> KeyPress {
    KeyPress { code: KeyCode::Char(c), control: false }
}

#[test]
fn host_dedup() {
    let first = Host {
        time: 1000,
        ipv4: Ipv4::new(192, 168, 1, 5),
        mac: Mac(0xaa, 0xbb, 0xcc, 0xdd, 0xee, 0xff),
        hostname: None,
        is_my_device_mac: false,
        speed: None,
    };
    let mut app = App::new();
    app.handle_worker_events(ScannerEvent::HostFound(first.clone()));
    assert_eq!(app.hosts.len(), 1);
    // The speed of the host has been estimated in the meantime.
    app.hosts[0].speed = Some(Speed { input: 100, output: 0 });
    let mut second = first.clone();
    second.time = 2000;
    second.is_my_device_mac = true;
    app.handle_worker_events(ScannerEvent::HostFound(second));
    assert_eq!(app.hosts.len(), 1);
    assert_eq!(app.hosts[0].time, 2000);
    assert!(app.hosts[0].is_my_device_mac);
    assert_eq!(app.hosts[0].speed, Some(Speed { input: 100, output: 0 }));
}

#[test]
fn hosts_differ_by_address_or_hardware_address() {
    let mut hosts = Vec::new();
    assert!(note_host(&mut hosts, host(1, 10)));
    assert!(note_host(&mut hosts, host(2, 20)));
    let mut same_ip_other_mac = host(1, 30);
    same_ip_other_mac.mac = Mac(1, 1, 1, 1, 1, 1);
    assert!(note_host(&mut hosts, same_ip_other_mac.clone()));
    assert_eq!(hosts.len(), 3);
    assert!(!note_host(&mut hosts, host(2, 40)));
    assert_eq!(hosts.len(), 3);
    assert_eq!(hosts[1].time, 40);
    assert_eq!(find_host(&hosts, &host(2, 0)), Some(1));
    assert_eq!(find_host(&hosts, &same_ip_other_mac), Some(2));
    assert_eq!(find_host(&hosts, &host(3, 0)), None);
    assert!(host(2, 1) == host(2, 99));
    assert!(host(2, 1) != host(3, 1));
}

#[test]
fn speeds_go_to_the_hosts_by_address() {
    let mut hosts = vec![host(1, 1), host(2, 2), host(3, 3)];
    hosts[2].speed = Some(Speed { input: 7, output: 7 });
    let mut speeds: SpeedMap<Ipv4> = SpeedMap::new();
    speeds.add(Ipv4::new(192, 168, 1, 2), Speed { input: 10, output: 20 });
    speeds.add(Ipv4::new(192, 168, 1, 9), Speed { input: 1, output: 1 });
    assign_speeds(&mut hosts, &speeds);
    assert_eq!(hosts[0].speed, None);
    assert_eq!(hosts[1].speed, Some(Speed { input: 10, output: 20 }));
    assert_eq!(hosts[2].speed, Some(Speed { input: 7, output: 7 }));
}

#[test]
fn cleaning_removes_the_selected_host_and_older_ones() {
    let mut hosts = vec![host(1, 50), host(2, 10), host(3, 30), host(4, 30), host(5, 40)];
    assert!(!clean_host_and_olders(&mut hosts, None));
    assert!(!clean_host_and_olders(&mut hosts, Some(5)));
    assert_eq!(hosts.len(), 5);
    assert!(clean_host_and_olders(&mut hosts, Some(2)));
    let left: Vec<i64> = hosts.iter().map(|h| h.time).collect();
    assert_eq!(left, vec![50, 40]);
    assert_eq!(hosts[1].ipv4, Ipv4::new(192, 168, 1, 5));
}

#[test]
fn scan_marks_follow_the_events() {
    let mut app = App::new();
    assert!(app.running);
    assert!(!app.sending_arps);
    app.handle_worker_events(ScannerEvent::InterfaceName(String::from("eth0")));
    assert_eq!(app.interface, "eth0");
    assert_eq!(app.handle_key_events(key('s')), Some(ScannerInputEvent::StartScanning));
    app.handle_worker_events(ScannerEvent::BeginScan);
    assert!(app.sending_arps);
    // No second scan is asked for while one is under way.
    assert_eq!(app.handle_key_events(key('s')), None);
    app.handle_worker_events(ScannerEvent::Complete);
    assert!(!app.sending_arps);
    assert_eq!(app.handle_key_events(key('s')), Some(ScannerInputEvent::StartScanning));
    app.tick();
    assert!(app.running);
}

#[test]
fn statistics_tick_gives_hosts_their_speed() {
    let mut app = App::new();
    let mut remote = host(1, 1);
    remote.ipv4 = Ipv4::new(8, 8, 8, 8);
    app.handle_worker_events(ScannerEvent::HostFound(remote));
    app.handle_worker_events(ScannerEvent::HostFound(host(2, 2)));
    let mut second = StatsMap::new();
    assert!(second.record(StatItem {
        key: StatKey {
            src_port: 4000,
            dst_port: 443,
            src_ip: Ipv4::new(10, 0, 0, 2),
            dst_ip: Ipv4::new(8, 8, 8, 8),
            direction: Direction::Outgoing,
        },
        value: StatValues { size: 8000 },
    }));
    app.handle_worker_events(ScannerEvent::StatTick(second));
    assert_eq!(app.hosts[0].speed, Some(Speed { input: 0, output: 8000 }));
    assert_eq!(app.hosts[1].speed, None);
    assert_eq!(app.stats_aggregator.len(), 1);
    // A silent second halves the total but leaves the host's average as it is.
    app.handle_worker_events(ScannerEvent::StatTick(StatsMap::new()));
    assert_eq!(app.hosts[0].speed, Some(Speed { input: 0, output: 8000 }));
    assert_eq!(app.stats_aggregator.speed_str(), "\u{2193} 0.00 Bit/s | \u{2191} 3.91 Kib/s");
}

#[test]
fn rows_are_selected_in_a_circle_through_none() {
    let mut app = App::new();
    for last in 1..=3 {
        app.handle_worker_events(ScannerEvent::HostFound(host(last, 1)));
    }
    assert_eq!(app.scroll_content_length, 8);
    assert_eq!(app.selected_row, None);
    app.next_row();
    assert_eq!((app.selected_row, app.scroll_position), (Some(0), 0));
    app.next_row();
    assert_eq!((app.selected_row, app.scroll_position), (Some(1), 4));
    app.next_row();
    assert_eq!((app.selected_row, app.scroll_position), (Some(2), 8));
    app.next_row();
    assert_eq!((app.selected_row, app.scroll_position), (None, 8));
    app.previous_row();
    assert_eq!((app.selected_row, app.scroll_position), (Some(2), 8));
    app.previous_row();
    app.previous_row();
    assert_eq!((app.selected_row, app.scroll_position), (Some(0), 0));
    app.previous_row();
    assert_eq!((app.selected_row, app.scroll_position), (None, 0));
    let mut empty = App::new();
    empty.previous_row();
    assert_eq!(empty.selected_row, Some(0));
    empty.next_row();
    assert_eq!(empty.selected_row, None);
}

#[test]
fn columns_are_selected_from_first_to_third() {
    let mut app = App::new();
    app.next_column();
    assert_eq!(app.selected_column, Some(0));
    app.next_column();
    app.next_column();
    assert_eq!(app.selected_column, Some(2));
    app.next_column();
    assert_eq!(app.selected_column, None);
    app.previous_column();
    assert_eq!(app.selected_column, Some(usize::MAX));
    app.next_column();
    assert_eq!(app.selected_column, Some(usize::MAX));
    app.selected_column = Some(1);
    app.previous_column();
    assert_eq!(app.selected_column, Some(0));
    app.previous_column();
    assert_eq!(app.selected_column, None);
}

#[test]
fn keys_move_clean_and_quit() {
    let mut app = App::new();
    for (last, time) in [(1u8, 30i64), (2, 10), (3, 20)] {
        app.handle_worker_events(ScannerEvent::HostFound(host(last, time)));
    }
    assert_eq!(app.handle_key_events(key('j')), None);
    assert_eq!(app.selected_row, Some(0));
    app.handle_key_events(key('j'));
    app.handle_key_events(key('j'));
    assert_eq!(app.selected_row, Some(2));
    app.handle_key_events(key('k'));
    assert_eq!(app.selected_row, Some(1));
    app.handle_key_events(key('l'));
    assert_eq!(app.selected_column, Some(0));
    app.handle_key_events(key('h'));
    assert_eq!(app.selected_column, None);
    app.handle_key_events(key('j'));
    // Row 2 was seen at time 20: it and the host seen at time 10 leave.
    app.handle_key_events(key('C'));
    assert_eq!(app.hosts.len(), 1);
    assert_eq!(app.hosts[0].time, 30);
    assert!(app.running);
    app.handle_key_events(KeyPress { code: KeyCode::Other, control: false });
    assert!(app.running);
    app.handle_key_events(KeyPress { code: KeyCode::Char('c'), control: true });
    assert!(!app.running);
    let mut by_q = App::new();
    by_q.handle_key_events(key('q'));
    assert!(!by_q.running);
    let mut by_esc = App::new();
    by_esc.handle_key_events(KeyPress { code: KeyCode::Esc, control: false });
    assert!(!by_esc.running);
    let mut by_command = App::new();
    by_command.quit();
    assert!(!by_command.running);
}

#[test]
fn hardware_addresses_read_in_hexadecimal() {
    assert_eq!(mac_string(Mac(0xaa, 0xbb, 0xcc, 0xdd, 0xee, 0xff)), "aa:bb:cc:dd:ee:ff");
    assert_eq!(mac_string(Mac(0x00, 0x01, 0x0a, 0x10, 0x9f, 0xf0)), "00:01:0a:10:9f:f0");
    assert_eq!(mac_string(Mac::zero()), "00:00:00:00:00:00");
    assert_eq!(mac_string(Mac::broadcast()), "ff:ff:ff:ff:ff:ff");
}

#[test]
fn time_since_a_host_was_seen() {
    assert_eq!(seen_string(0), " 0 min  0 sec ago");
    assert_eq!(seen_string(999), " 0 min  0 sec ago");
    assert_eq!(seen_string(59_999), " 0 min 59 sec ago");
    assert_eq!(seen_string(60_000), " 1 min  0 sec ago");
    assert_eq!(seen_string(754_321), "12 min 34 sec ago");
    assert_eq!(seen_string(6_000_000), "100 min  0 sec ago");
    for ms in [0u64, 5_000, 61_000, 599_000, 3_599_999, 86_400_000] {
        let secs = ms / 1000;
        assert_eq!(seen_string(ms), format!("{:2} min {:2} sec ago", secs / 60, secs % 60));
    }
}

#[test]
fn rows_of_the_table() {
    let mut h = host(7, 1_000);
    let row = host_row(&h, 126_500);
    assert_eq!(row.ip, "192.168.1.7");
    assert_eq!(row.mac, "aa:bb:cc:dd:ee:07");
    assert_eq!(row.speed_down, "");
    assert_eq!(row.speed_up, "");
    assert_eq!(row.seen, " 2 min  5 sec ago");
    h.is_my_device_mac = true;
    h.speed = Some(Speed { input: 2048, output: 5 });
    h.time = -500;
    let row = host_row(&h, 1_500);
    assert_eq!(row.mac, "aa:bb:cc:dd:ee:07 (*)");
    assert_eq!(row.speed_down, "2.00 Kib/s");
    assert_eq!(row.speed_up, "5.00 Bit/s");
    assert_eq!(row.seen, " 0 min  2 sec ago");
    h.time = i64::MIN;
    assert_eq!(host_row(&h, i64::MAX).seen, "307445734561825 min 51 sec ago");
}

#[test]
fn columns_are_as_wide_as_their_longest_text() {
    assert_eq!(constraint_len_calculator(&vec![], 0), (0, 0, 0, 0, 0));
    let mut hosts = vec![host(7, 1), host(200, 2), host(30, 3)];
    assert_eq!(constraint_len_calculator(&hosts, 35), (13, 17, 0, 0, 35));
    hosts[0].speed = Some(Speed { input: 1, output: 1024 * 1024 * 1000 });
    hosts[2].speed = Some(Speed { input: 1023, output: 0 });
    // "1023.00 Bit/s" and "1000.00 Mib/s"
    assert_eq!(constraint_len_calculator(&hosts, 65536 + 3), (13, 17, 13, 13, 3));
}

#[test]
fn a_host_seen_after_now_was_seen_no_time_ago() {
    let h = host(7, 5_000);
    assert_eq!(host_row(&h, 4_000).seen, " 0 min  0 sec ago");
    assert_eq!(host_row(&h, 5_000).seen, " 0 min  0 sec ago");
    assert_eq!(host_row(&h, i64::MIN).seen, " 0 min  0 sec ago");
    assert_eq!(host_row(&h, 66_000).seen, " 1 min  1 sec ago");
}
