use lanscan::net::Ipv4;
use lanscan::speed::{format_size, Speed};
use lanscan::stats_aggregator::StatsAggregator;
use lanscan::tally::StatsMap;
use lanscan::traffic::{Direction, IpPair, StatItem, StatKey, StatValues};

fn sample(src: Ipv4, sp: u16, dst: Ipv4, dp: u16, direction: Direction, size: u128) -> StatItem {
    StatItem {
        key: StatKey { src_port: sp, dst_port: dp, src_ip: src, dst_ip: dst, direction },
        value: StatValues { size },
    }
}

fn second(items: &[StatItem]) -> StatsMap {
    let mut m = StatsMap::new();
    for item in items {
        assert!(m.record(*item));
    }
    m
}

#[test]
fn format_size_zero() {
    assert_eq!(format_size(0), "0.00 Bit/s");
}

#[test]
fn format_size_units() {
    assert_eq!(format_size(1023), "1023.00 Bit/s");
    assert_eq!(format_size(1024), "1.00 Kib/s");
    assert_eq!(format_size(1024 * 1024), "1.00 Mib/s");
    assert_eq!(format_size(8000), "7.81 Kib/s");
    assert_eq!(format_size(1024 * 1024 - 1), "1024.00 Kib/s");
    assert_eq!(format_size(3 * 1024 * 1024 + 512 * 1024), "3.50 Mib/s");
}

#[test]
fn format_size_rounds_ties_to_even() {
    // 1152 / 1024 = 1.125 and 1408 / 1024 = 1.375: both lie exactly between two hundredths.
    assert_eq!(format_size(1152), "1.12 Kib/s");
    assert_eq!(format_size(1408), "1.38 Kib/s");
}

fn float_text(bits: u32) -> String {
    let b = f64::from(bits);
    if b < 1024.0 {
        format!("{:.2} Bit/s", b)
    } else if b / 1024.0 < 1024.0 {
        format!("{:.2} Kib/s", b / 1024.0)
    } else {
        format!("{:.2} Mib/s", b / 1024.0 / 1024.0)
    }
}

#[test]
fn format_size_agrees_with_floating_point() {
    let mut bits: u32 = 0;
    while bits < 3_000_000 {
        assert_eq!(format_size(u128::from(bits)), float_text(bits), "at {}", bits);
        bits += 7;
    }
    let mut big: u32 = 3_000_000;
    while big < u32::MAX - 1_000_003 {
        assert_eq!(format_size(u128::from(big)), float_text(big), "at {}", big);
        big += 1_000_003;
    }
    for k in 0..4096u32 {
        let tie = 1024 + 128 + 256 * k;
        assert_eq!(format_size(u128::from(tie)), float_text(tie), "at {}", tie);
    }
}

#[test]
fn speed_to_string_shows_both_rates() {
    let s = Speed { input: 0, output: 8000 };
    assert_eq!(s.to_string(), "\u{2193} 0.00 Bit/s | \u{2191} 7.81 Kib/s");
    assert_eq!(s.to_string_input(), "0.00 Bit/s");
    assert_eq!(s.to_string_output(), "7.81 Kib/s");
}

#[test]
fn single_outgoing_tcp_flow() {
    let ours = Ipv4::new(10, 0, 0, 2);
    let remote = Ipv4::new(8, 8, 8, 8);
    let mut agg = StatsAggregator::new();
    agg.tick(second(&[sample(ours, 4000, remote, 443, Direction::Outgoing, 8000)]));
    assert!(agg.fits());
    let speeds = agg.speed_per_host();
    assert_eq!(speeds.items().len(), 1);
    assert_eq!(speeds.get(&remote), Some(Speed { input: 0, output: 8000 }));
    assert_eq!(speeds.get(&ours), None);
    assert_eq!(agg.speed_str(), "\u{2193} 0.00 Bit/s | \u{2191} 7.81 Kib/s");
}

#[test]
fn symmetric_pair() {
    let ours = Ipv4::new(10, 0, 0, 2);
    let remote = Ipv4::new(8, 8, 8, 8);
    let mut agg = StatsAggregator::new();
    agg.tick(second(&[
        sample(ours, 4000, remote, 443, Direction::Outgoing, 1024),
        sample(remote, 443, ours, 4000, Direction::Incoming, 2048),
    ]));
    assert!(agg.fits());
    let pairs = agg.pairs_at(0);
    assert_eq!(pairs.items().len(), 1);
    let pair = IpPair { src_ip: remote, dst_ip: ours, is_local: false };
    assert_eq!(pairs.get(&pair), Some(Speed { input: 2048, output: 1024 }));
    let lines = agg.connections_strs();
    assert_eq!(
        lines,
        vec![String::from(
            "8.8.8.8 <-> 10.0.0.2 \t (\u{2193} 2.00 Kib/s | \u{2191} 1.00 Kib/s)"
        )]
    );
}

#[test]
fn local_traffic_excluded() {
    let a = Ipv4::new(10, 0, 0, 2);
    let b = Ipv4::new(10, 0, 0, 3);
    let mut agg = StatsAggregator::new();
    agg.tick(second(&[sample(a, 1, b, 2, Direction::Local, 4096)]));
    assert_eq!(agg.len(), 1);
    assert!(agg.hosts_at(0).is_empty());
    assert_eq!(agg.total_at(0), Speed { input: 0, output: 0 });
    let pair = IpPair { src_ip: a, dst_ip: b, is_local: true };
    assert_eq!(agg.pairs_at(0).get(&pair), Some(Speed { input: 4096, output: 0 }));
    assert_eq!(agg.directions_at(0).local, 4096);
}

#[test]
fn window_eviction() {
    let ours = Ipv4::new(10, 0, 0, 2);
    let remote = Ipv4::new(8, 8, 8, 8);
    let mut agg = StatsAggregator::new_with_window_size(3);
    for bits in [100u128, 200, 300, 400] {
        agg.tick(second(&[sample(ours, 4000, remote, 443, Direction::Outgoing, bits)]));
    }
    assert_eq!(agg.len(), 3);
    assert!(agg.fits());
    assert_eq!(agg.total_at(0), Speed { input: 0, output: 200 });
    assert_eq!(agg.total_at(2), Speed { input: 0, output: 400 });
    // (200 + 300 + 400) / 3 = 300
    assert_eq!(agg.speed_str(), "\u{2193} 0.00 Bit/s | \u{2191} 300.00 Bit/s");
}

#[test]
fn speed_str_of_empty_window_is_empty() {
    let agg = StatsAggregator::new();
    assert!(agg.fits());
    assert_eq!(agg.speed_str(), "");
    assert!(agg.speed_per_host().is_empty());
    assert!(agg.connections_strs().is_empty());
}

#[test]
fn every_window_grows_with_the_ticks_up_to_its_capacity() {
    let mut agg = StatsAggregator::new_with_window_size(4);
    for n in 1..=9usize {
        agg.tick(StatsMap::new());
        let expect = n.min(4);
        assert_eq!(agg.len(), expect);
        // Every window has an entry at the last index and none behind it.
        assert!(agg.raw_at(expect - 1).is_empty());
        assert!(agg.pairs_at(expect - 1).is_empty());
        assert!(agg.hosts_at(expect - 1).is_empty());
        assert_eq!(agg.total_at(expect - 1), Speed { input: 0, output: 0 });
        assert_eq!(agg.directions_at(expect - 1).outgoing, 0);
    }
    let default = StatsAggregator::new();
    assert_eq!(default.len(), 0);
}

#[test]
fn default_window_holds_ten_seconds() {
    let mut agg = StatsAggregator::new();
    let ours = Ipv4::new(10, 0, 0, 2);
    let remote = Ipv4::new(8, 8, 8, 8);
    for bits in 1..=11u128 {
        agg.tick(second(&[sample(ours, 1, remote, 2, Direction::Outgoing, bits)]));
    }
    assert_eq!(agg.len(), 10);
    assert_eq!(agg.total_at(0), Speed { input: 0, output: 2 });
    assert_eq!(agg.total_at(9), Speed { input: 0, output: 11 });
}

#[test]
fn oldest_second_leaves_every_window_at_once() {
    let ours = Ipv4::new(10, 0, 0, 2);
    let other = Ipv4::new(10, 0, 0, 3);
    let mut agg = StatsAggregator::new_with_window_size(2);
    let first = Ipv4::new(1, 1, 1, 1);
    let later = Ipv4::new(2, 2, 2, 2);
    agg.tick(second(&[
        sample(ours, 1, first, 2, Direction::Outgoing, 64),
        sample(ours, 1, other, 2, Direction::Local, 32),
    ]));
    agg.tick(second(&[sample(later, 1, ours, 2, Direction::Incoming, 128)]));
    assert_eq!(agg.len(), 2);
    assert_eq!(agg.directions_at(0).outgoing, 64);
    assert_eq!(agg.directions_at(0).local, 32);
    assert_eq!(agg.raw_at(0).items().len(), 2);
    assert_eq!(agg.pairs_at(0).items().len(), 2);
    assert_eq!(agg.hosts_at(0).get(&first), Some(Speed { input: 0, output: 64 }));
    assert_eq!(agg.total_at(0), Speed { input: 0, output: 64 });
    agg.tick(second(&[sample(ours, 1, later, 2, Direction::Outgoing, 256)]));
    assert_eq!(agg.len(), 2);
    // What was at index 1 is now at index 0 in every window.
    assert_eq!(agg.directions_at(0).outgoing, 0);
    assert_eq!(agg.directions_at(0).incoming, 128);
    assert_eq!(agg.directions_at(0).local, 0);
    assert_eq!(agg.raw_at(0).items().len(), 1);
    assert_eq!(agg.pairs_at(0).items().len(), 1);
    assert_eq!(agg.hosts_at(0).get(&first), None);
    assert_eq!(agg.hosts_at(0).get(&later), Some(Speed { input: 128, output: 0 }));
    assert_eq!(agg.total_at(0), Speed { input: 128, output: 0 });
    assert_eq!(agg.total_at(1), Speed { input: 0, output: 256 });
    assert!(agg.fits());
    assert_eq!(agg.speed_per_host().get(&first), None);
    assert_eq!(agg.speed_per_host().get(&later), Some(Speed { input: 64, output: 128 }));
}

#[test]
fn pair_window_follows_the_raw_window() {
    let ours = Ipv4::new(10, 0, 0, 2);
    let twin = Ipv4::new(10, 0, 0, 1);
    let remote = Ipv4::new(9, 9, 9, 9);
    let far = Ipv4::new(7, 7, 7, 7);
    let mut agg = StatsAggregator::new();
    agg.tick(second(&[
        sample(ours, 1000, remote, 53, Direction::Outgoing, 10),
        sample(ours, 1001, remote, 53, Direction::Outgoing, 20),
        sample(remote, 53, ours, 1000, Direction::Incoming, 300),
        sample(ours, 5, twin, 6, Direction::Local, 4000),
        sample(twin, 6, ours, 5, Direction::Local, 50000),
        sample(far, 1, remote, 2, Direction::Neither, 600000),
    ]));
    let pairs = agg.pairs_at(0);
    assert_eq!(pairs.items().len(), 2);
    // Outgoing and incoming fall on the pair that starts with the remote endpoint.
    assert_eq!(
        pairs.get(&IpPair { src_ip: remote, dst_ip: ours, is_local: false }),
        Some(Speed { input: 300, output: 30 })
    );
    // Local: the smaller address first; the sample that was turned round is output.
    assert_eq!(
        pairs.get(&IpPair { src_ip: twin, dst_ip: ours, is_local: true }),
        Some(Speed { input: 50000, output: 4000 })
    );
    // Between strangers: the sample is discarded.
    assert_eq!(pairs.get(&IpPair { src_ip: far, dst_ip: remote, is_local: false }), None);
    let hosts = agg.hosts_at(0);
    assert_eq!(hosts.items().len(), 1);
    assert_eq!(hosts.get(&remote), Some(Speed { input: 300, output: 30 }));
    assert_eq!(hosts.get(&far), None);
    assert_eq!(hosts.get(&twin), None);
    assert_eq!(hosts.get(&ours), None);
    // The total is the sum of the host speeds.
    assert_eq!(agg.total_at(0), Speed { input: 300, output: 30 });
    // The bits of every direction are counted, those between strangers too.
    let d = agg.directions_at(0);
    assert_eq!((d.outgoing, d.incoming, d.local, d.neither), (30, 300, 54000, 600000));
    assert_eq!(agg.raw_at(0).total_bits(), 654330);
}

#[test]
fn samples_between_strangers_are_discarded() {
    let a = Ipv4::new(1, 1, 1, 1);
    let b = Ipv4::new(2, 2, 2, 2);
    let ours = Ipv4::new(10, 0, 0, 2);
    let mut agg = StatsAggregator::default();
    agg.tick(second(&[sample(a, 1, b, 2, Direction::Neither, 512)]));
    assert_eq!(agg.len(), 1);
    assert!(agg.pairs_at(0).is_empty());
    assert!(agg.hosts_at(0).is_empty());
    assert_eq!(agg.total_at(0), Speed { input: 0, output: 0 });
    assert_eq!(agg.directions_at(0).neither, 512);
    assert_eq!(agg.raw_at(0).get(&sample(a, 1, b, 2, Direction::Neither, 0).key), Some(512));
    assert!(agg.fits());
    assert!(agg.connections_strs().is_empty());
    assert!(agg.speed_per_host().is_empty());
    assert_eq!(agg.speed_str(), "\u{2193} 0.00 Bit/s | \u{2191} 0.00 Bit/s");
    // A second with only such traffic does not count among the seconds of a host.
    agg.tick(second(&[sample(a, 1, ours, 2, Direction::Incoming, 100)]));
    agg.tick(second(&[sample(a, 9, b, 9, Direction::Neither, 7)]));
    assert_eq!(agg.speed_per_host().items().len(), 1);
    assert_eq!(agg.speed_per_host().get(&a), Some(Speed { input: 100, output: 0 }));
    assert_eq!(agg.connections_strs().len(), 1);
}

#[test]
fn silent_second_changes_no_host_average() {
    let ours = Ipv4::new(10, 0, 0, 2);
    let remote = Ipv4::new(8, 8, 8, 8);
    let mut agg = StatsAggregator::new_with_window_size(3);
    agg.tick(second(&[sample(ours, 1, remote, 2, Direction::Outgoing, 900)]));
    agg.tick(second(&[sample(ours, 1, remote, 2, Direction::Outgoing, 300)]));
    assert_eq!(agg.speed_per_host().get(&remote), Some(Speed { input: 0, output: 600 }));
    let before = agg.connections_strs();
    agg.tick(StatsMap::new());
    assert_eq!(agg.len(), 3);
    assert!(agg.raw_at(2).is_empty());
    assert_eq!(agg.speed_per_host().get(&remote), Some(Speed { input: 0, output: 600 }));
    assert_eq!(agg.connections_strs(), before);
    // The total is averaged over all three seconds.
    assert_eq!(agg.speed_str(), "\u{2193} 0.00 Bit/s | \u{2191} 400.00 Bit/s");
    // One more silent second pushes the oldest second out.
    agg.tick(StatsMap::new());
    assert_eq!(agg.speed_per_host().get(&remote), Some(Speed { input: 0, output: 300 }));
    assert_eq!(agg.speed_str(), "\u{2193} 0.00 Bit/s | \u{2191} 100.00 Bit/s");
}

#[test]
fn host_average_divides_by_the_seconds_in_which_the_host_occurs() {
    let ours = Ipv4::new(10, 0, 0, 2);
    let a = Ipv4::new(1, 1, 1, 1);
    let b = Ipv4::new(2, 2, 2, 2);
    let mut agg = StatsAggregator::new();
    agg.tick(second(&[sample(a, 1, ours, 2, Direction::Incoming, 1000)]));
    agg.tick(second(&[
        sample(a, 1, ours, 2, Direction::Incoming, 2001),
        sample(ours, 1, b, 2, Direction::Outgoing, 70),
    ]));
    agg.tick(second(&[sample(ours, 3, b, 4, Direction::Outgoing, 10)]));
    let speeds = agg.speed_per_host();
    assert_eq!(speeds.items().len(), 2);
    // a: (1000 + 2001) / 2, rounded down; b: (70 + 10) / 2.
    assert_eq!(speeds.get(&a), Some(Speed { input: 1500, output: 0 }));
    assert_eq!(speeds.get(&b), Some(Speed { input: 0, output: 40 }));
    // The total divides by the three seconds of the window.
    assert_eq!(agg.speed_str(), "\u{2193} 1000.00 Bit/s | \u{2191} 26.00 Bit/s");
}

#[test]
fn connections_come_in_ascending_order_with_their_signs() {
    let ours = Ipv4::new(10, 0, 0, 2);
    let twin = Ipv4::new(10, 0, 0, 1);
    let mut agg = StatsAggregator::new();
    agg.tick(second(&[
        sample(ours, 1, Ipv4::new(200, 1, 1, 1), 2, Direction::Outgoing, 2048),
        sample(Ipv4::new(9, 9, 9, 9), 1, ours, 2, Direction::Incoming, 4096),
        sample(ours, 1, Ipv4::new(100, 1, 1, 1), 2, Direction::Outgoing, 100),
        sample(Ipv4::new(100, 1, 1, 1), 2, ours, 1, Direction::Incoming, 200),
        sample(Ipv4::new(50, 5, 5, 5), 1, Ipv4::new(60, 6, 6, 6), 2, Direction::Neither, 77),
        sample(ours, 1, twin, 2, Direction::Local, 8),
        sample(ours, 7, Ipv4::new(9, 9, 9, 8), 2, Direction::Outgoing, 0),
    ]));
    let lines = agg.connections_strs();
    let expected: Vec<String> = [
        "9.9.9.8 --- 10.0.0.2 \t (\u{2193} 0.00 Bit/s | \u{2191} 0.00 Bit/s)",
        "9.9.9.9 --> 10.0.0.2 \t (\u{2193} 4.00 Kib/s | \u{2191} 0.00 Bit/s)",
        "10.0.0.1 <-- 10.0.0.2 \t (\u{2193} 0.00 Bit/s | \u{2191} 8.00 Bit/s)",
        "100.1.1.1 <-> 10.0.0.2 \t (\u{2193} 200.00 Bit/s | \u{2191} 100.00 Bit/s)",
        "200.1.1.1 <-- 10.0.0.2 \t (\u{2193} 0.00 Bit/s | \u{2191} 2.00 Kib/s)",
    ]
    .iter()
    .map(|s| String::from(*s))
    .collect();
    assert_eq!(lines, expected);
}

#[test]
fn a_local_pair_comes_after_the_same_pair_that_is_not_local() {
    let a = Ipv4::new(10, 0, 0, 1);
    let b = Ipv4::new(10, 0, 0, 2);
    let mut agg = StatsAggregator::new();
    agg.tick(second(&[
        sample(a, 1, b, 2, Direction::Local, 16),
        sample(a, 1, b, 2, Direction::Incoming, 24),
    ]));
    let lines = agg.connections_strs();
    assert_eq!(lines.len(), 2);
    assert_eq!(lines[0], "10.0.0.1 --> 10.0.0.2 \t (\u{2193} 24.00 Bit/s | \u{2191} 0.00 Bit/s)");
    assert_eq!(lines[1], "10.0.0.1 --> 10.0.0.2 \t (\u{2193} 16.00 Bit/s | \u{2191} 0.00 Bit/s)");
}

#[test]
fn window_that_does_not_fit_is_told_apart() {
    let ours = Ipv4::new(10, 0, 0, 2);
    let remote = Ipv4::new(8, 8, 8, 8);
    let mut agg = StatsAggregator::new();
    agg.tick(second(&[sample(ours, 1, remote, 2, Direction::Outgoing, u128::MAX)]));
    assert!(agg.fits());
    assert_eq!(agg.speed_per_host().get(&remote), Some(Speed { input: 0, output: u128::MAX }));
    agg.tick(second(&[sample(ours, 1, remote, 2, Direction::Outgoing, 1)]));
    assert!(!agg.fits());
}

#[test]
fn addresses_read_in_dotted_decimal() {
    assert_eq!(Ipv4::new(0, 0, 0, 0).to_string(), "0.0.0.0");
    assert_eq!(Ipv4::new(192, 168, 1, 50).to_string(), "192.168.1.50");
    assert_eq!(Ipv4::new(255, 255, 255, 255).to_string(), "255.255.255.255");
    assert_eq!(Ipv4::new(10, 20, 30, 40).to_octets(), (10, 20, 30, 40));
    assert_eq!(Ipv4::new(1, 2, 3, 4).bits, 0x01020304);
    assert!(Ipv4::new(9, 255, 255, 255) < Ipv4::new(10, 0, 0, 0));
}

#[test]
fn samples_have_their_canonical_pair_and_share() {
    let a = Ipv4::new(10, 0, 0, 1);
    let b = Ipv4::new(10, 0, 0, 2);
    let k = |src: Ipv4, dst: Ipv4, direction: Direction| StatKey {
        src_port: 1,
        dst_port: 2,
        src_ip: src,
        dst_ip: dst,
        direction,
    };
    let p = |src: Ipv4, dst: Ipv4, is_local: bool| IpPair { src_ip: src, dst_ip: dst, is_local };
    assert_eq!(k(a, b, Direction::Outgoing).pair(), p(b, a, false));
    assert_eq!(k(a, b, Direction::Incoming).pair(), p(a, b, false));
    assert_eq!(k(a, b, Direction::Outgoing).counted_pair(), Some(p(b, a, false)));
    assert_eq!(k(a, b, Direction::Incoming).counted_pair(), Some(p(a, b, false)));
    assert_eq!(k(b, a, Direction::Local).counted_pair(), Some(p(a, b, true)));
    assert_eq!(k(b, a, Direction::Neither).counted_pair(), None);
    assert_eq!(k(a, b, Direction::Local).pair(), p(a, b, true));
    assert_eq!(k(b, a, Direction::Local).pair(), p(a, b, true));
    assert_eq!(k(a, a, Direction::Local).pair(), p(a, a, true));
    assert_eq!(k(a, b, Direction::Outgoing).share(5), Speed { input: 0, output: 5 });
    assert_eq!(k(a, b, Direction::Incoming).share(5), Speed { input: 5, output: 0 });
    assert_eq!(k(a, b, Direction::Local).share(5), Speed { input: 5, output: 0 });
    assert_eq!(k(b, a, Direction::Local).share(5), Speed { input: 0, output: 5 });
    assert_eq!(k(a, b, Direction::Neither).share(5), Speed { input: 0, output: 0 });
    assert_eq!(Speed::zero(), Speed { input: 0, output: 0 });
}

#[test]
fn format_size_of_large_rates() {
    assert_eq!(format_size(1u128 << 32), "4096.00 Mib/s");
    assert_eq!(format_size((1u128 << 32) + 5243), "4096.01 Mib/s");
    assert_eq!(format_size(u128::from(u64::MAX)), "17592186044416.00 Mib/s");
    // The fraction rounds up into the next whole number.
    assert_eq!(format_size(u128::MAX), "324518553658426726783156020576256.00 Mib/s");
    assert_eq!(format_size(1024 * 1024 + 5242), "1.00 Mib/s");
    assert_eq!(format_size(1024 * 1024 + 5243), "1.01 Mib/s");
    // 1.125 Mib and 1.375 Mib lie exactly between two hundredths.
    assert_eq!(format_size(1024 * 1024 + 128 * 1024), "1.12 Mib/s");
    assert_eq!(format_size(1024 * 1024 + 384 * 1024), "1.38 Mib/s");
}

#[test]
fn speeds_add_and_divide_rate_by_rate() {
    let a = Speed { input: 10, output: 200 };
    let b = Speed { input: 5, output: 7 };
    assert_eq!(a + b, Speed { input: 15, output: 207 });
    assert_eq!((a + b) / 2, Speed { input: 7, output: 103 });
    assert_eq!(a / 1, a);
    assert_eq!(Speed::default(), Speed { input: 0, output: 0 });
    let d: StatsAggregator = Default::default();
    assert_eq!(d.len(), 0);
}
