//! The texts of the table of hosts: one row for each host, and the widths
//! of the columns.

use vstd::prelude::*;
use vstd::string::{StrSliceExecFns, StringExecFns};
use crate::host::Host;
use crate::net::Mac;
use crate::speed::size_text;
use crate::text::{decimal, digit_str, push_decimal};

verus! {

/// The character that writes the hexadecimal digit `d` in lower case.
pub open spec fn hex_char(d: nat) -> char {
    if d == 10 {
        'a'
    } else if d == 11 {
        'b'
    } else if d == 12 {
        'c'
    } else if d == 13 {
        'd'
    } else if d == 14 {
        'e'
    } else if d == 15 {
        'f'
    } else {
        crate::text::digit_char(d)
    }
}

/// An octet as two hexadecimal digits.
pub open spec fn hex2(b: u8) -> Seq<char> {
    seq![hex_char((b / 16) as nat), hex_char((b % 16) as nat)]
}

/// A hardware address as text: its octets as two hexadecimal digits each,
/// with colons between them.
pub open spec fn mac_text(m: Mac) -> Seq<char> {
    hex2(m.0).push(':') + hex2(m.1).push(':') + hex2(m.2).push(':') + hex2(m.3).push(':') + hex2(
        m.4,
    ).push(':') + hex2(m.5)
}

/// The mark behind the hardware address of the observing interface.
pub open spec fn own_mark() -> Seq<char> {
    seq![' ', '(', '*', ')']
}

/// A number in a field of two characters, blanks to the left.
pub open spec fn padded2(n: nat) -> Seq<char> {
    if n < 10 {
        seq![' '] + decimal(n)
    } else {
        decimal(n)
    }
}

/// How long ago something was seen, in whole minutes and the seconds
/// beyond them, for a time that has passed since of `elapsed_ms` milliseconds.
pub open spec fn seen_text(elapsed_ms: nat) -> Seq<char> {
    let seconds = elapsed_ms / 1000;
    padded2(seconds / 60) + seq![' ', 'm', 'i', 'n', ' '] + padded2(seconds % 60) + seq![
        ' ',
        's',
        'e',
        'c',
        ' ',
        'a',
        'g',
        'o',
    ]
}

fn hex_str(d: u8) -> (s: &'static str)
    requires
        d < 16,
    ensures
        s@ == seq![hex_char(d as nat)],
{
    if d < 10 {
        digit_str(d)
    } else {
        proof {
            reveal_strlit("a");
            reveal_strlit("b");
            reveal_strlit("c");
            reveal_strlit("d");
            reveal_strlit("e");
            reveal_strlit("f");
        }
        let s = if d == 10 {
            "a"
        } else if d == 11 {
            "b"
        } else if d == 12 {
            "c"
        } else if d == 13 {
            "d"
        } else if d == 14 {
            "e"
        } else {
            "f"
        };
        assert(s@ =~= seq![hex_char(d as nat)]);
        s
    }
}

fn push_hex2(out: &mut String, b: u8)
    ensures
        final(out)@ == old(out)@ + hex2(b),
{
    out.append(hex_str(b / 16));
    out.append(hex_str(b % 16));
    assert(out@ =~= old(out)@ + hex2(b));
}

fn push_padded2(out: &mut String, n: u128)
    ensures
        final(out)@ == old(out)@ + padded2(n as nat),
{
    if n < 10 {
        proof {
            reveal_strlit(" ");
        }
        out.append(" ");
    }
    push_decimal(out, n);
    assert(out@ =~= old(out)@ + padded2(n as nat));
}

/// A hardware address as text.
pub fn mac_string(m: Mac) -> (s: String)
    ensures
        s@ == mac_text(m),
{
    let mut out = String::new();
    proof {
        reveal_strlit(":");
    }
    push_hex2(&mut out, m.0);
    out.append(":");
    push_hex2(&mut out, m.1);
    out.append(":");
    push_hex2(&mut out, m.2);
    out.append(":");
    push_hex2(&mut out, m.3);
    out.append(":");
    push_hex2(&mut out, m.4);
    out.append(":");
    push_hex2(&mut out, m.5);
    assert(out@ =~= mac_text(m));
    out
}

/// How long ago something was seen that was seen `elapsed_ms` milliseconds ago.
pub fn seen_string(elapsed_ms: u64) -> (s: String)
    ensures
        s@ == seen_text(elapsed_ms as nat),
{
    let seconds = elapsed_ms / 1000;
    let mut out = String::new();
    proof {
        reveal_strlit(" min ");
        reveal_strlit(" sec ago");
    }
    push_padded2(&mut out, (seconds / 60) as u128);
    out.append(" min ");
    push_padded2(&mut out, (seconds % 60) as u128);
    out.append(" sec ago");
    assert(out@ =~= seen_text(elapsed_ms as nat));
    out
}

/// The milliseconds that have passed at time `now` since something was
/// seen at time `seen`: none if the clock stands before that time.
pub open spec fn elapsed_ms(seen: i64, now: i64) -> nat {
    if seen <= now {
        (now - seen) as nat
    } else {
        0
    }
}

/// The texts of one row of the table.
pub struct HostRow {
    pub ip: String,
    pub mac: String,
    pub speed_down: String,
    pub speed_up: String,
    pub seen: String,
}

/// The row of `host` at time `now`: its address; its hardware address,
/// marked if it is that of the observing interface; its input and output
/// speed, empty while none is estimated; and how long ago it was seen,
/// which is no time if the clock has gone back since.
pub fn host_row(host: &Host, now: i64) -> (row: HostRow)
    ensures
        row.ip@ == host.ipv4.text(),
        row.mac@ == if host.is_my_device_mac {
            mac_text(host.mac) + own_mark()
        } else {
            mac_text(host.mac)
        },
        row.speed_down@ == match host.speed {
            Some(s) => size_text(s@.input),
            None => Seq::<char>::empty(),
        },
        row.speed_up@ == match host.speed {
            Some(s) => size_text(s@.output),
            None => Seq::<char>::empty(),
        },
        row.seen@ == seen_text(elapsed_ms(host.time, now)),
{
    let mut mac = mac_string(host.mac);
    if host.is_my_device_mac {
        proof {
            reveal_strlit(" (*)");
        }
        mac.append(" (*)");
        assert(mac@ =~= mac_text(host.mac) + own_mark());
    }
    let (speed_down, speed_up) = match host.speed {
        Some(s) => (s.to_string_input(), s.to_string_output()),
        None => (String::new(), String::new()),
    };
    let elapsed: u64 = if host.time <= now {
        (now as i128 - host.time as i128) as u64
    } else {
        0
    };
    HostRow { ip: host.ipv4.to_string(), mac, speed_down, speed_up, seen: seen_string(elapsed) }
}

/// The largest of the numbers, zero for none.
pub open spec fn longest(lens: Seq<nat>) -> nat
    decreases lens.len(),
{
    if lens.len() == 0 {
        0
    } else if longest(lens.drop_last()) >= lens.last() {
        longest(lens.drop_last())
    } else {
        lens.last()
    }
}

/// The number of characters of the speed text of a host, zero while no
/// speed is estimated.
pub open spec fn speed_len(host: Host, input: bool) -> nat {
    match host.speed {
        Some(s) => if input {
            size_text(s@.input).len()
        } else {
            size_text(s@.output).len()
        },
        None => 0,
    }
}

/// A width as the table takes it: the low sixteen bits of the number.
pub open spec fn width_of(n: nat) -> u16 {
    (n % 65536) as u16
}

fn width(n: usize) -> (w: u16)
    ensures
        w == width_of(n as nat),
{
    (n % 65536) as u16
}

/// The widths of the columns for address, hardware address, input speed
/// and output speed: the length of the longest text in each, over all
/// hosts; and the width of the time column from the length `time_len` of
/// its longest text.
pub fn constraint_len_calculator(items: &Vec<Host>, time_len: usize) -> (w: (
    u16,
    u16,
    u16,
    u16,
    u16,
))
    ensures
        w.0 == width_of(longest(items@.map_values(|h: Host| h.ipv4.text().len()))),
        w.1 == width_of(longest(items@.map_values(|h: Host| mac_text(h.mac).len()))),
        w.2 == width_of(longest(items@.map_values(|h: Host| speed_len(h, true)))),
        w.3 == width_of(longest(items@.map_values(|h: Host| speed_len(h, false)))),
        w.4 == width_of(time_len as nat),
{
    let n = items.len();
    let mut ip_len: usize = 0;
    let mut mac_len: usize = 0;
    let mut down_len: usize = 0;
    let mut up_len: usize = 0;
    let mut i: usize = 0;
    let ghost ips = items@.map_values(|h: Host| h.ipv4.text().len());
    let ghost macs = items@.map_values(|h: Host| mac_text(h.mac).len());
    let ghost downs = items@.map_values(|h: Host| speed_len(h, true));
    let ghost ups = items@.map_values(|h: Host| speed_len(h, false));
    proof {
        assert(ips.take(0) =~= Seq::<nat>::empty());
        assert(macs.take(0) =~= Seq::<nat>::empty());
        assert(downs.take(0) =~= Seq::<nat>::empty());
        assert(ups.take(0) =~= Seq::<nat>::empty());
    }
    while i < n
        invariant
            i <= n,
            n == items@.len(),
            ips == items@.map_values(|h: Host| h.ipv4.text().len()),
            macs == items@.map_values(|h: Host| mac_text(h.mac).len()),
            downs == items@.map_values(|h: Host| speed_len(h, true)),
            ups == items@.map_values(|h: Host| speed_len(h, false)),
            ip_len == longest(ips.take(i as int)),
            mac_len == longest(macs.take(i as int)),
            down_len == longest(downs.take(i as int)),
            up_len == longest(ups.take(i as int)),
        decreases n - i,
    {
        let host = &items[i];
        proof {
            assert(ips.take(i + 1).drop_last() =~= ips.take(i as int));
            assert(macs.take(i + 1).drop_last() =~= macs.take(i as int));
            assert(downs.take(i + 1).drop_last() =~= downs.take(i as int));
            assert(ups.take(i + 1).drop_last() =~= ups.take(i as int));
        }
        let ip = host.ipv4.to_string().as_str().unicode_len();
        if ip > ip_len {
            ip_len = ip;
        }
        let mac = mac_string(host.mac).as_str().unicode_len();
        if mac > mac_len {
            mac_len = mac;
        }
        match host.speed {
            Some(s) => {
                let down = s.to_string_input().as_str().unicode_len();
                if down > down_len {
                    down_len = down;
                }
                let up = s.to_string_output().as_str().unicode_len();
                if up > up_len {
                    up_len = up;
                }
            },
            None => {},
        }
        i = i + 1;
    }
    proof {
        assert(ips.take(n as int) =~= ips);
        assert(macs.take(n as int) =~= macs);
        assert(downs.take(n as int) =~= downs);
        assert(ups.take(n as int) =~= ups);
    }
    (width(ip_len), width(mac_len), width(down_len), width(up_len), width(time_len))
}

} // verus!
