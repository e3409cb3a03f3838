//! The decisions of the engine's three workers: what the capture worker
//! does with a frame, what the tick worker hands on each second, and
//! which step of a scan the emitter worker takes next.

use vstd::prelude::*;
use vstd::arithmetic::power2::{lemma2_to64, lemma_pow2_adds, lemma_pow2_pos, lemma_pow2_unfold, pow2};
use crate::error::ScanError;
use crate::event::ScannerEvent;
use crate::frame::{
    Observation, host_at, host_in, observe_at, observed, probe_of, encode_probe,
};
use crate::host::Host;
use crate::interface::{Interface, lemma_source_ip_exists};
use crate::net::{IpNetwork, Ipv4, Ipv4Network};
use crate::sums::{bit_sum, credit};
use crate::tally::StatsMap;
use crate::traffic::StatKey;

verus! {

/// The time for which the emitter rests before each probe, in milliseconds.
pub const PROBE_DELAY_MS: u64 = 37;

/// The time between two statistics ticks, in milliseconds.
pub const TICK_INTERVAL_MS: u64 = 1000;

/// The time after which a read on the channel gives up, in milliseconds.
pub const READ_TIMEOUT_MS: u64 = 500;

/// `chrono::Local::now` and `DateTime::timestamp_millis`: the time of day
/// in milliseconds since the epoch. Nothing is promised of it.
#[verifier::external_body]
fn now_millis() -> i64 {
    chrono::Local::now().timestamp_millis()
}

/// The record of the host that sent the address-resolution frame in
/// `buffer`, stamped with the time of day: none if the frame is too short
/// to name its sender.
pub fn get_host_infos(buffer: &[u8], interface: &Interface) -> (r: Option<Host>)
    ensures
        exists|now: i64| r == host_in(buffer@, interface.mac, now),
{
    let now = now_millis();
    host_at(buffer, interface, now)
}

/// What the frame tells, a host being stamped with the time of day.
pub fn observe(frame: &[u8], interface: &Interface) -> (r: Result<Observation, ScanError>)
    ensures
        exists|now: i64| r == observed(frame@, interface, now),
{
    let now = now_millis();
    observe_at(frame, interface, now)
}

/// What the capture worker does with what a frame tells: a host is
/// announced to the consumer; a sample is folded into the traffic of the
/// running second; anything else, a malformed frame too, has no effect.
pub fn capture(seen: Result<Observation, ScanError>, accumulator: &mut StatsMap) -> (event: Option<
    ScannerEvent,
>)
    requires
        old(accumulator).wf(),
    ensures
        final(accumulator).wf(),
        match seen {
            Ok(Observation::Host(host)) => event matches Some(ScannerEvent::HostFound(h)) && h
                == host && final(accumulator)@ == old(accumulator)@,
            Ok(Observation::Sample(item)) => event is None && final(accumulator)@ == if bit_sum(
                old(accumulator)@,
            ) + item.value.size <= u128::MAX {
                credit(old(accumulator)@, item.key, item.value.size as nat)
            } else {
                old(accumulator)@
            },
            _ => event is None && final(accumulator)@ == old(accumulator)@,
        },
{
    match seen {
        Ok(Observation::Host(host)) => Some(ScannerEvent::HostFound(host)),
        Ok(Observation::Sample(item)) => {
            let _taken = accumulator.record(item);
            None
        },
        _ => None,
    }
}

/// What the tick worker does each second: the traffic of the second is
/// moved out as a statistics tick, and an empty second begins.
pub fn drain(accumulator: &mut StatsMap) -> (event: ScannerEvent)
    requires
        old(accumulator).wf(),
    ensures
        final(accumulator).wf(),
        final(accumulator)@ == Map::<StatKey, nat>::empty(),
        event matches ScannerEvent::StatTick(m) && m.wf() && m@ == old(accumulator)@,
{
    let mut taken = StatsMap::new();
    core::mem::swap(accumulator, &mut taken);
    ScannerEvent::StatTick(taken)
}

/// Whether a scan of the interface can run at all: it cannot without a
/// hardware address to send the probes from, which fails with
/// `InterfaceMissingMac`.
pub fn ready_to_scan(interface: &Interface) -> (r: Result<(), ScanError>)
    ensures
        r == match interface.mac {
            Some(_) => Ok::<(), ScanError>(()),
            None => Err::<(), ScanError>(ScanError::InterfaceMissingMac),
        },
{
    match interface.mac {
        Some(_) => Ok(()),
        None => Err(ScanError::InterfaceMissingMac),
    }
}

/// The number of addresses of a network with the given prefix length; a
/// length beyond 32 counts as 32.
pub open spec fn span(prefix: u8) -> nat {
    if prefix >= 32 {
        1
    } else {
        pow2((32 - prefix) as nat)
    }
}

/// The lowest address of a network, as a number.
pub open spec fn network_start(n: Ipv4Network) -> nat {
    (n.addr.bits as nat / span(n.prefix)) * span(n.prefix)
}

/// All addresses of a network in ascending order, from the network
/// address to the broadcast address.
pub open spec fn addresses(n: Ipv4Network) -> Seq<Ipv4> {
    Seq::new(span(n.prefix), |i: int| Ipv4 { bits: (network_start(n) + i) as u32 })
}

/// The addresses that a scan probes: those of each IPv4 network of the
/// interface, network after network.
pub open spec fn targets(ips: Seq<IpNetwork>) -> Seq<Ipv4>
    decreases ips.len(),
{
    if ips.len() == 0 {
        Seq::empty()
    } else {
        targets(ips.drop_last()) + match ips.last() {
            IpNetwork::V4(n) => addresses(n),
            IpNetwork::Other => Seq::empty(),
        }
    }
}

/// One step of a scan.
pub enum ScanStep {
    /// Tell the consumer that the scan begins.
    Begin,
    /// Rest for `delay_ms` milliseconds, then send `probe`; if the probe
    /// could not be built, there is nothing to send and the scan goes on.
    Probe { delay_ms: u64, target: Ipv4, probe: Result<Vec<u8>, ScanError> },
    /// Tell the consumer that the scan is complete.
    Complete,
    /// The scan is over.
    Done,
}

/// How far a scan has come.
pub struct ScanCursor {
    started: bool,
    finished: bool,
    network: usize,
    offset: u64,
}

/// Every network has an address.
proof fn lemma_span_pos(prefix: u8)
    ensures
        span(prefix) >= 1,
{
    if prefix < 32 {
        lemma_pow2_pos((32 - prefix) as nat);
    }
}

/// The network in turn, if there is one, has an address.
proof fn lemma_next_span(ips: Seq<IpNetwork>, k: int)
    ensures
        0 <= k < ips.len() ==> (ips[k] matches IpNetwork::V4(n) ==> 0 < span(n.prefix)),
{
    if 0 <= k < ips.len() {
        match ips[k] {
            IpNetwork::V4(n) => {
                lemma_span_pos(n.prefix);
            },
            IpNetwork::Other => {},
        }
    }
}

/// The network has all its addresses within 32 bits.
proof fn lemma_network_bounds(n: Ipv4Network)
    ensures
        1 <= span(n.prefix) <= 4294967296,
        network_start(n) + span(n.prefix) <= 4294967296,
        network_start(n) <= n.addr.bits,
{
    lemma2_to64();
    let s = span(n.prefix);
    let p: nat = if n.prefix >= 32 {
        32
    } else {
        n.prefix as nat
    };
    lemma_pow2_pos((32 - p) as nat);
    lemma_pow2_pos(p);
    lemma_pow2_adds((32 - p) as nat, p);
    assert(s == pow2((32 - p) as nat));
    let c = pow2(p);
    assert(s * c == 4294967296);
    let b = n.addr.bits as nat;
    let q = b / s;
    assert(q * s <= b) by (nonlinear_arith)
        requires
            q == b / s,
            s > 0,
    ;
    assert(q < c) by (nonlinear_arith)
        requires
            q * s <= b,
            b < s * c,
            s > 0,
    ;
    assert((q + 1) * s <= c * s) by (nonlinear_arith)
        requires
            q < c,
            s > 0,
    ;
    assert((q + 1) * s == q * s + s) by (nonlinear_arith);
    assert(c * s == s * c) by (nonlinear_arith);
    assert(s <= s * c) by (nonlinear_arith)
        requires
            c >= 1,
            s >= 1,
    ;
}

/// The targets of the first networks come first among the targets of all.
proof fn lemma_targets_prefix(ips: Seq<IpNetwork>, k: int)
    requires
        0 <= k <= ips.len(),
    ensures
        targets(ips.take(k)).len() <= targets(ips).len(),
        forall|i: int|
            0 <= i < targets(ips.take(k)).len() ==> #[trigger] targets(ips)[i] == targets(
                ips.take(k),
            )[i],
    decreases ips.len() - k,
{
    if k == ips.len() {
        assert(ips.take(k) =~= ips);
    } else {
        lemma_targets_prefix(ips, k + 1);
        assert(ips.take(k + 1).drop_last() =~= ips.take(k));
    }
}

/// The number of addresses of a network with the given prefix length.
fn network_size(prefix: u8) -> (s: u64)
    ensures
        s == span(prefix),
{
    let mut s: u64 = 1;
    let mut p: u8 = 32;
    proof {
        lemma2_to64();
    }
    while p > prefix
        invariant
            prefix <= p <= 32 || (prefix > 32 && p == 32),
            s == pow2((32 - p) as nat),
            s <= 4294967296,
        decreases p,
    {
        proof {
            lemma2_to64();
            lemma_pow2_unfold((32 - p + 1) as nat);
            if 32 - p + 1 < 32 {
                vstd::arithmetic::power2::lemma_pow2_strictly_increases((32 - p + 1) as nat, 32);
            }
        }
        s = s * 2;
        p = p - 1;
    }
    s
}

impl ScanCursor {
    /// The network in turn and the place in it lie within the interface's networks.
    pub closed spec fn wf(&self, ips: Seq<IpNetwork>) -> bool {
        &&& self.network <= ips.len()
        &&& !self.started ==> self.network == 0 && self.offset == 0 && !self.finished
        &&& self.finished ==> self.started
        &&& self.network == ips.len() ==> self.offset == 0
        &&& self.network < ips.len() ==> match ips[self.network as int] {
            IpNetwork::V4(n) => self.offset < span(n.prefix),
            IpNetwork::Other => self.offset == 0,
        }
    }

    /// The number of probes that the scan has reached.
    pub closed spec fn probed(&self, ips: Seq<IpNetwork>) -> nat {
        targets(ips.take(self.network as int)).len() + self.offset as nat
    }

    /// The scan has told that it begins.
    pub closed spec fn begun(&self) -> bool {
        self.started
    }

    /// The scan has told that it is complete.
    pub closed spec fn ended(&self) -> bool {
        self.finished
    }

    /// A scan that has not begun.
    pub fn new() -> (c: ScanCursor)
        ensures
            !c.begun(),
            !c.ended(),
            forall|ips: Seq<IpNetwork>| #[trigger] c.wf(ips) && c.probed(ips) == 0,
    {
        let c = ScanCursor { started: false, finished: false, network: 0, offset: 0 };
        proof {
            assert forall|ips: Seq<IpNetwork>| #[trigger] c.wf(ips) && c.probed(ips) == 0 by {
                assert(ips.take(0) =~= Seq::<IpNetwork>::empty());
                lemma_next_span(ips, 0);
            }
        }
        c
    }

    /// The next step of the scan of `interface`: first the beginning is
    /// told, then one probe is due for each target in order, then the
    /// completion is told, and after that the scan is over. For an
    /// interface with a hardware address every probe can be built.
    pub fn next(&mut self, interface: &Interface) -> (step: ScanStep)
        requires
            old(self).wf(interface.ips@),
        ensures
            final(self).wf(interface.ips@),
            !old(self).begun() ==> step is Begin && final(self).begun() && !final(self).ended()
                && final(self).probed(interface.ips@) == 0,
            old(self).begun() && !old(self).ended() && old(self).probed(interface.ips@) < targets(
                interface.ips@,
            ).len() ==> {
                &&& step matches ScanStep::Probe { delay_ms, target, probe }
                &&& delay_ms == PROBE_DELAY_MS
                &&& target == targets(interface.ips@)[old(self).probed(interface.ips@) as int]
                &&& match probe {
                    Ok(frame) => probe_of(interface, target) == Ok::<Seq<u8>, ScanError>(frame@),
                    Err(e) => probe_of(interface, target) == Err::<Seq<u8>, ScanError>(e),
                }
                &&& interface.mac is Some ==> probe is Ok
                &&& final(self).begun() && !final(self).ended()
                &&& final(self).probed(interface.ips@) == old(self).probed(interface.ips@) + 1
            },
            old(self).begun() && !old(self).ended() && old(self).probed(interface.ips@)
                >= targets(interface.ips@).len() ==> step is Complete && final(self).ended()
                && final(self).begun(),
            old(self).ended() ==> step is Done && final(self).ended() && final(self).begun(),
    {
        let ghost ips = interface.ips@;
        if !self.started {
            self.started = true;
            proof {
                assert(ips.take(0) =~= Seq::<IpNetwork>::empty());
            }
            return ScanStep::Begin;
        }
        if self.finished {
            return ScanStep::Done;
        }
        let n = interface.ips.len();
        while self.network < n
            invariant
                n == ips.len(),
                ips == interface.ips@,
                self.wf(ips),
                self.started,
                !self.finished,
                old(self).begun(),
                !old(self).ended(),
                self.probed(ips) == old(self).probed(ips),
            decreases n - self.network,
        {
            match interface.ips[self.network] {
                IpNetwork::V4(net) => {
                    let size = network_size(net.prefix);
                    proof {
                        lemma_source_ip_exists(ips, self.network as int);
                        lemma_network_bounds(net);
                        lemma_targets_prefix(ips, self.network + 1);
                        assert(ips.take(self.network + 1).drop_last() =~= ips.take(
                            self.network as int,
                        ));
                        assert(ips.take(self.network + 1).last() == ips[self.network as int]);
                    }
                    let start: u64 = (net.addr.bits as u64 / size) * size;
                    let target = Ipv4 { bits: (start + self.offset) as u32 };
                    let ghost at = self.probed(ips) as int;
                    proof {
                        let part = targets(ips.take(self.network + 1));
                        assert(part[at] == addresses(net)[self.offset as int]);
                        assert(targets(ips)[at] == part[at]);
                    }
                    if self.offset + 1 == size {
                        self.network = self.network + 1;
                        self.offset = 0;
                    } else {
                        self.offset = self.offset + 1;
                    }
                    proof {
                        lemma_next_span(ips, self.network as int);
                        if self.offset == 0 {
                            assert(self.probed(ips) == at + 1);
                        }
                    }
                    let probe = encode_probe(interface, target);
                    return ScanStep::Probe { delay_ms: PROBE_DELAY_MS, target, probe };
                },
                IpNetwork::Other => {
                    proof {
                        assert(ips.take(self.network + 1).drop_last() =~= ips.take(
                            self.network as int,
                        ));
                        assert(ips.take(self.network + 1).last() == ips[self.network as int]);
                    }
                    self.network = self.network + 1;
                    proof {
                        lemma_next_span(ips, self.network as int);
                    }
                },
            }
        }
        proof {
            assert(ips.take(n as int) =~= ips);
        }
        self.finished = true;
        ScanStep::Complete
    }
}

/// A network of prefix length `p` has `2^(32 - p)` addresses, the first
/// of them the network address and the last the broadcast address.
pub proof fn lemma_addresses(n: Ipv4Network)
    requires
        n.prefix <= 32,
    ensures
        addresses(n).len() == pow2((32 - n.prefix) as nat),
        addresses(n)[0].bits == network_start(n),
        addresses(n).last().bits == network_start(n) + span(n.prefix) - 1,
        network_start(n) <= n.addr.bits < network_start(n) + span(n.prefix),
{
    lemma2_to64();
    lemma_network_bounds(n);
    let s = span(n.prefix);
    let b = n.addr.bits as nat;
    assert(b < (b / s) * s + s) by (nonlinear_arith)
        requires
            s > 0,
    {
        vstd::arithmetic::div_mod::lemma_fundamental_div_mod(b as int, s as int);
        vstd::arithmetic::div_mod::lemma_mod_bound(b as int, s as int);
        assert(s * (b / s) == (b / s) * s);
    }
}

} // verus!
