//! Discovered hosts and the list that holds each of them once.

use vstd::prelude::*;
use vstd::std_specs::cmp::PartialEqSpecImpl;
use crate::net::{Ipv4, Mac};
use crate::speed::{Rate, Speed};
use crate::tally::SpeedMap;

verus! {

/// A host that answered on the link.
#[derive(Clone, Debug)]
pub struct Host {
    /// When the host was last seen, in milliseconds since the epoch.
    pub time: i64,
    pub ipv4: Ipv4,
    pub mac: Mac,
    /// The name of the host; the engine never resolves one.
    pub hostname: Option<String>,
    /// Whether the hardware address is that of the observing interface.
    pub is_my_device_mac: bool,
    /// The speed last estimated for the host.
    pub speed: Option<Speed>,
}

impl Host {
    /// Two records are of the same host when address and hardware address agree.
    pub open spec fn same_as(self, other: Host) -> bool {
        self.ipv4 == other.ipv4 && self.mac == other.mac
    }
}

impl PartialEq for Host {
    fn eq(&self, other: &Self) -> (r: bool) {
        self.ipv4 == other.ipv4 && self.mac == other.mac
    }
}

impl PartialEqSpecImpl for Host {
    open spec fn obeys_eq_spec() -> bool {
        true
    }

    open spec fn eq_spec(&self, other: &Self) -> bool {
        self.ipv4 == other.ipv4 && self.mac == other.mac
    }
}

/// The place of the first record of the host of `host` in `hosts`, if it has one.
pub open spec fn known_at(hosts: Seq<Host>, host: Host, i: int) -> bool {
    &&& 0 <= i < hosts.len()
    &&& hosts[i].same_as(host)
    &&& forall|j: int| 0 <= j < i ==> !(#[trigger] hosts[j]).same_as(host)
}

/// No record of the host of `host` is in `hosts`.
pub open spec fn unknown(hosts: Seq<Host>, host: Host) -> bool {
    forall|j: int| 0 <= j < hosts.len() ==> !(#[trigger] hosts[j]).same_as(host)
}

/// No host has two records.
pub open spec fn each_once(hosts: Seq<Host>) -> bool {
    forall|i: int, j: int|
        0 <= i < j < hosts.len() ==> !(#[trigger] hosts[i]).same_as(#[trigger] hosts[j])
}

/// The place of the first record of the host of `host`, if it has one.
pub fn find_host(hosts: &Vec<Host>, host: &Host) -> (r: Option<usize>)
    ensures
        match r {
            Some(i) => known_at(hosts@, *host, i as int),
            None => unknown(hosts@, *host),
        },
{
    let n = hosts.len();
    let mut i: usize = 0;
    while i < n
        invariant
            i <= n,
            n == hosts@.len(),
            forall|j: int| 0 <= j < i ==> !(#[trigger] hosts@[j]).same_as(*host),
        decreases n - i,
    {
        if hosts[i].ipv4 == host.ipv4 && hosts[i].mac == host.mac {
            return Some(i);
        }
        i = i + 1;
    }
    None
}

/// Takes a found host into the list. A host that is in the list already,
/// by address and hardware address, keeps its place and the speed last
/// estimated for it, and takes everything else from the new record; a new
/// host is added at the end. Returns whether the host was new.
pub fn note_host(hosts: &mut Vec<Host>, host: Host) -> (added: bool)
    ensures
        added == unknown(old(hosts)@, host),
        added ==> final(hosts)@ == old(hosts)@.push(host),
        !added ==> exists|i: int|
            {
                &&& #[trigger] known_at(old(hosts)@, host, i)
                &&& final(hosts)@ == old(hosts)@.update(
                    i,
                    Host {
                        time: host.time,
                        ipv4: host.ipv4,
                        mac: host.mac,
                        hostname: host.hostname,
                        is_my_device_mac: host.is_my_device_mac,
                        speed: old(hosts)@[i].speed,
                    },
                )
            },
        each_once(old(hosts)@) ==> each_once(final(hosts)@),
{
    match find_host(hosts, &host) {
        Some(i) => {
            let speed = hosts[i].speed;
            let kept = Host {
                time: host.time,
                ipv4: host.ipv4,
                mac: host.mac,
                hostname: host.hostname,
                is_my_device_mac: host.is_my_device_mac,
                speed,
            };
            hosts[i] = kept;
            proof {
                assert(known_at(old(hosts)@, host, i as int));
                if each_once(old(hosts)@) {
                    assert forall|a: int, b: int| 0 <= a < b < hosts@.len() implies !(
                    #[trigger] hosts@[a]).same_as(#[trigger] hosts@[b]) by {
                        assert(!old(hosts)@[a].same_as(old(hosts)@[b]));
                    }
                }
            }
            false
        },
        None => {
            hosts.push(host);
            proof {
                if each_once(old(hosts)@) {
                    assert forall|a: int, b: int| 0 <= a < b < hosts@.len() implies !(
                    #[trigger] hosts@[a]).same_as(#[trigger] hosts@[b]) by {
                        if b < old(hosts)@.len() {
                            assert(!old(hosts)@[a].same_as(old(hosts)@[b]));
                        } else {
                            assert(!old(hosts)@[a].same_as(host));
                        }
                    }
                }
            }
            true
        },
    }
}

/// The record `h` with the speed that `speeds` holds for its address, or
/// unchanged if it holds none.
pub open spec fn with_speed(h: Host, speeds: Map<Ipv4, Rate>) -> Host {
    if speeds.contains_key(h.ipv4) {
        Host {
            time: h.time,
            ipv4: h.ipv4,
            mac: h.mac,
            hostname: h.hostname,
            is_my_device_mac: h.is_my_device_mac,
            speed: Some(
                Speed {
                    input: speeds[h.ipv4].input as u128,
                    output: speeds[h.ipv4].output as u128,
                },
            ),
        }
    } else {
        h
    }
}

/// Gives every host of the list the speed that `speeds` holds for its
/// address; a host for which it holds none keeps the speed it has.
pub fn assign_speeds(hosts: &mut Vec<Host>, speeds: &SpeedMap<Ipv4>)
    requires
        speeds.wf(),
    ensures
        final(hosts)@.len() == old(hosts)@.len(),
        forall|i: int|
            0 <= i < old(hosts)@.len() ==> (#[trigger] final(hosts)@[i]) == with_speed(
                old(hosts)@[i],
                speeds@,
            ),
{
    let n = hosts.len();
    let mut i: usize = 0;
    while i < n
        invariant
            i <= n,
            n == hosts@.len(),
            n == old(hosts)@.len(),
            speeds.wf(),
            forall|j: int|
                0 <= j < i ==> (#[trigger] hosts@[j]) == with_speed(old(hosts)@[j], speeds@),
            forall|j: int| i <= j < n ==> (#[trigger] hosts@[j]) == old(hosts)@[j],
        decreases n - i,
    {
        let ip = hosts[i].ipv4;
        proof {
            speeds.lemma_bounded();
        }
        match speeds.get(&ip) {
            Some(s) => {
                hosts[i].speed = Some(s);
                assert(speeds@[ip].fits());
            },
            None => {},
        }
        i = i + 1;
    }
}

/// Removes the host at `selected` and every host last seen no later than
/// it; nothing happens if `selected` is no place of the list.
pub fn clean_host_and_olders(hosts: &mut Vec<Host>, selected: Option<usize>) -> (done: bool)
    ensures
        done == (selected matches Some(i) && i < old(hosts)@.len()),
        !done ==> final(hosts)@ == old(hosts)@,
        done ==> final(hosts)@ == old(hosts)@.filter(
            |h: Host| h.time > old(hosts)@[selected->0 as int].time,
        ),
{
    let at = match selected {
        Some(i) => i,
        None => {
            return false;
        },
    };
    if at >= hosts.len() {
        return false;
    }
    let limit = hosts[at].time;
    let ghost before = hosts@;
    let ghost keep = |h: Host| h.time > limit;
    let ghost mut k: int = 0;
    let mut i: usize = 0;
    proof {
        reveal_with_fuel(Seq::<Host>::filter, 2);
        assert(before.take(0) =~= Seq::<Host>::empty());
        assert(before.skip(0) =~= before);
        assert(Seq::<Host>::empty() + before =~= before);
    }
    while i < hosts.len()
        invariant
            0 <= k <= before.len(),
            keep == |h: Host| h.time > limit,
            i == before.take(k).filter(keep).len(),
            hosts@ == before.take(k).filter(keep) + before.skip(k),
        decreases before.len() - k,
    {
        proof {
            reveal_with_fuel(Seq::<Host>::filter, 2);
            assert(hosts@[i as int] == before.skip(k)[0]);
            assert(before.take(k + 1).drop_last() =~= before.take(k));
            assert(before.take(k + 1).last() == before[k]);
            assert(before.skip(k).drop_first() =~= before.skip(k + 1));
        }
        if hosts[i].time > limit {
            proof {
                assert(hosts@ =~= before.take(k + 1).filter(keep) + before.skip(k + 1));
            }
            i = i + 1;
        } else {
            hosts.remove(i);
            proof {
                assert(hosts@ =~= before.take(k + 1).filter(keep) + before.skip(k + 1));
            }
        }
        proof {
            k = k + 1;
        }
    }
    proof {
        assert(before.take(k) =~= before);
        assert(hosts@ =~= before.filter(keep));
    }
    true
}

} // verus!
