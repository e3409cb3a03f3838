//! The description of a network interface, and the choice among the
//! interfaces of the machine.

use vstd::prelude::*;
use crate::error::ScanError;
use crate::net::{IpNetwork, Ipv4, Mac};

verus! {

/// What the engine needs to know of a network interface.
pub struct Interface {
    pub name: String,
    pub mac: Option<Mac>,
    pub ips: Vec<IpNetwork>,
    pub up: bool,
    pub running: bool,
    pub loopback: bool,
}

/// The text `s` in lower case, as `str::to_lowercase` writes it.
pub uninterp spec fn lowered(s: Seq<char>) -> Seq<char>;

/// `needle` occurs in `hay` as a run of consecutive characters.
pub open spec fn occurs_in(needle: Seq<char>, hay: Seq<char>) -> bool {
    exists|i: int|
        0 <= i && i + needle.len() <= hay.len() && #[trigger] hay.subrange(i, i + needle.len())
            == needle
}

/// `str::to_lowercase`: the lower-case form of the text, which depends on
/// the text alone.
#[verifier::external_body]
fn lowercase(s: &str) -> (r: String)
    ensures
        r@ == lowered(s@),
{
    s.to_lowercase()
}

/// `str::contains` with a string as the pattern: whether the pattern
/// matches a sub-slice of the text.
#[verifier::external_body]
fn contains_text(hay: &str, needle: &str) -> (b: bool)
    ensures
        b == occurs_in(needle@, hay@),
{
    hay.contains(needle)
}

impl Interface {
    /// The interface is up, running, and not a loopback.
    pub open spec fn usable(&self) -> bool {
        self.up && self.running && !self.loopback
    }

    /// The interface is usable and its name holds `fragment`, letter case
    /// put aside.
    pub open spec fn fits(&self, fragment: Seq<char>) -> bool {
        self.usable() && occurs_in(lowered(fragment), lowered(self.name@))
    }

    /// `ip` is an IPv4 address bound to the interface.
    pub open spec fn owns(&self, ip: Ipv4) -> bool {
        exists|i: int|
            0 <= i < self.ips@.len() && (#[trigger] self.ips@[i] matches IpNetwork::V4(n) && n.addr
                == ip)
    }

    /// The address of the first IPv4 network bound to the interface.
    pub open spec fn source_ip(&self) -> Option<Ipv4> {
        first_ipv4(self.ips@)
    }

    /// Whether `ip` is an IPv4 address bound to the interface.
    pub fn has_address(&self, ip: Ipv4) -> (b: bool)
        ensures
            b == self.owns(ip),
    {
        let n = self.ips.len();
        let mut i: usize = 0;
        while i < n
            invariant
                i <= n,
                n == self.ips@.len(),
                forall|j: int|
                    0 <= j < i ==> !(#[trigger] self.ips@[j] matches IpNetwork::V4(net) && net.addr
                        == ip),
            decreases n - i,
        {
            match self.ips[i] {
                IpNetwork::V4(net) => {
                    if net.addr.bits == ip.bits {
                        return true;
                    }
                },
                IpNetwork::Other => {},
            }
            i = i + 1;
        }
        false
    }

    /// The address that probes are sent from: that of the first IPv4
    /// network bound to the interface, if there is one.
    pub fn find_source_ip(&self) -> (r: Option<Ipv4>)
        ensures
            r == self.source_ip(),
    {
        let n = self.ips.len();
        let mut i: usize = 0;
        assert(self.ips@.skip(0) =~= self.ips@);
        while i < n
            invariant
                i <= n,
                n == self.ips@.len(),
                first_ipv4(self.ips@) == first_ipv4(self.ips@.skip(i as int)),
            decreases n - i,
        {
            match self.ips[i] {
                IpNetwork::V4(net) => {
                    assert(self.ips@.skip(i as int)[0] == self.ips@[i as int]);
                    return Some(net.addr);
                },
                IpNetwork::Other => {
                    assert(self.ips@.skip(i as int)[0] == self.ips@[i as int]);
                    assert(self.ips@.skip(i as int).drop_first() =~= self.ips@.skip(i + 1));
                },
            }
            i = i + 1;
        }
        None
    }
}

/// The address of the first IPv4 network in a list of networks.
pub open spec fn first_ipv4(ips: Seq<IpNetwork>) -> Option<Ipv4>
    decreases ips.len(),
{
    if ips.len() == 0 {
        None
    } else {
        match ips[0] {
            IpNetwork::V4(n) => Some(n.addr),
            IpNetwork::Other => first_ipv4(ips.drop_first()),
        }
    }
}

/// An interface with an IPv4 network has an address to send from.
pub proof fn lemma_source_ip_exists(ips: Seq<IpNetwork>, k: int)
    requires
        0 <= k < ips.len(),
        ips[k] is V4,
    ensures
        first_ipv4(ips) is Some,
    decreases ips.len(),
{
    if !(ips[0] is V4) {
        assert(ips.drop_first()[k - 1] == ips[k]);
        lemma_source_ip_exists(ips.drop_first(), k - 1);
    }
}

/// The place of the interface that a search from the back finds first
/// among those that fit `fragment`.
pub open spec fn chosen(interfaces: Seq<Interface>, fragment: Seq<char>, i: int) -> bool {
    &&& 0 <= i < interfaces.len()
    &&& interfaces[i].fits(fragment)
    &&& forall|j: int| i < j < interfaces.len() ==> !(#[trigger] interfaces[j]).fits(fragment)
}

/// The place of the last usable interface.
pub open spec fn last_usable(interfaces: Seq<Interface>, i: int) -> bool {
    &&& 0 <= i < interfaces.len()
    &&& interfaces[i].usable()
    &&& forall|j: int| i < j < interfaces.len() ==> !(#[trigger] interfaces[j]).usable()
}

/// The place of the interface that `name` selects: going through the
/// interfaces from the last to the first, the first one that is usable and
/// whose name holds `name`, letter case put aside.
pub fn find_interface(interfaces: &Vec<Interface>, name: &str) -> (r: Result<usize, ScanError>)
    ensures
        match r {
            Ok(i) => chosen(interfaces@, name@, i as int),
            Err(e) => e == ScanError::InterfaceUnavailable && forall|j: int|
                0 <= j < interfaces@.len() ==> !(#[trigger] interfaces@[j]).fits(name@),
        },
{
    let wanted = lowercase(name);
    let mut i: usize = interfaces.len();
    while i > 0
        invariant
            i <= interfaces@.len(),
            wanted@ == lowered(name@),
            forall|j: int| i <= j < interfaces@.len() ==> !(#[trigger] interfaces@[j]).fits(name@),
        decreases i,
    {
        i = i - 1;
        let nif = &interfaces[i];
        if nif.up && nif.running && !nif.loopback {
            let lower = lowercase(nif.name.as_str());
            if contains_text(lower.as_str(), wanted.as_str()) {
                return Ok(i);
            }
        }
    }
    Err(ScanError::InterfaceUnavailable)
}

/// The place of the interface to work on: the one that `name` selects,
/// or, if it selects none, the last usable interface.
pub fn find_interface_or_get_default(interfaces: &Vec<Interface>, name: &str) -> (r: Result<
    usize,
    ScanError,
>)
    ensures
        match r {
            Ok(i) => chosen(interfaces@, name@, i as int) || (last_usable(interfaces@, i as int)
                && forall|j: int|
                0 <= j < interfaces@.len() ==> !(#[trigger] interfaces@[j]).fits(name@)),
            Err(e) => e == ScanError::InterfaceUnavailable && forall|j: int|
                0 <= j < interfaces@.len() ==> !(#[trigger] interfaces@[j]).usable(),
        },
{
    match find_interface(interfaces, name) {
        Ok(i) => Ok(i),
        Err(_) => {
            let mut i: usize = interfaces.len();
            while i > 0
                invariant
                    i <= interfaces@.len(),
                    forall|j: int|
                        0 <= j < interfaces@.len() ==> !(#[trigger] interfaces@[j]).fits(name@),
                    forall|j: int|
                        i <= j < interfaces@.len() ==> !(#[trigger] interfaces@[j]).usable(),
                decreases i,
            {
                i = i - 1;
                let nif = &interfaces[i];
                if nif.up && nif.running && !nif.loopback {
                    return Ok(i);
                }
            }
            Err(ScanError::InterfaceUnavailable)
        },
    }
}

} // verus!
