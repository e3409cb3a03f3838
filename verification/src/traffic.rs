//! Traffic samples: what one observed flow is keyed by, how it is classified
//! against the interface's addresses, and the endpoint pair it counts for.

use vstd::prelude::*;
use crate::maps::Coded;
use crate::net::Ipv4;
use crate::speed::{Rate, Speed};

verus! {

/// How a flow lies relative to the observing interface.
#[derive(Clone, Copy, Debug, PartialEq, Eq, Structural, Hash)]
pub enum Direction {
    /// Neither endpoint is an address of the interface.
    Neither,
    /// Only the source is an address of the interface.
    Outgoing,
    /// Only the destination is an address of the interface.
    Incoming,
    /// Both endpoints are addresses of the interface.
    Local,
}

/// What a traffic sample is keyed by.
#[derive(Clone, Copy, Debug, PartialEq, Eq, Structural, Hash)]
pub struct StatKey {
    pub src_port: u16,
    pub dst_port: u16,
    pub src_ip: Ipv4,
    pub dst_ip: Ipv4,
    pub direction: Direction,
}

/// The bits counted for one key within one second.
#[derive(Clone, Copy, Debug, PartialEq, Eq, Structural)]
pub struct StatValues {
    pub size: u128,
}

/// One traffic sample: a key and the bits observed for it.
#[derive(Clone, Copy, Debug, PartialEq, Eq, Structural)]
pub struct StatItem {
    pub key: StatKey,
    pub value: StatValues,
}

/// Two endpoints that talk to each other, in canonical order, so that both
/// directions of a conversation fall on one pair.
#[derive(Clone, Copy, Debug, PartialEq, Eq, Structural, Hash, PartialOrd, Ord)]
pub struct IpPair {
    pub src_ip: Ipv4,
    pub dst_ip: Ipv4,
    pub is_local: bool,
}

impl Direction {
    /// The direction of a flow from `src` to `dst`, given which of the two
    /// are addresses of the interface.
    pub open spec fn classify(src_is_ours: bool, dst_is_ours: bool) -> Direction {
        if src_is_ours && dst_is_ours {
            Direction::Local
        } else if src_is_ours {
            Direction::Outgoing
        } else if dst_is_ours {
            Direction::Incoming
        } else {
            Direction::Neither
        }
    }

    /// Classifies a flow by whether its endpoints are addresses of the
    /// interface.
    pub fn of(src_is_ours: bool, dst_is_ours: bool) -> (d: Direction)
        ensures
            d == Direction::classify(src_is_ours, dst_is_ours),
    {
        if src_is_ours && dst_is_ours {
            Direction::Local
        } else if src_is_ours {
            Direction::Outgoing
        } else if dst_is_ours {
            Direction::Incoming
        } else {
            Direction::Neither
        }
    }

    pub open spec fn index(self) -> nat {
        match self {
            Direction::Neither => 0,
            Direction::Outgoing => 1,
            Direction::Incoming => 2,
            Direction::Local => 3,
        }
    }
}

impl StatKey {
    /// Whether the canonical pair lists the endpoints in the opposite order
    /// to the sample: an outgoing sample is turned so that the remote
    /// endpoint comes first, a local one so that the smaller address does.
    pub open spec fn swaps(self) -> bool {
        match self.direction {
            Direction::Outgoing => true,
            Direction::Local => self.src_ip.bits > self.dst_ip.bits,
            _ => false,
        }
    }

    /// The canonical pair of the sample's endpoints.
    pub open spec fn pair_of(self) -> IpPair {
        let is_local = self.direction == Direction::Local;
        if self.swaps() {
            IpPair { src_ip: self.dst_ip, dst_ip: self.src_ip, is_local }
        } else {
            IpPair { src_ip: self.src_ip, dst_ip: self.dst_ip, is_local }
        }
    }

    /// The pair whose speed the sample counts for: its canonical pair, and
    /// none for a sample between strangers, which is discarded.
    pub open spec fn counts_for(self) -> Option<IpPair> {
        if self.direction == Direction::Neither {
            None
        } else {
            Some(self.pair_of())
        }
    }

    /// What `bits` observed for this key add to the speed of its pair:
    /// outgoing bits are output, incoming bits input; local bits are output
    /// when the pair turned the endpoints round and input otherwise; bits
    /// of a flow between strangers add nothing.
    pub open spec fn share_of(self, bits: nat) -> Rate {
        match self.direction {
            Direction::Outgoing => Rate { input: 0, output: bits },
            Direction::Incoming => Rate { input: bits, output: 0 },
            Direction::Local => if self.swaps() {
                Rate { input: 0, output: bits }
            } else {
                Rate { input: bits, output: 0 }
            },
            Direction::Neither => Rate::zero(),
        }
    }

    /// The pair whose speed the sample counts for, none for a sample
    /// between strangers.
    pub fn counted_pair(&self) -> (p: Option<IpPair>)
        ensures
            p == self.counts_for(),
    {
        match self.direction {
            Direction::Neither => None,
            _ => Some(self.pair()),
        }
    }

    /// The canonical pair of the sample's endpoints.
    pub fn pair(&self) -> (p: IpPair)
        ensures
            p == self.pair_of(),
    {
        let is_local = match self.direction {
            Direction::Local => true,
            _ => false,
        };
        let turn = match self.direction {
            Direction::Outgoing => true,
            Direction::Local => self.src_ip.bits > self.dst_ip.bits,
            _ => false,
        };
        if turn {
            IpPair { src_ip: self.dst_ip, dst_ip: self.src_ip, is_local }
        } else {
            IpPair { src_ip: self.src_ip, dst_ip: self.dst_ip, is_local }
        }
    }

    /// What `bits` observed for this key add to the speed of its pair.
    pub fn share(&self, bits: u128) -> (s: Speed)
        ensures
            s@ == self.share_of(bits as nat),
    {
        match self.direction {
            Direction::Outgoing => Speed { input: 0, output: bits },
            Direction::Incoming => Speed { input: bits, output: 0 },
            Direction::Local => if self.src_ip.bits > self.dst_ip.bits {
                Speed { input: 0, output: bits }
            } else {
                Speed { input: bits, output: 0 }
            },
            Direction::Neither => Speed { input: 0, output: 0 },
        }
    }
}

impl Coded for StatKey {
    open spec fn code_of(&self) -> u128 {
        (((((self.direction.index() * 65536 + self.src_port) * 65536 + self.dst_port) * 4294967296
            + self.src_ip.bits) * 4294967296) + self.dst_ip.bits) as u128
    }

    fn code(&self) -> (c: u128) {
        let d: u128 = match self.direction {
            Direction::Neither => 0,
            Direction::Outgoing => 1,
            Direction::Incoming => 2,
            Direction::Local => 3,
        };
        let ports: u128 = (d * 65536 + self.src_port as u128) * 65536 + self.dst_port as u128;
        (ports * 4294967296 + self.src_ip.bits as u128) * 4294967296 + self.dst_ip.bits as u128
    }

    proof fn lemma_code_injective(a: Self, b: Self) {
        if a.code_of() == b.code_of() {
            let pa = (a.direction.index() * 65536 + a.src_port) * 65536 + a.dst_port;
            let pb = (b.direction.index() * 65536 + b.src_port) * 65536 + b.dst_port;
            let qa = pa * 4294967296 + a.src_ip.bits;
            let qb = pb * 4294967296 + b.src_ip.bits;
            assert(qa * 4294967296 + a.dst_ip.bits == qb * 4294967296 + b.dst_ip.bits);
            assert(qa == qb && a.dst_ip.bits == b.dst_ip.bits);
            assert(pa == pb && a.src_ip.bits == b.src_ip.bits);
            let da = a.direction.index() * 65536 + a.src_port;
            let db = b.direction.index() * 65536 + b.src_port;
            assert(da == db && a.dst_port == b.dst_port);
            assert(a.direction.index() == b.direction.index() && a.src_port == b.src_port);
            assert(a.direction == b.direction);
        }
    }
}

impl Coded for IpPair {
    open spec fn code_of(&self) -> u128 {
        ((self.src_ip.bits * 4294967296 + self.dst_ip.bits) * 2 + if self.is_local {
            1nat
        } else {
            0nat
        }) as u128
    }

    fn code(&self) -> (c: u128) {
        let flag: u128 = if self.is_local {
            1
        } else {
            0
        };
        (self.src_ip.bits as u128 * 4294967296 + self.dst_ip.bits as u128) * 2 + flag
    }

    proof fn lemma_code_injective(a: Self, b: Self) {
        if a.code_of() == b.code_of() {
            let qa = a.src_ip.bits * 4294967296 + a.dst_ip.bits;
            let qb = b.src_ip.bits * 4294967296 + b.dst_ip.bits;
            assert(qa == qb && a.is_local == b.is_local);
            assert(a.src_ip.bits == b.src_ip.bits && a.dst_ip.bits == b.dst_ip.bits);
        }
    }
}

/// The order of pair codes is the order of pairs by source address, then
/// destination address, then the local flag, a pair without it first.
pub proof fn lemma_pair_order(a: IpPair, b: IpPair)
    ensures
        a.code_of() < b.code_of() <==> (a.src_ip.bits < b.src_ip.bits || (a.src_ip.bits
            == b.src_ip.bits && (a.dst_ip.bits < b.dst_ip.bits || (a.dst_ip.bits == b.dst_ip.bits
            && !a.is_local && b.is_local)))),
{
}

} // verus!
