//! Link-layer and IPv4 addresses.

use vstd::prelude::*;
use vstd::string::StringExecFns;
use crate::maps::Coded;
use crate::text::{decimal, push_decimal};

verus! {

/// A 48-bit hardware address, octet by octet in transmission order.
#[derive(Clone, Copy, Debug, PartialEq, Eq, Structural, Hash, PartialOrd, Ord)]
pub struct Mac(pub u8, pub u8, pub u8, pub u8, pub u8, pub u8);

impl Mac {
    /// The address that every station on the link receives.
    pub fn broadcast() -> (m: Mac)
        ensures
            m == Mac(0xff, 0xff, 0xff, 0xff, 0xff, 0xff),
    {
        Mac(0xff, 0xff, 0xff, 0xff, 0xff, 0xff)
    }

    /// The all-zero address, which stands for an interface without one.
    pub fn zero() -> (m: Mac)
        ensures
            m == Mac(0, 0, 0, 0, 0, 0),
    {
        Mac(0, 0, 0, 0, 0, 0)
    }

    /// The six octets in transmission order.
    pub open spec fn octets(self) -> Seq<u8> {
        seq![self.0, self.1, self.2, self.3, self.4, self.5]
    }
}

/// An IPv4 address, held as the 32-bit number that its four octets write
/// in network order.
#[derive(Clone, Copy, Debug, PartialEq, Eq, Structural, Hash, PartialOrd, Ord)]
pub struct Ipv4 {
    pub bits: u32,
}

/// The number that four octets write in network order.
pub open spec fn octets_value(a: u8, b: u8, c: u8, d: u8) -> nat {
    (a as nat) * 16777216 + (b as nat) * 65536 + (c as nat) * 256 + (d as nat)
}

proof fn lemma_octets_of_value(a: u32, b: u32, c: u32, d: u32)
    by (bit_vector)
    requires
        a < 256,
        b < 256,
        c < 256,
        d < 256,
    ensures
        ({
            let bits = (a * 16777216 + b * 65536 + c * 256 + d) as u32;
            &&& bits / 16777216 == a
            &&& (bits / 65536) % 256 == b
            &&& (bits / 256) % 256 == c
            &&& bits % 256 == d
        }),
{
}

proof fn lemma_value_of_octets(bits: u32)
    by (bit_vector)
    ensures
        bits == ((bits / 16777216) * 16777216 + ((bits / 65536) % 256) * 65536 + ((bits / 256)
            % 256) * 256 + bits % 256) as u32,
        bits / 16777216 < 256,
{
}

impl Ipv4 {
    /// The address `a.b.c.d`.
    pub open spec fn of_octets(a: u8, b: u8, c: u8, d: u8) -> Ipv4 {
        Ipv4 { bits: octets_value(a, b, c, d) as u32 }
    }

    /// An address is the one that its octets write.
    pub proof fn lemma_octets(self)
        ensures
            Ipv4::of_octets(
                self.octets()[0],
                self.octets()[1],
                self.octets()[2],
                self.octets()[3],
            ) == self,
    {
        lemma_value_of_octets(self.bits);
    }

    /// The address `a.b.c.d`.
    pub fn new(a: u8, b: u8, c: u8, d: u8) -> (ip: Ipv4)
        ensures
            ip == Ipv4::of_octets(a, b, c, d),
            ip.octets() == seq![a, b, c, d],
    {
        let bits: u32 = (a as u32) * 16777216 + (b as u32) * 65536 + (c as u32) * 256 + (d as u32);
        let ip = Ipv4 { bits };
        proof {
            lemma_octets_of_value(a as u32, b as u32, c as u32, d as u32);
        }
        assert(ip.octets() =~= seq![a, b, c, d]);
        ip
    }

    /// The four octets in network order.
    pub open spec fn octets(self) -> Seq<u8> {
        seq![
            (self.bits / 16777216) as u8,
            ((self.bits / 65536) % 256) as u8,
            ((self.bits / 256) % 256) as u8,
            (self.bits % 256) as u8,
        ]
    }

    /// The four octets in network order.
    pub fn to_octets(&self) -> (o: (u8, u8, u8, u8))
        ensures
            seq![o.0, o.1, o.2, o.3] == self.octets(),
            octets_value(o.0, o.1, o.2, o.3) == self.bits,
    {
        proof {
            lemma_value_of_octets(self.bits);
        }
        let o = (
            (self.bits / 16777216) as u8,
            ((self.bits / 65536) % 256) as u8,
            ((self.bits / 256) % 256) as u8,
            (self.bits % 256) as u8,
        );
        assert(seq![o.0, o.1, o.2, o.3] =~= self.octets());
        o
    }

    /// Dotted-decimal text of the address.
    pub open spec fn text(self) -> Seq<char> {
        decimal(self.octets()[0] as nat).push('.') + decimal(self.octets()[1] as nat).push('.')
            + decimal(self.octets()[2] as nat).push('.') + decimal(self.octets()[3] as nat)
    }

    /// The address in dotted-decimal notation.
    pub fn to_string(&self) -> (s: String)
        ensures
            s@ == self.text(),
    {
        let o = self.to_octets();
        let mut out = String::new();
        proof {
            reveal_strlit(".");
        }
        push_decimal(&mut out, o.0 as u128);
        out.append(".");
        push_decimal(&mut out, o.1 as u128);
        out.append(".");
        push_decimal(&mut out, o.2 as u128);
        out.append(".");
        push_decimal(&mut out, o.3 as u128);
        assert(out@ =~= self.text());
        out
    }
}

impl Coded for Ipv4 {
    open spec fn code_of(&self) -> u128 {
        self.bits as u128
    }

    fn code(&self) -> (c: u128) {
        self.bits as u128
    }

    proof fn lemma_code_injective(a: Self, b: Self) {
    }
}

/// An IPv4 address with the length of its network prefix.
#[derive(Clone, Copy, Debug, PartialEq, Eq, Structural)]
pub struct Ipv4Network {
    pub addr: Ipv4,
    pub prefix: u8,
}

/// An address bound to an interface: an IPv4 network, or one of another
/// family, of which nothing is kept.
#[derive(Clone, Copy, Debug, PartialEq, Eq, Structural)]
pub enum IpNetwork {
    V4(Ipv4Network),
    Other,
}

} // verus!
