//! Throughput values and their human-readable form.

use vstd::prelude::*;
use vstd::string::StringExecFns;
use crate::text::{fixed2, push_fixed2};

verus! {

/// A pair of bit rates as mathematical numbers: what a [`Speed`] stands for.
pub struct Rate {
    pub input: nat,
    pub output: nat,
}

impl Rate {
    pub open spec fn zero() -> Rate {
        Rate { input: 0, output: 0 }
    }

    pub open spec fn plus(self, other: Rate) -> Rate {
        Rate { input: self.input + other.input, output: self.output + other.output }
    }

    /// Both components divided by `n`, rounding down.
    pub open spec fn over(self, n: nat) -> Rate {
        Rate { input: self.input / n, output: self.output / n }
    }

    /// Both components fit a `Speed`.
    pub open spec fn fits(self) -> bool {
        self.input <= u128::MAX && self.output <= u128::MAX
    }
}

/// Input and output throughput in bits per second.
#[derive(Clone, Copy, Debug, PartialEq, Eq, Structural)]
pub struct Speed {
    pub output: u128,
    pub input: u128,
}

impl View for Speed {
    type V = Rate;

    open spec fn view(&self) -> Rate {
        Rate { input: self.input as nat, output: self.output as nat }
    }
}

impl Default for Speed {
    /// The speed with both rates zero.
    fn default() -> (s: Speed)
        ensures
            s@ == Rate::zero(),
    {
        Speed { output: 0, input: 0 }
    }
}

impl core::ops::Add for Speed {
    type Output = Speed;

    /// The sum of two speeds, rate by rate.
    fn add(self, rhs: Speed) -> (sum: Speed) {
        Speed { input: self.input + rhs.input, output: self.output + rhs.output }
    }
}

impl vstd::std_specs::ops::AddSpecImpl for Speed {
    open spec fn obeys_add_spec() -> bool {
        true
    }

    /// Both sums fit 128 bits.
    open spec fn add_req(self, rhs: Speed) -> bool {
        self@.plus(rhs@).fits()
    }

    open spec fn add_spec(self, rhs: Speed) -> Speed {
        Speed {
            input: (self.input + rhs.input) as u128,
            output: (self.output + rhs.output) as u128,
        }
    }
}

impl core::ops::Div<u128> for Speed {
    type Output = Speed;

    /// Both rates divided by `rhs`, rounding down.
    fn div(self, rhs: u128) -> (part: Speed) {
        Speed { input: self.input / rhs, output: self.output / rhs }
    }
}

impl vstd::std_specs::ops::DivSpecImpl<u128> for Speed {
    open spec fn obeys_div_spec() -> bool {
        true
    }

    /// The divisor is not zero.
    open spec fn div_req(self, rhs: u128) -> bool {
        rhs != 0
    }

    open spec fn div_spec(self, rhs: u128) -> Speed {
        Speed { input: self.input / rhs, output: self.output / rhs }
    }
}

/// `n / d` rounded to the nearest integer, a tie going to the even neighbour.
pub open spec fn round_half_even(n: nat, d: nat) -> nat {
    let q = n / d;
    let r = n % d;
    if 2 * r < d {
        q
    } else if 2 * r > d {
        q + 1
    } else if q % 2 == 0 {
        q
    } else {
        q + 1
    }
}

pub open spec fn unit_bit() -> Seq<char> {
    seq![' ', 'B', 'i', 't', '/', 's']
}

pub open spec fn unit_kib() -> Seq<char> {
    seq![' ', 'K', 'i', 'b', '/', 's']
}

pub open spec fn unit_mib() -> Seq<char> {
    seq![' ', 'M', 'i', 'b', '/', 's']
}

/// The text of a bit rate: below 1024 in Bit/s, below 1024 * 1024 in Kib/s,
/// from there on in Mib/s, always with two decimals.
pub open spec fn size_text(bits: nat) -> Seq<char> {
    if bits < 1024 {
        fixed2(bits * 100) + unit_bit()
    } else if bits < 1024 * 1024 {
        fixed2(round_half_even(bits * 100, 1024)) + unit_kib()
    } else {
        fixed2(round_half_even(bits * 100, 1024 * 1024)) + unit_mib()
    }
}

/// The text of a speed: the input rate after a down arrow, the output rate
/// after an up arrow.
pub open spec fn speed_text(r: Rate) -> Seq<char> {
    seq!['\u{2193}', ' '] + size_text(r.input) + seq![' ', '|', ' ', '\u{2191}', ' '] + size_text(
        r.output,
    )
}

/// `n / d` rounded half to even, for a dividend that fits.
fn rounded_div(n: u128, d: u128) -> (q: u128)
    requires
        d > 0,
        n / d < u128::MAX,
    ensures
        q == round_half_even(n as nat, d as nat),
{
    let q = n / d;
    let r = n % d;
    let rest = d - r;
    if r < rest {
        q
    } else if r > rest {
        q + 1
    } else if q % 2 == 0 {
        q
    } else {
        q + 1
    }
}

proof fn lemma_round_split(bits: nat, d: nat)
    requires
        d > 0,
    ensures
        round_half_even(bits * 100, d) == (bits / d) * 100 + round_half_even((bits % d) * 100, d),
{
    let q = bits / d;
    let r = bits % d;
    assert(bits == q * d + r) by {
        vstd::arithmetic::div_mod::lemma_fundamental_div_mod(bits as int, d as int);
        assert(d * q == q * d) by (nonlinear_arith);
    }
    assert(bits * 100 == (q * 100) * d + r * 100) by (nonlinear_arith)
        requires
            bits == q * d + r,
    ;
    vstd::arithmetic::div_mod::lemma_div_multiples_vanish_fancy(
        (q * 100) as int,
        0,
        d as int,
    );
    let x = r * 100;
    assert((bits * 100) / d == q * 100 + x / d && (bits * 100) % d == x % d) by {
        vstd::arithmetic::div_mod::lemma_fundamental_div_mod(x as int, d as int);
        let xq = x / d;
        let xr = x % d;
        assert(x == d * xq + xr);
        assert(bits * 100 == d * (q * 100 + xq) + xr) by (nonlinear_arith)
            requires
                bits * 100 == (q * 100) * d + x,
                x == d * xq + xr,
        ;
        vstd::arithmetic::div_mod::lemma_fundamental_div_mod_converse(
            (bits * 100) as int,
            d as int,
            (q * 100 + xq) as int,
            xr as int,
        );
    }
    assert((q * 100 + x / d) % 2 == (x / d) % 2) by {
        assert(q * 100 == 2 * (q * 50)) by (nonlinear_arith);
    }
}

/// Formats a bit rate with two decimals in the largest fitting unit of
/// Bit/s, Kib/s and Mib/s (base 1024).
pub fn format_size(bits: u128) -> (s: String)
    ensures
        s@ == size_text(bits as nat),
{
    let mut out = String::new();
    if bits < 1024 {
        push_fixed2(&mut out, bits * 100);
        proof {
            reveal_strlit(" Bit/s");
        }
        out.append(" Bit/s");
        assert(out@ =~= size_text(bits as nat));
    } else if bits < 1024 * 1024 {
        let h = rounded_div(bits * 100, 1024);
        push_fixed2(&mut out, h);
        proof {
            reveal_strlit(" Kib/s");
        }
        out.append(" Kib/s");
        assert(out@ =~= size_text(bits as nat));
    } else {
        let whole: u128 = bits / 1048576;
        let rest: u128 = bits % 1048576;
        let frac = rounded_div(rest * 100, 1048576);
        proof {
            lemma_round_split(bits as nat, 1048576);
        }
        let h = whole * 100 + frac;
        push_fixed2(&mut out, h);
        proof {
            reveal_strlit(" Mib/s");
        }
        out.append(" Mib/s");
        assert(out@ =~= size_text(bits as nat));
    }
    out
}

impl Speed {
    /// The speed with both rates zero.
    pub fn zero() -> (s: Speed)
        ensures
            s@ == Rate::zero(),
    {
        Speed { output: 0, input: 0 }
    }

    /// The input rate as text.
    pub fn to_string_input(&self) -> (s: String)
        ensures
            s@ == size_text(self@.input),
    {
        format_size(self.input)
    }

    /// The output rate as text.
    pub fn to_string_output(&self) -> (s: String)
        ensures
            s@ == size_text(self@.output),
    {
        format_size(self.output)
    }

    /// Both rates as text, input first.
    pub fn to_string(&self) -> (s: String)
        ensures
            s@ == speed_text(self@),
    {
        let mut out = String::new();
        proof {
            reveal_strlit("\u{2193} ");
            reveal_strlit(" | \u{2191} ");
        }
        out.append("\u{2193} ");
        let down = format_size(self.input);
        out.append(down.as_str());
        out.append(" | \u{2191} ");
        let up = format_size(self.output);
        out.append(up.as_str());
        assert(out@ =~= speed_text(self@));
        out
    }
}

} // verus!
