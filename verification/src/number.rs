//! Floating-point numbers as text, in the two ways that Rust shows them.
//!
//! Both give the fewest digits that stand for the number and no other.
use crate::element::Float32;
use crate::text::{decimal, decimal_text, digit, digit_char, signed, signed_text};
use vstd::prelude::*;
use vstd::string::*;

verus! {

/// `n` zeros.
pub open spec fn zeros(n: nat) -> Seq<char> {
    Seq::new(n, |i: int| '0')
}

/// The lowest `k` base-ten digits of `n`, zero-padded.
pub open spec fn lowest_digits(n: nat, k: nat) -> Seq<char>
    decreases k,
{
    if k == 0 {
        Seq::empty()
    } else {
        lowest_digits(n / 10, (k - 1) as nat).push(digit_char(n % 10))
    }
}

/// `n` without its lowest `k` base-ten digits.
pub open spec fn without_digits(n: nat, k: nat) -> nat
    decreases k,
{
    if k == 0 {
        n
    } else {
        without_digits(n / 10, (k - 1) as nat)
    }
}

/// The number of base-ten digits of `n`.
pub open spec fn digit_count(n: nat) -> nat
    decreases n,
{
    if n < 10 {
        1
    } else {
        1 + digit_count(n / 10)
    }
}

/// `n` with a point in front of its lowest `k` digits.
pub open spec fn pointed_text(n: nat, k: nat) -> Seq<char> {
    decimal_text(without_digits(n, k)) + "."@ + lowest_digits(n, k)
}

/// `d * 10^p` in full; a whole number is followed by `end`.
pub open spec fn plain_text(d: nat, p: int, end: Seq<char>) -> Seq<char> {
    if p < 0 {
        pointed_text(d, (-p) as nat)
    } else {
        decimal_text(d) + zeros(p as nat) + end
    }
}

/// `d * 10^p` with one digit in front of the point, and an exponent.
pub open spec fn scientific_text(d: nat, p: int) -> Seq<char> {
    let k = (digit_count(d) - 1) as nat;
    let digits = if k == 0 {
        decimal_text(d)
    } else {
        pointed_text(d, k)
    };
    digits + "e"@ + signed_text(k + p)
}

impl Float32 {
    /// The sign bit is set.
    pub open spec fn negative(self) -> bool {
        self.bits >= 0x8000_0000
    }

    /// Not zero, and below `10^-4` or from `10^16` on, whatever the sign. Numbers of one sign are
    /// in the order of their bits.
    pub open spec fn extreme(self) -> bool {
        let magnitude = self.bits % 0x8000_0000;
        0 < magnitude < 0x38D1_B717 || magnitude >= 0x5A0E_1BCA
    }

    /// The number without its sign, written out in full; a whole number is followed by `end`.
    pub open spec fn magnitude_text(self, end: Seq<char>) -> Seq<char> {
        if self.zero() {
            "0"@ + end
        } else if !self.finite() {
            "inf"@
        } else {
            plain_text(self.decimal().0, self.decimal().1, end)
        }
    }

    /// The number as it is displayed: never with an exponent.
    pub open spec fn text(self) -> Seq<char> {
        if self.nan() {
            "NaN"@
        } else if self.negative() {
            "-"@ + self.magnitude_text(""@)
        } else {
            self.magnitude_text(""@)
        }
    }

    /// The number without its sign as it is shown for debugging.
    pub open spec fn debug_magnitude(self) -> Seq<char> {
        if self.extreme() && self.finite() {
            scientific_text(self.decimal().0, self.decimal().1)
        } else {
            self.magnitude_text(".0"@)
        }
    }

    /// The number as it is shown for debugging: with a point or an exponent.
    pub open spec fn debug_text(self) -> Seq<char> {
        if self.nan() {
            "NaN"@
        } else if self.negative() {
            "-"@ + self.debug_magnitude()
        } else {
            self.debug_magnitude()
        }
    }
}

fn push_zeros(s: &mut String, n: u32)
    ensures
        final(s)@ == old(s)@ + zeros(n as nat),
{
    let mut i: u32 = 0;
    assert(s@ =~= old(s)@ + zeros(0));
    while i < n
        invariant
            i <= n,
            s@ == old(s)@ + zeros(i as nat),
        decreases n - i,
    {
        proof {
            reveal_strlit("0");
        }
        s.append("0");
        i = i + 1;
        assert(s@ =~= old(s)@ + zeros(i as nat));
    }
}

fn low_digits(n: u32, k: u32) -> (r: String)
    ensures
        r@ == lowest_digits(n as nat, k as nat),
    decreases k,
{
    if k == 0 {
        String::new()
    } else {
        let mut s = low_digits(n / 10, k - 1);
        s.append(digit((n % 10) as u64));
        s
    }
}

fn high_part(n: u32, k: u32) -> (r: u32)
    ensures
        r == without_digits(n as nat, k as nat),
    decreases k,
{
    if k == 0 {
        n
    } else {
        high_part(n / 10, k - 1)
    }
}

fn count_digits(n: u32) -> (r: u32)
    ensures
        r == digit_count(n as nat),
        1 <= r <= n + 1,
    decreases n,
{
    if n < 10 {
        1
    } else {
        1 + count_digits(n / 10)
    }
}

fn pointed(n: u32, k: u32) -> (r: String)
    ensures
        r@ == pointed_text(n as nat, k as nat),
{
    let mut s = decimal(high_part(n, k) as u64);
    s.append(".");
    s.append(low_digits(n, k).as_str());
    s
}

fn plain(d: u32, p: i32, end: &str) -> (r: String)
    requires
        p > i32::MIN,
    ensures
        r@ == plain_text(d as nat, p as int, end@),
{
    if p < 0 {
        pointed(d, (-p) as u32)
    } else {
        let mut s = decimal(d as u64);
        push_zeros(&mut s, p as u32);
        s.append(end);
        s
    }
}

fn scientific(d: u32, p: i32) -> (r: String)
    requires
        d < 0x4000_0000,
        -0x1000 < p < 0x1000,
    ensures
        r@ == scientific_text(d as nat, p as int),
{
    let k: u32 = count_digits(d) - 1;
    let mut s = if k == 0 {
        decimal(d as u64)
    } else {
        pointed(d, k)
    };
    s.append("e");
    s.append(signed(k as i32 + p).as_str());
    s
}

impl Float32 {
    fn is_nan(self) -> (r: bool)
        ensures
            r == self.nan(),
    {
        self.bits % 0x8000_0000 > 0x7F80_0000
    }

    fn magnitude(self, end: &str) -> (r: String)
        requires
            !self.nan(),
        ensures
            r@ == self.magnitude_text(end@),
    {
        let magnitude: u32 = self.bits % 0x8000_0000;
        if magnitude == 0 {
            let mut s = "0".to_string();
            s.append(end);
            s
        } else if magnitude >= 0x7F80_0000 {
            "inf".to_string()
        } else {
            let (d, p) = self.to_decimal();
            plain(d, p, end)
        }
    }

    /// The number as it is displayed: never with an exponent.
    pub fn to_string(self) -> (r: String)
        ensures
            r@ == self.text(),
    {
        if self.is_nan() {
            "NaN".to_string()
        } else if self.bits >= 0x8000_0000 {
            let mut s = "-".to_string();
            s.append(self.magnitude("").as_str());
            s
        } else {
            self.magnitude("")
        }
    }

    fn debug_magnitude_string(self) -> (r: String)
        requires
            !self.nan(),
        ensures
            r@ == self.debug_magnitude(),
    {
        let magnitude: u32 = self.bits % 0x8000_0000;
        if (0 < magnitude && magnitude < 0x38D1_B717) || (0x5A0E_1BCA <= magnitude && magnitude
            < 0x7F80_0000) {
            let (d, p) = self.to_decimal();
            scientific(d, p)
        } else {
            self.magnitude(".0")
        }
    }

    /// The number as it is shown for debugging: with a point or an exponent.
    pub fn to_debug_string(self) -> (r: String)
        ensures
            r@ == self.debug_text(),
    {
        if self.is_nan() {
            "NaN".to_string()
        } else if self.bits >= 0x8000_0000 {
            let mut s = "-".to_string();
            s.append(self.debug_magnitude_string().as_str());
            s
        } else {
            self.debug_magnitude_string()
        }
    }
}

} // verus!
