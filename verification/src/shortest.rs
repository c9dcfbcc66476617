//! The shortest decimal number that stands for a floating-point number and no other.
//!
//! A floating-point number stands for all real numbers that round to it. Among the decimal numbers
//! in that span the shortest ones are the multiples of the greatest power of ten, and of these the
//! nearest one is taken.
use crate::big::Big;
use crate::element::Float32;
use vstd::arithmetic::div_mod::{lemma_fundamental_div_mod, lemma_fundamental_div_mod_converse};
use vstd::arithmetic::power2::{
    lemma2_to64, lemma_pow2_adds, lemma_pow2_pos, lemma_pow2_strictly_increases,
    lemma_pow2_unfold, pow2,
};
use vstd::prelude::*;

verus! {

/// Ten to the power `n`.
pub open spec fn tens(n: nat) -> nat
    decreases n,
{
    if n == 0 {
        1
    } else {
        10 * tens((n - 1) as nat)
    }
}

/// The numbers around `middle`, from `below` under it to `above` over it; with both ends where it
/// is closed. All are counted in parts of which `one` make up a whole.
pub struct Span {
    pub middle: nat,
    pub below: nat,
    pub above: nat,
    pub one: nat,
    pub closed: bool,
}

impl Span {
    /// The span is above zero and not empty.
    pub open spec fn valid(self) -> bool {
        0 < self.below < self.middle && 0 < self.above && 0 < self.one
    }

    /// The whole number `d` lies in the span.
    pub open spec fn holds(self, d: nat) -> bool {
        &&& self.middle - self.below < d * self.one || (self.closed && self.middle - self.below == d
            * self.one)
        &&& d * self.one < self.middle + self.above || (self.closed && d * self.one == self.middle
            + self.above)
    }

    /// Ten times the span.
    pub open spec fn tenfold(self) -> Span {
        Span {
            middle: 10 * self.middle,
            below: 10 * self.below,
            above: 10 * self.above,
            one: self.one,
            closed: self.closed,
        }
    }

    /// The span times `10^n`.
    pub open spec fn times_tens(self, n: nat) -> Span {
        Span {
            middle: self.middle * tens(n),
            below: self.below * tens(n),
            above: self.above * tens(n),
            one: self.one,
            closed: self.closed,
        }
    }
}

/// The shortest decimal number in a span that is given in units of `10^p`: a whole number and
/// the power of ten that it counts. Of two equally near ones it is the greater.
pub open spec fn shortest(s: Span, p: int) -> (nat, int)
    decreases
            if s.below < s.one {
                s.one - s.below
            } else {
                0
            },
    when s.valid()
{
    let d = s.middle / s.one;
    if s.holds(d) && (!s.holds(d + 1) || 2 * (s.middle % s.one) < s.one) {
        (d, p)
    } else if s.holds(d + 1) {
        (d + 1, p)
    } else {
        proof {
            lemma_floor(s);
        }
        shortest(s.tenfold(), p - 1)
    }
}

/// The whole numbers next to the middle are in the span if they are near enough.
pub proof fn lemma_floor(s: Span)
    requires
        s.valid(),
    ensures
        s.middle == (s.middle / s.one) * s.one + s.middle % s.one,
        s.middle % s.one < s.one,
        s.holds(s.middle / s.one) <==> s.middle % s.one < s.below || (s.closed && s.middle % s.one
            == s.below),
        s.holds(s.middle / s.one + 1) <==> s.one < s.middle % s.one + s.above || (s.closed && s.one
            == s.middle % s.one + s.above),
{
    let d = s.middle / s.one;
    let one = s.one;
    lemma_fundamental_div_mod(s.middle as int, one as int);
    assert((d + 1) * one == d * one + one) by (nonlinear_arith);
    assert(one * d == d * one) by (nonlinear_arith);
}

/// Where neither of the whole numbers next to the middle is in the span, none is.
proof fn lemma_none_fits(s: Span, e: nat)
    requires
        s.valid(),
        !s.holds(s.middle / s.one),
        !s.holds(s.middle / s.one + 1),
    ensures
        !s.holds(e),
{
    lemma_floor(s);
    let d = s.middle / s.one;
    let one = s.one;
    if e <= d {
        assert(e * one <= d * one) by (nonlinear_arith)
            requires
                e <= d,
        ;
    } else {
        assert((d + 1) * one <= e * one) by (nonlinear_arith)
            requires
                d + 1 <= e,
        ;
        assert((d + 1) * one == d * one + one) by (nonlinear_arith);
    }
}

proof fn lemma_times_tens(s: Span, n: nat)
    ensures
        s.tenfold().times_tens(n) == s.times_tens(n + 1),
        s.times_tens(0) == s,
{
    let t = tens(n);
    let m = s.middle;
    let b = s.below;
    let a = s.above;
    assert(10 * m * t == m * (10 * t)) by (nonlinear_arith);
    assert(10 * b * t == b * (10 * t)) by (nonlinear_arith);
    assert(10 * a * t == a * (10 * t)) by (nonlinear_arith);
    assert(m * 1 == m && b * 1 == b && a * 1 == a);
}

/// The shortest decimal number lies in the span, and no multiple of a greater power of ten does.
pub proof fn law_shortest_is_shortest(s: Span, p: int, n: nat, d: nat)
    requires
        s.valid(),
    ensures
        shortest(s, p).1 <= p,
        shortest(s, p).0 >= 1,
        s.times_tens((p - shortest(s, p).1) as nat).holds(shortest(s, p).0),
        n < p - shortest(s, p).1 ==> !s.times_tens(n).holds(d),
    decreases
            if s.below < s.one {
                s.one - s.below
            } else {
                0
            },
{
    lemma_floor(s);
    lemma_times_tens(s, 0);
    let f = s.middle / s.one;
    if s.holds(f) && f == 0 {
        assert(f * s.one == 0) by (nonlinear_arith)
            requires
                f == 0,
        ;
    }
    if !s.holds(f) && !s.holds(f + 1) {
        let t = s.tenfold();
        let k = (p - 1 - shortest(t, p - 1).1) as nat;
        lemma_none_fits(s, d);
        if n == 0 {
            law_shortest_is_shortest(t, p - 1, 0, d);
        } else {
            law_shortest_is_shortest(t, p - 1, (n - 1) as nat, d);
            lemma_times_tens(s, (n - 1) as nat);
        }
        lemma_times_tens(s, k);
    }
}

/// How far the whole number `d` is from the middle of a span.
pub open spec fn distance(s: Span, d: nat) -> int {
    if d * s.one < s.middle {
        s.middle - d * s.one
    } else {
        d * s.one - s.middle
    }
}

/// Of the equally short decimal numbers in the span, the one taken is nearest to its middle.
pub proof fn law_shortest_is_nearest(s: Span, p: int, d: nat)
    requires
        s.valid(),
        s.times_tens((p - shortest(s, p).1) as nat).holds(d),
    ensures
        distance(s.times_tens((p - shortest(s, p).1) as nat), shortest(s, p).0) <= distance(
            s.times_tens((p - shortest(s, p).1) as nat),
            d,
        ),
    decreases
            if s.below < s.one {
                s.one - s.below
            } else {
                0
            },
{
    lemma_floor(s);
    lemma_times_tens(s, 0);
    law_shortest_is_shortest(s, p, 0, 0);
    let f = s.middle / s.one;
    let one = s.one;
    if !s.holds(f) && !s.holds(f + 1) {
        let t = s.tenfold();
        law_shortest_is_shortest(t, p - 1, 0, 0);
        lemma_times_tens(s, (p - 1 - shortest(t, p - 1).1) as nat);
        law_shortest_is_nearest(t, p - 1, d);
    } else {
        assert((f + 1) * one == f * one + one) by (nonlinear_arith);
        if d <= f {
            assert(d * one <= f * one) by (nonlinear_arith)
                requires
                    d <= f,
            ;
        } else {
            assert((f + 1) * one <= d * one) by (nonlinear_arith)
                requires
                    f + 1 <= d,
            ;
        }
    }
}

/// The power of ten that is greater than every floating-point number, from which the search for
/// a shorter one starts.
pub const TOP: i32 = 43;

impl Float32 {
    /// The exponent bits.
    pub open spec fn exponent(self) -> nat {
        (self.bits / 0x80_0000 % 256) as nat
    }

    /// The bits of the fraction.
    pub open spec fn fraction(self) -> nat {
        (self.bits % 0x80_0000) as nat
    }

    /// Neither infinite nor no number at all.
    pub open spec fn finite(self) -> bool {
        self.exponent() < 255
    }

    /// The fraction with the leading bit, which only the smallest numbers lack.
    pub open spec fn mantissa(self) -> nat {
        if self.exponent() == 0 {
            self.fraction()
        } else {
            self.fraction() + 0x80_0000
        }
    }

    /// The power of two that a quarter of the last bit of the mantissa counts.
    pub open spec fn quarter(self) -> int {
        if self.exponent() == 0 {
            -151
        } else {
            self.exponent() - 152
        }
    }

    /// The numbers that round to this one, without its sign, in units of `10^TOP`. They reach
    /// half way to the next number on either side; below a power of two that one is only half as
    /// far away. Half way between two numbers is rounded to the even one.
    pub open spec fn span(self) -> Span {
        let up = pow2(if self.quarter() > 0 {
            self.quarter() as nat
        } else {
            0
        });
        let down = pow2(if self.quarter() < 0 {
            (-self.quarter()) as nat
        } else {
            0
        });
        let gap: nat = if self.fraction() == 0 && self.exponent() > 1 {
            1
        } else {
            2
        };
        Span {
            middle: 4 * self.mantissa() * up,
            below: gap * up,
            above: 2 * up,
            one: down * tens(TOP as nat),
            closed: self.mantissa() % 2 == 0,
        }
    }

    /// The shortest decimal number that stands for this one, without its sign.
    pub open spec fn decimal(self) -> (nat, int) {
        shortest(self.span(), TOP as int)
    }
}

/// `b` doubled `n` times.
fn doubled(b: Big, n: u32) -> (r: Big)
    ensures
        r@ == b@ * pow2(n as nat),
{
    let mut r = b;
    let mut i: u32 = 0;
    proof {
        lemma2_to64();
        assert(b@ * 1 == b@);
    }
    while i < n
        invariant
            i <= n,
            r@ == b@ * pow2(i as nat),
        decreases n - i,
    {
        proof {
            let w = pow2(i as nat);
            let x = b@;
            lemma_pow2_unfold((i + 1) as nat);
            assert(x * w * 2 == x * (2 * w)) by (nonlinear_arith);
        }
        r = r.times(2);
        i = i + 1;
    }
    r
}

/// `b` times `10^n`.
fn with_tens(b: Big, n: u32) -> (r: Big)
    ensures
        r@ == b@ * tens(n as nat),
{
    let mut r = b;
    let mut i: u32 = 0;
    assert(b@ * 1 == b@);
    while i < n
        invariant
            i <= n,
            r@ == b@ * tens(i as nat),
        decreases n - i,
    {
        proof {
            let w = tens(i as nat);
            let x = b@;
            assert(x * w * 10 == x * (10 * w)) by (nonlinear_arith);
        }
        r = r.times(10);
        i = i + 1;
    }
    r
}

/// Ten lies between eight and sixteen.
proof fn lemma_tens_bounds(n: nat)
    ensures
        pow2(3 * n) <= tens(n) <= pow2(4 * n),
    decreases n,
{
    lemma2_to64();
    if n > 0 {
        lemma_tens_bounds((n - 1) as nat);
        lemma_pow2_adds(3, (3 * (n - 1)) as nat);
        lemma_pow2_adds(4, (4 * (n - 1)) as nat);
    }
}

proof fn lemma_span(f: Float32)
    requires
        f.finite(),
        f.mantissa() > 0,
    ensures
        f.span().valid(),
        f.span().middle < f.span().one,
        f.span().middle <= 0x400_0000 * f.span().below,
        f.span().one <= pow2(323),
{
    let s = f.span();
    let e = f.exponent() as int;
    let m = f.mantissa();
    let q = f.quarter();
    let up = pow2(if q > 0 {
        q as nat
    } else {
        0
    });
    let down = pow2(if q < 0 {
        (-q) as nat
    } else {
        0
    });
    let gap: nat = if f.fraction() == 0 && e > 1 {
        1
    } else {
        2
    };
    let t = tens(43);
    lemma2_to64();
    assert(4 * m < 0x400_0000);
    assert(1 <= up <= pow2(102)) by {
        if q > 0 {
            lemma_pow2_pos(q as nat);
            if q < 102 {
                lemma_pow2_strictly_increases(q as nat, 102);
            }
        } else {
            lemma_pow2_pos(102);
        }
    }
    assert(1 <= down <= pow2(151)) by {
        if q < 0 {
            lemma_pow2_pos((-q) as nat);
            if -q < 151 {
                lemma_pow2_strictly_increases((-q) as nat, 151);
            }
        } else {
            lemma_pow2_pos(151);
        }
    }
    lemma_tens_bounds(43);
    lemma_pow2_adds(26, 102);
    lemma_pow2_strictly_increases(128, 129);
    lemma_pow2_adds(151, 172);
    let big = pow2(102);
    assert(4 * m * up < 0x400_0000 * big) by (nonlinear_arith)
        requires
            4 * m < 0x400_0000,
            1 <= up <= big,
    ;
    assert(t <= down * t) by (nonlinear_arith)
        requires
            1 <= down,
    ;
    let d151 = pow2(151);
    let t172 = pow2(172);
    assert(down * t <= d151 * t172) by (nonlinear_arith)
        requires
            down <= d151,
            t <= t172,
    ;
    assert(gap * up < 4 * m * up) by (nonlinear_arith)
        requires
            gap <= 2,
            1 <= m,
            1 <= up,
    ;
    assert(up <= gap * up) by (nonlinear_arith)
        requires
            1 <= gap,
    ;
    assert(4 * m * up <= 0x400_0000 * up) by (nonlinear_arith)
        requires
            4 * m < 0x400_0000,
    ;
}

impl Float32 {
    /// Finds the shortest decimal number that stands for this one, without its sign: a whole
    /// number and the power of ten that it counts.
    pub fn to_decimal(self) -> (r: (u32, i32))
        requires
            self.finite(),
            self.mantissa() > 0,
        ensures
            (r.0 as nat, r.1 as int) == self.decimal(),
            r.0 >= 1,
            1 <= r.0 < 0x4000_0000,
            -280 <= r.1 <= TOP,
    {
        let exponent: u32 = self.bits / 0x80_0000 % 256;
        let fraction: u32 = self.bits % 0x80_0000;
        let mantissa: u32 = if exponent == 0 {
            fraction
        } else {
            fraction + 0x80_0000
        };
        let gap: u32 = if fraction == 0 && exponent > 1 {
            1
        } else {
            2
        };
        let up: u32 = if exponent > 152 {
            exponent - 152
        } else {
            0
        };
        let down: u32 = if exponent == 0 {
            151
        } else if exponent < 152 {
            152 - exponent
        } else {
            0
        };
        let closed: bool = mantissa % 2 == 0;
        let mut rest = doubled(Big::from_small(4 * mantissa), up);
        let mut below = doubled(Big::from_small(gap), up);
        let mut above = doubled(Big::from_small(2), up);
        let one = with_tens(doubled(Big::from_small(1), down), TOP as u32);
        let ghost mut s = self.span();
        let ghost mut k: nat = 0;
        proof {
            lemma_span(self);
            lemma2_to64();
            assert(1 * pow2(down as nat) == pow2(down as nat));
            assert(rest@ == s.middle);
            assert(below@ == s.below);
            assert(above@ == s.above);
            assert(one@ == s.one);
        }
        let mut digits: u32 = 0;
        let mut p: i32 = TOP;
        loop
            invariant
                self.finite(),
                self.mantissa() > 0,
                s.valid(),
                s.closed == closed,
                s.middle == digits * s.one + rest@,
                rest@ < s.one,
                below@ == s.below,
                above@ == s.above,
                one@ == s.one,
                digits <= 0x3000_0000,
                s.middle <= 0x400_0000 * s.below,
                s.one <= pow2(323),
                pow2(k) <= s.below,
                p == TOP - k,
                k <= 323,
                shortest(s, p as int) == self.decimal(),
            decreases
                    if s.below < s.one {
                        s.one - s.below
                    } else {
                        0
                    },
        {
            proof {
                lemma_floor(s);
                lemma_fundamental_div_mod_converse(
                    s.middle as int,
                    s.one as int,
                    digits as int,
                    rest@ as int,
                );
            }
            let reach = rest.plus(&above);
            let down_fits: bool = rest.below(&below) || (closed && !below.below(&rest));
            let up_fits: bool = one.below(&reach) || (closed && !reach.below(&one));
            if down_fits && (!up_fits || rest.plus(&rest).below(&one)) {
                proof {
                    law_shortest_is_shortest(s, p as int, 0, 0);
                }
                return (digits, p);
            }
            if up_fits {
                return (digits + 1, p);
            }
            proof {
                let one_ = s.one;
                let f = digits as nat;
                assert(f < 0x400_0000) by (nonlinear_arith)
                    requires
                        f * one_ < 0x400_0000 * one_,
                ;
                if k >= 323 {
                    if k > 323 {
                        lemma_pow2_strictly_increases(323, k);
                    }
                }
                lemma_pow2_unfold((k + 1) as nat);
                k = k + 1;
                s = s.tenfold();
            }
            let ghost before = rest@;
            let ghost was = digits as nat;
            rest = rest.times(10);
            below = below.times(10);
            above = above.times(10);
            digits = 10 * digits;
            p = p - 1;
            assert(10 * (was * s.one) == (10 * was) * s.one) by (nonlinear_arith);
            while !rest.below(&one)
                invariant
                    before < s.one,
                    one@ == s.one,
                    10 * was <= digits,
                    digits <= 10 * was + 9,
                    was < 0x400_0000,
                    rest@ + (digits - 10 * was) * s.one == 10 * before,
                    s.middle == digits * s.one + rest@,
                decreases rest@,
            {
                proof {
                    let c = digits - 10 * was;
                    let one_ = s.one;
                    let d = digits as int;
                    assert(c < 9) by (nonlinear_arith)
                        requires
                            one_ + c * one_ <= 10 * before,
                            before < one_,
                    ;
                    assert((c + 1) * one_ == c * one_ + one_) by (nonlinear_arith);
                    assert((d + 1) * one_ == d * one_ + one_) by (nonlinear_arith);
                }
                rest = rest.minus(&one);
                digits = digits + 1;
            }
        }
    }
}

} // verus!
