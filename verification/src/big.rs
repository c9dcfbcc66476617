//! Natural numbers of any size, as far as rendering floating-point numbers needs them.
use vstd::prelude::*;

verus! {

/// What a limb at position `i` counts: `2^32` to the power `i`.
pub open spec fn weight(i: nat) -> nat
    decreases i,
{
    if i == 0 {
        1
    } else {
        0x1_0000_0000 * weight((i - 1) as nat)
    }
}

/// The limb at position `i`; zero past the end.
pub open spec fn limb(s: Seq<u32>, i: int) -> nat {
    if 0 <= i < s.len() {
        s[i] as nat
    } else {
        0
    }
}

/// What the first `n` limbs stand for.
pub open spec fn value(s: Seq<u32>, n: nat) -> nat
    decreases n,
{
    if n == 0 {
        0
    } else {
        value(s, (n - 1) as nat) + limb(s, n - 1) * weight((n - 1) as nat)
    }
}

/// A natural number in limbs of thirty-two bits, the lowest first.
pub struct Big {
    pub limbs: Vec<u32>,
}

impl View for Big {
    type V = nat;

    open spec fn view(&self) -> nat {
        value(self.limbs@, self.limbs@.len())
    }
}

proof fn lemma_same_limbs(s: Seq<u32>, t: Seq<u32>, n: nat)
    requires
        forall|i: int| 0 <= i < n ==> #[trigger] limb(s, i) == limb(t, i),
    ensures
        value(s, n) == value(t, n),
    decreases n,
{
    if n > 0 {
        lemma_same_limbs(s, t, (n - 1) as nat);
        assert(limb(s, n - 1) == limb(t, n - 1));
    }
}

proof fn lemma_value_pushed(s: Seq<u32>, x: u32)
    ensures
        value(s.push(x), s.len() + 1) == value(s, s.len()) + x * weight(s.len()),
{
    assert forall|i: int| 0 <= i < s.len() implies #[trigger] limb(s.push(x), i) == limb(s, i) by {}
    lemma_same_limbs(s.push(x), s, s.len());
}

proof fn lemma_zeros_above(s: Seq<u32>, n: nat)
    requires
        n >= s.len(),
    ensures
        value(s, n) == value(s, s.len()),
    decreases n,
{
    if n > s.len() {
        lemma_zeros_above(s, (n - 1) as nat);
        assert(limb(s, n - 1) == 0);
        assert(0 * weight((n - 1) as nat) == 0) by (nonlinear_arith);
    }
}

proof fn lemma_value_bound(s: Seq<u32>, n: nat)
    ensures
        value(s, n) < weight(n),
    decreases n,
{
    if n > 0 {
        lemma_value_bound(s, (n - 1) as nat);
        let x = limb(s, n - 1);
        let w = weight((n - 1) as nat);
        assert(x * w + w <= 0x1_0000_0000 * w) by (nonlinear_arith)
            requires
                x + 1 <= 0x1_0000_0000,
        ;
    }
}

/// Numbers with the same limbs from `i` on compare as their limbs below `i` do.
proof fn lemma_upper_limbs(a: Seq<u32>, b: Seq<u32>, i: nat, n: nat)
    requires
        i <= n,
        forall|j: int| i <= j < n ==> #[trigger] limb(a, j) == limb(b, j),
    ensures
        value(a, n) - value(b, n) == value(a, i) - value(b, i),
    decreases n,
{
    if i < n {
        lemma_upper_limbs(a, b, i, (n - 1) as nat);
        assert(limb(a, n - 1) == limb(b, n - 1));
    }
}

proof fn lemma_limb_decides(a: Seq<u32>, b: Seq<u32>, i: nat)
    requires
        limb(a, i as int) < limb(b, i as int),
    ensures
        value(a, i + 1) < value(b, i + 1),
{
    lemma_value_bound(a, i);
    let w = weight(i);
    let x = limb(a, i as int);
    let y = limb(b, i as int);
    assert(x * w + w <= y * w) by (nonlinear_arith)
        requires
            x + 1 <= y,
    ;
}

/// The limb of `a` at position `i`; zero past the end.
fn limb_at(a: &Big, i: usize) -> (r: u32)
    ensures
        r == limb(a.limbs@, i as int),
{
    if i < a.limbs.len() {
        a.limbs[i]
    } else {
        0
    }
}

fn longer(a: &Big, b: &Big) -> (r: usize)
    ensures
        r >= a.limbs@.len(),
        r >= b.limbs@.len(),
{
    if a.limbs.len() < b.limbs.len() {
        b.limbs.len()
    } else {
        a.limbs.len()
    }
}

impl Big {
    /// The number `x`.
    pub fn from_small(x: u32) -> (r: Big)
        ensures
            r@ == x,
    {
        let mut limbs: Vec<u32> = Vec::new();
        proof {
            lemma_value_pushed(limbs@, x);
            let w = weight(0);
            assert(x * w == x) by (nonlinear_arith)
                requires
                    w == 1,
            ;
        }
        limbs.push(x);
        Big { limbs }
    }

    /// `x` times the number.
    pub fn times(&self, x: u32) -> (r: Big)
        ensures
            r@ == self@ * x,
    {
        let mut limbs: Vec<u32> = Vec::new();
        let mut carry: u64 = 0;
        let mut i: usize = 0;
        assert(0 * x == 0) by (nonlinear_arith);
        while i < self.limbs.len()
            invariant
                i <= self.limbs@.len(),
                limbs@.len() == i,
                carry < 0x1_0000_0000,
                value(limbs@, i as nat) + carry * weight(i as nat) == value(
                    self.limbs@,
                    i as nat,
                ) * x,
            decreases self.limbs@.len() - i,
        {
            let a: u64 = self.limbs[i] as u64;
            assert(a * x + carry <= 0xFFFF_FFFF * 0xFFFF_FFFF + 0xFFFF_FFFF) by (nonlinear_arith)
                requires
                    a <= 0xFFFF_FFFF,
                    x <= 0xFFFF_FFFF,
                    carry <= 0xFFFF_FFFF,
            ;
            assert(0 <= a * x) by (nonlinear_arith)
                requires
                    0 <= a,
                    0 <= x,
            ;
            let sum: u64 = a * x as u64 + carry;
            let low: u32 = (sum % 0x1_0000_0000) as u32;
            let high: u64 = sum / 0x1_0000_0000;
            proof {
                let w = weight(i as nat);
                let v = value(self.limbs@, i as nat);
                lemma_value_pushed(limbs@, low);
                assert(limb(self.limbs@, i as int) == a);
                assert(low * w + high * (0x1_0000_0000 * w) + v * x == (v + a * w) * x + carry * w)
                    by (nonlinear_arith)
                    requires
                        low + 0x1_0000_0000 * high == a * x + carry,
                ;
            }
            limbs.push(low);
            carry = high;
            i = i + 1;
        }
        proof {
            lemma_value_pushed(limbs@, carry as u32);
        }
        limbs.push(carry as u32);
        Big { limbs }
    }

    /// The sum of two numbers.
    pub fn plus(&self, other: &Big) -> (r: Big)
        ensures
            r@ == self@ + other@,
    {
        let n: usize = longer(self, other);
        let mut limbs: Vec<u32> = Vec::new();
        let mut carry: u64 = 0;
        let mut i: usize = 0;
        while i < n
            invariant
                i <= n,
                limbs@.len() == i,
                carry <= 1,
                value(limbs@, i as nat) + carry * weight(i as nat) == value(
                    self.limbs@,
                    i as nat,
                ) + value(other.limbs@, i as nat),
            decreases n - i,
        {
            let a: u64 = limb_at(self, i) as u64;
            let b: u64 = limb_at(other, i) as u64;
            let sum: u64 = a + b + carry;
            let low: u32 = (sum % 0x1_0000_0000) as u32;
            let high: u64 = sum / 0x1_0000_0000;
            proof {
                let w = weight(i as nat);
                lemma_value_pushed(limbs@, low);
                assert(low * w + high * (0x1_0000_0000 * w) == a * w + b * w + carry * w)
                    by (nonlinear_arith)
                    requires
                        low + 0x1_0000_0000 * high == a + b + carry,
                ;
            }
            limbs.push(low);
            carry = high;
            i = i + 1;
        }
        proof {
            lemma_value_pushed(limbs@, carry as u32);
            lemma_zeros_above(self.limbs@, n as nat);
            lemma_zeros_above(other.limbs@, n as nat);
        }
        limbs.push(carry as u32);
        Big { limbs }
    }

    /// The number less a smaller one.
    pub fn minus(&self, other: &Big) -> (r: Big)
        requires
            other@ <= self@,
        ensures
            r@ == self@ - other@,
    {
        let n: usize = longer(self, other);
        let mut limbs: Vec<u32> = Vec::new();
        let mut borrow: u64 = 0;
        let mut i: usize = 0;
        while i < n
            invariant
                i <= n,
                limbs@.len() == i,
                borrow <= 1,
                value(limbs@, i as nat) + value(other.limbs@, i as nat) == value(
                    self.limbs@,
                    i as nat,
                ) + borrow * weight(i as nat),
            decreases n - i,
        {
            let a: u64 = limb_at(self, i) as u64;
            let b: u64 = limb_at(other, i) as u64 + borrow;
            let lent: u64 = if a < b {
                1
            } else {
                0
            };
            let low: u32 = (a + lent * 0x1_0000_0000 - b) as u32;
            proof {
                let w = weight(i as nat);
                let c = limb(other.limbs@, i as int);
                lemma_value_pushed(limbs@, low);
                assert(low * w + c * w + borrow * w == a * w + lent * (0x1_0000_0000 * w))
                    by (nonlinear_arith)
                    requires
                        low + c + borrow == a + lent * 0x1_0000_0000,
                ;
            }
            limbs.push(low);
            borrow = lent;
            i = i + 1;
        }
        proof {
            let w = weight(n as nat);
            assert(borrow * w == if borrow == 1 {
                w
            } else {
                0
            }) by (nonlinear_arith)
                requires
                    borrow <= 1,
            ;
            lemma_value_bound(limbs@, n as nat);
            lemma_zeros_above(self.limbs@, n as nat);
            lemma_zeros_above(other.limbs@, n as nat);
        }
        Big { limbs }
    }

    /// Whether the number is below `other`.
    pub fn below(&self, other: &Big) -> (r: bool)
        ensures
            r == (self@ < other@),
    {
        let n: usize = longer(self, other);
        proof {
            lemma_zeros_above(self.limbs@, n as nat);
            lemma_zeros_above(other.limbs@, n as nat);
        }
        let mut i: usize = n;
        while i > 0
            invariant
                i <= n,
                self@ == value(self.limbs@, n as nat),
                other@ == value(other.limbs@, n as nat),
                forall|j: int|
                    i <= j < n ==> #[trigger] limb(self.limbs@, j) == limb(other.limbs@, j),
            decreases i,
        {
            let a: u32 = limb_at(self, i - 1);
            let b: u32 = limb_at(other, i - 1);
            if a != b {
                proof {
                    lemma_upper_limbs(self.limbs@, other.limbs@, i as nat, n as nat);
                    if a < b {
                        lemma_limb_decides(self.limbs@, other.limbs@, (i - 1) as nat);
                    } else {
                        lemma_limb_decides(other.limbs@, self.limbs@, (i - 1) as nat);
                    }
                }
                return a < b;
            }
            i = i - 1;
        }
        proof {
            lemma_upper_limbs(self.limbs@, other.limbs@, 0, n as nat);
        }
        false
    }
}

} // verus!
