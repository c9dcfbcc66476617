//! Floating-point numbers: what their bits stand for, and what their text says of it.
use crate::element::Float32;
use crate::number::{plain_text, scientific_text};
use crate::shortest::tens;
use vstd::arithmetic::power2::*;
use vstd::prelude::*;
use vstd::string::*;

verus! {

/// The middle of the span of a number is the number: the fraction, with its leading bit where the
/// exponent is not zero, counts by the power of two that the exponent names, offset by 150.
pub proof fn law_float_values(f: Float32)
    requires
        f.finite(),
    ensures
        ({
            let e = f.bits / 0x80_0000 % 256;
            let fraction = f.bits % 0x80_0000;
            let s = f.span();
            &&& e > 0 ==> s.middle * pow2(150) * tens(43) == (0x80_0000 + fraction) * pow2(
                e as nat,
            ) * s.one
            &&& e == 0 ==> s.middle * pow2(149) * tens(43) == fraction * s.one
        }),
{
    let e = (f.bits / 0x80_0000 % 256) as nat;
    let m = f.mantissa() as int;
    let t = tens(43) as int;
    let s = f.span();
    lemma_pow2_adds(150, 2);
    lemma_pow2_adds(149, 2);
    lemma2_to64();
    if e == 0 {
        let a = pow2(149) as int;
        assert(4 * m * 1 * a * t == m * ((4 * a) * t)) by (nonlinear_arith);
    } else if e < 152 {
        lemma_pow2_adds(e, (152 - e) as nat);
        let (a, b, c) = (pow2(150) as int, pow2(e) as int, pow2((152 - e) as nat) as int);
        assert(4 * m * 1 * a * t == m * b * (c * t)) by (nonlinear_arith)
            requires
                b * c == 4 * a,
        ;
    } else {
        lemma_pow2_adds((e - 152) as nat, 152);
        let (a, b, c) = (pow2(150) as int, pow2(e) as int, pow2((e - 152) as nat) as int);
        assert(4 * m * c * a * t == m * b * (1 * t)) by (nonlinear_arith)
            requires
                b == c * (4 * a),
        ;
    }
}

proof fn lemma_scales(f: Float32, g: Float32)
    requires
        f.finite(),
        g.finite(),
        g.quarter() == f.quarter() + 1,
    ensures
        ({
            let (s, t) = (f.span(), g.span());
            let (a, b) = (f.mantissa() as int, g.mantissa() as int);
            exists|u: int|
                {
                    &&& #[trigger] (4 * a * u) == s.middle * t.one
                    &&& 8 * b * u == t.middle * s.one
                    &&& 2 * u == s.above * t.one
                    &&& (g.fraction() == 0 ==> 2 * u == t.below * s.one)
                }
        }),
{
    let q = f.quarter();
    let (s, t) = (f.span(), g.span());
    let (a, b) = (f.mantissa() as int, g.mantissa() as int);
    let k = tens(43) as int;
    lemma2_to64();
    if q < 0 {
        let d = pow2((-q - 1) as nat) as int;
        lemma_pow2_unfold((-q) as nat);
        assert(pow2((-q) as nat) == 2 * d);
        let u = d * k;
        assert(s.one == (2 * d) * k && t.one == d * k);
        let up = pow2(0) as int;
        assert(4 * a * up == 4 * a && 4 * b * up == 4 * b && 1 * up == 1 && 2 * up == 2)
            by (nonlinear_arith)
            requires
                up == 1,
        ;
        assert(s.middle == 4 * a * up && t.middle == 4 * b * up);
        assert((4 * b) * ((2 * d) * k) == 8 * b * u) by (nonlinear_arith)
            requires
                u == d * k,
        ;
        assert(1 * ((2 * d) * k) == 2 * u) by (nonlinear_arith)
            requires
                u == d * k,
        ;
        assert(4 * a * u == s.middle * t.one);
    } else {
        let p = pow2(q as nat) as int;
        lemma_pow2_unfold((q + 1) as nat);
        let u = p * k;
        assert(s.one == 1 * k && t.one == 1 * k);
        assert(s.middle == 4 * a * p && t.middle == 4 * b * (2 * p));
        assert(4 * a * p * k == 4 * a * u) by (nonlinear_arith)
            requires
                u == p * k,
        ;
        assert(4 * b * (2 * p) * k == 8 * b * u) by (nonlinear_arith)
            requires
                u == p * k,
        ;
        assert(2 * p * k == 2 * u) by (nonlinear_arith)
            requires
                u == p * k,
        ;
        assert(1 * (2 * p) * k == 2 * u) by (nonlinear_arith)
            requires
                u == p * k,
        ;
        assert(4 * a * u == s.middle * t.one);
    }
}

/// Where one number's span ends the next one's begins: half way between the two.
pub proof fn law_spans_meet_half_way(f: Float32, g: Float32)
    requires
        f.finite(),
        g.finite(),
        g.bits == f.bits + 1,
        f.bits % 0x8000_0000 < 0x7FFF_FFFF,
    ensures
        ({
            let (s, t) = (f.span(), g.span());
            &&& 2 * (s.middle + s.above) * t.one == s.middle * t.one + t.middle * s.one
            &&& 2 * (t.middle - t.below) * s.one == s.middle * t.one + t.middle * s.one
            &&& s.closed != t.closed
        }),
{
    let (s, t) = (f.span(), g.span());
    let (a, b) = (f.mantissa() as int, g.mantissa() as int);
    if f.quarter() == g.quarter() {
        assert(s.one == t.one);
        assert(b == a + 1);
        let up = pow2(
            if f.quarter() > 0 {
                f.quarter() as nat
            } else {
                0
            },
        ) as int;
        assert(s.middle == 4 * a * up);
        assert(t.middle == 4 * b * up);
        assert(s.above == 2 * up);
        assert(g.fraction() > 0 || g.exponent() == 1);
        assert(t.below == 2 * up);
        let (m, n, o) = (s.middle as int, t.middle as int, s.one as int);
        assert(n == m + 4 * up) by (nonlinear_arith)
            requires
                m == 4 * a * up,
                n == 4 * b * up,
                b == a + 1,
        ;
        assert(2 * (m + 2 * up) * o == m * o + n * o) by (nonlinear_arith)
            requires
                n == m + 4 * up,
        ;
        assert(2 * (n - 2 * up) * o == m * o + n * o) by (nonlinear_arith)
            requires
                n == m + 4 * up,
        ;
    } else {
        assert(g.exponent() == f.exponent() + 1);
        assert(g.fraction() == 0 && f.fraction() == 0x7F_FFFF);
        assert(f.exponent() > 0);
        assert(2 * b == a + 1);
        lemma_scales(f, g);
        let u = choose|u: int|
            {
                &&& #[trigger] (4 * a * u) == s.middle * t.one
                &&& 8 * b * u == t.middle * s.one
                &&& 2 * u == s.above * t.one
                &&& (g.fraction() == 0 ==> 2 * u == t.below * s.one)
            };
        let (m, n, o, p) = (s.middle as int, t.middle as int, s.one as int, t.one as int);
        let (x, y) = (s.above as int, t.below as int);
        assert(8 * b * u == 4 * a * u + 4 * u) by (nonlinear_arith)
            requires
                2 * b == a + 1,
        ;
        assert(2 * (m + x) * p == 2 * (m * p) + 2 * (x * p)) by (nonlinear_arith);
        assert(2 * (n - y) * o == 2 * (n * o) - 2 * (y * o)) by (nonlinear_arith);
    }
}

/// The number with its sign turned round.
pub open spec fn turned(f: Float32) -> Float32 {
    Float32 {
        bits: if f.bits < 0x8000_0000 {
            (f.bits + 0x8000_0000) as u32
        } else {
            (f.bits - 0x8000_0000) as u32
        },
    }
}

/// A number below zero is shown as the number of the same size above zero, behind a minus sign.
pub proof fn law_signs(f: Float32)
    requires
        f.bits < 0x8000_0000,
        !f.nan(),
    ensures
        turned(f).text() == seq!['-'] + f.text(),
        turned(f).debug_text() == seq!['-'] + f.debug_text(),
{
    reveal_strlit("-");
    let g = turned(f);
    assert(g.exponent() == f.exponent());
    assert(g.fraction() == f.fraction());
    assert(g.span() == f.span());
    assert(seq!['-'] =~= "-"@);
}

/// What has no digits: zero, what is infinite, and what is no number.
pub proof fn law_special_texts(f: Float32)
    requires
        f.bits < 0x8000_0000,
    ensures
        f.bits == 0 ==> f.text() == seq!['0'] && f.debug_text() == seq!['0', '.', '0'],
        f.bits == 0x7F80_0000 ==> f.text() == seq!['i', 'n', 'f'] && f.debug_text() == seq![
            'i',
            'n',
            'f',
        ],
        f.bits > 0x7F80_0000 ==> f.text() == seq!['N', 'a', 'N'] && f.debug_text() == seq![
            'N',
            'a',
            'N',
        ],
        f.bits > 0x7F80_0000 ==> turned(f).text() == f.text() && turned(f).debug_text()
            == f.debug_text(),
{
    reveal_strlit("0");
    reveal_strlit("inf");
    reveal_strlit("NaN");
    reveal_strlit(".0");
    reveal_strlit("");
    if f.bits == 0 {
        assert(f.text() =~= seq!['0']);
        assert(f.debug_text() =~= seq!['0', '.', '0']);
    } else if f.bits == 0x7F80_0000 {
        assert(f.text() =~= seq!['i', 'n', 'f']);
        assert(f.debug_text() =~= seq!['i', 'n', 'f']);
    } else if f.bits > 0x7F80_0000 {
        assert(f.text() =~= seq!['N', 'a', 'N']);
    }
}

/// Any other number is shown by its shortest digits: for display always in full, for debugging
/// with an exponent where it is below 10^-4 or at least 10^16, and with `.0` where it is whole.
pub proof fn law_finite_texts(f: Float32)
    requires
        0 < f.bits < 0x7F80_0000,
    ensures
        f.text() == plain_text(f.decimal().0, f.decimal().1, Seq::empty()),
        0x38D1_B717 <= f.bits < 0x5A0E_1BCA ==> f.debug_text() == plain_text(
            f.decimal().0,
            f.decimal().1,
            seq!['.', '0'],
        ),
        f.bits < 0x38D1_B717 || f.bits >= 0x5A0E_1BCA ==> f.debug_text() == scientific_text(
            f.decimal().0,
            f.decimal().1,
        ),
{
    reveal_strlit("");
    reveal_strlit(".0");
    assert(""@ =~= Seq::<char>::empty());
    assert(".0"@ =~= seq!['.', '0']);
}

} // verus!
