//! Rendered numbers read back as the numbers they stand for.
use crate::number::{
    digit_count, lowest_digits, plain_text, pointed_text, scientific_text, without_digits, zeros,
};
use crate::shortest::tens;
use crate::text::{
    decimal_text, digit_char, hex_text, padded_hex_text, padded_lower_hex_text, padded_text,
    ptr_text, signed_text, upper_digit_char,
};
use vstd::prelude::*;
use vstd::string::*;

verus! {

/// What a digit stands for; letters go on from ten.
pub open spec fn digit_value(c: char) -> int {
    if '0' <= c <= '9' {
        c as int - '0' as int
    } else if 'a' <= c <= 'f' {
        c as int - 'a' as int + 10
    } else if 'A' <= c <= 'F' {
        c as int - 'A' as int + 10
    } else {
        -1
    }
}

/// The number that a row of digits stands for.
pub open spec fn read(s: Seq<char>, base: int) -> int
    decreases s.len(),
{
    if s.len() == 0 {
        0
    } else {
        base * read(s.drop_last(), base) + digit_value(s.last())
    }
}

/// Only decimal digits.
pub open spec fn all_decimal(s: Seq<char>) -> bool {
    forall|i: int| 0 <= i < s.len() ==> '0' <= #[trigger] s[i] <= '9'
}

/// Only hexadecimal digits, in lower case.
pub open spec fn all_lower(s: Seq<char>) -> bool {
    forall|i: int| 0 <= i < s.len() ==> '0' <= #[trigger] s[i] <= '9' || 'a' <= s[i] <= 'f'
}

/// Only hexadecimal digits, in upper case.
pub open spec fn all_upper(s: Seq<char>) -> bool {
    forall|i: int| 0 <= i < s.len() ==> '0' <= #[trigger] s[i] <= '9' || 'A' <= s[i] <= 'F'
}

/// `base` to the power of `n`.
pub open spec fn power(base: int, n: nat) -> int
    decreases n,
{
    if n == 0 {
        1
    } else {
        base * power(base, (n - 1) as nat)
    }
}

proof fn lemma_digit(d: nat)
    requires
        d < 16,
    ensures
        digit_value(digit_char(d)) == d,
        digit_value(upper_digit_char(d)) == d,
        d < 10 ==> '0' <= digit_char(d) <= '9',
        d < 10 ==> upper_digit_char(d) == digit_char(d),
        d >= 10 ==> 'a' <= digit_char(d) <= 'f' && 'A' <= upper_digit_char(d) <= 'F',
        d > 0 ==> digit_char(d) != '0',
{
}

proof fn lemma_read_one(c: char, base: int)
    ensures
        read(seq![c], base) == digit_value(c),
{
    assert(seq![c].drop_last() =~= Seq::<char>::empty());
    assert(read(Seq::<char>::empty(), base) == 0);
    assert(base * 0 == 0) by (nonlinear_arith);
}

proof fn lemma_read_push(s: Seq<char>, c: char, base: int)
    ensures
        read(s.push(c), base) == base * read(s, base) + digit_value(c),
{
    assert(s.push(c).drop_last() =~= s);
}

/// A number in base ten reads back as that number. It has no leading zero, save zero itself.
pub proof fn law_decimal_text(n: nat)
    ensures
        read(decimal_text(n), 10) == n,
        all_decimal(decimal_text(n)),
        decimal_text(n).len() >= 1,
        n > 0 ==> decimal_text(n)[0] != '0',
    decreases n,
{
    lemma_digit(n % 10);
    if n < 10 {
        lemma_read_one(digit_char(n), 10);
    } else {
        law_decimal_text(n / 10);
        lemma_read_push(decimal_text(n / 10), digit_char(n % 10), 10);
    }
}

/// A number in base sixteen reads back as that number. It has no leading zero, save zero itself.
pub proof fn law_hex_text(n: nat)
    ensures
        read(hex_text(n), 16) == n,
        all_lower(hex_text(n)),
        hex_text(n).len() >= 1,
        n > 0 ==> hex_text(n)[0] != '0',
    decreases n,
{
    lemma_digit(n % 16);
    if n < 16 {
        lemma_read_one(digit_char(n), 16);
    } else {
        law_hex_text(n / 16);
        lemma_read_push(hex_text(n / 16), digit_char(n % 16), 16);
    }
}

/// A number in a fixed count of hexadecimal digits reads back as that number, where it fits.
pub proof fn law_padded_hex_texts(n: nat, width: nat)
    ensures
        padded_hex_text(n, width).len() == width,
        padded_lower_hex_text(n, width).len() == width,
        all_upper(padded_hex_text(n, width)),
        all_lower(padded_lower_hex_text(n, width)),
        n < power(16, width) ==> read(padded_hex_text(n, width), 16) == n,
        n < power(16, width) ==> read(padded_lower_hex_text(n, width), 16) == n,
    decreases width,
{
    if width > 0 {
        let w = (width - 1) as nat;
        law_padded_hex_texts(n / 16, w);
        lemma_digit(n % 16);
        lemma_read_push(padded_hex_text(n / 16, w), upper_digit_char(n % 16), 16);
        lemma_read_push(padded_lower_hex_text(n / 16, w), digit_char(n % 16), 16);
    }
}

/// A signed number is the text of its size, behind a minus sign exactly where it is negative.
pub proof fn law_signed_text(n: int)
    ensures
        n >= 0 ==> signed_text(n) == decimal_text(n as nat),
        n < 0 ==> signed_text(n)[0] == '-' && signed_text(n).skip(1) == decimal_text((-n) as nat),
{
    reveal_strlit("-");
    if n < 0 {
        assert(signed_text(n).skip(1) =~= decimal_text((-n) as nat));
    }
}

/// Padding keeps the text, adds nothing but spaces, and adds them only up to the width.
pub proof fn law_padding(s: Seq<char>, width: nat)
    ensures
        padded_text(s, width).len() == if s.len() < width {
            width
        } else {
            s.len()
        },
        padded_text(s, width).take(s.len() as int) == s,
        forall|i: int|
            s.len() <= i < padded_text(s, width).len() ==> (#[trigger] padded_text(s, width)[i])
                == ' ',
{
    assert(padded_text(s, width).take(s.len() as int) =~= s);
}

/// An offset is shown as `0x` and its hexadecimal digits; where there is none, as `null`.
pub proof fn law_offset_text(o: usize)
    ensures
        ptr_text(Some(o)).len() > 2,
        ptr_text(Some(o))[0] == '0',
        ptr_text(Some(o))[1] == 'x',
        read(ptr_text(Some(o)).skip(2), 16) == o,
        ptr_text(None) == seq!['n', 'u', 'l', 'l'],
{
    reveal_strlit("0x");
    reveal_strlit("null");
    law_hex_text(o as nat);
    assert(ptr_text(Some(o)).skip(2) =~= hex_text(o as nat));
    assert(ptr_text(None) =~= seq!['n', 'u', 'l', 'l']);
}

// ---------------------------------------------------------------------------
// Points and exponents
// ---------------------------------------------------------------------------
proof fn lemma_read_add(a: Seq<char>, b: Seq<char>)
    ensures
        read(a + b, 10) == read(a, 10) * power(10, b.len()) + read(b, 10),
    decreases b.len(),
{
    if b.len() == 0 {
        assert(a + b =~= a);
    } else {
        let c = b.drop_last();
        lemma_read_add(a, c);
        assert((a + b).drop_last() =~= a + c);
        let (x, p, y) = (read(a, 10), power(10, c.len()), read(c, 10));
        assert(10 * (x * p + y) == x * (10 * p) + 10 * y) by (nonlinear_arith);
    }
}

proof fn lemma_lowest_digits(n: nat, k: nat)
    ensures
        lowest_digits(n, k).len() == k,
        all_decimal(lowest_digits(n, k)),
        without_digits(n, k) * power(10, k) + read(lowest_digits(n, k), 10) == n,
        0 <= read(lowest_digits(n, k), 10) < power(10, k),
    decreases k,
{
    if k > 0 {
        let j = (k - 1) as nat;
        lemma_lowest_digits(n / 10, j);
        lemma_digit(n % 10);
        lemma_read_push(lowest_digits(n / 10, j), digit_char(n % 10), 10);
        let (w, p) = (without_digits(n / 10, j) as int, power(10, j));
        assert(w * (10 * p) == 10 * (w * p)) by (nonlinear_arith);
    }
}

proof fn lemma_power_is_tens(n: nat)
    ensures
        power(10, n) == tens(n),
    decreases n,
{
    if n > 0 {
        lemma_power_is_tens((n - 1) as nat);
    }
}

proof fn lemma_zeros(n: nat)
    ensures
        read(zeros(n), 10) == 0,
        all_decimal(zeros(n)),
    decreases n,
{
    if n > 0 {
        lemma_zeros((n - 1) as nat);
        assert(zeros(n).drop_last() =~= zeros((n - 1) as nat));
    }
}

/// A number with a point has exactly `k` digits behind it; without the point its digits read back
/// as the number. In front of the point there are no needless zeros, but always a digit.
pub proof fn law_pointed_text(n: nat, k: nat)
    ensures
        ({
            let s = pointed_text(n, k);
            let at = s.len() - k - 1;
            &&& at >= 1
            &&& s[at] == '.'
            &&& all_decimal(s.take(at))
            &&& all_decimal(s.skip(at + 1))
            &&& read(s.take(at) + s.skip(at + 1), 10) == n
            &&& at > 1 ==> s[0] != '0'
        }),
{
    reveal_strlit(".");
    let s = pointed_text(n, k);
    let at = s.len() - k - 1;
    let head = decimal_text(without_digits(n, k));
    law_decimal_text(without_digits(n, k));
    lemma_lowest_digits(n, k);
    assert(s.take(at) =~= head);
    assert(s.skip(at + 1) =~= lowest_digits(n, k));
    lemma_read_add(head, lowest_digits(n, k));
    if without_digits(n, k) == 0 {
        assert(head.len() == 1);
    }
}

/// A number written out in full: below one the digits behind the point say where it stands, from
/// one on its digits are followed by as many zeros as its power of ten.
pub proof fn law_plain_text(d: nat, p: int, end: Seq<char>)
    ensures
        p < 0 ==> plain_text(d, p, end) == pointed_text(d, (-p) as nat),
        p >= 0 ==> {
            let s = plain_text(d, p, end);
            let n = s.len() - end.len();
            &&& n >= 1
            &&& s.skip(n) == end
            &&& all_decimal(s.take(n))
            &&& read(s.take(n), 10) == d * tens(p as nat)
        },
{
    if p >= 0 {
        let s = plain_text(d, p, end);
        let n = s.len() - end.len();
        law_decimal_text(d);
        lemma_zeros(p as nat);
        lemma_power_is_tens(p as nat);
        lemma_read_add(decimal_text(d), zeros(p as nat));
        assert(s.take(n) =~= decimal_text(d) + zeros(p as nat));
        assert(s.skip(n) =~= end);
    }
}

proof fn lemma_digit_count(n: nat)
    ensures
        digit_count(n) == decimal_text(n).len(),
        digit_count(n) >= 1,
        without_digits(n, (digit_count(n) - 1) as nat) < 10,
    decreases n,
{
    if n >= 10 {
        lemma_digit_count(n / 10);
    }
}

/// A number with an exponent: one digit, the other digits if any behind a point, then the letter
/// e and the power of ten that the first digit counts.
pub proof fn law_scientific_text(d: nat, p: int)
    ensures
        ({
            let s = scientific_text(d, p);
            let k = decimal_text(d).len() - 1;
            let n: int = if k == 0 {
                1
            } else {
                k + 2
            };
            &&& '0' <= s[0] <= '9'
            &&& k > 0 ==> s[1] == '.'
            &&& k == 0 ==> read(s.take(1), 10) == d
            &&& k > 0 ==> read(s.take(1) + s.subrange(2, n), 10) == d
            &&& s[n] == 'e'
            &&& s.skip(n + 1) == signed_text(k + p)
        }),
{
    reveal_strlit("e");
    let s = scientific_text(d, p);
    lemma_digit_count(d);
    law_decimal_text(d);
    let k = (digit_count(d) - 1) as nat;
    let n: int = if k == 0 {
        1
    } else {
        k + 2int
    };
    if k == 0 {
        assert(s.take(1) =~= decimal_text(d));
    } else {
        law_pointed_text(d, k);
        let t = pointed_text(d, k);
        let head = decimal_text(without_digits(d, k));
        assert(head.len() == 1);
        lemma_lowest_digits(d, k);
        reveal_strlit(".");
        assert(t.len() == k + 2);
        assert(s.take(1) =~= t.take(1));
        assert(s.subrange(2, n) =~= t.skip(2));
    }
    assert(s.skip(n + 1) =~= signed_text(k + p));
}

} // verus!
