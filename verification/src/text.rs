//! Rendering of numbers as text: decimal, hexadecimal, and column padding.
use vstd::prelude::*;
use vstd::string::*;

verus! {

/// The decimal digit `d`, for `d` below ten; the hexadecimal digits follow in lower case.
pub open spec fn digit_char(d: nat) -> char {
    if d == 0 {
        '0'
    } else if d == 1 {
        '1'
    } else if d == 2 {
        '2'
    } else if d == 3 {
        '3'
    } else if d == 4 {
        '4'
    } else if d == 5 {
        '5'
    } else if d == 6 {
        '6'
    } else if d == 7 {
        '7'
    } else if d == 8 {
        '8'
    } else if d == 9 {
        '9'
    } else if d == 10 {
        'a'
    } else if d == 11 {
        'b'
    } else if d == 12 {
        'c'
    } else if d == 13 {
        'd'
    } else if d == 14 {
        'e'
    } else {
        'f'
    }
}

/// The same digits with the letters in upper case.
pub open spec fn upper_digit_char(d: nat) -> char {
    if d == 10 {
        'A'
    } else if d == 11 {
        'B'
    } else if d == 12 {
        'C'
    } else if d == 13 {
        'D'
    } else if d == 14 {
        'E'
    } else if d >= 15 {
        'F'
    } else {
        digit_char(d)
    }
}

/// `n` in base ten, without leading zeros.
pub open spec fn decimal_text(n: nat) -> Seq<char>
    decreases n,
{
    if n < 10 {
        seq![digit_char(n)]
    } else {
        decimal_text(n / 10).push(digit_char(n % 10))
    }
}

/// `n` in base sixteen, lower case, without leading zeros.
pub open spec fn hex_text(n: nat) -> Seq<char>
    decreases n,
{
    if n < 16 {
        seq![digit_char(n)]
    } else {
        hex_text(n / 16).push(digit_char(n % 16))
    }
}

/// The lowest `width` base-sixteen digits of `n`, upper case, zero-padded.
pub open spec fn padded_hex_text(n: nat, width: nat) -> Seq<char>
    decreases width,
{
    if width == 0 {
        Seq::empty()
    } else {
        padded_hex_text(n / 16, (width - 1) as nat).push(upper_digit_char(n % 16))
    }
}

/// `n` spaces.
pub open spec fn spaces(n: nat) -> Seq<char> {
    Seq::new(n, |i: int| ' ')
}

/// `s` followed by the spaces that bring it to `width` characters; longer text is left alone.
pub open spec fn padded_text(s: Seq<char>, width: nat) -> Seq<char> {
    if s.len() < width {
        s + spaces((width - s.len()) as nat)
    } else {
        s
    }
}

pub(crate) fn digit(d: u64) -> (r: &'static str)
    requires
        d < 16,
    ensures
        r@ == seq![digit_char(d as nat)],
{
    proof {
        reveal_strlit("0");
        reveal_strlit("1");
        reveal_strlit("2");
        reveal_strlit("3");
        reveal_strlit("4");
        reveal_strlit("5");
        reveal_strlit("6");
        reveal_strlit("7");
        reveal_strlit("8");
        reveal_strlit("9");
        reveal_strlit("a");
        reveal_strlit("b");
        reveal_strlit("c");
        reveal_strlit("d");
        reveal_strlit("e");
        reveal_strlit("f");
    }
    match d {
        0 => "0",
        1 => "1",
        2 => "2",
        3 => "3",
        4 => "4",
        5 => "5",
        6 => "6",
        7 => "7",
        8 => "8",
        9 => "9",
        10 => "a",
        11 => "b",
        12 => "c",
        13 => "d",
        14 => "e",
        _ => "f",
    }
}

fn upper_digit(d: u32) -> (r: &'static str)
    requires
        d < 16,
    ensures
        r@ == seq![upper_digit_char(d as nat)],
{
    proof {
        reveal_strlit("A");
        reveal_strlit("B");
        reveal_strlit("C");
        reveal_strlit("D");
        reveal_strlit("E");
        reveal_strlit("F");
    }
    match d {
        10 => "A",
        11 => "B",
        12 => "C",
        13 => "D",
        14 => "E",
        15 => "F",
        _ => digit(d as u64),
    }
}

/// Renders `n` in base ten.
pub fn decimal(n: u64) -> (r: String)
    ensures
        r@ == decimal_text(n as nat),
    decreases n,
{
    if n < 10 {
        digit(n).to_string()
    } else {
        let mut s = decimal(n / 10);
        s.append(digit(n % 10));
        s
    }
}

/// Renders `n` in base sixteen, lower case, without a prefix.
pub fn hex(n: u64) -> (r: String)
    ensures
        r@ == hex_text(n as nat),
    decreases n,
{
    if n < 16 {
        digit(n).to_string()
    } else {
        let mut s = hex(n / 16);
        s.append(digit(n % 16));
        s
    }
}

fn padded_hex(n: u32, width: u32) -> (r: String)
    ensures
        r@ == padded_hex_text(n as nat, width as nat),
    decreases width,
{
    if width == 0 {
        String::new()
    } else {
        let mut s = padded_hex(n / 16, width - 1);
        s.append(upper_digit(n % 16));
        s
    }
}

/// Renders `n` as exactly eight upper-case hexadecimal digits.
pub fn hex8(n: u32) -> (r: String)
    ensures
        r@ == padded_hex_text(n as nat, 8),
{
    padded_hex(n, 8)
}

/// Appends `n` spaces to `s`.
pub fn push_spaces(s: &mut String, n: usize)
    ensures
        final(s)@ == old(s)@ + spaces(n as nat),
{
    let mut i: usize = 0;
    assert(s@ =~= old(s)@ + spaces(0));
    while i < n
        invariant
            i <= n,
            s@ == old(s)@ + spaces(i as nat),
        decreases n - i,
    {
        proof {
            reveal_strlit(" ");
        }
        s.append(" ");
        i = i + 1;
        assert(s@ =~= old(s)@ + spaces(i as nat));
    }
}

/// Pads `s` with trailing spaces to `width` characters.
pub fn padded(s: &str, width: usize) -> (r: String)
    ensures
        r@ == padded_text(s@, width as nat),
{
    let len: usize = s.unicode_len();
    let mut out = s.to_string();
    if len < width {
        push_spaces(&mut out, width - len);
    }
    out
}

/// Renders a flat-buffer offset as `0x` and its hexadecimal digits, or `null` where there is none.
pub fn fmt_ptr(ptr: Option<usize>) -> (r: String)
    ensures
        r@ == ptr_text(ptr),
{
    match ptr {
        Some(o) => {
            let mut s = "0x".to_string();
            s.append(hex(o as u64).as_str());
            s
        },
        None => "null".to_string(),
    }
}

/// What [`fmt_ptr`] renders.
pub open spec fn ptr_text(ptr: Option<usize>) -> Seq<char> {
    match ptr {
        Some(o) => "0x"@ + hex_text(o as nat),
        None => "null"@,
    }
}

/// The lowest `width` base-sixteen digits of `n`, lower case, zero-padded.
pub open spec fn padded_lower_hex_text(n: nat, width: nat) -> Seq<char>
    decreases width,
{
    if width == 0 {
        Seq::empty()
    } else {
        padded_lower_hex_text(n / 16, (width - 1) as nat).push(digit_char(n % 16))
    }
}

fn padded_lower_hex(n: u32, width: u32) -> (r: String)
    ensures
        r@ == padded_lower_hex_text(n as nat, width as nat),
    decreases width,
{
    if width == 0 {
        String::new()
    } else {
        let mut s = padded_lower_hex(n / 16, width - 1);
        s.append(digit((n % 16) as u64));
        s
    }
}

/// Renders `n` as exactly four lower-case hexadecimal digits.
pub fn hex4(n: u16) -> (r: String)
    ensures
        r@ == padded_lower_hex_text(n as nat, 4),
{
    padded_lower_hex(n as u32, 4)
}

/// The base-ten digits of `n`, behind a minus sign where it is negative.
pub open spec fn signed_text(n: int) -> Seq<char> {
    if n < 0 {
        "-"@ + decimal_text((-n) as nat)
    } else {
        decimal_text(n as nat)
    }
}

/// Renders a signed number in base ten.
pub fn signed(n: i32) -> (r: String)
    ensures
        r@ == signed_text(n as int),
{
    if n < 0 {
        let mut s = "-".to_string();
        s.append(decimal((-(n as i64)) as u64).as_str());
        s
    } else {
        decimal(n as u64)
    }
}

} // verus!
