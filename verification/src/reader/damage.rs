//! What the CRC-32 promises of the bytes it covers.
use crate::reader::crc::{crc32_of, crc_bit, crc_bits, crc_run};
use vstd::prelude::*;

verus! {

proof fn lemma_bit_linear(a: u32, b: u32)
    by (bit_vector)
    ensures
        crc_bit(a ^ b) == crc_bit(a) ^ crc_bit(b),
        crc_bit(a) == crc_bit(b) ==> a == b,
{
}

proof fn lemma_bits_linear(a: u32, b: u32, n: nat)
    ensures
        crc_bits(a ^ b, n) == crc_bits(a, n) ^ crc_bits(b, n),
        crc_bits(a, n) == crc_bits(b, n) ==> a == b,
    decreases n,
{
    if n > 0 {
        lemma_bits_linear(a, b, (n - 1) as nat);
        lemma_bit_linear(crc_bits(a, (n - 1) as nat), crc_bits(b, (n - 1) as nat));
    }
}

proof fn lemma_xor_keeps(a: u32, b: u32, c: u32)
    by (bit_vector)
    ensures
        a ^ c == b ^ c ==> a == b,
        c ^ a == c ^ b ==> a == b,
        (a ^ b) ^ b == a,
        (a ^ b) ^ c == a ^ (b ^ c),
{
}

proof fn lemma_bits_add(x: u32, m: nat, n: nat)
    ensures
        crc_bits(crc_bits(x, m), n) == crc_bits(x, m + n),
    decreases n,
{
    if n > 0 {
        lemma_bits_add(x, m, (n - 1) as nat);
    }
}

/// A byte that stands `m` bits further up comes down as it is.
proof fn lemma_byte_comes_down(b: u8)
    ensures
        crc_bits((b as u32) << 8, 8) == b as u32,
        crc_bits((b as u32) << 16, 16) == b as u32,
        crc_bits((b as u32) << 24, 24) == b as u32,
{
    let w = b as u32;
    assert({
        let x = w << 8;
        crc_bit(crc_bit(crc_bit(crc_bit(crc_bit(crc_bit(crc_bit(crc_bit(x)))))))) == w
    } && {
        let x = w << 16;
        crc_bit(crc_bit(crc_bit(crc_bit(crc_bit(crc_bit(crc_bit(crc_bit(x)))))))) == w << 8
    } && {
        let x = w << 24;
        crc_bit(crc_bit(crc_bit(crc_bit(crc_bit(crc_bit(crc_bit(crc_bit(x)))))))) == w << 16
    }) by (bit_vector)
        requires
            w < 256,
    ;
    reveal_with_fuel(crc_bits, 9);
    lemma_bits_add(w << 16, 8, 8);
    lemma_bits_add(w << 24, 8, 8);
    lemma_bits_add(w << 24, 16, 8);
}

/// Four bytes, the first one lowest.
spec fn word(b: Seq<u8>) -> u32 {
    (b[0] as u32) ^ ((b[1] as u32) << 8) ^ ((b[2] as u32) << 16) ^ ((b[3] as u32) << 24)
}

proof fn lemma_next_byte(x: u32, b: u8, m: nat)
    requires
        crc_bits((b as u32) << m, m) == b as u32,
    ensures
        crc_bits(crc_bits(x, m) ^ (b as u32), 8) == crc_bits(x ^ ((b as u32) << m), m + 8),
{
    let up = (b as u32) << m;
    lemma_bits_linear(x, up, m);
    lemma_bits_add(x ^ up, m, 8);
}

proof fn lemma_four_bytes(r: u32, s: Seq<u8>, b: Seq<u8>)
    requires
        b.len() == 4,
    ensures
        crc_run(r, s + b) == crc_bits(crc_run(r, s) ^ word(b), 32),
{
    let x = crc_run(r, s);
    let p1 = s + b.take(1);
    let p2 = s + b.take(2);
    let p3 = s + b.take(3);
    let p4 = s + b;
    assert(p1.drop_last() =~= s && p1.last() == b[0]);
    assert(p2.drop_last() =~= p1 && p2.last() == b[1]);
    assert(p3.drop_last() =~= p2 && p3.last() == b[2]);
    assert(p4.drop_last() =~= p3 && p4.last() == b[3]);
    lemma_byte_comes_down(b[1]);
    lemma_byte_comes_down(b[2]);
    lemma_byte_comes_down(b[3]);
    let w0 = b[0] as u32;
    let w1 = (b[1] as u32) << 8;
    let w2 = (b[2] as u32) << 16;
    let w3 = (b[3] as u32) << 24;
    assert(crc_run(r, p1) == crc_bits(x ^ w0, 8));
    lemma_next_byte(x ^ w0, b[1], 8);
    assert(crc_run(r, p2) == crc_bits((x ^ w0) ^ w1, 16));
    lemma_next_byte((x ^ w0) ^ w1, b[2], 16);
    assert(crc_run(r, p3) == crc_bits(((x ^ w0) ^ w1) ^ w2, 24));
    lemma_next_byte(((x ^ w0) ^ w1) ^ w2, b[3], 24);
    lemma_xor_keeps(x, w0, w1);
    lemma_xor_keeps(x, w0 ^ w1, w2);
    lemma_xor_keeps(x, w0 ^ w1 ^ w2, w3);
}

proof fn lemma_ones()
    ensures
        crc_bits(0xFFFF_FFFF, 32) == 0xDEBB_20E3,
{
    assert(crc_bits(0xFFFF_FFFF, 8) == 0x2DFD_1072) by {
        assert(crc_bit(
            crc_bit(crc_bit(crc_bit(crc_bit(crc_bit(crc_bit(crc_bit(0xFFFF_FFFFu32))))))),
        ) == 0x2DFD_1072) by (bit_vector);
        reveal_with_fuel(crc_bits, 9);
    }
    assert(crc_bits(0x2DFD_1072, 8) == 0xBE26_ED00) by {
        assert(crc_bit(
            crc_bit(crc_bit(crc_bit(crc_bit(crc_bit(crc_bit(crc_bit(0x2DFD_1072u32))))))),
        ) == 0xBE26_ED00) by (bit_vector);
        reveal_with_fuel(crc_bits, 9);
    }
    assert(crc_bits(0xBE26_ED00, 8) == 0x00BE_26ED) by {
        assert(crc_bit(
            crc_bit(crc_bit(crc_bit(crc_bit(crc_bit(crc_bit(crc_bit(0xBE26_ED00u32))))))),
        ) == 0x00BE_26ED) by (bit_vector);
        reveal_with_fuel(crc_bits, 9);
    }
    assert(crc_bits(0x00BE_26ED, 8) == 0xDEBB_20E3) by {
        assert(crc_bit(
            crc_bit(crc_bit(crc_bit(crc_bit(crc_bit(crc_bit(crc_bit(0x00BE_26EDu32))))))),
        ) == 0xDEBB_20E3) by (bit_vector);
        reveal_with_fuel(crc_bits, 9);
    }
    lemma_bits_add(0xFFFF_FFFF, 8, 8);
    lemma_bits_add(0xFFFF_FFFF, 16, 8);
    lemma_bits_add(0xFFFF_FFFF, 24, 8);
}

/// Bytes that are followed by their own CRC-32, low byte first, have one and the same CRC-32,
/// whatever the bytes are.
pub proof fn law_residue(s: Seq<u8>, b: Seq<u8>)
    requires
        b.len() == 4,
        b[0] + 0x100 * b[1] + 0x1_0000 * b[2] + 0x100_0000 * b[3] == crc32_of(s),
    ensures
        crc32_of(s + b) == 0x2144_DF1C,
{
    let x = crc_run(0xFFFF_FFFF, s);
    let c = crc32_of(s);
    let (b0, b1, b2, b3) = (b[0], b[1], b[2], b[3]);
    let w = word(b);
    assert(w == c) by (bit_vector)
        requires
            b0 + 0x100 * b1 + 0x1_0000 * b2 + 0x100_0000 * b3 == c,
            w == (b0 as u32) ^ ((b1 as u32) << 8) ^ ((b2 as u32) << 16) ^ ((b3 as u32) << 24),
    ;
    lemma_four_bytes(0xFFFF_FFFF, s, b);
    assert(x ^ w == 0xFFFF_FFFF) by (bit_vector)
        requires
            w == x ^ 0xFFFF_FFFF,
    ;
    lemma_ones();
    assert(0xDEBB_20E3u32 ^ 0xFFFF_FFFF == 0x2144_DF1C) by (bit_vector);
}

proof fn lemma_runs_part(r: u32, s: Seq<u8>, a: Seq<u8>, b: Seq<u8>)
    requires
        crc_run(r, a) != crc_run(r, b),
    ensures
        crc_run(r, a + s) != crc_run(r, b + s),
    decreases s.len(),
{
    if s.len() == 0 {
        assert(a + s =~= a);
        assert(b + s =~= b);
    } else {
        let t = s.drop_last();
        lemma_runs_part(r, t, a, b);
        assert((a + s).drop_last() =~= a + t);
        assert((b + s).drop_last() =~= b + t);
        let x = crc_run(r, a + t);
        let y = crc_run(r, b + t);
        let l = s.last() as u32;
        lemma_xor_keeps(x, y, l);
        lemma_bits_linear(x ^ l, y ^ l, 8);
    }
}

/// A damaged byte is noticed: where one byte is replaced by another, the CRC-32 changes.
pub proof fn law_damaged_byte_is_noticed(s: Seq<u8>, i: int, b: u8)
    requires
        0 <= i < s.len(),
        b != s[i],
    ensures
        crc32_of(s.update(i, b)) != crc32_of(s),
{
    let r = 0xFFFF_FFFFu32;
    let head = s.take(i);
    let tail = s.skip(i + 1);
    let x = crc_run(r, head);
    assert(head.push(s[i]).drop_last() =~= head);
    assert(head.push(b).drop_last() =~= head);
    lemma_xor_keeps(s[i] as u32, b as u32, x);
    lemma_bits_linear(x ^ (s[i] as u32), x ^ (b as u32), 8);
    lemma_runs_part(r, tail, head.push(s[i]), head.push(b));
    assert(head.push(s[i]) + tail =~= s);
    assert(head.push(b) + tail =~= s.update(i, b));
    lemma_xor_keeps(crc_run(r, s), crc_run(r, s.update(i, b)), r);
}

/// Damage inside four neighbouring bytes is noticed.
pub proof fn law_damaged_run_is_noticed(a: Seq<u8>, x: Seq<u8>, y: Seq<u8>, z: Seq<u8>)
    requires
        x.len() == 4,
        y.len() == 4,
        x != y,
    ensures
        crc32_of(a + x + z) != crc32_of(a + y + z),
{
    let r = 0xFFFF_FFFFu32;
    let c = crc_run(r, a);
    lemma_four_bytes(r, a, x);
    lemma_four_bytes(r, a, y);
    if word(x) == word(y) {
        let (x0, x1, x2, x3) = (x[0], x[1], x[2], x[3]);
        let (y0, y1, y2, y3) = (y[0], y[1], y[2], y[3]);
        assert(x0 == y0 && x1 == y1 && x2 == y2 && x3 == y3) by (bit_vector)
            requires
                (x0 as u32) ^ ((x1 as u32) << 8) ^ ((x2 as u32) << 16) ^ ((x3 as u32) << 24) == (
                y0 as u32) ^ ((y1 as u32) << 8) ^ ((y2 as u32) << 16) ^ ((y3 as u32) << 24),
        ;
        assert(x =~= y);
    }
    lemma_xor_keeps(word(x), word(y), c);
    lemma_bits_linear(c ^ word(x), c ^ word(y), 32);
    lemma_runs_part(r, z, a + x, a + y);
    lemma_xor_keeps(crc_run(r, a + x + z), crc_run(r, a + y + z), r);
}

} // verus!
