//! The CRC-32 of a file: polynomial `0xEDB88320`, reflected.
use vstd::prelude::*;

verus! {

/// Size of the magic block that opens a file.
pub const MAGIC_SIZE: usize = 0x20;

/// Size of the main header, which follows it, in version 6.
pub const HEADER_SIZE_V6: usize = 0x38;

/// Size of the main header in version 7.
pub const HEADER_SIZE_V7: usize = 0x48;

/// One bit of polynomial division.
pub open spec fn crc_bit(crc: u32) -> u32 {
    (crc >> 1) ^ (if crc & 1 == 1 {
        0xEDB8_8320u32
    } else {
        0
    })
}

/// `n` bits of polynomial division.
pub open spec fn crc_bits(crc: u32, n: nat) -> u32
    decreases n,
{
    if n == 0 {
        crc
    } else {
        crc_bit(crc_bits(crc, (n - 1) as nat))
    }
}

/// The remainder after all of `bytes`, starting from `crc`.
pub open spec fn crc_run(crc: u32, bytes: Seq<u8>) -> u32
    decreases bytes.len(),
{
    if bytes.len() == 0 {
        crc
    } else {
        crc_bits(crc_run(crc, bytes.drop_last()) ^ bytes.last() as u32, 8)
    }
}

/// The CRC-32 of `bytes`.
pub open spec fn crc32_of(bytes: Seq<u8>) -> u32 {
    crc_run(0xFFFF_FFFF, bytes) ^ 0xFFFF_FFFF
}

/// The part of a file that its CRC covers: everything behind the main header, up to the size
/// that the header gives.
pub open spec fn covered_bytes(data: Seq<u8>, version: u32, file_size: u32) -> Seq<u8> {
    let start: int = if version >= 7 {
        MAGIC_SIZE + HEADER_SIZE_V7
    } else {
        MAGIC_SIZE + HEADER_SIZE_V6
    };
    let end: int = if file_size < data.len() {
        file_size as int
    } else {
        data.len() as int
    };
    if start < end {
        data.subrange(start, end)
    } else {
        Seq::empty()
    }
}

proof fn lemma_crc_bit_linear(a: u32, b: u32)
    by (bit_vector)
    ensures
        crc_bit(a ^ b) == crc_bit(a) ^ crc_bit(b),
{
}

/// Division is linear: the remainders of two words add up.
proof fn lemma_crc_bits_linear(a: u32, b: u32, n: nat)
    ensures
        crc_bits(a ^ b, n) == crc_bits(a, n) ^ crc_bits(b, n),
    decreases n,
{
    if n > 0 {
        lemma_crc_bits_linear(a, b, (n - 1) as nat);
        lemma_crc_bit_linear(crc_bits(a, (n - 1) as nat), crc_bits(b, (n - 1) as nat));
    }
}

/// Bits above the ones divided are only shifted.
proof fn lemma_crc_bits_high(h: u32, n: u32)
    requires
        h & 0xFF == 0,
        n <= 8,
    ensures
        crc_bits(h, n as nat) == h >> n,
    decreases n,
{
    if n == 0 {
        assert(h >> 0u32 == h) by (bit_vector);
    } else {
        let m = (n - 1) as u32;
        lemma_crc_bits_high(h, m);
        assert((h >> m) & 1 == 0 && ((h >> m) >> 1) ^ 0 == h >> n) by (bit_vector)
            requires
                h & 0xFF == 0,
                n == m + 1,
                n <= 8,
        ;
    }
}

/// Eight bits at once, by way of the remainder of the low byte.
proof fn lemma_crc_byte(x: u32)
    ensures
        crc_bits(x, 8) == (x >> 8) ^ crc_bits(x & 0xFF, 8),
{
    let h = x & 0xFFFF_FF00;
    let l = x & 0xFF;
    assert(x == h ^ l && h & 0xFF == 0 && h >> 8 == x >> 8) by (bit_vector)
        requires
            h == x & 0xFFFF_FF00,
            l == x & 0xFF,
    ;
    lemma_crc_bits_linear(h, l, 8);
    lemma_crc_bits_high(h, 8);
}

/// The remainders of all bytes.
pub fn crc32_table() -> (table: Vec<u32>)
    ensures
        table@.len() == 256,
        forall|i: int| 0 <= i < 256 ==> #[trigger] table@[i] == crc_bits(i as u32, 8),
{
    let mut table: Vec<u32> = Vec::new();
    let mut i: u32 = 0;
    while i < 256
        invariant
            i <= 256,
            table@.len() == i,
            forall|k: int| 0 <= k < i ==> #[trigger] table@[k] == crc_bits(k as u32, 8),
        decreases 256 - i,
    {
        let mut crc: u32 = i;
        let mut j: u32 = 0;
        while j < 8
            invariant
                j <= 8,
                crc == crc_bits(i, j as nat),
            decreases 8 - j,
        {
            let ghost before = crc;
            proof {
                let c = crc;
                assert(c & 1 == 0 || c & 1 == 1) by (bit_vector);
                assert((c >> 1) ^ 0 == c >> 1) by (bit_vector);
            }
            if crc & 1 != 0 {
                crc = (crc >> 1) ^ 0xEDB8_8320;
            } else {
                crc = crc >> 1;
            }
            assert(crc == crc_bit(before));
            j = j + 1;
        }
        table.push(crc);
        i = i + 1;
    }
    table
}

/// The CRC-32 of `data`.
pub fn crc32(data: &[u8]) -> (r: u32)
    ensures
        r == crc32_of(data@),
{
    let table = crc32_table();
    let mut crc: u32 = 0xFFFF_FFFF;
    let mut i: usize = 0;
    assert(data@.take(0) =~= Seq::empty());
    while i < data.len()
        invariant
            i <= data.len(),
            table@.len() == 256,
            forall|k: int| 0 <= k < 256 ==> #[trigger] table@[k] == crc_bits(k as u32, 8),
            crc == crc_run(0xFFFF_FFFF, data@.take(i as int)),
        decreases data.len() - i,
    {
        let byte: u32 = data[i] as u32;
        let x: u32 = crc ^ byte;
        proof {
            assert(x & 0xFF < 256) by (bit_vector);
            assert(x >> 8 == crc >> 8) by (bit_vector)
                requires
                    x == crc ^ byte,
                    byte < 256,
            ;
            lemma_crc_byte(x);
            assert(data@.take(i + 1).drop_last() =~= data@.take(i as int));
        }
        let index: usize = (x & 0xFF) as usize;
        crc = (crc >> 8) ^ table[index];
        i = i + 1;
    }
    assert(data@.take(i as int) =~= data@);
    crc ^ 0xFFFF_FFFF
}

/// The CRC of a file, over the section headers and the section data.
pub fn compute_file_crc(data: &[u8], version: u32, file_size: u32) -> (r: u32)
    ensures
        r == crc32_of(covered_bytes(data@, version, file_size)),
{
    let header_size: usize = if version >= 7 {
        HEADER_SIZE_V7
    } else {
        HEADER_SIZE_V6
    };
    let start: usize = MAGIC_SIZE + header_size;
    let end: usize = if (file_size as usize) < data.len() {
        file_size as usize
    } else {
        data.len()
    };
    if start >= end {
        assert(0xFFFF_FFFFu32 ^ 0xFFFF_FFFFu32 == 0) by (bit_vector);
        return 0;
    }
    crc32(vstd::slice::slice_subrange(data, start, end))
}

} // verus!
