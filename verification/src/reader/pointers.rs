//! Writing pointers into the flat buffer.
use crate::format::{u32_at, u64_at, Endianness, PointerWidth};
use vstd::prelude::*;

verus! {

/// The bytes of `v` in the given order.
pub open spec fn u32_bytes(v: u32, endian: Endianness) -> Seq<u8> {
    let b0 = (v % 0x100) as u8;
    let b1 = ((v / 0x100) % 0x100) as u8;
    let b2 = ((v / 0x1_0000) % 0x100) as u8;
    let b3 = (v / 0x100_0000) as u8;
    match endian {
        Endianness::Little => seq![b0, b1, b2, b3],
        Endianness::Big => seq![b3, b2, b1, b0],
    }
}

/// The bytes of a pointer. One of thirty-two bits keeps the low half of the value.
pub open spec fn pointer_bytes(value: u64, endian: Endianness, width: PointerWidth) -> Seq<u8> {
    let low = u32_bytes((value % 0x1_0000_0000) as u32, endian);
    let high = u32_bytes((value / 0x1_0000_0000) as u32, endian);
    match (width, endian) {
        (PointerWidth::P32, _) => low,
        (PointerWidth::P64, Endianness::Little) => low + high,
        (PointerWidth::P64, Endianness::Big) => high + low,
    }
}

/// `s` with `b` in place of the bytes at `off`.
pub open spec fn with_bytes(s: Seq<u8>, off: int, b: Seq<u8>) -> Seq<u8> {
    Seq::new(
        s.len(),
        |i: int|
            if off <= i < off + b.len() {
                b[i - off]
            } else {
                s[i]
            },
    )
}

/// A written thirty-two bit number is read back.
pub proof fn law_u32_reads_back(s: Seq<u8>, off: int, v: u32, endian: Endianness)
    requires
        0 <= off,
        off + 4 <= s.len(),
    ensures
        u32_at(with_bytes(s, off, u32_bytes(v, endian)), off, endian) == v,
{
}

/// A written pointer is read back, as far as its width keeps it, and no other byte changes.
pub proof fn law_pointer_reads_back(
    s: Seq<u8>,
    off: int,
    value: u64,
    endian: Endianness,
    width: PointerWidth,
)
    requires
        0 <= off,
        off + width.bytes() <= s.len(),
    ensures
        ({
            let t = with_bytes(s, off, pointer_bytes(value, endian, width));
            &&& t.len() == s.len()
            &&& width == PointerWidth::P64 ==> u64_at(t, off, endian) == value
            &&& width == PointerWidth::P32 ==> u32_at(t, off, endian) == value % 0x1_0000_0000
            &&& forall|i: int|
                0 <= i < s.len() && !(off <= i < off + width.bytes()) ==> #[trigger] t[i] == s[i]
        }),
{
    let low = (value % 0x1_0000_0000) as u32;
    let high = (value / 0x1_0000_0000) as u32;
    law_u32_reads_back(s, off, low, endian);
    let t = with_bytes(s, off, pointer_bytes(value, endian, width));
    if width == PointerWidth::P64 {
        law_u32_reads_back(s, off, high, endian);
        law_u32_reads_back(s, off + 4, low, endian);
        law_u32_reads_back(s, off + 4, high, endian);
    }
}

/// Writes a pointer at `off`. A pointer of thirty-two bits keeps the low half of `value`.
pub fn write_ptr(
    flat: &mut [u8],
    off: usize,
    value: u64,
    endian: Endianness,
    ptr_width: PointerWidth,
)
    requires
        off + ptr_width.bytes() <= old(flat).len(),
    ensures
        final(flat)@ == with_bytes(
            old(flat)@,
            off as int,
            pointer_bytes(value, endian, ptr_width),
        ),
{
    let low: u32 = (value % 0x1_0000_0000) as u32;
    let high: u32 = (value / 0x1_0000_0000) as u32;
    match (ptr_width, endian) {
        (PointerWidth::P32, _) => {
            write_u32(flat, off, low, endian);
        },
        (PointerWidth::P64, Endianness::Little) => {
            write_u32(flat, off, low, endian);
            write_u32(flat, off + 4, high, endian);
        },
        (PointerWidth::P64, Endianness::Big) => {
            write_u32(flat, off, high, endian);
            write_u32(flat, off + 4, low, endian);
        },
    }
    assert(flat@ =~= with_bytes(old(flat)@, off as int, pointer_bytes(value, endian, ptr_width)));
}

fn write_u32(flat: &mut [u8], off: usize, v: u32, endian: Endianness)
    requires
        off + 4 <= old(flat).len(),
    ensures
        final(flat)@ == with_bytes(old(flat)@, off as int, u32_bytes(v, endian)),
{
    let b0: u8 = (v % 0x100) as u8;
    let b1: u8 = ((v / 0x100) % 0x100) as u8;
    let b2: u8 = ((v / 0x1_0000) % 0x100) as u8;
    let b3: u8 = (v / 0x100_0000) as u8;
    match endian {
        Endianness::Little => {
            flat[off] = b0;
            flat[off + 1] = b1;
            flat[off + 2] = b2;
            flat[off + 3] = b3;
        },
        Endianness::Big => {
            flat[off] = b3;
            flat[off + 1] = b2;
            flat[off + 2] = b1;
            flat[off + 3] = b0;
        },
    }
    assert(flat@ =~= with_bytes(old(flat)@, off as int, u32_bytes(v, endian)));
}

} // verus!
