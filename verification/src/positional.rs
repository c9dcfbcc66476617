//! Numbers as bytes: what the endian-aware reads are to give.
use crate::format::{
    as_i16, as_i32, as_i8, compression_of, magic_format, member_type_of, u16_at, u32_at, u64_at,
    Compression, Endianness, FormatId, MemberType, PointerWidth,
};
use vstd::prelude::*;

verus! {

/// The number that `bytes` stand for, the least significant one first.
pub open spec fn number(bytes: Seq<u8>) -> nat
    decreases bytes.len(),
{
    if bytes.len() == 0 {
        0
    } else {
        bytes[0] as nat + 256 * number(bytes.skip(1))
    }
}

/// The number that the `n` bytes at `off` stand for in the given byte order.
pub open spec fn number_at(data: Seq<u8>, off: int, n: int, endian: Endianness) -> nat {
    let bytes = data.subrange(off, off + n);
    match endian {
        Endianness::Little => number(bytes),
        Endianness::Big => number(bytes.reverse()),
    }
}

proof fn lemma_number(s: Seq<u8>)
    ensures
        s.len() == 1 ==> number(s) == s[0],
        s.len() == 2 ==> number(s) == s[0] + 0x100 * s[1],
        s.len() == 4 ==> number(s) == s[0] + 0x100 * s[1] + 0x1_0000 * s[2] + 0x100_0000 * s[3],
        s.len() == 8 ==> number(s) == s[0] + 0x100 * s[1] + 0x1_0000 * s[2] + 0x100_0000 * s[3]
            + 0x1_0000_0000 * s[4] + 0x100_0000_0000 * s[5] + 0x1_0000_0000_0000 * s[6]
            + 0x100_0000_0000_0000 * s[7],
{
    reveal_with_fuel(number, 9);
}

/// The reads of two, four and eight bytes give the numbers that those bytes stand for.
pub proof fn law_reads_are_positional(data: Seq<u8>, off: int, endian: Endianness)
    requires
        0 <= off,
    ensures
        off + 2 <= data.len() ==> u16_at(data, off, endian) == number_at(data, off, 2, endian),
        off + 4 <= data.len() ==> u32_at(data, off, endian) == number_at(data, off, 4, endian),
        off + 8 <= data.len() ==> u64_at(data, off, endian) == number_at(data, off, 8, endian),
{
    if off + 2 <= data.len() {
        lemma_number(data.subrange(off, off + 2));
        lemma_number(data.subrange(off, off + 2).reverse());
    }
    if off + 4 <= data.len() {
        lemma_number(data.subrange(off, off + 4));
        lemma_number(data.subrange(off, off + 4).reverse());
    }
    if off + 8 <= data.len() {
        lemma_number(data.subrange(off, off + 8));
        lemma_number(data.subrange(off, off + 8).reverse());
    }
}

/// A number read as signed differs from the unsigned one by a multiple of its range.
pub proof fn law_signed_reads_are_congruent(a: u8, b: u16, c: u32)
    ensures
        (as_i8(a) - a) % 0x100 == 0,
        (as_i16(b) - b) % 0x1_0000 == 0,
        (as_i32(c) - c) % 0x1_0000_0000 == 0,
{
}

// ---------------------------------------------------------------------------
// Codes
// ---------------------------------------------------------------------------
/// A pointer has as many bytes as its width in bits asks for.
pub proof fn law_pointer_widths()
    ensures
        8 * PointerWidth::P32.bytes() == 32,
        8 * PointerWidth::P64.bytes() == 64,
{
}

/// The five signatures: two of little-endian files with short pointers, and one each of the other
/// three formats. Nothing else identifies a file.
pub proof fn law_signatures(sig: Seq<u8>)
    ensures
        magic_format(sig) == Some(
            FormatId { endianness: Endianness::Little, pointer_width: PointerWidth::P32 },
        ) <==> sig == seq![
            0x29u8, 0xDEu8, 0x6Cu8, 0xC0u8, 0xBAu8, 0xA4u8, 0x53u8, 0x2Bu8,
            0x25u8, 0xF5u8, 0xB7u8, 0xA5u8, 0xF6u8, 0x66u8, 0xE2u8, 0xEEu8,
        ] || sig == seq![
            0xB8u8, 0x67u8, 0xB0u8, 0xCAu8, 0xF8u8, 0x6Du8, 0xB1u8, 0x0Fu8,
            0x84u8, 0x72u8, 0x8Cu8, 0x7Eu8, 0x5Eu8, 0x19u8, 0x00u8, 0x1Eu8,
        ],
        magic_format(sig) == Some(
            FormatId { endianness: Endianness::Big, pointer_width: PointerWidth::P32 },
        ) <==> sig == seq![
            0x0Eu8, 0x11u8, 0x95u8, 0xB5u8, 0x6Au8, 0xA5u8, 0xB5u8, 0x4Bu8,
            0xEBu8, 0x28u8, 0x28u8, 0x50u8, 0x25u8, 0x78u8, 0xB3u8, 0x04u8,
        ],
        magic_format(sig) == Some(
            FormatId { endianness: Endianness::Little, pointer_width: PointerWidth::P64 },
        ) <==> sig == seq![
            0xE5u8, 0x9Bu8, 0x49u8, 0x5Eu8, 0x6Fu8, 0x63u8, 0x1Fu8, 0x14u8,
            0x1Eu8, 0x13u8, 0xEBu8, 0xA9u8, 0x90u8, 0xBEu8, 0xEDu8, 0xC4u8,
        ],
        magic_format(sig) == Some(
            FormatId { endianness: Endianness::Big, pointer_width: PointerWidth::P64 },
        ) <==> sig == seq![
            0x31u8, 0x95u8, 0xD4u8, 0xE3u8, 0x20u8, 0xDCu8, 0x4Fu8, 0x62u8,
            0xCCu8, 0x36u8, 0xD0u8, 0x3Au8, 0xB1u8, 0x82u8, 0xFFu8, 0x89u8,
        ],
{
    let a = seq![
        0x29u8, 0xDEu8, 0x6Cu8, 0xC0u8, 0xBAu8, 0xA4u8, 0x53u8, 0x2Bu8,
        0x25u8, 0xF5u8, 0xB7u8, 0xA5u8, 0xF6u8, 0x66u8, 0xE2u8, 0xEEu8,
    ];
    let b = seq![
        0xB8u8, 0x67u8, 0xB0u8, 0xCAu8, 0xF8u8, 0x6Du8, 0xB1u8, 0x0Fu8,
        0x84u8, 0x72u8, 0x8Cu8, 0x7Eu8, 0x5Eu8, 0x19u8, 0x00u8, 0x1Eu8,
    ];
    let c = seq![
        0x0Eu8, 0x11u8, 0x95u8, 0xB5u8, 0x6Au8, 0xA5u8, 0xB5u8, 0x4Bu8,
        0xEBu8, 0x28u8, 0x28u8, 0x50u8, 0x25u8, 0x78u8, 0xB3u8, 0x04u8,
    ];
    let d = seq![
        0xE5u8, 0x9Bu8, 0x49u8, 0x5Eu8, 0x6Fu8, 0x63u8, 0x1Fu8, 0x14u8,
        0x1Eu8, 0x13u8, 0xEBu8, 0xA9u8, 0x90u8, 0xBEu8, 0xEDu8, 0xC4u8,
    ];
    let e = seq![
        0x31u8, 0x95u8, 0xD4u8, 0xE3u8, 0x20u8, 0xDCu8, 0x4Fu8, 0x62u8,
        0xCCu8, 0x36u8, 0xD0u8, 0x3Au8, 0xB1u8, 0x82u8, 0xFFu8, 0x89u8,
    ];
    assert(crate::format::MAGIC_LE32_V7@ =~= a);
    assert(crate::format::MAGIC_LE32_V6@ =~= b);
    assert(crate::format::MAGIC_BE32@ =~= c);
    assert(crate::format::MAGIC_LE64@ =~= d);
    assert(crate::format::MAGIC_BE64@ =~= e);
    assert(a[0] == 0x29 && b[0] == 0xB8 && c[0] == 0x0E && d[0] == 0xE5 && e[0] == 0x31);
}

/// Each compression has one code, and every other code is an unknown one.
pub proof fn law_compression_codes(v: u32)
    ensures
        compression_of(v) == Compression::Uncompressed <==> v == 0,
        compression_of(v) == Compression::Oodle0 <==> v == 1,
        compression_of(v) == Compression::Oodle1 <==> v == 2,
        compression_of(v) == Compression::BitKnit1 <==> v == 3,
        compression_of(v) == Compression::BitKnit2 <==> v == 4,
        compression_of(v) == Compression::Unknown(v) <==> v > 4,
{
}

/// The codes of the member types.
pub proof fn law_member_type_codes(v: u32)
    ensures
        member_type_of(v) is None <==> v == 6 || v > 22,
        member_type_of(v) == Some(MemberType::Terminator) <==> v == 0,
        member_type_of(v) == Some(MemberType::Inline) <==> v == 1,
        member_type_of(v) == Some(MemberType::Reference) <==> v == 2,
        member_type_of(v) == Some(MemberType::ReferenceToArray) <==> v == 3,
        member_type_of(v) == Some(MemberType::ArrayOfReferences) <==> v == 4,
        member_type_of(v) == Some(MemberType::VariantReference) <==> v == 5,
        member_type_of(v) == Some(MemberType::ReferenceToVariantArray) <==> v == 7,
        member_type_of(v) == Some(MemberType::String) <==> v == 8,
        member_type_of(v) == Some(MemberType::Transform) <==> v == 9,
        member_type_of(v) == Some(MemberType::Real32) <==> v == 10,
        member_type_of(v) == Some(MemberType::Int8) <==> v == 11,
        member_type_of(v) == Some(MemberType::UInt8) <==> v == 12,
        member_type_of(v) == Some(MemberType::BinormalInt8) <==> v == 13,
        member_type_of(v) == Some(MemberType::NormalUInt8) <==> v == 14,
        member_type_of(v) == Some(MemberType::Int16) <==> v == 15,
        member_type_of(v) == Some(MemberType::UInt16) <==> v == 16,
        member_type_of(v) == Some(MemberType::BinormalInt16) <==> v == 17,
        member_type_of(v) == Some(MemberType::NormalUInt16) <==> v == 18,
        member_type_of(v) == Some(MemberType::Int32) <==> v == 19,
        member_type_of(v) == Some(MemberType::UInt32) <==> v == 20,
        member_type_of(v) == Some(MemberType::Real16) <==> v == 21,
        member_type_of(v) == Some(MemberType::EmptyReference) <==> v == 22,
{
}

/// The size of a value is that of its parts: numbers of one, two or four bytes, pointers of the
/// file's width `p`, and seventeen numbers of four bytes in a transform.
pub proof fn law_member_sizes(t: MemberType, w: PointerWidth)
    ensures
        ({
            let p: int = if w == PointerWidth::P32 {
                4
            } else {
                8
            };
            t.bytes(w) == match t {
                MemberType::Terminator => 0int,
                MemberType::Inline => 0int,
                MemberType::Int8 => 1int,
                MemberType::UInt8 => 1int,
                MemberType::BinormalInt8 => 1int,
                MemberType::NormalUInt8 => 1int,
                MemberType::Int16 => 2int,
                MemberType::UInt16 => 2int,
                MemberType::BinormalInt16 => 2int,
                MemberType::NormalUInt16 => 2int,
                MemberType::Real16 => 2int,
                MemberType::Int32 => 4int,
                MemberType::UInt32 => 4int,
                MemberType::Real32 => 4int,
                MemberType::Reference => p,
                MemberType::String => p,
                MemberType::EmptyReference => p,
                MemberType::VariantReference => p + p,
                MemberType::ReferenceToArray => 4 + p,
                MemberType::ArrayOfReferences => 4 + p,
                MemberType::ReferenceToVariantArray => p + 4 + p,
                MemberType::Transform => 4 * (1int + 3 + 4 + 9),
            }
        }),
{
}

} // verus!
