//! Granny 2 binary file format structures.
use crate::element::Float32;
use crate::text::{decimal, decimal_text, hex8, padded_hex_text};
use vstd::prelude::*;
use vstd::string::*;

verus! {

// ---------------------------------------------------------------------------
// Magic signatures (16 bytes each): they determine endianness and pointer width
// ---------------------------------------------------------------------------

pub const MAGIC_LE32_V7: [u8; 16] = [
    0x29, 0xDE, 0x6C, 0xC0, 0xBA, 0xA4, 0x53, 0x2B,
    0x25, 0xF5, 0xB7, 0xA5, 0xF6, 0x66, 0xE2, 0xEE,
];

pub const MAGIC_LE32_V6: [u8; 16] = [
    0xB8, 0x67, 0xB0, 0xCA, 0xF8, 0x6D, 0xB1, 0x0F,
    0x84, 0x72, 0x8C, 0x7E, 0x5E, 0x19, 0x00, 0x1E,
];

pub const MAGIC_BE32: [u8; 16] = [
    0x0E, 0x11, 0x95, 0xB5, 0x6A, 0xA5, 0xB5, 0x4B,
    0xEB, 0x28, 0x28, 0x50, 0x25, 0x78, 0xB3, 0x04,
];

pub const MAGIC_LE64: [u8; 16] = [
    0xE5, 0x9B, 0x49, 0x5E, 0x6F, 0x63, 0x1F, 0x14,
    0x1E, 0x13, 0xEB, 0xA9, 0x90, 0xBE, 0xED, 0xC4,
];

pub const MAGIC_BE64: [u8; 16] = [
    0x31, 0x95, 0xD4, 0xE3, 0x20, 0xDC, 0x4F, 0x62,
    0xCC, 0x36, 0xD0, 0x3A, 0xB1, 0x82, 0xFF, 0x89,
];

// ---------------------------------------------------------------------------
// Format identification
// ---------------------------------------------------------------------------

#[derive(Debug, Clone, Copy, PartialEq, Eq, Structural)]
pub enum Endianness {
    Little,
    Big,
}

#[derive(Debug, Clone, Copy, PartialEq, Eq, Structural)]
pub enum PointerWidth {
    P32,
    P64,
}

impl PointerWidth {
    /// Bytes in a pointer.
    pub open spec fn bytes(self) -> usize {
        match self {
            PointerWidth::P32 => 4,
            PointerWidth::P64 => 8,
        }
    }

    pub fn size(self) -> (r: usize)
        ensures
            r == self.bytes(),
    {
        match self {
            PointerWidth::P32 => 4,
            PointerWidth::P64 => 8,
        }
    }
}

#[derive(Debug, Clone, Copy, PartialEq, Eq, Structural)]
pub struct FormatId {
    pub endianness: Endianness,
    pub pointer_width: PointerWidth,
}

/// The format that a 16-byte signature stands for, if it is a known one.
pub open spec fn magic_format(sig: Seq<u8>) -> Option<FormatId> {
    if sig == MAGIC_LE32_V7@ || sig == MAGIC_LE32_V6@ {
        Some(FormatId { endianness: Endianness::Little, pointer_width: PointerWidth::P32 })
    } else if sig == MAGIC_BE32@ {
        Some(FormatId { endianness: Endianness::Big, pointer_width: PointerWidth::P32 })
    } else if sig == MAGIC_LE64@ {
        Some(FormatId { endianness: Endianness::Little, pointer_width: PointerWidth::P64 })
    } else if sig == MAGIC_BE64@ {
        Some(FormatId { endianness: Endianness::Big, pointer_width: PointerWidth::P64 })
    } else {
        None
    }
}

fn same_signature(a: &[u8; 16], b: &[u8; 16]) -> (r: bool)
    ensures
        r == (a@ == b@),
{
    let mut i: usize = 0;
    while i < 16
        invariant
            i <= 16,
            forall|j: int| 0 <= j < i ==> a@[j] == b@[j],
        decreases 16 - i,
    {
        if a[i] != b[i] {
            assert(a@[i as int] != b@[i as int]);
            return false;
        }
        i = i + 1;
    }
    assert(a@ =~= b@);
    true
}

/// Identifies the endianness and pointer width of a file by its signature.
pub fn identify_magic(sig: &[u8; 16]) -> (r: Option<FormatId>)
    ensures
        r == magic_format(sig@),
{
    if same_signature(sig, &MAGIC_LE32_V7) || same_signature(sig, &MAGIC_LE32_V6) {
        Some(FormatId { endianness: Endianness::Little, pointer_width: PointerWidth::P32 })
    } else if same_signature(sig, &MAGIC_BE32) {
        Some(FormatId { endianness: Endianness::Big, pointer_width: PointerWidth::P32 })
    } else if same_signature(sig, &MAGIC_LE64) {
        Some(FormatId { endianness: Endianness::Little, pointer_width: PointerWidth::P64 })
    } else if same_signature(sig, &MAGIC_BE64) {
        Some(FormatId { endianness: Endianness::Big, pointer_width: PointerWidth::P64 })
    } else {
        None
    }
}

// ---------------------------------------------------------------------------
// Magic block (0x20 = 32 bytes at file offset 0)
// ---------------------------------------------------------------------------

#[derive(Debug, Clone, Copy)]
pub struct MagicBlock {
    pub format: FormatId,
    pub headers_size: u32,
    /// 0 means uncompressed.
    pub header_format: u32,
}

// ---------------------------------------------------------------------------
// Section reference (8 bytes)
// ---------------------------------------------------------------------------

#[derive(Debug, Clone, Copy)]
pub struct SectionRef {
    pub section: u32,
    pub offset: u32,
}

impl SectionRef {
    /// The reference that points nowhere.
    pub fn invalid() -> (r: SectionRef)
        ensures
            !r.valid(),
            r.offset == 0,
    {
        SectionRef { section: 0xFFFF_FFFF, offset: 0 }
    }

    /// Whether the reference points anywhere.
    pub open spec fn valid(self) -> bool {
        self.section != 0xFFFF_FFFF
    }

    pub fn is_valid(self) -> (r: bool)
        ensures
            r == self.valid(),
    {
        self.section != 0xFFFF_FFFF
    }
}

// ---------------------------------------------------------------------------
// Header (follows the magic block at offset 0x20)
// v6: 0x38 bytes, v7: 0x48 bytes
// ---------------------------------------------------------------------------

#[derive(Debug, Clone)]
pub struct Header {
    pub version: u32,
    pub file_size: u32,
    pub crc: u32,
    /// Offset from the header's start to the section headers.
    pub sections_offset: u32,
    pub num_sections: u32,
    pub root_type: SectionRef,
    pub root_node: SectionRef,
    pub tag: u32,
    pub extra_tags: [u32; 4],
    /// Version 7 only.
    pub string_table_crc: u32,
}

impl Header {
    /// The one-line summary of a header.
    pub open spec fn text(&self) -> Seq<char> {
        "GR2 v"@ + decimal_text(self.version as nat) + ": "@ + decimal_text(self.file_size as nat)
            + " bytes, "@ + decimal_text(self.num_sections as nat) + " sections, tag=0x"@
            + padded_hex_text(self.tag as nat, 8)
    }

    /// Renders the one-line summary.
    pub fn to_string(&self) -> (r: String)
        ensures
            r@ == self.text(),
    {
        let mut s = "GR2 v".to_string();
        s.append(decimal(self.version as u64).as_str());
        s.append(": ");
        s.append(decimal(self.file_size as u64).as_str());
        s.append(" bytes, ");
        s.append(decimal(self.num_sections as u64).as_str());
        s.append(" sections, tag=0x");
        s.append(hex8(self.tag).as_str());
        s
    }
}

// ---------------------------------------------------------------------------
// Section header (0x2C = 44 bytes each)
// ---------------------------------------------------------------------------

#[derive(Debug, Clone, Copy, PartialEq, Eq, Structural)]
pub enum Compression {
    Uncompressed,
    Oodle0,
    Oodle1,
    BitKnit1,
    BitKnit2,
    Unknown(u32),
}

/// The compression that a section header's code stands for.
pub open spec fn compression_of(v: u32) -> Compression {
    if v == 0 {
        Compression::Uncompressed
    } else if v == 1 {
        Compression::Oodle0
    } else if v == 2 {
        Compression::Oodle1
    } else if v == 3 {
        Compression::BitKnit1
    } else if v == 4 {
        Compression::BitKnit2
    } else {
        Compression::Unknown(v)
    }
}

impl From<u32> for Compression {
    fn from(v: u32) -> (r: Self) {
        match v {
            0 => Compression::Uncompressed,
            1 => Compression::Oodle0,
            2 => Compression::Oodle1,
            3 => Compression::BitKnit1,
            4 => Compression::BitKnit2,
            n => Compression::Unknown(n),
        }
    }
}

impl vstd::std_specs::convert::FromSpecImpl<u32> for Compression {
    open spec fn obeys_from_spec() -> bool {
        true
    }

    open spec fn from_spec(v: u32) -> Self {
        compression_of(v)
    }
}

impl Compression {
    /// The name under which a compression is shown.
    pub open spec fn text(self) -> Seq<char> {
        match self {
            Compression::Uncompressed => "none"@,
            Compression::Oodle0 => "oodle0"@,
            Compression::Oodle1 => "oodle1"@,
            Compression::BitKnit1 => "bitknit1"@,
            Compression::BitKnit2 => "bitknit2"@,
            Compression::Unknown(n) => "unknown("@ + decimal_text(n as nat) + ")"@,
        }
    }

    /// Renders the name.
    pub fn to_string(&self) -> (r: String)
        ensures
            r@ == self.text(),
    {
        match self {
            Compression::Uncompressed => "none".to_string(),
            Compression::Oodle0 => "oodle0".to_string(),
            Compression::Oodle1 => "oodle1".to_string(),
            Compression::BitKnit1 => "bitknit1".to_string(),
            Compression::BitKnit2 => "bitknit2".to_string(),
            Compression::Unknown(n) => {
                let mut s = "unknown(".to_string();
                s.append(decimal(*n as u64).as_str());
                s.append(")");
                s
            },
        }
    }
}

#[derive(Debug, Clone, Copy)]
pub struct SectionHeader {
    pub compression: Compression,
    pub offset_in_file: u32,
    pub compressed_size: u32,
    pub uncompressed_size: u32,
    pub alignment: u32,
    /// First Oodle stop position.
    pub first_16bit: u32,
    /// Second Oodle stop position.
    pub first_8bit: u32,
    pub relocations_offset: u32,
    pub num_relocations: u32,
    pub mixed_marshalling_offset: u32,
    pub num_mixed_marshalling: u32,
}

impl SectionHeader {
    pub fn has_data(&self) -> (r: bool)
        ensures
            r == (self.uncompressed_size > 0),
    {
        self.uncompressed_size > 0
    }
}

// ---------------------------------------------------------------------------
// Relocation entry (12 bytes)
// ---------------------------------------------------------------------------

#[derive(Debug, Clone, Copy)]
pub struct Relocation {
    pub offset_in_section: u32,
    pub target_section: u32,
    pub target_offset: u32,
}

// ---------------------------------------------------------------------------
// Mixed marshalling entry (16 bytes)
// ---------------------------------------------------------------------------

#[derive(Debug, Clone, Copy)]
pub struct MixedMarshalling {
    pub count: u32,
    pub offset_in_section: u32,
    pub type_ref: SectionRef,
}

// ---------------------------------------------------------------------------
// Type system
// ---------------------------------------------------------------------------

#[derive(Debug, Clone, Copy, PartialEq, Eq, Structural)]
pub enum MemberType {
    /// Ends a struct definition.
    Terminator,
    Inline,
    Reference,
    ReferenceToArray,
    ArrayOfReferences,
    VariantReference,
    ReferenceToVariantArray,
    String,
    Transform,
    Real32,
    Int8,
    UInt8,
    BinormalInt8,
    NormalUInt8,
    Int16,
    UInt16,
    BinormalInt16,
    NormalUInt16,
    Int32,
    UInt32,
    Real16,
    EmptyReference,
}

/// The member type that a type code stands for; the code 6 and codes past 22 stand for none.
pub open spec fn member_type_of(v: u32) -> Option<MemberType> {
    if v == 0 {
        Some(MemberType::Terminator)
    } else if v == 1 {
        Some(MemberType::Inline)
    } else if v == 2 {
        Some(MemberType::Reference)
    } else if v == 3 {
        Some(MemberType::ReferenceToArray)
    } else if v == 4 {
        Some(MemberType::ArrayOfReferences)
    } else if v == 5 {
        Some(MemberType::VariantReference)
    } else if v == 7 {
        Some(MemberType::ReferenceToVariantArray)
    } else if v == 8 {
        Some(MemberType::String)
    } else if v == 9 {
        Some(MemberType::Transform)
    } else if v == 10 {
        Some(MemberType::Real32)
    } else if v == 11 {
        Some(MemberType::Int8)
    } else if v == 12 {
        Some(MemberType::UInt8)
    } else if v == 13 {
        Some(MemberType::BinormalInt8)
    } else if v == 14 {
        Some(MemberType::NormalUInt8)
    } else if v == 15 {
        Some(MemberType::Int16)
    } else if v == 16 {
        Some(MemberType::UInt16)
    } else if v == 17 {
        Some(MemberType::BinormalInt16)
    } else if v == 18 {
        Some(MemberType::NormalUInt16)
    } else if v == 19 {
        Some(MemberType::Int32)
    } else if v == 20 {
        Some(MemberType::UInt32)
    } else if v == 21 {
        Some(MemberType::Real16)
    } else if v == 22 {
        Some(MemberType::EmptyReference)
    } else {
        None
    }
}

/// The type code that stands for `t`.
pub open spec fn member_code(t: MemberType) -> u32 {
    choose|v: u32| #[trigger] member_type_of(v) == Some(t)
}

impl TryFrom<u32> for MemberType {
    type Error = u32;

    fn try_from(v: u32) -> (r: Result<Self, u32>) {
        match v {
            0 => Ok(MemberType::Terminator),
            1 => Ok(MemberType::Inline),
            2 => Ok(MemberType::Reference),
            3 => Ok(MemberType::ReferenceToArray),
            4 => Ok(MemberType::ArrayOfReferences),
            5 => Ok(MemberType::VariantReference),
            7 => Ok(MemberType::ReferenceToVariantArray),
            8 => Ok(MemberType::String),
            9 => Ok(MemberType::Transform),
            10 => Ok(MemberType::Real32),
            11 => Ok(MemberType::Int8),
            12 => Ok(MemberType::UInt8),
            13 => Ok(MemberType::BinormalInt8),
            14 => Ok(MemberType::NormalUInt8),
            15 => Ok(MemberType::Int16),
            16 => Ok(MemberType::UInt16),
            17 => Ok(MemberType::BinormalInt16),
            18 => Ok(MemberType::NormalUInt16),
            19 => Ok(MemberType::Int32),
            20 => Ok(MemberType::UInt32),
            21 => Ok(MemberType::Real16),
            22 => Ok(MemberType::EmptyReference),
            _ => Err(v),
        }
    }
}

impl vstd::std_specs::convert::TryFromSpecImpl<u32> for MemberType {
    open spec fn obeys_try_from_spec() -> bool {
        true
    }

    open spec fn try_from_spec(v: u32) -> Result<Self, Self::Error> {
        match member_type_of(v) {
            Some(m) => Ok(m),
            None => Err(v),
        }
    }
}

impl MemberType {
    /// The code under which this member type is stored.
    pub fn code(self) -> (r: u32)
        ensures
            member_type_of(r) == Some(self),
            r == member_code(self),
    {
        proof {
            law_member_codes_read_back(self);
        }
        match self {
            MemberType::Terminator => 0,
            MemberType::Inline => 1,
            MemberType::Reference => 2,
            MemberType::ReferenceToArray => 3,
            MemberType::ArrayOfReferences => 4,
            MemberType::VariantReference => 5,
            MemberType::ReferenceToVariantArray => 7,
            MemberType::String => 8,
            MemberType::Transform => 9,
            MemberType::Real32 => 10,
            MemberType::Int8 => 11,
            MemberType::UInt8 => 12,
            MemberType::BinormalInt8 => 13,
            MemberType::NormalUInt8 => 14,
            MemberType::Int16 => 15,
            MemberType::UInt16 => 16,
            MemberType::BinormalInt16 => 17,
            MemberType::NormalUInt16 => 18,
            MemberType::Int32 => 19,
            MemberType::UInt32 => 20,
            MemberType::Real16 => 21,
            MemberType::EmptyReference => 22,
        }
    }

    /// Bytes that one value of this type occupies, given the file's pointer width.
    pub open spec fn bytes(self, ptr: PointerWidth) -> usize {
        let p = ptr.bytes();
        match self {
            MemberType::Terminator | MemberType::Inline => 0,
            MemberType::Int8 | MemberType::UInt8 | MemberType::BinormalInt8
            | MemberType::NormalUInt8 => 1,
            MemberType::Int16 | MemberType::UInt16 | MemberType::BinormalInt16
            | MemberType::NormalUInt16 | MemberType::Real16 => 2,
            MemberType::Real32 | MemberType::Int32 | MemberType::UInt32 => 4,
            MemberType::Reference | MemberType::String | MemberType::EmptyReference => p,
            MemberType::VariantReference => (2 * p) as usize,
            MemberType::ReferenceToArray | MemberType::ArrayOfReferences => (4 + p) as usize,
            MemberType::ReferenceToVariantArray => (4 + 2 * p) as usize,
            MemberType::Transform => 68,
        }
    }

    /// Size in bytes for this member type given the file's pointer width.
    pub fn size(self, ptr: PointerWidth) -> (r: usize)
        ensures
            r == self.bytes(ptr),
    {
        let p: usize = ptr.size();
        match self {
            MemberType::Terminator | MemberType::Inline => 0,
            MemberType::Int8 | MemberType::UInt8 | MemberType::BinormalInt8
            | MemberType::NormalUInt8 => 1,
            MemberType::Int16 | MemberType::UInt16 | MemberType::BinormalInt16
            | MemberType::NormalUInt16 | MemberType::Real16 => 2,
            MemberType::Real32 | MemberType::Int32 | MemberType::UInt32 => 4,
            MemberType::Reference | MemberType::String | MemberType::EmptyReference => p,
            // type pointer, data pointer
            MemberType::VariantReference => p * 2,
            // count (u32), pointer
            MemberType::ReferenceToArray | MemberType::ArrayOfReferences => 4 + p,
            // type pointer, count (u32), data pointer
            MemberType::ReferenceToVariantArray => p + 4 + p,
            // flags (4), translation (12), rotation (16), 3x3 scale and shear (36)
            MemberType::Transform => 68,
        }
    }

    /// The name under which a member type is shown.
    pub open spec fn text(self) -> Seq<char> {
        match self {
            MemberType::Terminator => "None"@,
            MemberType::Inline => "Inline"@,
            MemberType::Reference => "Reference"@,
            MemberType::ReferenceToArray => "ReferenceToArray"@,
            MemberType::ArrayOfReferences => "ArrayOfReferences"@,
            MemberType::VariantReference => "VariantReference"@,
            MemberType::ReferenceToVariantArray => "ReferenceToVariantArray"@,
            MemberType::String => "String"@,
            MemberType::Transform => "Transform"@,
            MemberType::Real32 => "Real32"@,
            MemberType::Int8 => "Int8"@,
            MemberType::UInt8 => "UInt8"@,
            MemberType::BinormalInt8 => "BinormalInt8"@,
            MemberType::NormalUInt8 => "NormalUInt8"@,
            MemberType::Int16 => "Int16"@,
            MemberType::UInt16 => "UInt16"@,
            MemberType::BinormalInt16 => "BinormalInt16"@,
            MemberType::NormalUInt16 => "NormalUInt16"@,
            MemberType::Int32 => "Int32"@,
            MemberType::UInt32 => "UInt32"@,
            MemberType::Real16 => "Real16"@,
            MemberType::EmptyReference => "EmptyReference"@,
        }
    }

    /// Renders the name.
    pub fn to_string(&self) -> (r: String)
        ensures
            r@ == self.text(),
    {
        match self {
            MemberType::Terminator => "None".to_string(),
            MemberType::Inline => "Inline".to_string(),
            MemberType::Reference => "Reference".to_string(),
            MemberType::ReferenceToArray => "ReferenceToArray".to_string(),
            MemberType::ArrayOfReferences => "ArrayOfReferences".to_string(),
            MemberType::VariantReference => "VariantReference".to_string(),
            MemberType::ReferenceToVariantArray => "ReferenceToVariantArray".to_string(),
            MemberType::String => "String".to_string(),
            MemberType::Transform => "Transform".to_string(),
            MemberType::Real32 => "Real32".to_string(),
            MemberType::Int8 => "Int8".to_string(),
            MemberType::UInt8 => "UInt8".to_string(),
            MemberType::BinormalInt8 => "BinormalInt8".to_string(),
            MemberType::NormalUInt8 => "NormalUInt8".to_string(),
            MemberType::Int16 => "Int16".to_string(),
            MemberType::UInt16 => "UInt16".to_string(),
            MemberType::BinormalInt16 => "BinormalInt16".to_string(),
            MemberType::NormalUInt16 => "NormalUInt16".to_string(),
            MemberType::Int32 => "Int32".to_string(),
            MemberType::UInt32 => "UInt32".to_string(),
            MemberType::Real16 => "Real16".to_string(),
            MemberType::EmptyReference => "EmptyReference".to_string(),
        }
    }
}

// ---------------------------------------------------------------------------
// Endian-aware binary access
// ---------------------------------------------------------------------------

/// The two bytes at `off` as a number.
pub open spec fn u16_at(data: Seq<u8>, off: int, endian: Endianness) -> u16 {
    match endian {
        Endianness::Little => (data[off] + 0x100 * data[off + 1]) as u16,
        Endianness::Big => (data[off + 1] + 0x100 * data[off]) as u16,
    }
}

/// The four bytes at `off` as a number.
pub open spec fn u32_at(data: Seq<u8>, off: int, endian: Endianness) -> u32 {
    match endian {
        Endianness::Little => (data[off] + 0x100 * data[off + 1] + 0x1_0000 * data[off + 2]
            + 0x100_0000 * data[off + 3]) as u32,
        Endianness::Big => (data[off + 3] + 0x100 * data[off + 2] + 0x1_0000 * data[off + 1]
            + 0x100_0000 * data[off]) as u32,
    }
}

/// The eight bytes at `off` as a number.
pub open spec fn u64_at(data: Seq<u8>, off: int, endian: Endianness) -> u64 {
    match endian {
        Endianness::Little => (u32_at(data, off, endian) + 0x1_0000_0000 * u32_at(
            data,
            off + 4,
            endian,
        )) as u64,
        Endianness::Big => (u32_at(data, off + 4, endian) + 0x1_0000_0000 * u32_at(
            data,
            off,
            endian,
        )) as u64,
    }
}

/// The two's complement reading of an eight-bit number.
pub open spec fn as_i8(v: u8) -> i8 {
    if v < 0x80 {
        v as i8
    } else {
        (v - 0x100) as i8
    }
}

/// The two's complement reading of a sixteen-bit number.
pub open spec fn as_i16(v: u16) -> i16 {
    if v < 0x8000 {
        v as i16
    } else {
        (v - 0x1_0000) as i16
    }
}

/// The two's complement reading of a thirty-two-bit number.
pub open spec fn as_i32(v: u32) -> i32 {
    if v < 0x8000_0000 {
        v as i32
    } else {
        (v - 0x1_0000_0000) as i32
    }
}

pub fn to_i8(v: u8) -> (r: i8)
    ensures
        r == as_i8(v),
{
    if v < 0x80 {
        v as i8
    } else {
        (v as i16 - 0x100) as i8
    }
}

pub fn to_i16(v: u16) -> (r: i16)
    ensures
        r == as_i16(v),
{
    if v < 0x8000 {
        v as i16
    } else {
        (v as i32 - 0x1_0000) as i16
    }
}

pub fn to_i32(v: u32) -> (r: i32)
    ensures
        r == as_i32(v),
{
    if v < 0x8000_0000 {
        v as i32
    } else {
        (v as i64 - 0x1_0000_0000) as i32
    }
}

pub fn rd_u16(data: &[u8], off: usize, endian: Endianness) -> (r: u16)
    requires
        off + 2 <= data.len(),
    ensures
        r == u16_at(data@, off as int, endian),
{
    match endian {
        Endianness::Little => data[off] as u16 + 0x100 * data[off + 1] as u16,
        Endianness::Big => data[off + 1] as u16 + 0x100 * data[off] as u16,
    }
}

pub fn rd_i16(data: &[u8], off: usize, endian: Endianness) -> (r: i16)
    requires
        off + 2 <= data.len(),
    ensures
        r == as_i16(u16_at(data@, off as int, endian)),
{
    to_i16(rd_u16(data, off, endian))
}

pub fn rd_u32(data: &[u8], off: usize, endian: Endianness) -> (r: u32)
    requires
        off + 4 <= data.len(),
    ensures
        r == u32_at(data@, off as int, endian),
{
    match endian {
        Endianness::Little => data[off] as u32 + 0x100 * data[off + 1] as u32 + 0x1_0000 * data[off
            + 2] as u32 + 0x100_0000 * data[off + 3] as u32,
        Endianness::Big => data[off + 3] as u32 + 0x100 * data[off + 2] as u32 + 0x1_0000
            * data[off + 1] as u32 + 0x100_0000 * data[off] as u32,
    }
}

pub fn rd_i32(data: &[u8], off: usize, endian: Endianness) -> (r: i32)
    requires
        off + 4 <= data.len(),
    ensures
        r == as_i32(u32_at(data@, off as int, endian)),
{
    to_i32(rd_u32(data, off, endian))
}

pub fn rd_u64(data: &[u8], off: usize, endian: Endianness) -> (r: u64)
    requires
        off + 8 <= data.len(),
    ensures
        r == u64_at(data@, off as int, endian),
{
    let first: u64 = rd_u32(data, off, endian) as u64;
    let second: u64 = rd_u32(data, off + 4, endian) as u64;
    match endian {
        Endianness::Little => first + 0x1_0000_0000 * second,
        Endianness::Big => second + 0x1_0000_0000 * first,
    }
}

/// Every member type has a code. Reading that code back gives the type, and no other code does.
pub proof fn law_member_codes_read_back(t: MemberType)
    ensures
        member_type_of(member_code(t)) == Some(t),
        forall|v: u32| #[trigger] member_type_of(v) == Some(t) ==> v == member_code(t),
{
    assert(exists|v: u32| #[trigger] member_type_of(v) == Some(t)) by {
        match t {
            MemberType::Terminator => assert(member_type_of(0) == Some(t)),
            MemberType::Inline => assert(member_type_of(1) == Some(t)),
            MemberType::Reference => assert(member_type_of(2) == Some(t)),
            MemberType::ReferenceToArray => assert(member_type_of(3) == Some(t)),
            MemberType::ArrayOfReferences => assert(member_type_of(4) == Some(t)),
            MemberType::VariantReference => assert(member_type_of(5) == Some(t)),
            MemberType::ReferenceToVariantArray => assert(member_type_of(7) == Some(t)),
            MemberType::String => assert(member_type_of(8) == Some(t)),
            MemberType::Transform => assert(member_type_of(9) == Some(t)),
            MemberType::Real32 => assert(member_type_of(10) == Some(t)),
            MemberType::Int8 => assert(member_type_of(11) == Some(t)),
            MemberType::UInt8 => assert(member_type_of(12) == Some(t)),
            MemberType::BinormalInt8 => assert(member_type_of(13) == Some(t)),
            MemberType::NormalUInt8 => assert(member_type_of(14) == Some(t)),
            MemberType::Int16 => assert(member_type_of(15) == Some(t)),
            MemberType::UInt16 => assert(member_type_of(16) == Some(t)),
            MemberType::BinormalInt16 => assert(member_type_of(17) == Some(t)),
            MemberType::NormalUInt16 => assert(member_type_of(18) == Some(t)),
            MemberType::Int32 => assert(member_type_of(19) == Some(t)),
            MemberType::UInt32 => assert(member_type_of(20) == Some(t)),
            MemberType::Real16 => assert(member_type_of(21) == Some(t)),
            MemberType::EmptyReference => assert(member_type_of(22) == Some(t)),
        }
    }
}

pub fn rd_f32(data: &[u8], off: usize, endian: Endianness) -> (r: Float32)
    requires
        off + 4 <= data.len(),
    ensures
        r.bits == u32_at(data@, off as int, endian),
{
    Float32 { bits: rd_u32(data, off, endian) }
}

/// The same bytes back to front give the same number in the other byte order.
pub proof fn law_byte_orders_mirror(data: Seq<u8>)
    ensures
        data.len() == 2 ==> u16_at(data.reverse(), 0, Endianness::Big) == u16_at(
            data,
            0,
            Endianness::Little,
        ),
        data.len() == 4 ==> u32_at(data.reverse(), 0, Endianness::Big) == u32_at(
            data,
            0,
            Endianness::Little,
        ),
        data.len() == 8 ==> u64_at(data.reverse(), 0, Endianness::Big) == u64_at(
            data,
            0,
            Endianness::Little,
        ),
{
}

} // verus!
