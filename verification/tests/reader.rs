use gr2_rs::bitknit;
use gr2_rs::element::{Float32, Value};
use gr2_rs::format::{
    rd_u32, rd_u64, Compression, Endianness, FormatId, Header, MagicBlock, MemberType,
    PointerWidth, SectionHeader, SectionRef, MAGIC_BE32, MAGIC_BE64, MAGIC_LE32_V7, MAGIC_LE64,
};
use gr2_rs::oodle1;
use gr2_rs::reader::crc::{compute_file_crc, crc32, crc32_table};
use gr2_rs::reader::pointers::write_ptr;
use gr2_rs::reader::{
    Error, Gr2File, IoError, IoErrorKind, Section, MAX_EXTRACT_DEPTH, MIN_FILE_SIZE,
};

fn float(x: f32) -> Float32 {
    Float32 { bits: x.to_bits() }
}

fn make_gr2(flat: Vec<u8>) -> Gr2File {
    make_gr2_full(flat, vec![], Endianness::Little, PointerWidth::P64)
}

fn make_gr2_be(flat: Vec<u8>) -> Gr2File {
    make_gr2_full(flat, vec![], Endianness::Big, PointerWidth::P64)
}

fn make_gr2_p32(flat: Vec<u8>) -> Gr2File {
    make_gr2_full(flat, vec![], Endianness::Little, PointerWidth::P32)
}

fn make_gr2_be_p32(flat: Vec<u8>) -> Gr2File {
    make_gr2_full(flat, vec![], Endianness::Big, PointerWidth::P32)
}

fn make_gr2_with_sections(flat: Vec<u8>, sections: Vec<Section>) -> Gr2File {
    make_gr2_full(flat, sections, Endianness::Little, PointerWidth::P64)
}

fn make_gr2_full(
    flat: Vec<u8>,
    sections: Vec<Section>,
    endianness: Endianness,
    pointer_width: PointerWidth,
) -> Gr2File {
    Gr2File {
        magic: MagicBlock {
            format: FormatId {
                endianness,
                pointer_width,
            },
            headers_size: 0,
            header_format: 0,
        },
        header: Header {
            version: 7,
            file_size: 0,
            crc: 0,
            sections_offset: 0,
            num_sections: sections.len() as u32,
            root_type: SectionRef::invalid(),
            root_node: SectionRef::invalid(),
            tag: 0,
            extra_tags: [0; 4],
            string_table_crc: 0,
        },
        sections,
        flat,
        endianness,
        pointer_width,
    }
}

fn dummy_section(base_address: usize, size: usize) -> Section {
    Section {
        header: SectionHeader {
            compression: Compression::Uncompressed,
            offset_in_file: 0,
            compressed_size: 0,
            uncompressed_size: size as u32,
            alignment: 0,
            first_16bit: 0,
            first_8bit: 0,
            relocations_offset: 0,
            num_relocations: 0,
            mixed_marshalling_offset: 0,
            num_mixed_marshalling: 0,
        },
        base_address,
    }
}

/// Build a minimal valid GR2 file (version 6, 0 sections) for a given format.
fn make_minimal_file(magic: &[u8; 16], endian: Endianness) -> Vec<u8> {
    let mut data = vec![0u8; MIN_FILE_SIZE];
    data[..16].copy_from_slice(magic);
    // header_format at 0x14 = 0 (already zero)
    // Version 6 at 0x20
    let v6 = match endian {
        Endianness::Little => 6u32.to_le_bytes(),
        Endianness::Big => 6u32.to_be_bytes(),
    };
    data[0x20..0x24].copy_from_slice(&v6);
    // root_type = INVALID (0xFFFFFFFF) at 0x34
    let invalid = match endian {
        Endianness::Little => 0xFFFF_FFFFu32.to_le_bytes(),
        Endianness::Big => 0xFFFF_FFFFu32.to_be_bytes(),
    };
    data[0x34..0x38].copy_from_slice(&invalid);
    // root_node = INVALID at 0x3C
    data[0x3C..0x40].copy_from_slice(&invalid);
    // sections_offset at 0x2C — point past all header data
    let sect_off = match endian {
        Endianness::Little => 0x38u32.to_le_bytes(), // 0x20 + 0x38 = 0x58 = MIN_FILE_SIZE
        Endianness::Big => 0x38u32.to_be_bytes(),
    };
    data[0x2C..0x30].copy_from_slice(&sect_off);
    // num_sections = 0 at 0x30 (already zero)
    data
}

// ---- parse errors ----

#[test]
fn parse_unknown_magic() {
    let data = vec![0u8; 16];
    assert!(matches!(Gr2File::parse(&data), Err(Error::UnknownMagic)));
}

#[test]
fn parse_truncated_after_magic() {
    let mut data = vec![0u8; 32];
    data[..16].copy_from_slice(&MAGIC_LE64);
    assert!(matches!(Gr2File::parse(&data), Err(Error::Truncated)));
}

// ---- format acceptance ----

#[test]
fn parse_accepts_be64() {
    let data = make_minimal_file(&MAGIC_BE64, Endianness::Big);
    let gr2 = Gr2File::parse(&data).expect("BE64 should be accepted");
    assert_eq!(gr2.endianness, Endianness::Big);
    assert_eq!(gr2.pointer_width, PointerWidth::P64);
    assert_eq!(gr2.header.version, 6);
}

#[test]
fn parse_accepts_be32() {
    let data = make_minimal_file(&MAGIC_BE32, Endianness::Big);
    let gr2 = Gr2File::parse(&data).expect("BE32 should be accepted");
    assert_eq!(gr2.endianness, Endianness::Big);
    assert_eq!(gr2.pointer_width, PointerWidth::P32);
}

#[test]
fn parse_accepts_le32() {
    let data = make_minimal_file(&MAGIC_LE32_V7, Endianness::Little);
    let gr2 = Gr2File::parse(&data).expect("LE32 should be accepted");
    assert_eq!(gr2.endianness, Endianness::Little);
    assert_eq!(gr2.pointer_width, PointerWidth::P32);
}

#[test]
fn parse_accepts_le64() {
    let data = make_minimal_file(&MAGIC_LE64, Endianness::Little);
    let gr2 = Gr2File::parse(&data).expect("LE64 should be accepted");
    assert_eq!(gr2.endianness, Endianness::Little);
    assert_eq!(gr2.pointer_width, PointerWidth::P64);
}

// ---- read_string ----

#[test]
fn read_string_null_terminated() {
    let mut flat = vec![0u8; 16];
    flat[1] = b'h';
    flat[2] = b'e';
    flat[3] = b'l';
    flat[4] = b'l';
    flat[5] = b'o';
    flat[6] = 0;
    let gr2 = make_gr2(flat);
    assert_eq!(gr2.read_string(1), Some("hello"));
}

#[test]
fn read_string_at_zero_returns_none() {
    let gr2 = make_gr2(vec![0u8; 16]);
    assert_eq!(gr2.read_string(0), None);
}

#[test]
fn read_string_out_of_bounds_returns_none() {
    let gr2 = make_gr2(vec![0u8; 16]);
    assert_eq!(gr2.read_string(16), None);
    assert_eq!(gr2.read_string(100), None);
}

#[test]
fn read_string_invalid_utf8() {
    let mut flat = vec![0u8; 16];
    flat[1] = 0xFF;
    flat[2] = 0xFE;
    flat[3] = 0x00;
    let gr2 = make_gr2(flat);
    assert_eq!(gr2.read_string(1), None);
}

// ---- read_ptr ----

#[test]
fn read_ptr_null() {
    let gr2 = make_gr2(vec![0u8; 16]);
    assert_eq!(gr2.read_ptr(0), None);
}

#[test]
fn read_ptr_out_of_bounds() {
    let mut flat = vec![0u8; 16];
    flat[0..8].copy_from_slice(&100u64.to_le_bytes());
    let gr2 = make_gr2(flat);
    assert_eq!(gr2.read_ptr(0), None);
}

#[test]
fn read_ptr_insufficient_data() {
    let gr2 = make_gr2(vec![0u8; 4]);
    assert_eq!(gr2.read_ptr(0), None);
}

#[test]
fn read_ptr_valid() {
    let mut flat = vec![0u8; 32];
    flat[0..8].copy_from_slice(&16u64.to_le_bytes());
    let gr2 = make_gr2(flat);
    assert_eq!(gr2.read_ptr(0), Some(16));
}

#[test]
fn read_ptr_p32() {
    let mut flat = vec![0u8; 32];
    flat[0..4].copy_from_slice(&16u32.to_le_bytes());
    let gr2 = make_gr2_p32(flat);
    assert_eq!(gr2.read_ptr(0), Some(16));
}

#[test]
fn read_ptr_p32_insufficient_data() {
    let gr2 = make_gr2_p32(vec![0u8; 2]);
    assert_eq!(gr2.read_ptr(0), None);
}

// ---- resolve_ref ----

#[test]
fn resolve_ref_invalid() {
    let gr2 = make_gr2(vec![0u8; 16]);
    assert_eq!(gr2.resolve_ref(SectionRef::invalid()), None);
}

#[test]
fn resolve_ref_section_oob() {
    let gr2 = make_gr2(vec![0u8; 16]);
    let r = SectionRef {
        section: 5,
        offset: 0,
    };
    assert_eq!(gr2.resolve_ref(r), None);
}

#[test]
fn resolve_ref_valid() {
    let sections = vec![dummy_section(200, 100)];
    let gr2 = make_gr2_with_sections(vec![0u8; 300], sections);
    let r = SectionRef {
        section: 0,
        offset: 50,
    };
    assert_eq!(gr2.resolve_ref(r), Some(250));
}

// ---- flat buffer accessors ----

#[test]
fn flat_buffer_accessors() {
    let mut flat = vec![0u8; 32];
    flat[0..4].copy_from_slice(&0xDEADBEEFu32.to_le_bytes());
    flat[4..8].copy_from_slice(&(-42i32).to_le_bytes());
    flat[8..12].copy_from_slice(&1.5f32.to_le_bytes());
    flat[16..24].copy_from_slice(&0x0102030405060708u64.to_le_bytes());

    let gr2 = make_gr2(flat);
    assert_eq!(gr2.read_u32(0), Some(0xDEADBEEF));
    assert_eq!(gr2.read_i32(4), Some(-42));
    assert_eq!(gr2.read_f32(8), Some(float(1.5)));
    assert_eq!(gr2.read_u64(16), Some(0x0102030405060708));
}

#[test]
fn flat_buffer_accessors_be() {
    let mut flat = vec![0u8; 32];
    flat[0..4].copy_from_slice(&0xDEADBEEFu32.to_be_bytes());
    flat[4..8].copy_from_slice(&(-42i32).to_be_bytes());
    flat[8..12].copy_from_slice(&1.5f32.to_be_bytes());
    flat[16..24].copy_from_slice(&0x0102030405060708u64.to_be_bytes());

    let gr2 = make_gr2_be(flat);
    assert_eq!(gr2.read_u32(0), Some(0xDEADBEEF));
    assert_eq!(gr2.read_i32(4), Some(-42));
    assert_eq!(gr2.read_f32(8), Some(float(1.5)));
    assert_eq!(gr2.read_u64(16), Some(0x0102030405060708));
}

#[test]
fn flat_buffer_accessors_oob() {
    let gr2 = make_gr2(vec![0u8; 4]);
    assert_eq!(gr2.read_u32(0), Some(0));
    assert_eq!(gr2.read_u32(1), None);
    assert_eq!(gr2.read_i32(1), None);
    assert_eq!(gr2.read_f32(1), None);
    assert_eq!(gr2.read_u64(0), None);
}

// ---- read_u32_be ----

#[test]
fn read_u32_be() {
    let mut flat = vec![0u8; 8];
    flat[0..4].copy_from_slice(&0xCAFEBABEu32.to_be_bytes());
    let gr2 = make_gr2_be(flat);
    assert_eq!(gr2.read_u32(0), Some(0xCAFEBABE));
}

// ---- section_data ----

#[test]
fn section_data_returns_slice() {
    let flat = vec![0xAA; 100];
    let sections = vec![dummy_section(0, 40), dummy_section(40, 60)];
    let gr2 = make_gr2_with_sections(flat, sections);
    assert_eq!(gr2.section_data(0).unwrap().len(), 40);
    assert_eq!(gr2.section_data(1).unwrap().len(), 60);
    assert!(gr2.section_data(2).is_none());
}

// ---- member_def_size ----

#[test]
fn member_def_size_p64() {
    let gr2 = make_gr2(vec![]);
    assert_eq!(gr2.member_def_size(), 44);
}

#[test]
fn member_def_size_p32() {
    let gr2 = make_gr2_p32(vec![]);
    assert_eq!(gr2.member_def_size(), 32);
}

// ---- read_member_def_p32 ----

#[test]
fn read_member_def_p32() {
    // P32: type(4) + name_ptr(4) + children_ptr(4) + array_size(4) + extra(12) + unknown(4) = 32
    let mut flat = vec![0u8; 64];
    // Place a string "test" at offset 40
    flat[40] = b't';
    flat[41] = b'e';
    flat[42] = b's';
    flat[43] = b't';
    flat[44] = 0;

    // MemberDef at offset 0: type = Real32 (10)
    flat[0..4].copy_from_slice(&10u32.to_le_bytes());
    // name_ptr = 40 at offset 4
    flat[4..8].copy_from_slice(&40u32.to_le_bytes());
    // children_ptr = 0 at offset 8 (already zero)
    // array_size = 3 at offset 12
    flat[12..16].copy_from_slice(&3u32.to_le_bytes());

    let gr2 = make_gr2_p32(flat);
    let m = gr2.read_member_def(0).unwrap();
    assert_eq!(m.member_type, MemberType::Real32);
    assert_eq!(m.name, "test");
    assert_eq!(m.children_ptr, 0);
    assert_eq!(m.array_size, 3);
}

// ---- error source ----

#[test]
fn error_source_chains() {
    let io_err = Error::Io(IoError { kind: IoErrorKind::Other, message: "test".to_string() });
    assert!(io_err.source().is_some());

    let bk_err = Error::BitKnit(bitknit::Error::InvalidMagic);
    assert!(bk_err.source().is_some());

    let oo_err = Error::Oodle1(oodle1::Error::InputTruncated);
    assert!(oo_err.source().is_some());

    let other_err = Error::UnknownMagic;
    assert!(other_err.source().is_none());
}

// ---- write_ptr round-trips ----

#[test]
fn write_ptr_le_p64_roundtrip() {
    let mut buf = vec![0u8; 8];
    let val = 0x0102030405060708u64;
    write_ptr(&mut buf, 0, val, Endianness::Little, PointerWidth::P64);
    assert_eq!(rd_u64(&buf, 0, Endianness::Little), val);
}

#[test]
fn write_ptr_be_p64_roundtrip() {
    let mut buf = vec![0u8; 8];
    let val = 0x0102030405060708u64;
    write_ptr(&mut buf, 0, val, Endianness::Big, PointerWidth::P64);
    assert_eq!(rd_u64(&buf, 0, Endianness::Big), val);
}

#[test]
fn write_ptr_le_p32_roundtrip() {
    let mut buf = vec![0u8; 4];
    let val = 0xDEADBEEFu64;
    write_ptr(&mut buf, 0, val, Endianness::Little, PointerWidth::P32);
    assert_eq!(rd_u32(&buf, 0, Endianness::Little), 0xDEADBEEF);
}

#[test]
fn write_ptr_be_p32_roundtrip() {
    let mut buf = vec![0u8; 4];
    let val = 0xCAFEBABEu64;
    write_ptr(&mut buf, 0, val, Endianness::Big, PointerWidth::P32);
    assert_eq!(rd_u32(&buf, 0, Endianness::Big), 0xCAFEBABE);
}

#[test]
fn write_ptr_p32_truncation() {
    let mut buf = vec![0u8; 4];
    let val = 0x1_DEADBEEF_u64; // exceeds u32::MAX
    write_ptr(&mut buf, 0, val, Endianness::Little, PointerWidth::P32);
    assert_eq!(rd_u32(&buf, 0, Endianness::Little), 0xDEADBEEF);
}

// ---- read_ptr BE+P32 ----

#[test]
fn read_ptr_be_p32() {
    let mut flat = vec![0u8; 32];
    flat[0..4].copy_from_slice(&16u32.to_be_bytes());
    let gr2 = make_gr2_be_p32(flat);
    assert_eq!(gr2.read_ptr(0), Some(16));
}

// ---- read_member_def P64 LE and BE P32 ----

#[test]
fn read_member_def_p64_le() {
    // P64: type(4) + name_ptr(8) + children_ptr(8) + array_size(4) + extra(12) + unknown(8) = 44
    let mut flat = vec![0u8; 128];
    // Place a string "xyz" at offset 80
    flat[80] = b'x';
    flat[81] = b'y';
    flat[82] = b'z';
    flat[83] = 0;

    // type = UInt32 (20) at offset 0
    flat[0..4].copy_from_slice(&20u32.to_le_bytes());
    // name_ptr (u64) = 80 at offset 4
    flat[4..12].copy_from_slice(&80u64.to_le_bytes());
    // children_ptr (u64) = 0 at offset 12 (already zero)
    // array_size = 7 at offset 20
    flat[20..24].copy_from_slice(&7u32.to_le_bytes());

    let gr2 = make_gr2(flat);
    let m = gr2.read_member_def(0).unwrap();
    assert_eq!(m.member_type, MemberType::UInt32);
    assert_eq!(m.name, "xyz");
    assert_eq!(m.children_ptr, 0);
    assert_eq!(m.array_size, 7);
}

#[test]
fn read_member_def_be_p32() {
    // P32 BE: type(4) + name_ptr(4) + children_ptr(4) + array_size(4) + ... = 32
    let mut flat = vec![0u8; 64];
    // Place a string "ab" at offset 48
    flat[48] = b'a';
    flat[49] = b'b';
    flat[50] = 0;

    // type = Int16 (15) at offset 0, BE
    flat[0..4].copy_from_slice(&15u32.to_be_bytes());
    // name_ptr = 48 at offset 4, BE
    flat[4..8].copy_from_slice(&48u32.to_be_bytes());
    // children_ptr = 0 at offset 8 (already zero)
    // array_size = 2 at offset 12, BE
    flat[12..16].copy_from_slice(&2u32.to_be_bytes());

    let gr2 = make_gr2_be_p32(flat);
    let m = gr2.read_member_def(0).unwrap();
    assert_eq!(m.member_type, MemberType::Int16);
    assert_eq!(m.name, "ab");
    assert_eq!(m.children_ptr, 0);
    assert_eq!(m.array_size, 2);
}

// ---- walk_struct_def ----

#[test]
fn walk_struct_def_two_members() {
    // P32: each MemberDef = 32 bytes, need 2 real + 1 None terminator = 96 bytes + string space
    let mut flat = vec![0u8; 128];
    // String "a" at offset 100
    flat[100] = b'a';
    flat[101] = 0;
    // String "b" at offset 104
    flat[104] = b'b';
    flat[105] = 0;

    // Member 0 at offset 0: type=Real32(10), name_ptr=100, array_size=1
    flat[0..4].copy_from_slice(&10u32.to_le_bytes());
    flat[4..8].copy_from_slice(&100u32.to_le_bytes());
    flat[12..16].copy_from_slice(&1u32.to_le_bytes());

    // Member 1 at offset 32: type=UInt8(12), name_ptr=104, array_size=4
    flat[32..36].copy_from_slice(&12u32.to_le_bytes());
    flat[36..40].copy_from_slice(&104u32.to_le_bytes());
    flat[44..48].copy_from_slice(&4u32.to_le_bytes());

    // Member 2 at offset 64: type=None(0) — terminator (already zero)

    let gr2 = make_gr2_p32(flat);
    let members = gr2.walk_struct_def(0).unwrap();
    assert_eq!(members.len(), 2);
    assert_eq!(members[0].member_type, MemberType::Real32);
    assert_eq!(members[0].name, "a");
    assert_eq!(members[0].array_size, 1);
    assert_eq!(members[1].member_type, MemberType::UInt8);
    assert_eq!(members[1].name, "b");
    assert_eq!(members[1].array_size, 4);
}

#[test]
fn walk_struct_def_truncated() {
    // Buffer too small for a single member def (P32=32 bytes, give 16)
    let flat = vec![0u8; 16];
    let gr2 = make_gr2_p32(flat);
    let members = gr2.walk_struct_def(0).unwrap();
    assert!(members.is_empty());
}

// ---- rd_u32 / rd_u64 direct ----

#[test]
fn rd_u32_le_vs_be_direct() {
    let bytes = [0x01, 0x02, 0x03, 0x04];
    let le = rd_u32(&bytes, 0, Endianness::Little);
    let be = rd_u32(&bytes, 0, Endianness::Big);
    assert_eq!(le, 0x04030201);
    assert_eq!(be, 0x01020304);
    assert_ne!(le, be);
}

#[test]
fn rd_u64_le_vs_be_direct() {
    let bytes = [0x01, 0x02, 0x03, 0x04, 0x05, 0x06, 0x07, 0x08];
    let le = rd_u64(&bytes, 0, Endianness::Little);
    let be = rd_u64(&bytes, 0, Endianness::Big);
    assert_eq!(le, 0x0807060504030201);
    assert_eq!(be, 0x0102030405060708);
    assert_ne!(le, be);
}

// ---- parse error paths ----

#[test]
fn parse_unsupported_header_format() {
    let mut data = make_minimal_file(&MAGIC_LE64, Endianness::Little);
    // Set header_format at 0x14 to 1
    data[0x14..0x18].copy_from_slice(&1u32.to_le_bytes());
    assert!(matches!(
        Gr2File::parse(&data),
        Err(Error::UnsupportedHeaderFormat(1))
    ));
}

#[test]
fn parse_unsupported_version() {
    let mut data = make_minimal_file(&MAGIC_LE64, Endianness::Little);
    // Set version at 0x20 to 5
    data[0x20..0x24].copy_from_slice(&5u32.to_le_bytes());
    assert!(matches!(
        Gr2File::parse(&data),
        Err(Error::UnsupportedVersion(5))
    ));
}

#[test]
fn parse_truncated_section_headers() {
    let mut data = make_minimal_file(&MAGIC_LE64, Endianness::Little);
    // Set num_sections=1 at 0x30, but don't add any room for section headers
    data[0x30..0x34].copy_from_slice(&1u32.to_le_bytes());
    assert!(matches!(Gr2File::parse(&data), Err(Error::Truncated)));
}

// ---- read_u8 / read_i8 ----

#[test]
fn read_u8_i8_basic() {
    let flat = vec![0x00, 0x7F, 0x80, 0xFF];
    let gr2 = make_gr2(flat);
    assert_eq!(gr2.read_u8(0), Some(0));
    assert_eq!(gr2.read_u8(1), Some(0x7F));
    assert_eq!(gr2.read_u8(2), Some(0x80));
    assert_eq!(gr2.read_u8(3), Some(0xFF));
    assert_eq!(gr2.read_i8(0), Some(0));
    assert_eq!(gr2.read_i8(1), Some(127));
    assert_eq!(gr2.read_i8(2), Some(-128));
    assert_eq!(gr2.read_i8(3), Some(-1));
}

#[test]
fn read_u8_oob() {
    let gr2 = make_gr2(vec![0x42]);
    assert_eq!(gr2.read_u8(0), Some(0x42));
    assert_eq!(gr2.read_u8(1), None);
    assert_eq!(gr2.read_i8(1), None);
}

// ---- read_u16 / read_i16 ----

#[test]
fn read_u16_i16_le_be() {
    let mut flat = vec![0u8; 8];
    flat[0..2].copy_from_slice(&0x1234u16.to_le_bytes());
    let gr2_le = make_gr2(flat.clone());
    assert_eq!(gr2_le.read_u16(0), Some(0x1234));

    flat[0..2].copy_from_slice(&0x1234u16.to_be_bytes());
    let gr2_be = make_gr2_be(flat.clone());
    assert_eq!(gr2_be.read_u16(0), Some(0x1234));

    // Signed
    flat[4..6].copy_from_slice(&(-1000i16).to_le_bytes());
    let gr2_le = make_gr2(flat.clone());
    assert_eq!(gr2_le.read_i16(4), Some(-1000));

    flat[4..6].copy_from_slice(&(-1000i16).to_be_bytes());
    let gr2_be = make_gr2_be(flat);
    assert_eq!(gr2_be.read_i16(4), Some(-1000));
}

#[test]
fn read_u16_i16_oob() {
    let gr2 = make_gr2(vec![0x42]);
    assert_eq!(gr2.read_u16(0), None);
    assert_eq!(gr2.read_i16(0), None);
}

// ---- struct extraction ----

/// Build a P32 LE flat buffer with type defs and data for extraction tests.
/// Returns (gr2, type_offset, data_offset).
fn make_extraction_gr2(
    type_defs: &[(MemberType, &str, u32)], // (type, name, array_size)
    data: &[u8],
) -> (Gr2File, usize, usize) {
    // Layout: [type_defs at 0] [strings] [data]
    // P32 member def = 32 bytes each, plus None terminator
    let num_members = type_defs.len();
    let type_region = (num_members + 1) * 32; // +1 for None terminator
    let string_region_start = type_region;
    let mut strings: Vec<(usize, &str)> = Vec::new();

    // Collect string offsets
    let mut str_off = string_region_start;
    for (_, name, _) in type_defs {
        strings.push((str_off, name));
        str_off += name.len() + 1; // null terminated
    }
    let data_offset = str_off;
    let total = data_offset + data.len();

    let mut flat = vec![0u8; total];

    // Write strings
    for (off, name) in &strings {
        for (i, b) in name.bytes().enumerate() {
            flat[*off + i] = b;
        }
        flat[*off + name.len()] = 0;
    }

    // Write member defs
    for (i, (mtype, _, array_size)) in type_defs.iter().enumerate() {
        let off = i * 32;
        flat[off..off + 4].copy_from_slice(&mtype.code().to_le_bytes());
        flat[off + 4..off + 8].copy_from_slice(&(strings[i].0 as u32).to_le_bytes());
        // children_ptr at off+8 = 0
        flat[off + 12..off + 16].copy_from_slice(&array_size.to_le_bytes());
    }
    // None terminator already zero

    // Write data
    flat[data_offset..data_offset + data.len()].copy_from_slice(data);

    let gr2 = make_gr2_p32(flat);
    (gr2, 0, data_offset)
}

#[test]
fn extract_struct_scalars() {
    // Int32 + UInt32 + Real32
    let mut data = vec![0u8; 12];
    data[0..4].copy_from_slice(&(-42i32).to_le_bytes());
    data[4..8].copy_from_slice(&100u32.to_le_bytes());
    data[8..12].copy_from_slice(&1.5f32.to_le_bytes());

    let (gr2, toff, doff) = make_extraction_gr2(
        &[
            (MemberType::Int32, "a", 0),
            (MemberType::UInt32, "b", 0),
            (MemberType::Real32, "c", 0),
        ],
        &data,
    );
    let fields = gr2.extract_struct(toff, doff).unwrap();
    assert_eq!(fields.len(), 3);
    assert_eq!(fields[0].value, Value::Int32(-42));
    assert_eq!(fields[1].value, Value::UInt32(100));
    assert_eq!(fields[2].value, Value::Real32(float(1.5)));
}

#[test]
fn extract_struct_string() {
    // String member pointing to a string elsewhere in flat buffer
    // We need the pointer in the data region to point to a valid string
    // For P32, String is a 4-byte pointer
    let (mut gr2, toff, doff) = make_extraction_gr2(
        &[(MemberType::String, "name", 0)],
        &[0; 4], // placeholder for pointer
    );
    // Place a string "hello" somewhere and point the data to it
    let str_off = gr2.flat.len();
    gr2.flat.extend_from_slice(b"hello\0");
    // Write the pointer in the data region
    let ptr_bytes = (str_off as u32).to_le_bytes();
    gr2.flat[doff..doff + 4].copy_from_slice(&ptr_bytes);

    let fields = gr2.extract_struct(toff, doff).unwrap();
    assert_eq!(fields[0].value, Value::String(Some("hello".into())));
}

#[test]
fn extract_struct_string_null() {
    let (gr2, toff, doff) = make_extraction_gr2(
        &[(MemberType::String, "name", 0)],
        &[0; 4], // null pointer
    );
    let fields = gr2.extract_struct(toff, doff).unwrap();
    assert_eq!(fields[0].value, Value::String(None));
}

#[test]
fn extract_struct_inline() {
    // Build manually: outer struct has one Inline member whose children_ptr
    // points to an inner type def (Int32 "x", Int32 "y")
    let mut flat = vec![0u8; 512];

    // Inner type def at offset 200: two Int32 members + None
    let inner_type_off = 200;
    // String "x" at 300, "y" at 302
    flat[300] = b'x'; flat[301] = 0;
    flat[302] = b'y'; flat[303] = 0;

    // Inner member 0: Int32, name_ptr=300, array_size=1
    flat[inner_type_off..inner_type_off + 4].copy_from_slice(&MemberType::Int32.code().to_le_bytes());
    flat[inner_type_off + 4..inner_type_off + 8].copy_from_slice(&300u32.to_le_bytes());
    flat[inner_type_off + 12..inner_type_off + 16].copy_from_slice(&1u32.to_le_bytes());

    // Inner member 1: Int32, name_ptr=302, array_size=1
    flat[inner_type_off + 32..inner_type_off + 36].copy_from_slice(&MemberType::Int32.code().to_le_bytes());
    flat[inner_type_off + 36..inner_type_off + 40].copy_from_slice(&302u32.to_le_bytes());
    flat[inner_type_off + 44..inner_type_off + 48].copy_from_slice(&1u32.to_le_bytes());
    // None terminator at inner_type_off + 64 (already zero)

    // Outer type def at offset 0: Inline, children_ptr = inner_type_off
    // String "pos" at 310
    flat[310] = b'p'; flat[311] = b'o'; flat[312] = b's'; flat[313] = 0;
    flat[0..4].copy_from_slice(&MemberType::Inline.code().to_le_bytes());
    flat[4..8].copy_from_slice(&310u32.to_le_bytes());
    flat[8..12].copy_from_slice(&(inner_type_off as u32).to_le_bytes());
    flat[12..16].copy_from_slice(&1u32.to_le_bytes());
    // None terminator at offset 32 (already zero)

    // Data at offset 400: two i32 values
    let data_off = 400;
    flat[data_off..data_off + 4].copy_from_slice(&10i32.to_le_bytes());
    flat[data_off + 4..data_off + 8].copy_from_slice(&20i32.to_le_bytes());

    let gr2 = make_gr2_p32(flat);
    let fields = gr2.extract_struct(0, data_off).unwrap();
    assert_eq!(fields.len(), 1);
    assert_eq!(fields[0].name, "pos");
    if let Value::Struct(inner) = &fields[0].value {
        assert_eq!(inner.len(), 2);
        assert_eq!(inner[0].name, "x");
        assert_eq!(inner[0].value, Value::Int32(10));
        assert_eq!(inner[1].name, "y");
        assert_eq!(inner[1].value, Value::Int32(20));
    } else {
        panic!("expected Struct, got {:?}", fields[0].value);
    }
}

#[test]
fn extract_struct_array_size() {
    // Real32 with array_size=3
    let mut data = vec![0u8; 12];
    data[0..4].copy_from_slice(&1.0f32.to_le_bytes());
    data[4..8].copy_from_slice(&2.0f32.to_le_bytes());
    data[8..12].copy_from_slice(&3.0f32.to_le_bytes());

    let (gr2, toff, doff) = make_extraction_gr2(
        &[(MemberType::Real32, "vec", 3)],
        &data,
    );
    let fields = gr2.extract_struct(toff, doff).unwrap();
    assert_eq!(fields[0].name, "vec");
    if let Value::Array(vals) = &fields[0].value {
        assert_eq!(vals.len(), 3);
        assert_eq!(vals[0], Value::Real32(float(1.0)));
        assert_eq!(vals[1], Value::Real32(float(2.0)));
        assert_eq!(vals[2], Value::Real32(float(3.0)));
    } else {
        panic!("expected Array");
    }
}

#[test]
fn extract_struct_reference_lazy() {
    // Reference member (P32: 4 bytes pointer)
    let mut data = vec![0u8; 4];
    // Null pointer
    data[0..4].copy_from_slice(&0u32.to_le_bytes());

    let (gr2, toff, doff) = make_extraction_gr2(
        &[(MemberType::Reference, "ref", 0)],
        &data,
    );
    let fields = gr2.extract_struct(toff, doff).unwrap();
    assert_eq!(fields[0].value, Value::Reference { offset: None });
}

#[test]
fn extract_struct_transform() {
    // Transform: flags(4) + translation(12) + rotation(16) + scale_shear(36) = 68
    let mut data = vec![0u8; 68];
    data[0..4].copy_from_slice(&7u32.to_le_bytes()); // flags
    // translation = (1, 2, 3)
    data[4..8].copy_from_slice(&1.0f32.to_le_bytes());
    data[8..12].copy_from_slice(&2.0f32.to_le_bytes());
    data[12..16].copy_from_slice(&3.0f32.to_le_bytes());
    // rotation = (0, 0, 0, 1) — identity quat
    data[28..32].copy_from_slice(&1.0f32.to_le_bytes());
    // scale_shear = identity (diagonal at [0][0]=32, [1][1]=48, [2][2]=64)
    data[32..36].copy_from_slice(&1.0f32.to_le_bytes());
    data[48..52].copy_from_slice(&1.0f32.to_le_bytes());
    data[64..68].copy_from_slice(&1.0f32.to_le_bytes());

    let (gr2, toff, doff) = make_extraction_gr2(
        &[(MemberType::Transform, "xform", 0)],
        &data,
    );
    let fields = gr2.extract_struct(toff, doff).unwrap();
    if let Value::Transform { flags, translation, rotation, scale_shear } = &fields[0].value {
        assert_eq!(*flags, 7);
        assert_eq!(*translation, [float(1.0), float(2.0), float(3.0)]);
        assert_eq!(*rotation, [float(0.0), float(0.0), float(0.0), float(1.0)]);
        assert_eq!(
            *scale_shear,
            [
                [float(1.0), float(0.0), float(0.0)],
                [float(0.0), float(1.0), float(0.0)],
                [float(0.0), float(0.0), float(1.0)],
            ]
        );
    } else {
        panic!("expected Transform");
    }
}

#[test]
fn extract_struct_depth_limit() {
    // Create a self-referential Inline that would recurse infinitely
    let mut flat = vec![0u8; 128];
    // String "s" at 100
    flat[100] = b's'; flat[101] = 0;

    // Type def at 0: Inline pointing to itself (children_ptr = 0)
    flat[0..4].copy_from_slice(&MemberType::Inline.code().to_le_bytes());
    flat[4..8].copy_from_slice(&100u32.to_le_bytes()); // name
    flat[8..12].copy_from_slice(&0u32.to_le_bytes()); // children_ptr = 0 (self)
    flat[12..16].copy_from_slice(&1u32.to_le_bytes());

    let gr2 = make_gr2_p32(flat);
    // children_ptr=0 means it points back to offset 0 (itself)
    // But with children_ptr == 0, our code treats it as "no children" and returns empty struct
    // Instead, let's make children_ptr point to a valid self-referential type
    // Actually the simpler test: just verify extract_struct_inner rejects depth > 32
    let result = gr2.extract_struct_inner(0, 64, MAX_EXTRACT_DEPTH + 1);
    assert!(result.is_err());
    let err = result.unwrap_err();
    assert!(err.to_string().contains("depth exceeded"));
}

#[test]
fn extract_root_invalid_refs() {
    let gr2 = make_gr2(vec![0u8; 16]);
    let result = gr2.extract_root();
    assert!(result.is_err());
}

// ---- CRC32 ----

#[test]
fn crc32_known_vectors() {
    // Standard CRC-32 test vectors
    assert_eq!(crc32(b""), 0x00000000);
    assert_eq!(crc32(b"123456789"), 0xCBF43926);
    assert_eq!(crc32(b"a"), 0xE8B7BE43);
}

#[test]
fn crc32_table_sanity() {
    let table = crc32_table();
    assert_eq!(table[0], 0);
    // Entry 1 = polynomial 0xEDB88320 after 8 iterations starting from 1
    assert_eq!(table[1], 0x77073096);
    assert_ne!(table[255], 0);
    // All 256 entries should be distinct
    let mut seen = std::collections::HashSet::new();
    for &v in &table {
        seen.insert(v);
    }
    assert_eq!(seen.len(), 256);
}

#[test]
fn validate_crc_truncated() {
    let data = vec![0u8; 16]; // Less than MIN_FILE_SIZE
    assert!(matches!(Gr2File::validate_crc(&data), Err(Error::Truncated)));
}

#[test]
fn validate_crc_matching_roundtrip() {
    // Build a minimal v6 file with some section data to CRC
    let mut data = make_minimal_file(&MAGIC_LE64, Endianness::Little);
    // Add some section data after the headers
    data.extend_from_slice(&[0xDE, 0xAD, 0xBE, 0xEF, 0xCA, 0xFE]);
    let file_size = data.len() as u32;
    // Set file_size at 0x24
    data[0x24..0x28].copy_from_slice(&file_size.to_le_bytes());
    // Compute CRC and store it
    let version = 6u32;
    let computed = compute_file_crc(&data, version, file_size);
    data[0x28..0x2C].copy_from_slice(&computed.to_le_bytes());
    assert!(Gr2File::validate_crc(&data).is_ok());
}

#[test]
fn validate_crc_mismatch() {
    let mut data = make_minimal_file(&MAGIC_LE64, Endianness::Little);
    // Add some section data and set file_size correctly
    data.extend_from_slice(&[0xCA, 0xFE, 0xBA, 0xBE]);
    let file_size = data.len() as u32;
    data[0x24..0x28].copy_from_slice(&file_size.to_le_bytes());
    // Store an obviously wrong CRC
    data[0x28..0x2C].copy_from_slice(&0xDEADBEEFu32.to_le_bytes());
    let result = Gr2File::validate_crc(&data);
    assert!(matches!(result, Err(Error::CrcMismatch { expected: 0xDEADBEEF, .. })));
}

// ---- resolve_value / resolve_array ----

#[test]
fn resolve_value_reference() {
    // Build: a type def for a struct with one Int32 "val",
    // and data for that struct, then a Reference pointing to it.
    let mut flat = vec![0u8; 256];

    // String "val" at 200
    flat[200] = b'v'; flat[201] = b'a'; flat[202] = b'l'; flat[203] = 0;

    // Type def at offset 100: Int32, name_ptr=200, array_size=1
    flat[100..104].copy_from_slice(&MemberType::Int32.code().to_le_bytes());
    flat[104..108].copy_from_slice(&200u32.to_le_bytes());
    flat[112..116].copy_from_slice(&1u32.to_le_bytes());
    // None terminator at 132 (already zero)

    // Data at offset 160: i32 = 42
    flat[160..164].copy_from_slice(&42i32.to_le_bytes());

    let gr2 = make_gr2_p32(flat);
    let ref_val = Value::Reference { offset: Some(160) };
    let fields = gr2.resolve_value(&ref_val, 100).unwrap();
    assert_eq!(fields.len(), 1);
    assert_eq!(fields[0].value, Value::Int32(42));
}

#[test]
fn resolve_value_null_reference() {
    let gr2 = make_gr2(vec![0u8; 16]);
    let ref_val = Value::Reference { offset: None };
    assert!(gr2.resolve_value(&ref_val, 0).is_err());
}

#[test]
fn resolve_value_not_reference() {
    let gr2 = make_gr2(vec![0u8; 16]);
    let val = Value::Int32(5);
    assert!(gr2.resolve_value(&val, 0).is_err());
}

#[test]
fn resolve_array_basic() {
    // Type def for Int32 "n", data for 3 elements
    let mut flat = vec![0u8; 256];
    flat[200] = b'n'; flat[201] = 0;

    flat[100..104].copy_from_slice(&MemberType::Int32.code().to_le_bytes());
    flat[104..108].copy_from_slice(&200u32.to_le_bytes());
    flat[112..116].copy_from_slice(&1u32.to_le_bytes());
    // None terminator at 132

    // 3 x i32 at offset 160
    flat[160..164].copy_from_slice(&10i32.to_le_bytes());
    flat[164..168].copy_from_slice(&20i32.to_le_bytes());
    flat[168..172].copy_from_slice(&30i32.to_le_bytes());

    let gr2 = make_gr2_p32(flat);
    let arr_val = Value::ReferenceToArray { count: 3, offset: Some(160) };
    let results = gr2.resolve_array(&arr_val, 100).unwrap();
    assert_eq!(results.len(), 3);
    assert_eq!(results[0][0].value, Value::Int32(10));
    assert_eq!(results[1][0].value, Value::Int32(20));
    assert_eq!(results[2][0].value, Value::Int32(30));
}

#[test]
fn compute_struct_size_circular_inline() {
    // Inline member whose children_ptr points back to the same type def
    let mut flat = vec![0u8; 128];
    flat[100] = b's'; flat[101] = 0;

    // Type def at offset 32: Inline, children_ptr = 32 (self-referential)
    flat[32..36].copy_from_slice(&MemberType::Inline.code().to_le_bytes());
    flat[36..40].copy_from_slice(&100u32.to_le_bytes()); // name
    flat[40..44].copy_from_slice(&32u32.to_le_bytes());  // children_ptr = self
    flat[44..48].copy_from_slice(&1u32.to_le_bytes());   // array_size
    // None terminator at 64 (already zero)

    let gr2 = make_gr2_p32(flat);
    // Should return an error, not stack overflow
    let result = gr2.struct_data_size(32);
    assert!(result.is_err());
    assert!(result.unwrap_err().to_string().contains("depth exceeded"));
}

#[test]
fn struct_data_size_with_inline() {
    // Outer: Inline(inner) where inner has Int32 + Int32 = 8 bytes
    let mut flat = vec![0u8; 512];

    let inner_type_off = 200;
    flat[300] = b'a'; flat[301] = 0;
    flat[302] = b'b'; flat[303] = 0;

    flat[inner_type_off..inner_type_off + 4].copy_from_slice(&MemberType::Int32.code().to_le_bytes());
    flat[inner_type_off + 4..inner_type_off + 8].copy_from_slice(&300u32.to_le_bytes());
    flat[inner_type_off + 12..inner_type_off + 16].copy_from_slice(&1u32.to_le_bytes());
    flat[inner_type_off + 32..inner_type_off + 36].copy_from_slice(&MemberType::Int32.code().to_le_bytes());
    flat[inner_type_off + 36..inner_type_off + 40].copy_from_slice(&302u32.to_le_bytes());
    flat[inner_type_off + 44..inner_type_off + 48].copy_from_slice(&1u32.to_le_bytes());

    // Outer type at 0: one Inline member
    flat[310] = b'c'; flat[311] = 0;
    flat[0..4].copy_from_slice(&MemberType::Inline.code().to_le_bytes());
    flat[4..8].copy_from_slice(&310u32.to_le_bytes());
    flat[8..12].copy_from_slice(&(inner_type_off as u32).to_le_bytes());
    flat[12..16].copy_from_slice(&1u32.to_le_bytes());

    let gr2 = make_gr2_p32(flat);
    assert_eq!(gr2.struct_data_size(0).unwrap(), 8);
}
