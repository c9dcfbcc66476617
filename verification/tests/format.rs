use gr2_rs::format::{
    identify_magic, Compression, Endianness, MemberType, PointerWidth, SectionHeader, SectionRef,
    MAGIC_BE32, MAGIC_BE64, MAGIC_LE32_V6, MAGIC_LE32_V7, MAGIC_LE64,
};

#[test]
fn identify_all_known_magics() {
    let cases = [
        (&MAGIC_LE32_V7, Endianness::Little, PointerWidth::P32),
        (&MAGIC_LE32_V6, Endianness::Little, PointerWidth::P32),
        (&MAGIC_BE32, Endianness::Big, PointerWidth::P32),
        (&MAGIC_LE64, Endianness::Little, PointerWidth::P64),
        (&MAGIC_BE64, Endianness::Big, PointerWidth::P64),
    ];
    for (magic, exp_endian, exp_ptr) in cases {
        let id = identify_magic(magic).expect("known magic should identify");
        assert_eq!(id.endianness, exp_endian);
        assert_eq!(id.pointer_width, exp_ptr);
    }
}

#[test]
fn identify_unknown_magic() {
    assert!(identify_magic(&[0; 16]).is_none());
    assert!(identify_magic(&[0xFF; 16]).is_none());
}

#[test]
fn compression_from_u32() {
    assert_eq!(Compression::from(0), Compression::Uncompressed);
    assert_eq!(Compression::from(1), Compression::Oodle0);
    assert_eq!(Compression::from(2), Compression::Oodle1);
    assert_eq!(Compression::from(3), Compression::BitKnit1);
    assert_eq!(Compression::from(4), Compression::BitKnit2);
    assert_eq!(Compression::from(99), Compression::Unknown(99));
    assert_eq!(Compression::from(u32::MAX), Compression::Unknown(u32::MAX));
}

#[test]
fn compression_display() {
    assert_eq!(Compression::Uncompressed.to_string(), "none");
    assert_eq!(Compression::Oodle0.to_string(), "oodle0");
    assert_eq!(Compression::Oodle1.to_string(), "oodle1");
    assert_eq!(Compression::BitKnit1.to_string(), "bitknit1");
    assert_eq!(Compression::BitKnit2.to_string(), "bitknit2");
    assert_eq!(Compression::Unknown(42).to_string(), "unknown(42)");
}

#[test]
fn member_type_try_from_exhaustive() {
    assert_eq!(MemberType::try_from(0), Ok(MemberType::Terminator));
    assert_eq!(MemberType::try_from(1), Ok(MemberType::Inline));
    assert_eq!(MemberType::try_from(2), Ok(MemberType::Reference));
    assert_eq!(MemberType::try_from(3), Ok(MemberType::ReferenceToArray));
    assert_eq!(MemberType::try_from(4), Ok(MemberType::ArrayOfReferences));
    assert_eq!(MemberType::try_from(5), Ok(MemberType::VariantReference));
    // Gap at 6
    assert!(MemberType::try_from(6).is_err());
    assert_eq!(MemberType::try_from(7), Ok(MemberType::ReferenceToVariantArray));
    assert_eq!(MemberType::try_from(8), Ok(MemberType::String));
    assert_eq!(MemberType::try_from(9), Ok(MemberType::Transform));
    assert_eq!(MemberType::try_from(10), Ok(MemberType::Real32));
    assert_eq!(MemberType::try_from(11), Ok(MemberType::Int8));
    assert_eq!(MemberType::try_from(12), Ok(MemberType::UInt8));
    assert_eq!(MemberType::try_from(13), Ok(MemberType::BinormalInt8));
    assert_eq!(MemberType::try_from(14), Ok(MemberType::NormalUInt8));
    assert_eq!(MemberType::try_from(15), Ok(MemberType::Int16));
    assert_eq!(MemberType::try_from(16), Ok(MemberType::UInt16));
    assert_eq!(MemberType::try_from(17), Ok(MemberType::BinormalInt16));
    assert_eq!(MemberType::try_from(18), Ok(MemberType::NormalUInt16));
    assert_eq!(MemberType::try_from(19), Ok(MemberType::Int32));
    assert_eq!(MemberType::try_from(20), Ok(MemberType::UInt32));
    assert_eq!(MemberType::try_from(21), Ok(MemberType::Real16));
    assert_eq!(MemberType::try_from(22), Ok(MemberType::EmptyReference));
    // Out of range
    assert_eq!(MemberType::try_from(23), Err(23));
    assert_eq!(MemberType::try_from(u32::MAX), Err(u32::MAX));
}

#[test]
fn member_type_size_p64() {
    let p = PointerWidth::P64;
    assert_eq!(MemberType::Terminator.size(p), 0);
    assert_eq!(MemberType::Inline.size(p), 0);
    // 1-byte types
    assert_eq!(MemberType::Int8.size(p), 1);
    assert_eq!(MemberType::UInt8.size(p), 1);
    assert_eq!(MemberType::BinormalInt8.size(p), 1);
    assert_eq!(MemberType::NormalUInt8.size(p), 1);
    // 2-byte types
    assert_eq!(MemberType::Int16.size(p), 2);
    assert_eq!(MemberType::UInt16.size(p), 2);
    assert_eq!(MemberType::BinormalInt16.size(p), 2);
    assert_eq!(MemberType::NormalUInt16.size(p), 2);
    assert_eq!(MemberType::Real16.size(p), 2);
    // 4-byte types
    assert_eq!(MemberType::Real32.size(p), 4);
    assert_eq!(MemberType::Int32.size(p), 4);
    assert_eq!(MemberType::UInt32.size(p), 4);
    // 64-bit pointer types
    assert_eq!(MemberType::Reference.size(p), 8);
    assert_eq!(MemberType::String.size(p), 8);
    assert_eq!(MemberType::EmptyReference.size(p), 8);
    // Compound types
    assert_eq!(MemberType::VariantReference.size(p), 16);
    assert_eq!(MemberType::ReferenceToArray.size(p), 12);
    assert_eq!(MemberType::ArrayOfReferences.size(p), 12);
    assert_eq!(MemberType::ReferenceToVariantArray.size(p), 20);
    assert_eq!(MemberType::Transform.size(p), 68);
}

#[test]
fn member_type_size_p32() {
    let p = PointerWidth::P32;
    // Fixed-size types are the same
    assert_eq!(MemberType::Terminator.size(p), 0);
    assert_eq!(MemberType::Inline.size(p), 0);
    assert_eq!(MemberType::Int8.size(p), 1);
    assert_eq!(MemberType::Real32.size(p), 4);
    assert_eq!(MemberType::Transform.size(p), 68);
    // Pointer-dependent types
    assert_eq!(MemberType::Reference.size(p), 4);
    assert_eq!(MemberType::String.size(p), 4);
    assert_eq!(MemberType::EmptyReference.size(p), 4);
    assert_eq!(MemberType::VariantReference.size(p), 8);       // 2 * 4
    assert_eq!(MemberType::ReferenceToArray.size(p), 8);       // 4 + 4
    assert_eq!(MemberType::ArrayOfReferences.size(p), 8);      // 4 + 4
    assert_eq!(MemberType::ReferenceToVariantArray.size(p), 12); // 4 + 4 + 4
}

#[test]
fn section_ref_validity() {
    assert!(!SectionRef::invalid().is_valid());
    assert!(SectionRef { section: 0, offset: 0 }.is_valid());
    assert!(SectionRef { section: 5, offset: 100 }.is_valid());
}

#[test]
fn pointer_width_size() {
    assert_eq!(PointerWidth::P32.size(), 4);
    assert_eq!(PointerWidth::P64.size(), 8);
}

#[test]
fn section_header_has_data() {
    let make = |size| SectionHeader {
        compression: Compression::Uncompressed,
        offset_in_file: 0,
        compressed_size: 0,
        uncompressed_size: size,
        alignment: 0,
        first_16bit: 0,
        first_8bit: 0,
        relocations_offset: 0,
        num_relocations: 0,
        mixed_marshalling_offset: 0,
        num_mixed_marshalling: 0,
    };
    assert!(!make(0).has_data());
    assert!(make(1).has_data());
    assert!(make(65536).has_data());
}
