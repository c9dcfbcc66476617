use gr2_rs::bitknit;
use gr2_rs::format::{
    Compression, Endianness, PointerWidth, SectionHeader, SectionRef, MAGIC_BE32, MAGIC_BE64,
    MAGIC_LE32_V6, MAGIC_LE64,
};
use gr2_rs::oodle1;
use gr2_rs::reader::crc::compute_file_crc;
use gr2_rs::reader::{Error, Gr2File, IoError, IoErrorKind, Section};

const HEADER_END: usize = 0x5C;

/// A section to be written: compression code, stored bytes, size, relocations.
struct Part {
    compression: u32,
    stored: Vec<u8>,
    size: u32,
    relocations: Vec<[u32; 3]>,
}

fn part(compression: u32, stored: &[u8], size: u32) -> Part {
    Part { compression, stored: stored.to_vec(), size, relocations: vec![] }
}

fn u32_bytes(v: u32, endian: Endianness) -> [u8; 4] {
    match endian {
        Endianness::Little => v.to_le_bytes(),
        Endianness::Big => v.to_be_bytes(),
    }
}

fn plain_stream(bytes: &[u8]) -> Vec<u8> {
    let mut data = vec![0xB1, 0x75, 0x00, 0x00];
    data.extend_from_slice(bytes);
    data
}

fn put(data: &mut [u8], off: usize, v: u32, endian: Endianness) {
    data[off..off + 4].copy_from_slice(&u32_bytes(v, endian));
}

/// A file of version 7 with the given sections.
fn file(magic: &[u8; 16], endian: Endianness, parts: &[Part]) -> Vec<u8> {
    let mut data = vec![0u8; HEADER_END + 44 * parts.len()];
    data[..16].copy_from_slice(magic);
    put(&mut data, 0x20, 7, endian);
    put(&mut data, 0x2C, (HEADER_END - 0x20) as u32, endian);
    put(&mut data, 0x30, parts.len() as u32, endian);
    put(&mut data, 0x34, 0, endian);
    put(&mut data, 0x38, 4, endian);
    put(&mut data, 0x3C, 1, endian);
    put(&mut data, 0x40, 2, endian);
    put(&mut data, 0x44, 0xC0FFEE, endian);
    for (i, v) in [11, 12, 13, 14].iter().enumerate() {
        put(&mut data, 0x48 + 4 * i, *v, endian);
    }
    put(&mut data, 0x58, 99, endian);
    for (i, p) in parts.iter().enumerate() {
        let mut table = Vec::new();
        for r in &p.relocations {
            for v in r {
                table.extend_from_slice(&u32_bytes(*v, endian));
            }
        }
        if p.compression == 4 && !p.relocations.is_empty() {
            let packed = plain_stream(&table);
            table = u32_bytes(packed.len() as u32, endian).to_vec();
            table.extend_from_slice(&packed);
        }
        let off = HEADER_END + 44 * i;
        let stored_at = data.len() as u32;
        let table_at = stored_at + p.stored.len() as u32;
        put(&mut data, off, p.compression, endian);
        put(&mut data, off + 4, stored_at, endian);
        put(&mut data, off + 8, p.stored.len() as u32, endian);
        put(&mut data, off + 12, p.size, endian);
        put(&mut data, off + 16, 4, endian);
        put(&mut data, off + 28, table_at, endian);
        put(&mut data, off + 32, p.relocations.len() as u32, endian);
        data.extend_from_slice(&p.stored);
        data.extend_from_slice(&table);
    }
    let size = data.len() as u32;
    put(&mut data, 0x24, size, endian);
    data
}

fn message(data: &[u8]) -> String {
    Gr2File::parse(data).unwrap_err().to_string()
}

// ---- sections ----

#[test]
fn sections_are_concatenated() {
    let parts = [
        part(0, &[1, 2, 3, 4, 5, 6], 6),
        part(0, &[], 0),
        part(3, &plain_stream(&[7, 8]), 2),
        part(4, &plain_stream(&[9, 10, 11, 12]), 4),
    ];
    let data = file(&MAGIC_LE64, Endianness::Little, &parts);
    let f = Gr2File::parse(&data).unwrap();
    assert_eq!(f.flat, [1, 2, 3, 4, 5, 6, 7, 8, 9, 10, 11, 12]);
    assert_eq!(f.sections.len(), 4);
    assert_eq!(f.header.num_sections, 4);
    let bases: Vec<usize> = f.sections.iter().map(|s| s.base_address).collect();
    assert_eq!(bases, [0, 6, 6, 8]);
    assert_eq!(f.section_data(0), Some(&[1u8, 2, 3, 4, 5, 6][..]));
    assert_eq!(f.section_data(1), Some(&[][..]));
    assert_eq!(f.section_data(3), Some(&[9u8, 10, 11, 12][..]));
    assert_eq!(f.section_data(4), None);
    assert_eq!(f.sections[3].header.compression, Compression::BitKnit2);
    assert_eq!(f.sections[3].header.alignment, 4);
}

#[test]
fn header_fields_are_read() {
    let data = file(&MAGIC_BE32, Endianness::Big, &[part(0, &[1], 1)]);
    let f = Gr2File::parse(&data).unwrap();
    assert_eq!(f.header.version, 7);
    assert_eq!(f.header.file_size as usize, data.len());
    assert_eq!(f.header.sections_offset, 0x3C);
    assert_eq!((f.header.root_type.section, f.header.root_type.offset), (0, 4));
    assert_eq!((f.header.root_node.section, f.header.root_node.offset), (1, 2));
    assert_eq!(f.header.tag, 0xC0FFEE);
    assert_eq!(f.header.extra_tags, [11, 12, 13, 14]);
    assert_eq!(f.header.string_table_crc, 99);
    assert_eq!(f.magic.header_format, 0);
    assert_eq!(f.pointer_width, PointerWidth::P32);
    assert_eq!(
        f.header.to_string(),
        format!("GR2 v7: {} bytes, 1 sections, tag=0x00C0FFEE", data.len())
    );
}

#[test]
fn oodle1_section_is_decompressed() {
    let mut stored = Vec::new();
    for _ in 0..3 {
        for w in [256u32, 1, 0x01010101] {
            stored.extend_from_slice(&w.to_le_bytes());
        }
    }
    stored.extend_from_slice(&[0; 16]);
    let data = file(&MAGIC_LE32_V6, Endianness::Little, &[part(2, &stored, 5)]);
    let f = Gr2File::parse(&data).unwrap();
    let mut expected = vec![0u8; 5];
    assert!(oodle1::decompress(&stored, &mut expected, 0, 0, Endianness::Little).is_ok());
    assert_eq!(f.flat, expected);
}

#[test]
fn section_errors() {
    let le = Endianness::Little;
    assert!(matches!(
        Gr2File::parse(&file(&MAGIC_LE64, le, &[part(1, &[1], 1)])),
        Err(Error::UnsupportedCompression(Compression::Oodle0))
    ));
    assert_eq!(
        message(&file(&MAGIC_LE64, le, &[part(9, &[1], 1)])),
        "unsupported compression: unknown(9)"
    );
    assert_eq!(
        message(&file(&MAGIC_LE64, le, &[part(0, &[1], 0x1000_0001)])),
        "invalid type: section 0: uncompressed size 268435457 exceeds maximum (268435456)"
    );
    assert_eq!(
        message(&file(&MAGIC_LE64, le, &[part(0, &[1], 1), part(0, &[1], 50)])),
        "I/O: section 1: data past end of file"
    );
    for code in [2, 3, 4] {
        let mut data = file(&MAGIC_LE64, le, &[part(code, &[1, 2], 1)]);
        put(&mut data, HEADER_END + 8, 1000, le);
        assert_eq!(message(&data), "I/O: section 0: compressed data past end of file");
        assert!(matches!(
            Gr2File::parse(&data),
            Err(Error::Io(IoError { kind: IoErrorKind::UnexpectedEof, .. }))
        ));
    }
    assert!(matches!(
        Gr2File::parse(&file(&MAGIC_LE64, le, &[part(3, &[1, 2], 1)])),
        Err(Error::BitKnit(bitknit::Error::InvalidMagic))
    ));
    assert!(matches!(
        Gr2File::parse(&file(&MAGIC_LE64, le, &[part(2, &[1, 2], 1)])),
        Err(Error::Oodle1(oodle1::Error::InputTruncated))
    ));
}

#[test]
fn first_bad_section_decides() {
    let parts = [part(1, &[1], 1), part(3, &[1, 2], 1)];
    let data = file(&MAGIC_LE64, Endianness::Little, &parts);
    assert_eq!(message(&data), "unsupported compression: oodle0");
}

#[test]
fn version_seven_needs_its_longer_header() {
    let mut data = vec![0u8; 0x58];
    data[..16].copy_from_slice(&MAGIC_LE64);
    put(&mut data, 0x20, 7, Endianness::Little);
    assert!(matches!(Gr2File::parse(&data), Err(Error::Truncated)));
    data.extend_from_slice(&[0; 4]);
    assert!(Gr2File::parse(&data).is_ok());
}

#[test]
fn parsing_twice_gives_the_same_file() {
    let data = file(&MAGIC_LE64, Endianness::Little, &[part(3, &plain_stream(&[7, 8]), 2)]);
    let a = Gr2File::parse(&data).unwrap();
    let b = Gr2File::parse(&data).unwrap();
    assert_eq!(a.flat, b.flat);
}

// ---- relocations ----

fn relocated(magic: &[u8; 16], endian: Endianness, code: u32) -> Gr2File {
    let stored = if code == 0 { vec![0; 24] } else { plain_stream(&[0; 24]) };
    let mut first = part(code, &stored, 24);
    first.relocations = vec![[0, 1, 4], [8, 0, 20]];
    let parts = [first, part(0, &[0; 16], 16)];
    Gr2File::parse(&file(magic, endian, &parts)).unwrap()
}

#[test]
fn relocations_lead_to_their_targets() {
    for (magic, endian) in [
        (&MAGIC_LE64, Endianness::Little),
        (&MAGIC_BE64, Endianness::Big),
        (&MAGIC_LE32_V6, Endianness::Little),
        (&MAGIC_BE32, Endianness::Big),
    ] {
        for code in [0, 3, 4] {
            let f = relocated(magic, endian, code);
            assert_eq!(f.flat.len(), 40);
            assert_eq!(f.read_ptr(0), Some(28));
            assert_eq!(f.read_ptr(8), Some(20));
            assert_eq!(f.read_ptr(16), None);
            assert_eq!(f.resolve_ref(SectionRef { section: 1, offset: 4 }), Some(28));
        }
    }
}

#[test]
fn relocations_change_nothing_else() {
    let mut first = part(0, &[0x11; 24], 24);
    first.relocations = vec![[2, 1, 4], [8, 0, 20], [12, 1, 0]];
    let parts = [first, part(0, &[0x22; 16], 16)];
    let f = Gr2File::parse(&file(&MAGIC_LE32_V6, Endianness::Little, &parts)).unwrap();
    let mut expected = [[0x11u8; 24].as_slice(), [0x22u8; 16].as_slice()].concat();
    expected[2..6].copy_from_slice(&28u32.to_le_bytes());
    expected[8..12].copy_from_slice(&20u32.to_le_bytes());
    expected[12..16].copy_from_slice(&24u32.to_le_bytes());
    assert_eq!(f.flat, expected);
}

#[test]
fn relocations_go_by_base_address() {
    let header = |count: u32| SectionHeader {
        compression: Compression::Uncompressed,
        offset_in_file: 0,
        compressed_size: 0,
        uncompressed_size: 0,
        alignment: 0,
        first_16bit: 0,
        first_8bit: 0,
        relocations_offset: 0,
        num_relocations: count,
        mixed_marshalling_offset: 0,
        num_mixed_marshalling: 0,
    };
    let sections = |a: usize, b: usize| {
        [
            Section { header: header(1), base_address: a },
            Section { header: header(0), base_address: b },
        ]
    };
    let apply = |table: [u32; 3], a: usize, b: usize, flat: &mut [u8]| {
        let data: Vec<u8> = table.iter().flat_map(|v| v.to_be_bytes()).collect();
        Gr2File::apply_relocations(
            &data,
            &[header(1), header(0)],
            &sections(a, b),
            flat,
            Endianness::Big,
            PointerWidth::P32,
        )
    };
    let mut flat = [0xEEu8; 12];
    assert!(apply([1, 1, 5], 6, 300, &mut flat).is_ok());
    assert_eq!(flat[..7], [0xEE; 7]);
    assert_eq!(flat[7..11], 305u32.to_be_bytes());
    assert_eq!(flat[11], 0xEE);

    let mut flat = [0xEEu8; 12];
    let past = apply([3, 1, 5], 6, 300, &mut flat).unwrap_err().to_string();
    assert_eq!(past, "invalid relocation: section 0: relocation write at 9 past flat buffer");
    let none = apply([0, 2, 5], 6, 300, &mut flat).unwrap_err().to_string();
    assert_eq!(
        none,
        "invalid relocation: section 0: relocation targets section 2 (only 2 exist)"
    );
    assert_eq!(flat, [0xEE; 12]);
}

#[test]
fn relocation_errors() {
    let le = Endianness::Little;
    let with = |code: u32, r: [u32; 3]| {
        let stored = if code == 0 { vec![0; 8] } else { plain_stream(&[0; 8]) };
        let mut p = part(code, &stored, 8);
        p.relocations = vec![r];
        file(&MAGIC_LE64, le, &[p])
    };
    assert_eq!(
        message(&with(0, [0, 3, 0])),
        "invalid relocation: section 0: relocation targets section 3 (only 1 exist)"
    );
    assert_eq!(
        message(&with(0, [1, 0, 0])),
        "invalid relocation: section 0: relocation write at 1 past flat buffer"
    );
    let mut data = with(0, [0, 0, 0]);
    put(&mut data, HEADER_END + 32, 2, le);
    assert_eq!(message(&data), "I/O: section 0: uncompressed relocation data past EOF");

    let mut data = with(4, [0, 0, 0]);
    let end = data.len() as u32;
    put(&mut data, HEADER_END + 28, end - 3, le);
    assert_eq!(message(&data), "I/O: section 0: relocation header past EOF");

    let mut data = with(4, [0, 0, 0]);
    data.truncate(end as usize - 1);
    assert_eq!(message(&data), "I/O: section 0: compressed relocation data past EOF");

    let mut data = with(4, [0, 0, 0]);
    data[end as usize - 16] = 0;
    assert!(matches!(
        Gr2File::parse(&data),
        Err(Error::BitKnit(bitknit::Error::InvalidMagic))
    ));
}

// ---- CRC ----

#[test]
fn wrong_crc_does_not_stop_parsing() {
    let le = Endianness::Little;
    let mut data = file(&MAGIC_LE64, le, &[part(0, &[1, 2, 3], 3)]);
    put(&mut data, 0x28, 0xDEADBEEF, le);
    assert!(matches!(Gr2File::validate_crc(&data), Err(Error::CrcMismatch { .. })));
    let a = Gr2File::parse(&data).unwrap();
    assert_eq!(a.header.crc, 0xDEADBEEF);
    put(&mut data, 0x28, 1, le);
    let b = Gr2File::parse(&data).unwrap();
    assert_eq!(a.flat, b.flat);
}

#[test]
fn stored_crc_passes() {
    for endian in [Endianness::Little, Endianness::Big] {
        let magic = if endian == Endianness::Little { &MAGIC_LE64 } else { &MAGIC_BE64 };
        let mut data = file(magic, endian, &[part(0, &[1, 2, 3], 3)]);
        let crc = compute_file_crc(&data, 7, data.len() as u32);
        put(&mut data, 0x28, crc, endian);
        assert!(Gr2File::validate_crc(&data).is_ok());
        let last = data.len() - 1;
        data[last] ^= 1;
        let err = Gr2File::validate_crc(&data).unwrap_err();
        let Error::CrcMismatch { expected, computed } = err else { panic!("expected mismatch") };
        assert_eq!(expected, crc);
        assert_ne!(computed, crc);
        assert_eq!(
            Error::CrcMismatch { expected: 0xAB, computed: 0x12345678 }.to_string(),
            "CRC mismatch: expected 0x000000AB, computed 0x12345678"
        );
    }
}

#[test]
fn crc_covers_what_follows_the_header() {
    // From 0x58 on in version 6, from 0x68 on in version 7; nothing where the file ends before.
    let mut data = vec![0u8; 0x70];
    data[0x60] = 1;
    assert_eq!(compute_file_crc(&data, 6, 0x58), 0);
    assert_eq!(compute_file_crc(&data, 7, 0x68), 0);
    assert_ne!(compute_file_crc(&data, 6, 0x61), compute_file_crc(&data, 6, 0x60));
    let before = compute_file_crc(&data, 7, 0x70);
    data[0x60] = 2;
    assert_eq!(compute_file_crc(&data, 7, 0x70), before);
    assert_eq!(compute_file_crc(&data, 7, 0xFFFF_FFFF), before);
}

#[test]
fn crc_check_needs_a_known_magic() {
    assert!(matches!(Gr2File::validate_crc(&[0; 0x58]), Err(Error::UnknownMagic)));
}

// ---- messages ----

#[test]
fn error_messages() {
    let io = IoError { kind: IoErrorKind::Other, message: "lost".to_string() };
    assert_eq!(io.to_string(), "lost");
    assert_eq!(Error::from(io).to_string(), "I/O: lost");
    assert_eq!(Error::UnknownMagic.to_string(), "unknown GR2 magic signature");
    assert_eq!(Error::Truncated.to_string(), "file truncated");
    assert_eq!(
        Error::UnsupportedVersion(8).to_string(),
        "unsupported GR2 version 8 (need 6 or 7)"
    );
    assert_eq!(
        Error::UnsupportedHeaderFormat(2).to_string(),
        "unsupported header format 2 (only 0 = uncompressed)"
    );
    assert_eq!(Error::SectionOutOfBounds { section: 4 }.to_string(), "section 4 out of bounds");
    assert_eq!(
        Error::from(bitknit::Error::InputTruncated).to_string(),
        "BitKnit: input truncated"
    );
    assert_eq!(
        Error::from(oodle1::Error::InputTruncated).to_string(),
        "Oodle1: input truncated"
    );
}
