//! Where a file keeps what: headers, section data, relocations and CRC, byte by byte.
use crate::bitknit;
use crate::bitknit::streams::{law_stored_bytes_are_read_back, stored_stream};
use crate::format::{
    compression_of, magic_format, Compression, Endianness, Relocation, SectionHeader,
};
use crate::oodle1;
use crate::positional::{law_reads_are_positional, number_at};
use crate::reader::crc::{covered_bytes, crc32_of};
use crate::reader::parse::{
    crc_failure, header_failure, headers_loaded, parsed, relocations_of, section_bytes,
    section_header_at, section_headers, section_start, section_table,
};
use crate::reader::{ErrorModel, Gr2File};
use vstd::prelude::*;

verus! {

// ---------------------------------------------------------------------------
// Headers
// ---------------------------------------------------------------------------
/// The number in the four bytes at `off`.
pub open spec fn word_at(data: Seq<u8>, off: int, endian: Endianness) -> nat {
    number_at(data, off, 4, endian)
}

/// A file is refused for its headers exactly where it is too short for them, its first sixteen
/// bytes are no known signature, its headers are compressed, its version is neither 6 nor 7, or
/// its section headers do not lie in it.
pub proof fn law_headers_accepted(data: Seq<u8>)
    ensures
        parsed(data) is Ok ==> header_failure(data) is None,
        header_failure(data) is Some ==> parsed(data) is Err && parsed(data)->Err_0
            == header_failure(data)->Some_0,
        data.len() < 16 ==> header_failure(data) == Some(ErrorModel::Truncated),
        data.len() >= 16 && magic_format(data.subrange(0, 16)) is None ==> header_failure(data)
            == Some(ErrorModel::UnknownMagic),
        data.len() >= 16 && magic_format(data.subrange(0, 16)) is Some ==> {
            let e = magic_format(data.subrange(0, 16))->Some_0.endianness;
            &&& data.len() < 88 ==> header_failure(data) == Some(ErrorModel::Truncated)
            &&& data.len() >= 88 ==> {
                let header_format = word_at(data, 20, e);
                let version = word_at(data, 32, e);
                let end = 32 + word_at(data, 44, e) + 44 * word_at(data, 48, e);
                &&& header_format != 0 ==> header_failure(data) == Some(
                    ErrorModel::UnsupportedHeaderFormat(header_format as u32),
                )
                &&& header_format == 0 && version != 6 && version != 7 ==> header_failure(data)
                    == Some(ErrorModel::UnsupportedVersion(version as u32))
                &&& header_format == 0 && version == 7 && data.len() < 92 ==> header_failure(data)
                    == Some(ErrorModel::Truncated)
                &&& header_format == 0 && (version == 6 || version == 7 && data.len() >= 92)
                    && end > data.len() ==> header_failure(data) == Some(ErrorModel::Truncated)
                &&& header_format == 0 && (version == 6 || version == 7 && data.len() >= 92)
                    && end <= data.len() ==> header_failure(data) is None
            }
        },
{
    if data.len() >= 16 {
        assert(data.take(16) =~= data.subrange(0, 16));
        if magic_format(data.subrange(0, 16)) is Some && data.len() >= 88 {
            let e = magic_format(data.subrange(0, 16))->Some_0.endianness;
            law_reads_are_positional(data, 20, e);
            law_reads_are_positional(data, 32, e);
            law_reads_are_positional(data, 44, e);
            law_reads_are_positional(data, 48, e);
        }
    }
}

/// What a loaded file says of itself stands in its first bytes.
pub proof fn law_loaded_header_fields(f: Gr2File, data: Seq<u8>)
    requires
        parsed(data) is Ok,
        headers_loaded(f, data),
    ensures
        ({
            let e = f.endianness;
            let h = f.header;
            &&& magic_format(data.subrange(0, 16)) == Some(f.magic.format)
            &&& f.magic.format.endianness == e
            &&& f.magic.format.pointer_width == f.pointer_width
            &&& f.magic.headers_size == word_at(data, 16, e)
            &&& f.magic.header_format == word_at(data, 20, e)
            &&& h.version == word_at(data, 32, e)
            &&& h.file_size == word_at(data, 36, e)
            &&& h.crc == word_at(data, 40, e)
            &&& h.sections_offset == word_at(data, 44, e)
            &&& h.num_sections == word_at(data, 48, e)
            &&& h.root_type.section == word_at(data, 52, e)
            &&& h.root_type.offset == word_at(data, 56, e)
            &&& h.root_node.section == word_at(data, 60, e)
            &&& h.root_node.offset == word_at(data, 64, e)
            &&& h.tag == word_at(data, 68, e)
            &&& h.extra_tags@.len() == 4
            &&& h.extra_tags@[0] == word_at(data, 72, e)
            &&& h.extra_tags@[1] == word_at(data, 76, e)
            &&& h.extra_tags@[2] == word_at(data, 80, e)
            &&& h.extra_tags@[3] == word_at(data, 84, e)
            &&& h.version == 6 ==> h.string_table_crc == 0
            &&& h.version == 7 ==> h.string_table_crc == word_at(data, 88, e)
            &&& f.sections@.len() == h.num_sections
        }),
{
    let e = f.endianness;
    assert(data.take(16) =~= data.subrange(0, 16));
    law_reads_are_positional(data, 16, e);
    law_reads_are_positional(data, 20, e);
    law_reads_are_positional(data, 32, e);
    law_reads_are_positional(data, 36, e);
    law_reads_are_positional(data, 40, e);
    law_reads_are_positional(data, 44, e);
    law_reads_are_positional(data, 48, e);
    law_reads_are_positional(data, 52, e);
    law_reads_are_positional(data, 56, e);
    law_reads_are_positional(data, 60, e);
    law_reads_are_positional(data, 64, e);
    law_reads_are_positional(data, 68, e);
    law_reads_are_positional(data, 72, e);
    law_reads_are_positional(data, 76, e);
    law_reads_are_positional(data, 80, e);
    law_reads_are_positional(data, 84, e);
    if f.header.version == 7 {
        law_reads_are_positional(data, 88, e);
    }
}

/// The header of section `i` holds the eleven numbers of its record, which are 44 bytes; the
/// records stand one behind another from the offset on that the main header gives.
pub proof fn law_loaded_section_fields(f: Gr2File, data: Seq<u8>, i: int)
    requires
        parsed(data) is Ok,
        headers_loaded(f, data),
        0 <= i < f.sections@.len(),
    ensures
        ({
            let e = f.endianness;
            let at = 32 + f.header.sections_offset + 44 * i;
            let sh = f.sections@[i].header;
            &&& at + 44 <= data.len()
            &&& sh.compression == compression_of(word_at(data, at, e) as u32)
            &&& sh.offset_in_file == word_at(data, at + 4, e)
            &&& sh.compressed_size == word_at(data, at + 8, e)
            &&& sh.uncompressed_size == word_at(data, at + 12, e)
            &&& sh.alignment == word_at(data, at + 16, e)
            &&& sh.first_16bit == word_at(data, at + 20, e)
            &&& sh.first_8bit == word_at(data, at + 24, e)
            &&& sh.relocations_offset == word_at(data, at + 28, e)
            &&& sh.num_relocations == word_at(data, at + 32, e)
            &&& sh.mixed_marshalling_offset == word_at(data, at + 36, e)
            &&& sh.num_mixed_marshalling == word_at(data, at + 40, e)
        }),
{
    let e = f.endianness;
    let at = 32 + f.header.sections_offset + 44 * i;
    let all = section_headers(data, e);
    assert(f.sections@[i].header == all[i]);
    assert(section_table(data, e) + 44 * i == at);
    assert(all[i] == section_header_at(data, at, e));
    assert(at + 44 <= data.len());
    law_reads_are_positional(data, at, e);
    law_reads_are_positional(data, at + 4, e);
    law_reads_are_positional(data, at + 8, e);
    law_reads_are_positional(data, at + 12, e);
    law_reads_are_positional(data, at + 16, e);
    law_reads_are_positional(data, at + 20, e);
    law_reads_are_positional(data, at + 24, e);
    law_reads_are_positional(data, at + 28, e);
    law_reads_are_positional(data, at + 32, e);
    law_reads_are_positional(data, at + 36, e);
    law_reads_are_positional(data, at + 40, e);
}

/// The first section starts at the start of the flat buffer, each other one where the one before
/// it ends.
pub proof fn law_loaded_sections_follow_each_other(f: Gr2File, data: Seq<u8>, i: int)
    requires
        headers_loaded(f, data),
        0 <= i < f.sections@.len(),
    ensures
        f.sections@[0].base_address == 0,
        i > 0 ==> f.sections@[i].base_address == f.sections@[i - 1].base_address + f.sections@[i
            - 1].header.uncompressed_size,
{
    let headers = section_headers(data, f.endianness);
    assert(f.sections@[0].base_address == section_start(headers, 0));
    assert(f.sections@[i].base_address == section_start(headers, i));
    if i > 0 {
        assert(f.sections@[i - 1].base_address == section_start(headers, i - 1));
        assert(f.sections@[i - 1].header == headers[i - 1]);
    }
}

// ---------------------------------------------------------------------------
// Section data
// ---------------------------------------------------------------------------
/// An uncompressed section is the part of the file that its header names.
pub proof fn law_uncompressed_sections(data: Seq<u8>, sh: SectionHeader, i: nat, e: Endianness)
    requires
        sh.compression == Compression::Uncompressed,
        sh.uncompressed_size <= 256 * 1024 * 1024,
    ensures
        ({
            let start = sh.offset_in_file as int;
            let end = start + sh.uncompressed_size;
            &&& end <= data.len() ==> section_bytes(data, sh, i, e) == Ok::<Seq<u8>, ErrorModel>(
                data.subrange(start, end),
            )
            &&& end > data.len() ==> section_bytes(data, sh, i, e) is Err && section_bytes(
                data,
                sh,
                i,
                e,
            )->Err_0 is Io
        }),
{
}

/// No section of more than 256 MiB is decompressed, and no other is refused for its size.
pub proof fn law_section_size_limit(data: Seq<u8>, sh: SectionHeader, i: nat, e: Endianness)
    ensures
        sh.uncompressed_size > 256 * 1024 * 1024 ==> section_bytes(data, sh, i, e) is Err
            && section_bytes(data, sh, i, e)->Err_0 is InvalidType,
        sh.uncompressed_size <= 256 * 1024 * 1024 && section_bytes(data, sh, i, e) is Err
            ==> !(section_bytes(data, sh, i, e)->Err_0 is InvalidType),
{
}

/// Sections of other compressions are refused, whatever they hold.
pub proof fn law_unsupported_sections(data: Seq<u8>, sh: SectionHeader, i: nat, e: Endianness)
    requires
        sh.compression is Oodle0 || sh.compression is Unknown,
        sh.uncompressed_size <= 256 * 1024 * 1024,
    ensures
        section_bytes(data, sh, i, e) == Err::<Seq<u8>, ErrorModel>(
            ErrorModel::UnsupportedCompression(sh.compression),
        ),
{
}

/// A compressed section whose stored bytes do not lie in the file is refused.
pub proof fn law_compressed_sections_lie_in_the_file(
    data: Seq<u8>,
    sh: SectionHeader,
    i: nat,
    e: Endianness,
)
    requires
        sh.compression is Oodle1 || sh.compression is BitKnit1 || sh.compression is BitKnit2,
        sh.offset_in_file + sh.compressed_size > data.len(),
        sh.uncompressed_size <= 256 * 1024 * 1024,
    ensures
        section_bytes(data, sh, i, e) is Err && section_bytes(data, sh, i, e)->Err_0 is Io,
{
}

/// A BitKnit section of either kind is what the stored bytes decompress to.
pub proof fn law_bitknit_sections(data: Seq<u8>, sh: SectionHeader, i: nat, e: Endianness)
    requires
        sh.compression is BitKnit1 || sh.compression is BitKnit2,
        sh.offset_in_file + sh.compressed_size <= data.len(),
        sh.uncompressed_size <= 256 * 1024 * 1024,
    ensures
        ({
            let start = sh.offset_in_file as int;
            let packed = data.subrange(start, start + sh.compressed_size);
            section_bytes(data, sh, i, e) == match bitknit::decompressed_bytes(
                packed,
                sh.uncompressed_size as nat,
            ) {
                (out, None) => Ok::<Seq<u8>, ErrorModel>(out),
                (out, Some(err)) => Err(ErrorModel::BitKnit(err)),
            }
        }),
{
}

/// A BitKnit section that stores `bytes` as they are loads as those bytes.
pub proof fn law_stored_sections_are_read_back(
    data: Seq<u8>,
    sh: SectionHeader,
    i: nat,
    e: Endianness,
    bytes: Seq<u8>,
)
    requires
        sh.compression is BitKnit1 || sh.compression is BitKnit2,
        sh.offset_in_file + sh.compressed_size <= data.len(),
        data.subrange(
            sh.offset_in_file as int,
            sh.offset_in_file + sh.compressed_size,
        ) == stored_stream(bytes),
        sh.uncompressed_size == bytes.len(),
        bytes.len() <= 256 * 1024 * 1024,
    ensures
        section_bytes(data, sh, i, e) == Ok::<Seq<u8>, ErrorModel>(bytes),
{
    law_stored_bytes_are_read_back(bytes);
}

/// An Oodle1 section is what the stored bytes decode to, with the first two sub-streams stopping
/// where the section header says: at `first_16bit` and at `first_8bit`.
pub proof fn law_oodle1_sections(data: Seq<u8>, sh: SectionHeader, i: nat, e: Endianness)
    requires
        sh.compression is Oodle1,
        sh.offset_in_file + sh.compressed_size <= data.len(),
        0 < sh.uncompressed_size <= 256 * 1024 * 1024,
    ensures
        ({
            let start = sh.offset_in_file as int;
            let packed = data.subrange(start, start + sh.compressed_size);
            let size = sh.uncompressed_size as nat;
            &&& oodle1::refusal(packed, size, e) matches Some(err) ==> section_bytes(data, sh, i, e)
                == Err::<Seq<u8>, ErrorModel>(ErrorModel::Oodle1(err))
            &&& oodle1::refusal(packed, size, e) is None ==> section_bytes(data, sh, i, e) == Ok::<
                Seq<u8>,
                ErrorModel,
            >(
                oodle1::decompressed_bytes(
                    packed,
                    size,
                    sh.first_16bit as nat,
                    sh.first_8bit as nat,
                    e,
                ),
            )
        }),
{
}

// ---------------------------------------------------------------------------
// Relocations
// ---------------------------------------------------------------------------
/// A relocation holds the three numbers of its record of twelve bytes at `at`.
pub open spec fn is_record(r: Relocation, bytes: Seq<u8>, at: int, e: Endianness) -> bool {
    &&& r.offset_in_section == number_at(bytes, at, 4, e)
    &&& r.target_section == number_at(bytes, at + 4, 4, e)
    &&& r.target_offset == number_at(bytes, at + 8, 4, e)
}

/// A section without relocations has none, wherever its table would be.
pub proof fn law_no_relocations(data: Seq<u8>, sh: SectionHeader, i: nat, e: Endianness)
    requires
        sh.num_relocations == 0,
    ensures
        relocations_of(data, sh, i, e) == Ok::<Seq<Relocation>, ErrorModel>(Seq::empty()),
{
}

/// The relocations of a section of any compression but BitKnit2 stand in the file as they are:
/// record behind record from the offset on that the section header gives. They can be read
/// exactly where all of them lie in the file.
pub proof fn law_plain_relocation_tables(data: Seq<u8>, sh: SectionHeader, i: nat, e: Endianness)
    requires
        sh.compression != Compression::BitKnit2,
        sh.num_relocations > 0,
    ensures
        ({
            let start = sh.relocations_offset as int;
            let end = start + 12 * sh.num_relocations;
            let r = relocations_of(data, sh, i, e);
            &&& r is Ok <==> end <= data.len()
            &&& r is Err ==> r->Err_0 is Io
            &&& r is Ok ==> r->Ok_0.len() == sh.num_relocations && forall|k: int|
                0 <= k < sh.num_relocations ==> is_record(
                    #[trigger] r->Ok_0[k],
                    data,
                    start + 12 * k,
                    e,
                )
        }),
{
    let start = sh.relocations_offset as int;
    let r = relocations_of(data, sh, i, e);
    if start + 12 * sh.num_relocations <= data.len() {
        assert forall|k: int| 0 <= k < sh.num_relocations implies is_record(
            #[trigger] r->Ok_0[k],
            data,
            start + 12 * k,
            e,
        ) by {
            law_reads_are_positional(data, start + 12 * k, e);
            law_reads_are_positional(data, start + 12 * k + 4, e);
            law_reads_are_positional(data, start + 12 * k + 8, e);
        }
    }
}

/// The relocations of a BitKnit2 section are compressed: the size of the compressed table, then
/// the table. They can be read exactly where the table lies in the file and decompresses to
/// twelve bytes for each, and these are the records.
pub proof fn law_packed_relocation_tables(data: Seq<u8>, sh: SectionHeader, i: nat, e: Endianness)
    requires
        sh.compression == Compression::BitKnit2,
        sh.num_relocations > 0,
        12 * sh.num_relocations <= usize::MAX,
    ensures
        ({
            let start = sh.relocations_offset as int;
            let count = sh.num_relocations as nat;
            let r = relocations_of(data, sh, i, e);
            &&& start + 4 > data.len() ==> r is Err && r->Err_0 is Io
            &&& start + 4 <= data.len() ==> {
                let size = number_at(data, start, 4, e);
                let end = start + 4 + size;
                &&& end > data.len() ==> r is Err && r->Err_0 is Io
                &&& end <= data.len() ==> {
                    let (table, err) = bitknit::decompressed_bytes(
                        data.subrange(start + 4, end),
                        12 * count,
                    );
                    &&& err matches Some(x) ==> r == Err::<Seq<Relocation>, ErrorModel>(
                        ErrorModel::BitKnit(x),
                    )
                    &&& err is None ==> r is Ok && r->Ok_0.len() == count && forall|k: int|
                        0 <= k < count ==> is_record(#[trigger] r->Ok_0[k], table, 12 * k, e)
                }
            }
        }),
{
    let start = sh.relocations_offset as int;
    let count = sh.num_relocations as nat;
    let r = relocations_of(data, sh, i, e);
    if start + 4 <= data.len() {
        law_reads_are_positional(data, start, e);
        let end = start + 4 + number_at(data, start, 4, e);
        if end <= data.len() {
            let packed = data.subrange(start + 4, end);
            let (table, err) = bitknit::decompressed_bytes(packed, 12 * count);
            bitknit::laws::law_decompressed_size(packed, 12 * count);
            if err is None {
                assert forall|k: int| 0 <= k < count implies is_record(
                    #[trigger] r->Ok_0[k],
                    table,
                    12 * k,
                    e,
                ) by {
                    law_reads_are_positional(table, 12 * k, e);
                    law_reads_are_positional(table, 12 * k + 4, e);
                    law_reads_are_positional(table, 12 * k + 8, e);
                }
            }
        }
    }
}

/// A BitKnit2 section whose table stores `records` as they are has those relocations.
pub proof fn law_stored_relocations_are_read_back(
    data: Seq<u8>,
    sh: SectionHeader,
    i: nat,
    e: Endianness,
    records: Seq<u8>,
    k: int,
)
    requires
        sh.compression == Compression::BitKnit2,
        records.len() == 12 * sh.num_relocations,
        records.len() <= usize::MAX,
        sh.relocations_offset + 4 + stored_stream(records).len() <= data.len(),
        number_at(data, sh.relocations_offset as int, 4, e) == stored_stream(records).len(),
        data.subrange(
            sh.relocations_offset + 4,
            sh.relocations_offset + 4 + stored_stream(records).len(),
        ) == stored_stream(records),
        0 <= k < sh.num_relocations,
    ensures
        relocations_of(data, sh, i, e) is Ok,
        relocations_of(data, sh, i, e)->Ok_0.len() == sh.num_relocations,
        is_record(relocations_of(data, sh, i, e)->Ok_0[k], records, 12 * k, e),
{
    law_packed_relocation_tables(data, sh, i, e);
    law_stored_bytes_are_read_back(records);
}

// ---------------------------------------------------------------------------
// CRC
// ---------------------------------------------------------------------------
/// The CRC covers what lies behind the main header, which ends at 0x58 in version 6 and at 0x68 in
/// version 7, up to the file size that the header gives or the end of the data.
pub proof fn law_crc_covers_what_follows_the_header(data: Seq<u8>, version: u32, file_size: u32)
    ensures
        ({
            let start: int = if version < 7 {
                0x58
            } else {
                0x68
            };
            let end: int = if file_size < data.len() {
                file_size as int
            } else {
                data.len() as int
            };
            let c = covered_bytes(data, version, file_size);
            &&& end <= start ==> c.len() == 0
            &&& end > start ==> c.len() == end - start
            &&& forall|i: int| 0 <= i < c.len() ==> #[trigger] c[i] == data[start + i]
        }),
{
}

/// A file passes the CRC check exactly where the number at 0x28 is the CRC-32 of the bytes behind
/// the main header, up to the file size at 0x24 or the end of the data.
pub proof fn law_crc_check(data: Seq<u8>)
    ensures
        data.len() < 88 ==> crc_failure(data) == Some(ErrorModel::Truncated),
        data.len() >= 88 && magic_format(data.subrange(0, 16)) is None ==> crc_failure(data)
            == Some(ErrorModel::UnknownMagic),
        data.len() >= 88 && magic_format(data.subrange(0, 16)) is Some ==> {
            let e = magic_format(data.subrange(0, 16))->Some_0.endianness;
            let start: int = if word_at(data, 0x20, e) < 7 {
                0x58
            } else {
                0x68
            };
            let end: int = if word_at(data, 0x24, e) < data.len() {
                word_at(data, 0x24, e) as int
            } else {
                data.len() as int
            };
            let crc = if start < end {
                crc32_of(data.subrange(start, end))
            } else {
                0
            };
            &&& word_at(data, 0x28, e) == crc ==> crc_failure(data) is None
            &&& word_at(data, 0x28, e) != crc ==> crc_failure(data) == Some(
                ErrorModel::CrcMismatch { expected: word_at(data, 0x28, e) as u32, computed: crc },
            )
        },
{
    if data.len() >= 88 {
        assert(data.take(16) =~= data.subrange(0, 16));
        if magic_format(data.subrange(0, 16)) is Some {
            let e = magic_format(data.subrange(0, 16))->Some_0.endianness;
            law_reads_are_positional(data, 0x20, e);
            law_reads_are_positional(data, 0x24, e);
            law_reads_are_positional(data, 0x28, e);
            assert(crc32_of(Seq::empty()) == 0) by {
                assert(0xFFFF_FFFFu32 ^ 0xFFFF_FFFFu32 == 0) by (bit_vector);
            }
        }
    }
}

} // verus!
