//! Parsing a file: headers, section data, relocations.
use crate::bitknit;
use crate::format::{
    compression_of, identify_magic, magic_format, rd_u32, u32_at, Compression, Endianness,
    FormatId, Header, MagicBlock, PointerWidth, Relocation, SectionHeader, SectionRef,
};
use crate::oodle1;
use crate::reader::crc::{compute_file_crc, covered_bytes, crc32_of};
use crate::reader::pointers::{pointer_bytes, with_bytes, write_ptr};
use crate::reader::{
    Error, ErrorModel, Gr2File, IoError, IoErrorKind, Section, MAX_SECTION_SIZE, MIN_FILE_SIZE,
};
use crate::text::{decimal, decimal_text};
use vstd::prelude::*;
use vstd::string::*;

verus! {

// ---------------------------------------------------------------------------
// Messages
// ---------------------------------------------------------------------------

/// A message about section `i`.
pub open spec fn section_text(i: nat, rest: Seq<char>) -> Seq<char> {
    "section "@ + decimal_text(i) + rest
}

/// The error for data that would lie past the end of the file.
pub open spec fn past_end(i: nat, rest: Seq<char>) -> ErrorModel {
    ErrorModel::Io { kind: IoErrorKind::UnexpectedEof, message: section_text(i, rest) }
}

fn section_message(i: usize, rest: &str) -> (r: String)
    ensures
        r@ == section_text(i as nat, rest@),
{
    let mut s = "section ".to_string();
    s.append(decimal(i as u64).as_str());
    s.append(rest);
    s
}

fn past_end_error(i: usize, rest: &str) -> (r: Error)
    ensures
        r@ == past_end(i as nat, rest@),
{
    Error::Io(IoError { kind: IoErrorKind::UnexpectedEof, message: section_message(i, rest) })
}

// ---------------------------------------------------------------------------
// Headers
// ---------------------------------------------------------------------------

/// The format that the first sixteen bytes of a file identify.
pub open spec fn file_format(data: Seq<u8>) -> Option<FormatId> {
    magic_format(data.take(16))
}

/// Where the section headers start.
pub open spec fn section_table(data: Seq<u8>, endian: Endianness) -> int {
    0x20 + u32_at(data, 0x2C, endian)
}

/// Why the magic block and the headers are refused, if they are.
pub open spec fn header_failure(data: Seq<u8>) -> Option<ErrorModel> {
    if data.len() < 16 {
        Some(ErrorModel::Truncated)
    } else if file_format(data) is None {
        Some(ErrorModel::UnknownMagic)
    } else if data.len() < MIN_FILE_SIZE {
        Some(ErrorModel::Truncated)
    } else {
        let endian = file_format(data).unwrap().endianness;
        let header_format = u32_at(data, 0x14, endian);
        let version = u32_at(data, 0x20, endian);
        if header_format != 0 {
            Some(ErrorModel::UnsupportedHeaderFormat(header_format))
        } else if version != 6 && version != 7 {
            Some(ErrorModel::UnsupportedVersion(version))
        } else if version == 7 && data.len() < 0x5C {
            Some(ErrorModel::Truncated)
        } else if section_table(data, endian) + 44 * u32_at(data, 0x30, endian) > data.len() {
            Some(ErrorModel::Truncated)
        } else {
            None
        }
    }
}

/// The header holds what the file does.
pub open spec fn header_matches(h: Header, data: Seq<u8>, endian: Endianness) -> bool {
    &&& h.version == u32_at(data, 0x20, endian)
    &&& h.file_size == u32_at(data, 0x24, endian)
    &&& h.crc == u32_at(data, 0x28, endian)
    &&& h.sections_offset == u32_at(data, 0x2C, endian)
    &&& h.num_sections == u32_at(data, 0x30, endian)
    &&& h.root_type.section == u32_at(data, 0x34, endian)
    &&& h.root_type.offset == u32_at(data, 0x38, endian)
    &&& h.root_node.section == u32_at(data, 0x3C, endian)
    &&& h.root_node.offset == u32_at(data, 0x40, endian)
    &&& h.tag == u32_at(data, 0x44, endian)
    &&& h.extra_tags@ == seq![
        u32_at(data, 0x48, endian),
        u32_at(data, 0x4C, endian),
        u32_at(data, 0x50, endian),
        u32_at(data, 0x54, endian),
    ]
    &&& h.string_table_crc == if h.version >= 7 {
        u32_at(data, 0x58, endian)
    } else {
        0
    }
}

/// The section header at `off`.
pub open spec fn section_header_at(data: Seq<u8>, off: int, endian: Endianness) -> SectionHeader {
    SectionHeader {
        compression: compression_of(u32_at(data, off, endian)),
        offset_in_file: u32_at(data, off + 4, endian),
        compressed_size: u32_at(data, off + 8, endian),
        uncompressed_size: u32_at(data, off + 12, endian),
        alignment: u32_at(data, off + 16, endian),
        first_16bit: u32_at(data, off + 20, endian),
        first_8bit: u32_at(data, off + 24, endian),
        relocations_offset: u32_at(data, off + 28, endian),
        num_relocations: u32_at(data, off + 32, endian),
        mixed_marshalling_offset: u32_at(data, off + 36, endian),
        num_mixed_marshalling: u32_at(data, off + 40, endian),
    }
}

/// All section headers.
pub open spec fn section_headers(data: Seq<u8>, endian: Endianness) -> Seq<SectionHeader> {
    Seq::new(
        u32_at(data, 0x30, endian) as nat,
        |i: int| section_header_at(data, section_table(data, endian) + 44 * i, endian),
    )
}

// ---------------------------------------------------------------------------
// Section data
// ---------------------------------------------------------------------------

/// The decompressed data of a section.
pub open spec fn section_bytes(
    data: Seq<u8>,
    sh: SectionHeader,
    i: nat,
    endian: Endianness,
) -> Result<Seq<u8>, ErrorModel> {
    let start = sh.offset_in_file as int;
    let packed = data.subrange(start, start + sh.compressed_size);
    let size = sh.uncompressed_size as nat;
    if size > MAX_SECTION_SIZE {
        Err(
            ErrorModel::InvalidType(
                section_text(
                    i,
                    ": uncompressed size "@ + decimal_text(size) + " exceeds maximum ("@
                        + decimal_text(MAX_SECTION_SIZE as nat) + ")"@,
                ),
            ),
        )
    } else {
        match sh.compression {
            Compression::Uncompressed => if start + size > data.len() {
                Err(past_end(i, ": data past end of file"@))
            } else {
                Ok(data.subrange(start, start + size))
            },
            Compression::BitKnit1 | Compression::BitKnit2 => if start + sh.compressed_size
                > data.len() {
                Err(past_end(i, ": compressed data past end of file"@))
            } else {
                match bitknit::decompressed_bytes(packed, size) {
                    (out, None) => Ok(out),
                    (out, Some(e)) => Err(ErrorModel::BitKnit(e)),
                }
            },
            Compression::Oodle1 => if start + sh.compressed_size > data.len() {
                Err(past_end(i, ": compressed data past end of file"@))
            } else {
                match oodle1::refusal(packed, size, endian) {
                    Some(e) => Err(ErrorModel::Oodle1(e)),
                    None => Ok(
                        if packed.len() == 0 {
                            Seq::empty()
                        } else {
                            oodle1::decompressed_bytes(
                                packed,
                                size,
                                sh.first_16bit as nat,
                                sh.first_8bit as nat,
                                endian,
                            )
                        },
                    ),
                }
            },
            other => Err(ErrorModel::UnsupportedCompression(other)),
        }
    }
}

/// The data of the first `n` sections, one after another.
pub open spec fn flattened(
    data: Seq<u8>,
    headers: Seq<SectionHeader>,
    n: int,
    endian: Endianness,
) -> Result<Seq<u8>, ErrorModel>
    decreases n,
{
    if n <= 0 {
        Ok(Seq::empty())
    } else {
        let sh = headers[n - 1];
        match flattened(data, headers, n - 1, endian) {
            Err(e) => Err(e),
            Ok(flat) => if sh.uncompressed_size == 0 {
                Ok(flat)
            } else {
                match section_bytes(data, sh, (n - 1) as nat, endian) {
                    Err(e) => Err(e),
                    Ok(bytes) => Ok(flat + bytes),
                }
            },
        }
    }
}

/// Where section `i` starts in the flat buffer: behind the sections before it.
pub open spec fn section_start(headers: Seq<SectionHeader>, i: int) -> nat
    decreases i,
{
    if i <= 0 {
        0
    } else {
        section_start(headers, i - 1) + headers[i - 1].uncompressed_size as nat
    }
}

/// Where each section starts in the flat buffer.
pub open spec fn section_starts(headers: Seq<SectionHeader>) -> Seq<nat> {
    Seq::new(headers.len(), |i: int| section_start(headers, i))
}

/// The base addresses of sections.
pub open spec fn base_addresses(sections: Seq<Section>) -> Seq<nat> {
    Seq::new(sections.len(), |i: int| sections[i].base_address as nat)
}

// ---------------------------------------------------------------------------
// Relocations
// ---------------------------------------------------------------------------

/// The relocation at `off`.
pub open spec fn relocation_at(bytes: Seq<u8>, off: int, endian: Endianness) -> Relocation {
    Relocation {
        offset_in_section: u32_at(bytes, off, endian),
        target_section: u32_at(bytes, off + 4, endian),
        target_offset: u32_at(bytes, off + 8, endian),
    }
}

/// The `n` relocations that stand in `bytes` from `off` on.
pub open spec fn relocation_table(bytes: Seq<u8>, off: int, n: nat, endian: Endianness) -> Seq<
    Relocation,
> {
    Seq::new(n, |k: int| relocation_at(bytes, off + 12 * k, endian))
}

/// The relocations of section `i`. Those of a BitKnit2 section are compressed themselves, behind
/// the size of their compressed form.
pub open spec fn relocations_of(
    data: Seq<u8>,
    sh: SectionHeader,
    i: nat,
    endian: Endianness,
) -> Result<Seq<Relocation>, ErrorModel> {
    let count = sh.num_relocations as nat;
    let start = sh.relocations_offset as int;
    if count == 0 {
        Ok(Seq::empty())
    } else if sh.compression == Compression::BitKnit2 {
        let packed_size = u32_at(data, start, endian);
        if start + 4 > data.len() {
            Err(past_end(i, ": relocation header past EOF"@))
        } else if start + 4 + packed_size > data.len() {
            Err(past_end(i, ": compressed relocation data past EOF"@))
        } else if 12 * count > usize::MAX {
            Err(ErrorModel::InvalidRelocation(section_text(i, ": too many relocations"@)))
        } else {
            match bitknit::decompressed_bytes(
                data.subrange(start + 4, start + 4 + packed_size),
                12 * count,
            ) {
                (out, None) => Ok(relocation_table(out, 0, count, endian)),
                (out, Some(e)) => Err(ErrorModel::BitKnit(e)),
            }
        }
    } else if start + 12 * count > data.len() {
        Err(past_end(i, ": uncompressed relocation data past EOF"@))
    } else {
        Ok(relocation_table(data, start, count, endian))
    }
}

/// The flat buffer after the first `k` relocations of section `i`, where section `j` starts at
/// `bases[j]`. Each replaces the pointer at its place by the flat offset of its target.
pub open spec fn section_relocated(
    flat: Seq<u8>,
    bases: Seq<nat>,
    i: int,
    relocs: Seq<Relocation>,
    k: int,
    format: FormatId,
) -> Result<Seq<u8>, ErrorModel>
    decreases k,
{
    if k <= 0 {
        Ok(flat)
    } else {
        let r = relocs[k - 1];
        let at = bases[i] + r.offset_in_section;
        match section_relocated(flat, bases, i, relocs, k - 1, format) {
            Err(e) => Err(e),
            Ok(f) => if r.target_section >= bases.len() {
                Err(
                    ErrorModel::InvalidRelocation(
                        section_text(
                            i as nat,
                            ": relocation targets section "@ + decimal_text(
                                r.target_section as nat,
                            ) + " (only "@ + decimal_text(bases.len()) + " exist)"@,
                        ),
                    ),
                )
            } else if at + format.pointer_width.bytes() > f.len() {
                Err(
                    ErrorModel::InvalidRelocation(
                        section_text(
                            i as nat,
                            ": relocation write at "@ + decimal_text(at as nat)
                                + " past flat buffer"@,
                        ),
                    ),
                )
            } else {
                let target = bases[r.target_section as int] + r.target_offset;
                Ok(
                    with_bytes(
                        f,
                        at,
                        pointer_bytes(target as u64, format.endianness, format.pointer_width),
                    ),
                )
            },
        }
    }
}

/// The flat buffer after the relocations of the first `n` sections.
pub open spec fn relocated(
    data: Seq<u8>,
    flat: Seq<u8>,
    headers: Seq<SectionHeader>,
    bases: Seq<nat>,
    n: int,
    format: FormatId,
) -> Result<Seq<u8>, ErrorModel>
    decreases n,
{
    if n <= 0 {
        Ok(flat)
    } else {
        match relocated(data, flat, headers, bases, n - 1, format) {
            Err(e) => Err(e),
            Ok(f) => match relocations_of(data, headers[n - 1], (n - 1) as nat, format.endianness) {
                Err(e) => Err(e),
                Ok(relocs) => section_relocated(
                    f,
                    bases,
                    n - 1,
                    relocs,
                    relocs.len() as int,
                    format,
                ),
            },
        }
    }
}

/// The flat buffer of a file, or the error that it is refused with.
pub open spec fn parsed(data: Seq<u8>) -> Result<Seq<u8>, ErrorModel> {
    match header_failure(data) {
        Some(e) => Err(e),
        None => {
            let format = file_format(data).unwrap();
            let headers = section_headers(data, format.endianness);
            match flattened(data, headers, headers.len() as int, format.endianness) {
                Err(e) => Err(e),
                Ok(flat) => relocated(
                    data,
                    flat,
                    headers,
                    section_starts(headers),
                    headers.len() as int,
                    format,
                ),
            }
        },
    }
}

/// Everything about a loaded file but its flat buffer follows from its headers.
pub open spec fn headers_loaded(f: Gr2File, data: Seq<u8>) -> bool {
    let format = file_format(data).unwrap();
    let endian = format.endianness;
    let headers = section_headers(data, endian);
    &&& f.magic.format == format
    &&& f.magic.headers_size == u32_at(data, 0x10, endian)
    &&& f.magic.header_format == 0
    &&& f.endianness == endian
    &&& f.pointer_width == format.pointer_width
    &&& header_matches(f.header, data, endian)
    &&& f.sections@.len() == headers.len()
    &&& forall|i: int|
        0 <= i < headers.len() ==> (#[trigger] f.sections@[i]).header == headers[i]
            && f.sections@[i].base_address == section_start(headers, i)
}

// ---------------------------------------------------------------------------
// Parsing
// ---------------------------------------------------------------------------

/// A section that fails makes all longer prefixes fail in the same way.
proof fn lemma_flattened_fails(
    data: Seq<u8>,
    headers: Seq<SectionHeader>,
    i: int,
    n: int,
    endian: Endianness,
)
    requires
        i <= n,
        flattened(data, headers, i, endian) is Err,
    ensures
        flattened(data, headers, n, endian) == flattened(data, headers, i, endian),
    decreases n - i,
{
    if i < n {
        lemma_flattened_fails(data, headers, i, n - 1, endian);
    }
}

proof fn lemma_section_relocated_fails(
    flat: Seq<u8>,
    bases: Seq<nat>,
    i: int,
    relocs: Seq<Relocation>,
    k: int,
    n: int,
    format: FormatId,
)
    requires
        k <= n,
        section_relocated(flat, bases, i, relocs, k, format) is Err,
    ensures
        section_relocated(flat, bases, i, relocs, n, format) == section_relocated(
            flat,
            bases,
            i,
            relocs,
            k,
            format,
        ),
    decreases n - k,
{
    if k < n {
        lemma_section_relocated_fails(flat, bases, i, relocs, k, n - 1, format);
    }
}

proof fn lemma_relocated_fails(
    data: Seq<u8>,
    flat: Seq<u8>,
    headers: Seq<SectionHeader>,
    bases: Seq<nat>,
    i: int,
    n: int,
    format: FormatId,
)
    requires
        i <= n,
        relocated(data, flat, headers, bases, i, format) is Err,
    ensures
        relocated(data, flat, headers, bases, n, format) == relocated(
            data,
            flat,
            headers,
            bases,
            i,
            format,
        ),
    decreases n - i,
{
    if i < n {
        lemma_relocated_fails(data, flat, headers, bases, i, n - 1, format);
    }
}

/// Sections start in order.
pub proof fn law_section_starts_in_order(headers: Seq<SectionHeader>, i: int, j: int)
    requires
        0 <= i <= j,
    ensures
        section_start(headers, i) <= section_start(headers, j),
        i < j ==> section_start(headers, i) + headers[i].uncompressed_size <= section_start(
            headers,
            j,
        ),
    decreases j - i,
{
    if i < j {
        law_section_starts_in_order(headers, i, j - 1);
    }
}

fn signature(data: &[u8]) -> (r: [u8; 16])
    requires
        data.len() >= 16,
    ensures
        r@ == data@.take(16),
{
    let mut sig: [u8; 16] = [0; 16];
    let mut i: usize = 0;
    while i < 16
        invariant
            i <= 16,
            data.len() >= 16,
            forall|j: int| 0 <= j < i ==> sig@[j] == data@[j],
        decreases 16 - i,
    {
        sig[i] = data[i];
        i = i + 1;
    }
    assert(sig@ =~= data@.take(16));
    sig
}

fn read_header(data: &[u8], endian: Endianness) -> (r: Header)
    requires
        data.len() >= MIN_FILE_SIZE,
        u32_at(data@, 0x20, endian) >= 7 ==> data.len() >= 0x5C,
    ensures
        header_matches(r, data@, endian),
{
    let version: u32 = rd_u32(data, 0x20, endian);
    let extra_tags: [u32; 4] = [
        rd_u32(data, 0x48, endian),
        rd_u32(data, 0x4C, endian),
        rd_u32(data, 0x50, endian),
        rd_u32(data, 0x54, endian),
    ];
    let h = Header {
        version,
        file_size: rd_u32(data, 0x24, endian),
        crc: rd_u32(data, 0x28, endian),
        sections_offset: rd_u32(data, 0x2C, endian),
        num_sections: rd_u32(data, 0x30, endian),
        root_type: SectionRef {
            section: rd_u32(data, 0x34, endian),
            offset: rd_u32(data, 0x38, endian),
        },
        root_node: SectionRef {
            section: rd_u32(data, 0x3C, endian),
            offset: rd_u32(data, 0x40, endian),
        },
        tag: rd_u32(data, 0x44, endian),
        extra_tags,
        string_table_crc: if version >= 7 {
            rd_u32(data, 0x58, endian)
        } else {
            0
        },
    };
    assert(h.extra_tags@ =~= seq![
        u32_at(data@, 0x48, endian),
        u32_at(data@, 0x4C, endian),
        u32_at(data@, 0x50, endian),
        u32_at(data@, 0x54, endian),
    ]);
    h
}

fn read_section_header(data: &[u8], off: usize, endian: Endianness) -> (r: SectionHeader)
    requires
        off + 44 <= data.len(),
    ensures
        r == section_header_at(data@, off as int, endian),
{
    SectionHeader {
        compression: Compression::from(rd_u32(data, off, endian)),
        offset_in_file: rd_u32(data, off + 4, endian),
        compressed_size: rd_u32(data, off + 8, endian),
        uncompressed_size: rd_u32(data, off + 12, endian),
        alignment: rd_u32(data, off + 16, endian),
        first_16bit: rd_u32(data, off + 20, endian),
        first_8bit: rd_u32(data, off + 24, endian),
        relocations_offset: rd_u32(data, off + 28, endian),
        num_relocations: rd_u32(data, off + 32, endian),
        mixed_marshalling_offset: rd_u32(data, off + 36, endian),
        num_mixed_marshalling: rd_u32(data, off + 40, endian),
    }
}

fn read_relocation(data: &[u8], off: usize, endian: Endianness) -> (r: Relocation)
    requires
        off + 12 <= data.len(),
    ensures
        r == relocation_at(data@, off as int, endian),
{
    Relocation {
        offset_in_section: rd_u32(data, off, endian),
        target_section: rd_u32(data, off + 4, endian),
        target_offset: rd_u32(data, off + 8, endian),
    }
}

fn read_relocation_table(data: &[u8], off: usize, count: usize, endian: Endianness) -> (r: Vec<
    Relocation,
>)
    requires
        off + 12 * count <= data.len(),
    ensures
        r@ == relocation_table(data@, off as int, count as nat, endian),
{
    let mut relocs: Vec<Relocation> = Vec::new();
    let mut i: usize = 0;
    while i < count
        invariant
            i <= count,
            off + 12 * count <= data.len(),
            relocs@.len() == i,
            forall|k: int|
                0 <= k < i ==> #[trigger] relocs@[k] == relocation_at(data@, off + 12 * k, endian),
        decreases count - i,
    {
        relocs.push(read_relocation(data, off + 12 * i, endian));
        i = i + 1;
    }
    assert(relocs@ =~= relocation_table(data@, off as int, count as nat, endian));
    relocs
}

/// Decompresses BitKnit data to exactly `size` bytes.
fn unpack_bitknit(packed: &[u8], size: usize) -> (r: Result<Vec<u8>, Error>)
    ensures
        match bitknit::decompressed_bytes(packed@, size as nat) {
            (out, None) => r is Ok && r->Ok_0@ == out && out.len() == size,
            (out, Some(e)) => r is Err && r->Err_0@ == ErrorModel::BitKnit(e),
        },
{
    let mut out: Vec<u8> = vec![0u8; size];
    match bitknit::decompress(packed, out.as_mut_slice()) {
        Ok(()) => {
            let ghost bytes = bitknit::decompressed_bytes(packed@, size as nat).0;
            assert(out@ =~= bytes);
            Ok(out)
        },
        Err(e) => Err(Error::from(e)),
    }
}

impl Gr2File {
    /// Decompresses the data of section `section_idx`.
    pub fn decompress_section(
        file_data: &[u8],
        sh: &SectionHeader,
        section_idx: usize,
        endian: Endianness,
    ) -> (r: Result<Vec<u8>, Error>)
        ensures
            match section_bytes(file_data@, *sh, section_idx as nat, endian) {
                Ok(bytes) => r is Ok && r->Ok_0@ == bytes && bytes.len() == sh.uncompressed_size,
                Err(e) => r is Err && r->Err_0@ == e,
            },
    {
        let offset: u64 = sh.offset_in_file as u64;
        let comp_end: u64 = offset + sh.compressed_size as u64;
        let decomp_size: usize = sh.uncompressed_size as usize;
        let len: u64 = file_data.len() as u64;
        if decomp_size > MAX_SECTION_SIZE {
            let mut s = ": uncompressed size ".to_string();
            s.append(decimal(decomp_size as u64).as_str());
            s.append(" exceeds maximum (");
            s.append(decimal(MAX_SECTION_SIZE as u64).as_str());
            s.append(")");
            return Err(Error::InvalidType(section_message(section_idx, s.as_str())));
        }
        match sh.compression {
            Compression::Uncompressed => {
                let end: u64 = offset + decomp_size as u64;
                if end > len {
                    return Err(past_end_error(section_idx, ": data past end of file"));
                }
                Ok(
                    vstd::slice::slice_to_vec(
                        vstd::slice::slice_subrange(file_data, offset as usize, end as usize),
                    ),
                )
            },
            Compression::BitKnit1 | Compression::BitKnit2 => {
                if comp_end > len {
                    return Err(past_end_error(section_idx, ": compressed data past end of file"));
                }
                let packed = vstd::slice::slice_subrange(
                    file_data,
                    offset as usize,
                    comp_end as usize,
                );
                unpack_bitknit(packed, decomp_size)
            },
            Compression::Oodle1 => {
                if comp_end > len {
                    return Err(past_end_error(section_idx, ": compressed data past end of file"));
                }
                let packed = vstd::slice::slice_subrange(
                    file_data,
                    offset as usize,
                    comp_end as usize,
                );
                let mut out: Vec<u8> = vec![0u8; decomp_size];
                match oodle1::decompress(
                    packed,
                    out.as_mut_slice(),
                    sh.first_16bit,
                    sh.first_8bit,
                    endian,
                ) {
                    Ok(()) => {
                        assert(packed@.len() == 0 ==> out@ =~= Seq::empty());
                        Ok(out)
                    },
                    Err(e) => Err(Error::from(e)),
                }
            },
            other => Err(Error::UnsupportedCompression(other)),
        }
    }

    /// Reads the relocations of section `section_idx`.
    pub fn read_relocations(
        file_data: &[u8],
        sh: &SectionHeader,
        section_idx: usize,
        endian: Endianness,
    ) -> (r: Result<Vec<Relocation>, Error>)
        ensures
            match relocations_of(file_data@, *sh, section_idx as nat, endian) {
                Ok(relocs) => r is Ok && r->Ok_0@ == relocs && relocs.len() == sh.num_relocations,
                Err(e) => r is Err && r->Err_0@ == e,
            },
    {
        let count: usize = sh.num_relocations as usize;
        if count == 0 {
            return Ok(Vec::new());
        }
        let offset: u64 = sh.relocations_offset as u64;
        let len: u64 = file_data.len() as u64;
        if sh.compression == Compression::BitKnit2 {
            if offset + 4 > len {
                return Err(past_end_error(section_idx, ": relocation header past EOF"));
            }
            let comp_size: u32 = rd_u32(file_data, offset as usize, endian);
            let comp_end: u64 = offset + 4 + comp_size as u64;
            if comp_end > len {
                return Err(past_end_error(section_idx, ": compressed relocation data past EOF"));
            }
            if count > usize::MAX / 12 {
                return Err(
                    Error::InvalidRelocation(
                        section_message(section_idx, ": too many relocations"),
                    ),
                );
            }
            let packed = vstd::slice::slice_subrange(
                file_data,
                offset as usize + 4,
                comp_end as usize,
            );
            match unpack_bitknit(packed, 12 * count) {
                Ok(bytes) => Ok(read_relocation_table(bytes.as_slice(), 0, count, endian)),
                Err(e) => Err(e),
            }
        } else {
            if offset + 12 * count as u64 > len {
                return Err(past_end_error(section_idx, ": uncompressed relocation data past EOF"));
            }
            Ok(read_relocation_table(file_data, offset as usize, count, endian))
        }
    }

    /// Applies the relocations of all sections to the flat buffer, in which each section lies at
    /// its base address.
    pub fn apply_relocations(
        file_data: &[u8],
        section_headers: &[SectionHeader],
        sections: &[Section],
        flat: &mut [u8],
        endian: Endianness,
        ptr_width: PointerWidth,
    ) -> (r: Result<(), Error>)
        requires
            sections@.len() == section_headers@.len(),
            forall|i: int|
                0 <= i < sections@.len() ==> (#[trigger] sections@[i]).base_address
                    <= 0xFFFF_FFFF_0000_0000,
        ensures
            final(flat)@.len() == old(flat)@.len(),
            match relocated(
                file_data@,
                old(flat)@,
                section_headers@,
                base_addresses(sections@),
                section_headers@.len() as int,
                (FormatId { endianness: endian, pointer_width: ptr_width }),
            ) {
                Ok(f) => r is Ok && final(flat)@ == f,
                Err(e) => r is Err && r->Err_0@ == e,
            },
    {
        let ghost format = FormatId { endianness: endian, pointer_width: ptr_width };
        let ghost headers = section_headers@;
        let ghost bases = base_addresses(sections@);
        let ghost flat0 = flat@;
        let n: usize = section_headers.len();
        let mut i: usize = 0;
        while i < n
            invariant
                i <= n,
                n == headers.len(),
                headers == section_headers@,
                sections@.len() == headers.len(),
                bases == base_addresses(sections@),
                forall|j: int|
                    0 <= j < sections@.len() ==> (#[trigger] sections@[j]).base_address
                        <= 0xFFFF_FFFF_0000_0000,
                format == (FormatId { endianness: endian, pointer_width: ptr_width }),
                flat0 == old(flat)@,
                flat@.len() == flat0.len(),
                relocated(file_data@, flat0, headers, bases, i as int, format) == Ok::<
                    Seq<u8>,
                    ErrorModel,
                >(flat@),
            decreases n - i,
        {
            let relocs = match Self::read_relocations(file_data, &section_headers[i], i, endian) {
                Ok(relocs) => relocs,
                Err(e) => {
                    proof {
                        lemma_relocated_fails(
                            file_data@,
                            flat0,
                            headers,
                            bases,
                            i + 1,
                            n as int,
                            format,
                        );
                    }
                    return Err(e);
                },
            };
            let step = Self::relocate_section(sections, flat, i, &relocs, endian, ptr_width);
            if let Err(e) = step {
                proof {
                    lemma_relocated_fails(
                        file_data@,
                        flat0,
                        headers,
                        bases,
                        i + 1,
                        n as int,
                        format,
                    );
                }
                return Err(e);
            }
            i = i + 1;
        }
        Ok(())
    }

    /// Applies the relocations of section `i`.
    fn relocate_section(
        sections: &[Section],
        flat: &mut [u8],
        i: usize,
        relocs: &Vec<Relocation>,
        endian: Endianness,
        ptr_width: PointerWidth,
    ) -> (r: Result<(), Error>)
        requires
            i < sections.len(),
            forall|j: int|
                0 <= j < sections@.len() ==> (#[trigger] sections@[j]).base_address
                    <= 0xFFFF_FFFF_0000_0000,
        ensures
            final(flat)@.len() == old(flat)@.len(),
            match section_relocated(
                old(flat)@,
                base_addresses(sections@),
                i as int,
                relocs@,
                relocs@.len() as int,
                (FormatId { endianness: endian, pointer_width: ptr_width }),
            ) {
                Ok(f) => r is Ok && final(flat)@ == f,
                Err(e) => r is Err && r->Err_0@ == e,
            },
    {
        let ghost format = FormatId { endianness: endian, pointer_width: ptr_width };
        let ghost flat0 = flat@;
        let ghost n = relocs@.len() as int;
        let sect_base: u64 = sections[i].base_address as u64;
        let ptr_size: usize = ptr_width.size();
        let ghost bases = base_addresses(sections@);
        let mut k: usize = 0;
        while k < relocs.len()
            invariant
                k <= relocs@.len(),
                n == relocs@.len(),
                i < sections.len(),
                bases == base_addresses(sections@),
                forall|j: int|
                    0 <= j < sections@.len() ==> (#[trigger] sections@[j]).base_address
                        <= 0xFFFF_FFFF_0000_0000,
                sect_base == bases[i as int],
                sect_base <= 0xFFFF_FFFF_0000_0000,
                ptr_size == ptr_width.bytes(),
                format == (FormatId { endianness: endian, pointer_width: ptr_width }),
                flat0 == old(flat)@,
                flat@.len() == flat0.len(),
                section_relocated(flat0, bases, i as int, relocs@, k as int, format) == Ok::<
                    Seq<u8>,
                    ErrorModel,
                >(flat@),
            decreases relocs@.len() - k,
        {
            let reloc: Relocation = relocs[k];
            let target_sect: usize = reloc.target_section as usize;
            if target_sect >= sections.len() {
                proof {
                    lemma_section_relocated_fails(
                        flat0,
                        bases,
                        i as int,
                        relocs@,
                        k + 1,
                        n,
                        format,
                    );
                }
                let mut s = ": relocation targets section ".to_string();
                s.append(decimal(target_sect as u64).as_str());
                s.append(" (only ");
                s.append(decimal(sections.len() as u64).as_str());
                s.append(" exist)");
                return Err(Error::InvalidRelocation(section_message(i, s.as_str())));
            }
            let target_addr: u64 = sections[target_sect].base_address as u64
                + reloc.target_offset as u64;
            let write_addr: u64 = sect_base + reloc.offset_in_section as u64;
            let len: u64 = flat.len() as u64;
            if len < ptr_size as u64 || write_addr > len - ptr_size as u64 {
                proof {
                    lemma_section_relocated_fails(
                        flat0,
                        bases,
                        i as int,
                        relocs@,
                        k + 1,
                        n,
                        format,
                    );
                }
                let mut s = ": relocation write at ".to_string();
                s.append(decimal(write_addr).as_str());
                s.append(" past flat buffer");
                return Err(Error::InvalidRelocation(section_message(i, s.as_str())));
            }
            write_ptr(flat, write_addr as usize, target_addr, endian, ptr_width);
            k = k + 1;
        }
        Ok(())
    }

    /// Checks the CRC that the header stores against the file's bytes as they are on disk.
    /// Parsing does not, so that altered files can still be loaded.
    pub fn validate_crc(data: &[u8]) -> (r: Result<(), Error>)
        ensures
            match crc_failure(data@) {
                Some(e) => r is Err && r->Err_0@ == e,
                None => r is Ok,
            },
    {
        if data.len() < MIN_FILE_SIZE {
            return Err(Error::Truncated);
        }
        let sig = signature(data);
        let format = match identify_magic(&sig) {
            Some(format) => format,
            None => {
                return Err(Error::UnknownMagic);
            },
        };
        let endian = format.endianness;
        let version: u32 = rd_u32(data, 0x20, endian);
        let file_size: u32 = rd_u32(data, 0x24, endian);
        let expected: u32 = rd_u32(data, 0x28, endian);
        let computed: u32 = compute_file_crc(data, version, file_size);
        if expected != computed {
            return Err(Error::CrcMismatch { expected, computed });
        }
        Ok(())
    }

    /// Parses a file: reads the headers, decompresses the sections into the flat buffer and
    /// applies the relocations.
    pub fn parse(data: &[u8]) -> (r: Result<Self, Error>)
        ensures
            match parsed(data@) {
                Ok(flat) => r is Ok && r->Ok_0.flat@ == flat && headers_loaded(r->Ok_0, data@)
                    && flat.len() == section_start(
                    section_headers(data@, r->Ok_0.endianness),
                    r->Ok_0.sections@.len() as int,
                ),
                Err(e) => r is Err && r->Err_0@ == e,
            },
    {
        if data.len() < 16 {
            return Err(Error::Truncated);
        }
        let sig = signature(data);
        let format = match identify_magic(&sig) {
            Some(format) => format,
            None => {
                return Err(Error::UnknownMagic);
            },
        };
        if data.len() < MIN_FILE_SIZE {
            return Err(Error::Truncated);
        }
        let endian = format.endianness;
        let headers_size: u32 = rd_u32(data, 0x10, endian);
        let header_format: u32 = rd_u32(data, 0x14, endian);
        if header_format != 0 {
            return Err(Error::UnsupportedHeaderFormat(header_format));
        }
        let version: u32 = rd_u32(data, 0x20, endian);
        if version != 6 && version != 7 {
            return Err(Error::UnsupportedVersion(version));
        }
        if version >= 7 && data.len() < 0x5C {
            return Err(Error::Truncated);
        }
        let header = read_header(data, endian);
        let table: u64 = 0x20 + header.sections_offset as u64;
        if table + 44 * header.num_sections as u64 > data.len() as u64 {
            return Err(Error::Truncated);
        }
        let num_sections: usize = header.num_sections as usize;
        let ghost all = section_headers(data@, endian);
        assert(header_failure(data@) is None);
        let mut headers: Vec<SectionHeader> = Vec::new();
        let mut i: usize = 0;
        while i < num_sections
            invariant
                i <= num_sections,
                num_sections == all.len(),
                all == section_headers(data@, endian),
                table == section_table(data@, endian),
                table + 44 * num_sections <= data.len(),
                headers@.len() == i,
                forall|j: int| 0 <= j < i ==> #[trigger] headers@[j] == all[j],
            decreases num_sections - i,
        {
            headers.push(read_section_header(data, table as usize + 44 * i, endian));
            i = i + 1;
        }
        assert(headers@ =~= all);

        let mut sections: Vec<Section> = Vec::new();
        let mut flat: Vec<u8> = Vec::new();
        assert(flat@ =~= Seq::empty());
        let mut i: usize = 0;
        while i < num_sections
            invariant
                i <= num_sections,
                num_sections == all.len(),
                num_sections <= 0xFFFF_FFFF,
                headers@ == all,
                sections@.len() == i,
                forall|j: int|
                    0 <= j < i ==> (#[trigger] sections@[j]).header == all[j]
                        && sections@[j].base_address == section_start(all, j)
                        && sections@[j].base_address <= 0xFFFF_FFFF_0000_0000,
                flattened(data@, all, i as int, endian) == Ok::<Seq<u8>, ErrorModel>(flat@),
                flat@.len() == section_start(all, i as int),
                flat@.len() <= i * 0x1000_0000,
                header_failure(data@) is None,
                file_format(data@) == Some(format),
                endian == format.endianness,
                all == section_headers(data@, endian),
            decreases num_sections - i,
        {
            let sh: SectionHeader = headers[i];
            let base_address: usize = flat.len();
            if sh.uncompressed_size > 0 {
                match Self::decompress_section(data, &sh, i, endian) {
                    Ok(bytes) => {
                        let ghost before = flat@;
                        flat.extend_from_slice(bytes.as_slice());
                        assert(flat@ =~= before + bytes@);
                    },
                    Err(e) => {
                        proof {
                            lemma_flattened_fails(data@, all, i + 1, num_sections as int, endian);
                        }
                        return Err(e);
                    },
                }
            }
            sections.push(Section { header: sh, base_address });
            i = i + 1;
        }
        assert(base_addresses(sections@) =~= section_starts(all));
        let done = Self::apply_relocations(
            data,
            headers.as_slice(),
            sections.as_slice(),
            flat.as_mut_slice(),
            endian,
            format.pointer_width,
        );
        if let Err(e) = done {
            return Err(e);
        }
        Ok(
            Gr2File {
                magic: MagicBlock { format, headers_size, header_format },
                header,
                sections,
                flat,
                endianness: endian,
                pointer_width: format.pointer_width,
            },
        )
    }
}

/// Why the CRC check of a file fails, if it does.
pub open spec fn crc_failure(data: Seq<u8>) -> Option<ErrorModel> {
    if data.len() < MIN_FILE_SIZE {
        Some(ErrorModel::Truncated)
    } else if file_format(data) is None {
        Some(ErrorModel::UnknownMagic)
    } else {
        let endian = file_format(data).unwrap().endianness;
        let expected = u32_at(data, 0x28, endian);
        let computed = crc32_of(
            covered_bytes(data, u32_at(data, 0x20, endian), u32_at(data, 0x24, endian)),
        );
        if expected != computed {
            Some(ErrorModel::CrcMismatch { expected, computed })
        } else {
            None
        }
    }
}

} // verus!
