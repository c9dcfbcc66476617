//! What holds of every loaded file.
use crate::bitknit;
use crate::element::{FieldModel, ValueModel};
use crate::format::{u32_at, Endianness, FormatId, MemberType, Relocation, SectionHeader};
use crate::oodle1;
use crate::reader::access::clamped;
use crate::reader::crc::{covered_bytes, crc32_of};
use crate::reader::image::{Image, MemberModel};
use crate::reader::parse::{
    crc_failure, file_format, flattened, header_failure, headers_loaded,
    law_section_starts_in_order, parsed, relocated, relocation_table, relocations_of,
    section_bytes, section_headers, section_relocated, section_start, section_starts,
    section_table,
};
use crate::reader::pointers::{law_u32_reads_back, u32_bytes, with_bytes};
use crate::reader::{
    ErrorModel, Gr2File, MAX_ARRAY_COUNT, MAX_EXTRACT_DEPTH, MAX_SECTION_SIZE, MIN_FILE_SIZE,
};
use vstd::prelude::*;

verus! {

// ---------------------------------------------------------------------------
// Parsing
// ---------------------------------------------------------------------------

/// Only files of version 6 or 7 with uncompressed headers are loaded.
pub proof fn law_loaded_version(data: Seq<u8>)
    ensures
        parsed(data) is Ok ==> {
            let endian = file_format(data).unwrap().endianness;
            &&& data.len() >= MIN_FILE_SIZE
            &&& u32_at(data, 0x14, endian) == 0
            &&& u32_at(data, 0x20, endian) == 6 || u32_at(data, 0x20, endian) == 7
        },
{
}

/// A loaded file has as many sections as its header says, and their base addresses do not
/// decrease.
pub proof fn law_loaded_sections(f: Gr2File, data: Seq<u8>, i: int, j: int)
    requires
        headers_loaded(f, data),
        0 <= i <= j < f.sections@.len(),
    ensures
        f.sections@.len() == f.header.num_sections,
        f.sections@[i].base_address <= f.sections@[j].base_address,
{
    let headers = section_headers(data, file_format(data).unwrap().endianness);
    law_section_starts_in_order(headers, i, j);
}

/// What a section decompresses to has the size that its header gives.
pub proof fn law_section_size(data: Seq<u8>, sh: SectionHeader, i: nat, endian: Endianness)
    ensures
        section_bytes(data, sh, i, endian) is Ok ==> section_bytes(data, sh, i, endian)->Ok_0.len()
            == sh.uncompressed_size && sh.uncompressed_size <= MAX_SECTION_SIZE,
{
    let start = sh.offset_in_file as int;
    if start + sh.compressed_size <= data.len() {
        let packed = data.subrange(start, start + sh.compressed_size);
        let size = sh.uncompressed_size as nat;
        bitknit::laws::law_decompressed_size(packed, size);
        if packed.len() >= 36 && oodle1::refusal(packed, size, endian) is None {
            oodle1::law_decompressed_size(
                packed,
                size,
                sh.first_16bit as nat,
                sh.first_8bit as nat,
                endian,
            );
        }
    }
}

/// The flat buffer holds the sections one after another: each at its start, with its own size.
pub proof fn law_flat_holds_sections(
    data: Seq<u8>,
    headers: Seq<SectionHeader>,
    n: int,
    endian: Endianness,
    i: int,
)
    requires
        flattened(data, headers, n, endian) is Ok,
        0 <= i < n,
    ensures
        flattened(data, headers, n, endian)->Ok_0.len() == section_start(headers, n),
        ({
            let flat = flattened(data, headers, n, endian)->Ok_0;
            let start = section_start(headers, i) as int;
            let size = headers[i].uncompressed_size;
            &&& start + size <= flat.len()
            &&& size > 0 ==> section_bytes(data, headers[i], i as nat, endian) == Ok::<
                Seq<u8>,
                ErrorModel,
            >(flat.subrange(start, start + size))
        }),
    decreases n,
{
    let sh = headers[n - 1];
    let flat = flattened(data, headers, n, endian)->Ok_0;
    let before = flattened(data, headers, n - 1, endian)->Ok_0;
    law_flat_size(data, headers, n - 1, endian);
    law_section_size(data, sh, (n - 1) as nat, endian);
    law_section_starts_in_order(headers, i, n - 1);
    if i < n - 1 {
        law_flat_holds_sections(data, headers, n - 1, endian, i);
        let start = section_start(headers, i) as int;
        let size = headers[i].uncompressed_size;
        assert(flat.subrange(start, start + size) =~= before.subrange(start, start + size));
    } else if sh.uncompressed_size > 0 {
        let bytes = section_bytes(data, sh, (n - 1) as nat, endian)->Ok_0;
        let start = before.len() as int;
        assert(flat.subrange(start, start + sh.uncompressed_size) =~= bytes);
    }
}

/// The flat buffer is as large as all sections together.
pub proof fn law_flat_size(data: Seq<u8>, headers: Seq<SectionHeader>, n: int, endian: Endianness)
    requires
        flattened(data, headers, n, endian) is Ok,
    ensures
        flattened(data, headers, n, endian)->Ok_0.len() == section_start(headers, n),
    decreases n,
{
    if n > 0 {
        law_flat_size(data, headers, n - 1, endian);
        law_section_size(data, headers[n - 1], (n - 1) as nat, endian);
    }
}

proof fn lemma_unrelocated(
    data: Seq<u8>,
    flat: Seq<u8>,
    headers: Seq<SectionHeader>,
    bases: Seq<nat>,
    n: int,
    format: FormatId,
)
    requires
        n <= headers.len(),
        forall|i: int| 0 <= i < headers.len() ==> (#[trigger] headers[i]).num_relocations == 0,
    ensures
        relocated(data, flat, headers, bases, n, format) == Ok::<Seq<u8>, ErrorModel>(flat),
    decreases n,
{
    if n > 0 {
        lemma_unrelocated(data, flat, headers, bases, n - 1, format);
        assert(headers[n - 1].num_relocations == 0);
    }
}

/// Without relocations, a loaded section is what its stored data decompresses to.
pub proof fn law_unrelocated_sections_are_kept(data: Seq<u8>, i: int)
    requires
        parsed(data) is Ok,
        ({
            let headers = section_headers(data, file_format(data).unwrap().endianness);
            &&& 0 <= i < headers.len()
            &&& headers[i].uncompressed_size > 0
            &&& forall|k: int|
                0 <= k < headers.len() ==> (#[trigger] headers[k]).num_relocations == 0
        }),
    ensures
        ({
            let endian = file_format(data).unwrap().endianness;
            let headers = section_headers(data, endian);
            let start = section_start(headers, i) as int;
            section_bytes(data, headers[i], i as nat, endian) == Ok::<Seq<u8>, ErrorModel>(
                parsed(data)->Ok_0.subrange(start, start + headers[i].uncompressed_size),
            )
        }),
{
    let format = file_format(data).unwrap();
    let headers = section_headers(data, format.endianness);
    let n = headers.len() as int;
    let flat = flattened(data, headers, n, format.endianness)->Ok_0;
    lemma_unrelocated(data, flat, headers, section_starts(headers), n, format);
    law_flat_holds_sections(data, headers, n, format.endianness, i);
}

/// Every section of a loaded file lies in its flat buffer.
pub proof fn law_loaded_sections_are_available(f: Gr2File, data: Seq<u8>, i: int)
    requires
        headers_loaded(f, data),
        f.flat@.len() == section_start(
            section_headers(data, f.endianness),
            f.sections@.len() as int,
        ),
        0 <= i < f.sections@.len(),
    ensures
        f.sections@[i].base_address + f.sections@[i].header.uncompressed_size <= f.flat@.len(),
{
    law_section_starts_in_order(
        section_headers(data, f.endianness),
        i,
        f.sections@.len() as int,
    );
}

/// Parsing the same bytes twice gives the same file.
pub proof fn law_parsing_is_deterministic(data: Seq<u8>, a: Gr2File, b: Gr2File)
    requires
        parsed(data) is Ok,
        a.flat@ == parsed(data)->Ok_0,
        b.flat@ == parsed(data)->Ok_0,
        headers_loaded(a, data),
        headers_loaded(b, data),
    ensures
        a.flat@ == b.flat@,
        a.sections@ == b.sections@,
        a.image() == b.image(),
{
    assert forall|i: int| 0 <= i < a.sections@.len() implies a.sections@[i] == b.sections@[i] by {
        assert(a.sections@[i].header == b.sections@[i].header);
        assert(a.sections@[i].base_address == b.sections@[i].base_address);
    }
    assert(a.sections@ =~= b.sections@);
}

// ---------------------------------------------------------------------------
// CRC
// ---------------------------------------------------------------------------

proof fn lemma_flattened_no_crc(
    data: Seq<u8>,
    headers: Seq<SectionHeader>,
    n: int,
    endian: Endianness,
)
    ensures
        flattened(data, headers, n, endian) is Err ==> !(flattened(
            data,
            headers,
            n,
            endian,
        )->Err_0 is CrcMismatch),
    decreases n,
{
    if n > 0 {
        lemma_flattened_no_crc(data, headers, n - 1, endian);
    }
}

proof fn lemma_section_relocated_no_crc(
    flat: Seq<u8>,
    bases: Seq<nat>,
    i: int,
    relocs: Seq<Relocation>,
    k: int,
    format: FormatId,
)
    ensures
        section_relocated(flat, bases, i, relocs, k, format) is Err ==> !(section_relocated(
            flat,
            bases,
            i,
            relocs,
            k,
            format,
        )->Err_0 is CrcMismatch),
    decreases k,
{
    if k > 0 {
        lemma_section_relocated_no_crc(flat, bases, i, relocs, k - 1, format);
    }
}

proof fn lemma_relocated_no_crc(
    data: Seq<u8>,
    flat: Seq<u8>,
    headers: Seq<SectionHeader>,
    bases: Seq<nat>,
    n: int,
    format: FormatId,
)
    ensures
        relocated(data, flat, headers, bases, n, format) is Err ==> !(relocated(
            data,
            flat,
            headers,
            bases,
            n,
            format,
        )->Err_0 is CrcMismatch),
    decreases n,
{
    if n > 0 {
        lemma_relocated_no_crc(data, flat, headers, bases, n - 1, format);
        let before = relocated(data, flat, headers, bases, n - 1, format);
        let relocs = relocations_of(data, headers[n - 1], (n - 1) as nat, format.endianness);
        if before is Ok && relocs is Ok {
            lemma_section_relocated_no_crc(
                before->Ok_0,
                bases,
                n - 1,
                relocs->Ok_0,
                relocs->Ok_0.len() as int,
                format,
            );
        }
    }
}

/// Parsing does not check the CRC: no file is refused for it.
pub proof fn law_parsing_ignores_crc(data: Seq<u8>)
    ensures
        parsed(data) is Err ==> !(parsed(data)->Err_0 is CrcMismatch),
{
    if header_failure(data) is None {
        let format = file_format(data).unwrap();
        let headers = section_headers(data, format.endianness);
        let n = headers.len() as int;
        lemma_flattened_no_crc(data, headers, n, format.endianness);
        let flat = flattened(data, headers, n, format.endianness);
        if flat is Ok {
            lemma_relocated_no_crc(data, flat->Ok_0, headers, section_starts(headers), n, format);
        }
    }
}

/// Two files that are the same but for the CRC that they store.
pub open spec fn same_but_crc(a: Seq<u8>, b: Seq<u8>) -> bool {
    &&& a.len() == b.len()
    &&& forall|i: int| 0 <= i < a.len() && !(0x28 <= i < 0x2C) ==> #[trigger] a[i] == b[i]
}

/// No section header, section or relocation table reaches back to the stored CRC.
pub open spec fn leaves_crc_alone(data: Seq<u8>) -> bool {
    let endian = file_format(data).unwrap().endianness;
    let headers = section_headers(data, endian);
    &&& section_table(data, endian) >= 0x2C
    &&& forall|i: int|
        0 <= i < headers.len() ==> (#[trigger] headers[i]).offset_in_file >= 0x2C
            && headers[i].relocations_offset >= 0x2C
}

proof fn lemma_same_section_bytes(
    a: Seq<u8>,
    b: Seq<u8>,
    sh: SectionHeader,
    i: nat,
    endian: Endianness,
)
    requires
        same_but_crc(a, b),
        sh.offset_in_file >= 0x2C,
    ensures
        section_bytes(a, sh, i, endian) == section_bytes(b, sh, i, endian),
{
    let start = sh.offset_in_file as int;
    let plain_end = start + sh.uncompressed_size;
    let packed_end = start + sh.compressed_size;
    if plain_end <= a.len() {
        assert(a.subrange(start, plain_end) =~= b.subrange(start, plain_end));
    }
    if packed_end <= a.len() {
        assert(a.subrange(start, packed_end) =~= b.subrange(start, packed_end));
    }
}

proof fn lemma_same_relocations(
    a: Seq<u8>,
    b: Seq<u8>,
    sh: SectionHeader,
    i: nat,
    endian: Endianness,
)
    requires
        same_but_crc(a, b),
        sh.relocations_offset >= 0x2C,
    ensures
        relocations_of(a, sh, i, endian) == relocations_of(b, sh, i, endian),
{
    let start = sh.relocations_offset as int;
    let count = sh.num_relocations as nat;
    if start + 4 <= a.len() {
        let end = start + 4 + u32_at(a, start, endian);
        assert(u32_at(a, start, endian) == u32_at(b, start, endian));
        if end <= a.len() {
            assert(a.subrange(start + 4, end) =~= b.subrange(start + 4, end));
        }
    }
    if start + 12 * count <= a.len() {
        assert(relocation_table(a, start, count, endian) =~= relocation_table(
            b,
            start,
            count,
            endian,
        ));
    }
}

proof fn lemma_same_flattened(
    a: Seq<u8>,
    b: Seq<u8>,
    headers: Seq<SectionHeader>,
    n: int,
    endian: Endianness,
)
    requires
        same_but_crc(a, b),
        n <= headers.len(),
        forall|i: int| 0 <= i < headers.len() ==> (#[trigger] headers[i]).offset_in_file >= 0x2C,
    ensures
        flattened(a, headers, n, endian) == flattened(b, headers, n, endian),
    decreases n,
{
    if n > 0 {
        lemma_same_flattened(a, b, headers, n - 1, endian);
        lemma_same_section_bytes(a, b, headers[n - 1], (n - 1) as nat, endian);
    }
}

proof fn lemma_same_relocated(
    a: Seq<u8>,
    b: Seq<u8>,
    flat: Seq<u8>,
    headers: Seq<SectionHeader>,
    bases: Seq<nat>,
    n: int,
    format: FormatId,
)
    requires
        same_but_crc(a, b),
        n <= headers.len(),
        forall|i: int|
            0 <= i < headers.len() ==> (#[trigger] headers[i]).relocations_offset >= 0x2C,
    ensures
        relocated(a, flat, headers, bases, n, format) == relocated(
            b,
            flat,
            headers,
            bases,
            n,
            format,
        ),
    decreases n,
{
    if n > 0 {
        lemma_same_relocated(a, b, flat, headers, bases, n - 1, format);
        lemma_same_relocations(a, b, headers[n - 1], (n - 1) as nat, format.endianness);
    }
}

/// The stored CRC does not matter for parsing: files that differ in nothing else are both refused
/// in the same way, or load with the same flat buffer.
pub proof fn law_stored_crc_does_not_matter(a: Seq<u8>, b: Seq<u8>)
    requires
        same_but_crc(a, b),
        header_failure(a) is None ==> leaves_crc_alone(a),
    ensures
        parsed(a) == parsed(b),
{
    if a.len() >= 16 {
        assert(a.take(16) =~= b.take(16));
    }
    if header_failure(a) is None {
        let format = file_format(a).unwrap();
        let endian = format.endianness;
        let headers = section_headers(a, endian);
        let n = headers.len() as int;
        assert(u32_at(a, 0x30, endian) == u32_at(b, 0x30, endian));
        assert(section_table(a, endian) == section_table(b, endian));
        assert forall|i: int| 0 <= i < n implies headers[i] == #[trigger] section_headers(
            b,
            endian,
        )[i] by {
            let off = section_table(a, endian) + 44 * i;
            assert(0x2C <= off && off + 44 <= a.len());
        }
        assert(headers =~= section_headers(b, endian));
        lemma_same_flattened(a, b, headers, n, endian);
        let flat = flattened(a, headers, n, endian);
        if flat is Ok {
            lemma_same_relocated(a, b, flat->Ok_0, headers, section_starts(headers), n, format);
        }
    }
}

/// The CRC of a file, as its header would have to store it.
pub open spec fn file_crc(data: Seq<u8>, endian: Endianness) -> u32 {
    crc32_of(covered_bytes(data, u32_at(data, 0x20, endian), u32_at(data, 0x24, endian)))
}

/// A file whose header stores the CRC of its contents passes the check: the stored number is not
/// among the bytes that it covers.
pub proof fn law_stored_crc_passes(data: Seq<u8>)
    requires
        data.len() >= MIN_FILE_SIZE,
        file_format(data) is Some,
    ensures
        ({
            let endian = file_format(data).unwrap().endianness;
            crc_failure(with_bytes(data, 0x28, u32_bytes(file_crc(data, endian), endian))) is None
        }),
{
    let endian = file_format(data).unwrap().endianness;
    let crc = file_crc(data, endian);
    let stored = with_bytes(data, 0x28, u32_bytes(crc, endian));
    law_u32_reads_back(data, 0x28, crc, endian);
    assert(stored.take(16) =~= data.take(16));
    let version = u32_at(data, 0x20, endian);
    let size = u32_at(data, 0x24, endian);
    assert(u32_at(stored, 0x20, endian) == version);
    assert(u32_at(stored, 0x24, endian) == size);
    assert(covered_bytes(stored, version, size) =~= covered_bytes(data, version, size));
}

// ---------------------------------------------------------------------------
// Reading
// ---------------------------------------------------------------------------

/// At the largest offset there is nothing to read, so an offset that stops there reads nothing.
pub proof fn law_nothing_at_the_largest_offset(image: Image)
    requires
        image.flat.len() <= usize::MAX,
    ensures
        image.u8_at(usize::MAX as int) is None,
        image.u16_at(usize::MAX as int) is None,
        image.u32_at(usize::MAX as int) is None,
        image.u64_at(usize::MAX as int) is None,
        image.ptr_at(usize::MAX as int) is None,
        image.string_at(usize::MAX as int) is None,
{
}

/// A pointer that is read is never null and never leads out of the buffer.
pub proof fn law_pointers_lead_into_the_buffer(image: Image, off: int)
    ensures
        image.ptr_at(off) matches Some(p) ==> 0 < p < image.flat.len(),
{
}

/// The members of a struct definition stand one behind another.
pub proof fn law_members_in_order(image: Image, off: int, i: int)
    requires
        image.struct_at(off) is Ok,
        0 <= i < image.struct_at(off)->Ok_0.len(),
    ensures
        image.member_at(off + i * image.member_size()) == Ok::<MemberModel, ErrorModel>(
            image.struct_at(off)->Ok_0[i],
        ),
    decreases i,
{
    if i > 0 {
        let next = off + image.member_size();
        law_members_in_order(image, next, i - 1);
        let size = image.member_size();
        assert(next + (i - 1) * size == off + i * size) by (nonlinear_arith)
            requires
                next == off + size,
        ;
    }
}

// ---------------------------------------------------------------------------
// Extraction
// ---------------------------------------------------------------------------

proof fn lemma_prefix_fields_match(
    image: Image,
    members: Seq<MemberModel>,
    k: int,
    off: int,
    depth: int,
)
    requires
        depth <= MAX_EXTRACT_DEPTH,
        0 <= k <= members.len(),
        image.prefix_fields(members, k, off, depth) is Ok,
    ensures
        ({
            let fields = image.prefix_fields(members, k, off, depth)->Ok_0.0;
            &&& fields.len() == k
            &&& forall|i: int|
                0 <= i < k ==> (#[trigger] fields[i]).name == members[i].name
                    && fields[i].member_type == members[i].member_type
        }),
    decreases k,
{
    if k > 0 {
        lemma_prefix_fields_match(image, members, k - 1, off, depth);
    }
}

/// Extraction yields one field for each member of the struct definition, in order, under its name
/// and with its type.
pub proof fn law_fields_match_members(image: Image, type_off: int, off: int, depth: int)
    requires
        image.extracted(type_off, off, depth) is Ok,
    ensures
        image.struct_at(type_off) is Ok,
        ({
            let members = image.struct_at(type_off)->Ok_0;
            let fields = image.extracted(type_off, off, depth)->Ok_0;
            &&& fields.len() == members.len()
            &&& forall|i: int|
                0 <= i < members.len() ==> (#[trigger] fields[i]).name == members[i].name
                    && fields[i].member_type == members[i].member_type
        }),
{
    let members = image.struct_at(type_off)->Ok_0;
    lemma_prefix_fields_match(image, members, members.len() as int, off, depth);
}

/// Extraction moves on by the size of what it has read: the fields of a struct take up exactly
/// the size that is computed for it.
pub proof fn law_fields_span_size(
    image: Image,
    members: Seq<MemberModel>,
    k: int,
    off: int,
    depth: int,
)
    requires
        depth <= MAX_EXTRACT_DEPTH,
        0 <= k <= members.len(),
        0 <= off <= usize::MAX,
        image.prefix_fields(members, k, off, depth) is Ok,
    ensures
        image.prefix_size(members, k, depth) is Ok,
        image.prefix_fields(members, k, off, depth)->Ok_0.1 == clamped(
            off + image.prefix_size(members, k, depth)->Ok_0,
        ),
        image.prefix_size(members, k, depth)->Ok_0 >= 0,
    decreases k,
{
    if k > 0 {
        law_fields_span_size(image, members, k - 1, off, depth);
        let m = members[k - 1];
        let size = image.element_size(m, depth)->Ok_0;
        lemma_element_size_nonnegative(image, m, depth);
        assert(size * m.count() >= 0) by (nonlinear_arith)
            requires
                size >= 0,
                m.count() >= 0,
        ;
    }
}

proof fn lemma_element_size_nonnegative(image: Image, m: MemberModel, depth: int)
    requires
        depth <= MAX_EXTRACT_DEPTH,
        image.element_size(m, depth) is Ok,
    ensures
        image.element_size(m, depth)->Ok_0 >= 0,
    decreases MAX_EXTRACT_DEPTH + 1 - depth, 0int,
{
    if m.member_type == MemberType::Inline && m.children_ptr > 0 && depth < MAX_EXTRACT_DEPTH {
        let children = image.struct_at(m.children_ptr as int)->Ok_0;
        lemma_prefix_size_nonnegative(image, children, children.len() as int, depth + 1);
    }
}

proof fn lemma_prefix_size_nonnegative(
    image: Image,
    members: Seq<MemberModel>,
    k: int,
    depth: int,
)
    requires
        depth <= MAX_EXTRACT_DEPTH,
        image.prefix_size(members, k, depth) is Ok,
    ensures
        image.prefix_size(members, k, depth)->Ok_0 >= 0,
    decreases MAX_EXTRACT_DEPTH + 1 - depth, k + 1,
{
    if k > 0 {
        lemma_prefix_size_nonnegative(image, members, k - 1, depth);
        let m = members[k - 1];
        lemma_element_size_nonnegative(image, m, depth);
        let size = image.element_size(m, depth)->Ok_0;
        assert(size * m.count() >= 0) by (nonlinear_arith)
            requires
                size >= 0,
                m.count() >= 0,
        ;
    }
}

/// The value is a number of the given type.
pub open spec fn is_scalar_of(t: MemberType, v: ValueModel) -> bool {
    match t {
        MemberType::Int8 | MemberType::BinormalInt8 => v is Int8,
        MemberType::UInt8 | MemberType::NormalUInt8 => v is UInt8,
        MemberType::Int16 | MemberType::BinormalInt16 => v is Int16,
        MemberType::UInt16 | MemberType::NormalUInt16 => v is UInt16,
        MemberType::Real16 => v is Real16,
        MemberType::Int32 => v is Int32,
        MemberType::UInt32 => v is UInt32,
        MemberType::Real32 => v is Real32,
        _ => false,
    }
}

/// The value is of the kind that the member's type and array size ask for.
pub open spec fn fits_member(m: MemberModel, v: ValueModel) -> bool {
    match m.member_type {
        MemberType::String => v is String,
        MemberType::Reference => v is Reference,
        MemberType::ReferenceToArray => v is ReferenceToArray,
        MemberType::ArrayOfReferences => v is ArrayOfReferences,
        MemberType::VariantReference => v is VariantReference,
        MemberType::ReferenceToVariantArray => v is ReferenceToVariantArray,
        MemberType::Transform => v is Transform,
        MemberType::EmptyReference => v is EmptyReference,
        MemberType::Inline => if m.count() == 1 || m.children_ptr == 0 {
            v is Struct
        } else {
            v matches ValueModel::Array(items) && items.len() == m.count() && forall|i: int|
                0 <= i < items.len() ==> #[trigger] items[i] is Struct
        },
        MemberType::Terminator => true,
        t => if m.count() == 1 {
            is_scalar_of(t, v)
        } else {
            v matches ValueModel::Array(items) && items.len() == m.count() && forall|i: int|
                0 <= i < items.len() ==> is_scalar_of(t, #[trigger] items[i])
        },
    }
}

proof fn lemma_structs_are_structs(
    image: Image,
    type_off: int,
    off: int,
    size: int,
    n: int,
    depth: int,
)
    requires
        n >= 0,
        depth <= MAX_EXTRACT_DEPTH,
        image.structs_at(type_off, off, size, n, depth) is Ok,
    ensures
        image.structs_at(type_off, off, size, n, depth)->Ok_0.len() == n,
        forall|i: int|
            0 <= i < n ==> #[trigger] image.structs_at(type_off, off, size, n, depth)->Ok_0[i]
                is Struct,
    decreases n,
{
    if n > 0 {
        lemma_structs_are_structs(image, type_off, off, size, n - 1, depth);
    }
}

/// An extracted value is of the kind that the type of its member says: a number for a number, an
/// array of exactly as many for an array, a struct for an inline struct.
pub proof fn law_values_fit_their_members(
    image: Image,
    m: MemberModel,
    off: int,
    size: int,
    depth: int,
)
    requires
        depth <= MAX_EXTRACT_DEPTH,
        image.value_at(m, off, size, depth) is Ok,
    ensures
        fits_member(m, image.value_at(m, off, size, depth)->Ok_0),
{
    let v = image.value_at(m, off, size, depth)->Ok_0;
    if m.member_type == MemberType::Inline {
        if m.count() != 1 && m.children_ptr != 0 {
            lemma_structs_are_structs(
                image,
                m.children_ptr as int,
                off,
                size,
                m.count() as int,
                depth,
            );
        }
    } else {
        let t = m.member_type;
        let stride = t.bytes(image.pointer_width);
        assert(image.scalar_at(t, off + stride * 0) == image.scalar_at(t, off));
        if image.scalars_at(t, off, m.count()) == Ok::<ValueModel, ErrorModel>(v) {
            assert forall|i: int| 0 <= i < m.count() implies #[trigger] image.scalar_at(
                t,
                off + stride * i,
            ) is Some by {}
            if m.count() != 1 {
                let items = v->Array_0;
                assert forall|i: int| 0 <= i < items.len() implies is_scalar_of(
                    t,
                    #[trigger] items[i],
                ) by {
                    assert(items[i] == image.scalar_at(t, off + stride * i).unwrap());
                }
            }
        }
    }
}

proof fn lemma_element_count(image: Image, type_off: int, off: int, size: int, n: int)
    requires
        n >= 0,
        image.elements(type_off, off, size, n) is Ok,
    ensures
        image.elements(type_off, off, size, n)->Ok_0.len() == n,
        forall|i: int|
            0 <= i < n ==> image.extracted(type_off, clamped(off + i * size), 0) == Ok::<
                Seq<FieldModel>,
                ErrorModel,
            >(#[trigger] image.elements(type_off, off, size, n)->Ok_0[i]),
    decreases n,
{
    if n > 0 {
        lemma_element_count(image, type_off, off, size, n - 1);
    }
}

/// Resolving an array gives as many elements as it has, each one struct size behind the one
/// before it.
pub proof fn law_arrays_are_complete(image: Image, type_off: int, off: int, count: u32)
    requires
        image.array_at(type_off, off, count) is Ok,
    ensures
        count <= MAX_ARRAY_COUNT,
        image.array_at(type_off, off, count)->Ok_0.len() == count,
        image.struct_size(type_off) is Ok,
        forall|i: int|
            0 <= i < count ==> image.extracted(
                type_off,
                clamped(off + i * image.struct_size(type_off)->Ok_0),
                0,
            ) == Ok::<Seq<FieldModel>, ErrorModel>(
                #[trigger] image.array_at(type_off, off, count)->Ok_0[i],
            ),
{
    lemma_element_count(
        image,
        type_off,
        off,
        image.struct_size(type_off)->Ok_0,
        count as int,
    );
}

} // verus!
