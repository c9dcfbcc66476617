//! What relocations do to the flat buffer.
use crate::format::{Endianness, FormatId, PointerWidth, Relocation, SectionHeader};
use crate::reader::image::Image;
use crate::reader::parse::{
    file_format, flattened, parsed, relocated, relocations_of, section_headers, section_relocated,
    section_starts,
};
use crate::reader::pointers::{law_pointer_reads_back, pointer_bytes, with_bytes};
use vstd::prelude::*;

verus! {

/// Where relocation `r` of section `i` writes its pointer.
pub open spec fn place(bases: Seq<nat>, i: int, r: Relocation) -> int {
    bases[i] + r.offset_in_section
}

/// The flat offset that relocation `r` leads to.
pub open spec fn target(bases: Seq<nat>, r: Relocation) -> int {
    bases[r.target_section as int] + r.target_offset
}

/// Pointers of `width` bytes at `a` and `b` have no byte in common.
pub open spec fn apart(a: int, b: int, width: int) -> bool {
    a + width <= b || b + width <= a
}

/// The relocations of section `i`, where they can be read.
pub open spec fn relocations_at(
    data: Seq<u8>,
    headers: Seq<SectionHeader>,
    i: int,
    endian: Endianness,
) -> Seq<Relocation> {
    relocations_of(data, headers[i], i as nat, endian)->Ok_0
}

/// Relocation `r` of section `i` leads to no section, or its pointer does not fit into `size`
/// bytes.
pub open spec fn misplaced(
    bases: Seq<nat>,
    size: nat,
    i: int,
    r: Relocation,
    width: PointerWidth,
) -> bool {
    r.target_section >= bases.len() || place(bases, i, r) + width.bytes() > size
}

/// Relocations rewrite the flat buffer in place.
pub proof fn law_relocations_keep_size(
    flat: Seq<u8>,
    bases: Seq<nat>,
    i: int,
    relocs: Seq<Relocation>,
    k: int,
    format: FormatId,
)
    ensures
        section_relocated(flat, bases, i, relocs, k, format) is Ok ==> section_relocated(
            flat,
            bases,
            i,
            relocs,
            k,
            format,
        )->Ok_0.len() == flat.len(),
    decreases k,
{
    if k > 0 {
        law_relocations_keep_size(flat, bases, i, relocs, k - 1, format);
    }
}

/// Relocating keeps the size of the flat buffer.
pub proof fn law_relocated_size(
    data: Seq<u8>,
    flat: Seq<u8>,
    headers: Seq<SectionHeader>,
    bases: Seq<nat>,
    n: int,
    format: FormatId,
)
    ensures
        relocated(data, flat, headers, bases, n, format) is Ok ==> relocated(
            data,
            flat,
            headers,
            bases,
            n,
            format,
        )->Ok_0.len() == flat.len(),
    decreases n,
{
    if n > 0 {
        law_relocated_size(data, flat, headers, bases, n - 1, format);
        let before = relocated(data, flat, headers, bases, n - 1, format);
        let relocs = relocations_of(data, headers[n - 1], (n - 1) as nat, format.endianness);
        if before is Ok && relocs is Ok {
            law_relocations_keep_size(
                before->Ok_0,
                bases,
                n - 1,
                relocs->Ok_0,
                relocs->Ok_0.len() as int,
                format,
            );
        }
    }
}

// ---------------------------------------------------------------------------
// Failures
// ---------------------------------------------------------------------------
/// The first `k` relocations of a section fail exactly where one of them is misplaced.
pub proof fn law_section_relocation_failures(
    flat: Seq<u8>,
    bases: Seq<nat>,
    i: int,
    relocs: Seq<Relocation>,
    k: int,
    format: FormatId,
)
    ensures
        section_relocated(flat, bases, i, relocs, k, format) is Err <==> exists|j: int|
            0 <= j < k && misplaced(
                bases,
                flat.len(),
                i,
                #[trigger] relocs[j],
                format.pointer_width,
            ),
        section_relocated(flat, bases, i, relocs, k, format) is Err ==> section_relocated(
            flat,
            bases,
            i,
            relocs,
            k,
            format,
        )->Err_0 is InvalidRelocation,
    decreases k,
{
    if k > 0 {
        law_section_relocation_failures(flat, bases, i, relocs, k - 1, format);
        law_relocations_keep_size(flat, bases, i, relocs, k - 1, format);
        if section_relocated(flat, bases, i, relocs, k, format) is Err {
            if section_relocated(flat, bases, i, relocs, k - 1, format) is Ok {
                assert(misplaced(bases, flat.len(), i, relocs[k - 1], format.pointer_width));
            }
        }
    }
}

/// Relocation `j` of section `i` is misplaced.
pub open spec fn misplaced_at(
    data: Seq<u8>,
    headers: Seq<SectionHeader>,
    bases: Seq<nat>,
    size: nat,
    i: int,
    j: int,
    format: FormatId,
) -> bool {
    let relocs = relocations_at(data, headers, i, format.endianness);
    0 <= j < relocs.len() && misplaced(bases, size, i, relocs[j], format.pointer_width)
}

/// Where all relocations can be read, relocating fails exactly where one of them leads to no
/// section or has its pointer past the end of the flat buffer.
pub proof fn law_relocation_failures(
    data: Seq<u8>,
    flat: Seq<u8>,
    headers: Seq<SectionHeader>,
    bases: Seq<nat>,
    n: int,
    format: FormatId,
)
    requires
        forall|i: int|
            0 <= i < n ==> relocations_of(
                data,
                #[trigger] headers[i],
                i as nat,
                format.endianness,
            ) is Ok,
    ensures
        relocated(data, flat, headers, bases, n, format) is Err <==> exists|i: int, j: int|
            0 <= i < n && #[trigger] misplaced_at(data, headers, bases, flat.len(), i, j, format),
        relocated(data, flat, headers, bases, n, format) is Err ==> relocated(
            data,
            flat,
            headers,
            bases,
            n,
            format,
        )->Err_0 is InvalidRelocation,
    decreases n,
{
    if n > 0 {
        law_relocation_failures(data, flat, headers, bases, n - 1, format);
        let before = relocated(data, flat, headers, bases, n - 1, format);
        assert(relocations_of(data, headers[n - 1], (n - 1) as nat, format.endianness) is Ok);
        if before is Ok {
            let f = before->Ok_0;
            let relocs = relocations_at(data, headers, n - 1, format.endianness);
            law_relocated_size(data, flat, headers, bases, n - 1, format);
            law_section_relocation_failures(
                f,
                bases,
                n - 1,
                relocs,
                relocs.len() as int,
                format,
            );
            if relocated(data, flat, headers, bases, n, format) is Err {
                let j = choose|j: int|
                    0 <= j < relocs.len() && misplaced(
                        bases,
                        f.len(),
                        n - 1,
                        #[trigger] relocs[j],
                        format.pointer_width,
                    );
                assert(misplaced_at(data, headers, bases, flat.len(), n - 1, j, format));
            }
            assert forall|i: int, j: int|
                0 <= i < n && #[trigger] misplaced_at(
                    data,
                    headers,
                    bases,
                    flat.len(),
                    i,
                    j,
                    format,
                ) implies relocated(data, flat, headers, bases, n, format) is Err by {
                assert(i == n - 1);
                assert(misplaced(bases, f.len(), n - 1, relocs[j], format.pointer_width));
            }
        }
    }
}

proof fn lemma_relocated_prefix_ok(
    data: Seq<u8>,
    flat: Seq<u8>,
    headers: Seq<SectionHeader>,
    bases: Seq<nat>,
    a: int,
    n: int,
    format: FormatId,
)
    requires
        a <= n,
        relocated(data, flat, headers, bases, n, format) is Ok,
    ensures
        relocated(data, flat, headers, bases, a, format) is Ok,
    decreases n - a,
{
    if a < n && n > 0 {
        lemma_relocated_prefix_ok(data, flat, headers, bases, a, n - 1, format);
    }
}

proof fn lemma_section_prefix_ok(
    flat: Seq<u8>,
    bases: Seq<nat>,
    i: int,
    relocs: Seq<Relocation>,
    a: int,
    n: int,
    format: FormatId,
)
    requires
        a <= n,
        section_relocated(flat, bases, i, relocs, n, format) is Ok,
    ensures
        section_relocated(flat, bases, i, relocs, a, format) is Ok,
    decreases n - a,
{
    if a < n && n > 0 {
        lemma_section_prefix_ok(flat, bases, i, relocs, a, n - 1, format);
    }
}

// ---------------------------------------------------------------------------
// Bytes
// ---------------------------------------------------------------------------
/// Byte `b` is part of the pointer that relocation `r` of section `i` writes.
pub open spec fn covers(
    bases: Seq<nat>,
    i: int,
    r: Relocation,
    b: int,
    width: PointerWidth,
) -> bool {
    place(bases, i, r) <= b < place(bases, i, r) + width.bytes()
}

proof fn lemma_section_keeps(
    flat: Seq<u8>,
    bases: Seq<nat>,
    i: int,
    relocs: Seq<Relocation>,
    a: int,
    n: int,
    format: FormatId,
    b: int,
)
    requires
        0 <= a <= n <= relocs.len(),
        0 <= b < flat.len(),
        section_relocated(flat, bases, i, relocs, n, format) is Ok,
        forall|k: int|
            a <= k < n ==> !covers(bases, i, #[trigger] relocs[k], b, format.pointer_width),
    ensures
        section_relocated(flat, bases, i, relocs, a, format) is Ok,
        section_relocated(flat, bases, i, relocs, n, format)->Ok_0[b] == section_relocated(
            flat,
            bases,
            i,
            relocs,
            a,
            format,
        )->Ok_0[b],
    decreases n - a,
{
    if a < n {
        law_relocations_keep_size(flat, bases, i, relocs, n - 1, format);
        lemma_section_keeps(flat, bases, i, relocs, a, n - 1, format, b);
        assert(!covers(bases, i, relocs[n - 1], b, format.pointer_width));
    }
}

proof fn lemma_relocated_keeps(
    data: Seq<u8>,
    flat: Seq<u8>,
    headers: Seq<SectionHeader>,
    bases: Seq<nat>,
    a: int,
    n: int,
    format: FormatId,
    b: int,
)
    requires
        0 <= a <= n,
        0 <= b < flat.len(),
        relocated(data, flat, headers, bases, n, format) is Ok,
        forall|i: int, k: int|
            a <= i < n && 0 <= k < relocations_at(data, headers, i, format.endianness).len()
                ==> !covers(
                bases,
                i,
                #[trigger] relocations_at(data, headers, i, format.endianness)[k],
                b,
                format.pointer_width,
            ),
    ensures
        relocated(data, flat, headers, bases, a, format) is Ok,
        relocated(data, flat, headers, bases, n, format)->Ok_0[b] == relocated(
            data,
            flat,
            headers,
            bases,
            a,
            format,
        )->Ok_0[b],
    decreases n,
{
    if a < n {
        lemma_relocated_keeps(data, flat, headers, bases, a, n - 1, format, b);
        law_relocated_size(data, flat, headers, bases, n - 1, format);
        let f = relocated(data, flat, headers, bases, n - 1, format)->Ok_0;
        let relocs = relocations_at(data, headers, n - 1, format.endianness);
        assert forall|k: int| 0 <= k < relocs.len() implies !covers(
            bases,
            n - 1,
            #[trigger] relocs[k],
            b,
            format.pointer_width,
        ) by {
            assert(relocs[k] == relocations_at(data, headers, n - 1, format.endianness)[k]);
        }
        lemma_section_keeps(f, bases, n - 1, relocs, 0, relocs.len() as int, format, b);
    }
}

/// Relocating changes no byte but those of the pointers that the relocations write.
pub proof fn law_relocations_keep_other_bytes(
    data: Seq<u8>,
    flat: Seq<u8>,
    headers: Seq<SectionHeader>,
    bases: Seq<nat>,
    n: int,
    format: FormatId,
    b: int,
)
    requires
        0 <= n,
        0 <= b < flat.len(),
        relocated(data, flat, headers, bases, n, format) is Ok,
        forall|i: int, k: int|
            0 <= i < n && 0 <= k < relocations_at(data, headers, i, format.endianness).len()
                ==> !covers(
                bases,
                i,
                #[trigger] relocations_at(data, headers, i, format.endianness)[k],
                b,
                format.pointer_width,
            ),
    ensures
        relocated(data, flat, headers, bases, n, format)->Ok_0[b] == flat[b],
{
    lemma_relocated_keeps(data, flat, headers, bases, 0, n, format, b);
}

/// No relocation that comes after relocation `k` of section `i` writes to the same bytes.
pub open spec fn stays(
    data: Seq<u8>,
    headers: Seq<SectionHeader>,
    bases: Seq<nat>,
    n: int,
    i: int,
    k: int,
    format: FormatId,
) -> bool {
    forall|j: int, l: int|
        i <= j < n && 0 <= l < relocations_at(data, headers, j, format.endianness).len() && (i < j
            || k < l) ==> apart(
            place(bases, j, #[trigger] relocations_at(data, headers, j, format.endianness)[l]),
            place(bases, i, relocations_at(data, headers, i, format.endianness)[k]),
            format.pointer_width.bytes() as int,
        )
}

proof fn lemma_pointer_length(value: u64, endian: Endianness, width: PointerWidth)
    ensures
        pointer_bytes(value, endian, width).len() == width.bytes(),
{
}

proof fn lemma_bytes_stay(s: Seq<u8>, at: int, bytes: Seq<u8>, last: Seq<u8>)
    requires
        0 <= at,
        at + bytes.len() <= s.len(),
        last.len() == s.len(),
        forall|b: int|
            at <= b < at + bytes.len() ==> #[trigger] last[b] == with_bytes(s, at, bytes)[b],
    ensures
        last.subrange(at, at + bytes.len()) == bytes,
{
    assert(last.subrange(at, at + bytes.len()) =~= bytes);
}

proof fn lemma_bytes_held(s: Seq<u8>, at: int, bytes: Seq<u8>)
    requires
        0 <= at,
        at + bytes.len() <= s.len(),
        s.subrange(at, at + bytes.len()) == bytes,
    ensures
        s == with_bytes(s, at, bytes),
{
    assert forall|b: int| 0 <= b < s.len() implies s[b] == #[trigger] with_bytes(
        s,
        at,
        bytes,
    )[b] by {
        if at <= b < at + bytes.len() {
            assert(s.subrange(at, at + bytes.len())[b - at] == s[b]);
        }
    }
    assert(s =~= with_bytes(s, at, bytes));
}

/// After relocating, a relocation that no later one overwrites has the flat offset of its target
/// at its place, as a pointer.
pub proof fn law_relocations_write_targets(
    data: Seq<u8>,
    flat: Seq<u8>,
    headers: Seq<SectionHeader>,
    bases: Seq<nat>,
    n: int,
    format: FormatId,
    i: int,
    k: int,
)
    requires
        relocated(data, flat, headers, bases, n, format) is Ok,
        0 <= i < n,
        0 <= k < relocations_at(data, headers, i, format.endianness).len(),
        stays(data, headers, bases, n, i, k, format),
    ensures
        ({
            let r = relocations_at(data, headers, i, format.endianness)[k];
            let at = place(bases, i, r);
            let width = format.pointer_width.bytes();
            &&& r.target_section < bases.len()
            &&& at + width <= flat.len()
            &&& relocated(data, flat, headers, bases, n, format)->Ok_0.subrange(at, at + width)
                == pointer_bytes(
                target(bases, r) as u64,
                format.endianness,
                format.pointer_width,
            )
        }),
{
    let relocs = relocations_at(data, headers, i, format.endianness);
    let r = relocs[k];
    let m = relocs.len() as int;
    let at = place(bases, i, r);
    let width = format.pointer_width.bytes() as int;
    let last = relocated(data, flat, headers, bases, n, format)->Ok_0;
    let bytes = pointer_bytes(
        target(bases, r) as u64,
        format.endianness,
        format.pointer_width,
    );
    lemma_relocated_prefix_ok(data, flat, headers, bases, i + 1, n, format);
    lemma_relocated_prefix_ok(data, flat, headers, bases, i, i + 1, format);
    let f = relocated(data, flat, headers, bases, i, format)->Ok_0;
    law_relocated_size(data, flat, headers, bases, i, format);
    law_relocated_size(data, flat, headers, bases, n, format);
    lemma_section_prefix_ok(f, bases, i, relocs, k + 1, m, format);
    lemma_section_prefix_ok(f, bases, i, relocs, k, k + 1, format);
    law_relocations_keep_size(f, bases, i, relocs, k, format);
    let g = section_relocated(f, bases, i, relocs, k, format)->Ok_0;
    let h = section_relocated(f, bases, i, relocs, k + 1, format)->Ok_0;
    assert(h == with_bytes(g, at, bytes));
    assert forall|b: int| at <= b < at + width implies #[trigger] last[b] == h[b] by {
        assert forall|l: int| k + 1 <= l < m implies !covers(
            bases,
            i,
            #[trigger] relocs[l],
            b,
            format.pointer_width,
        ) by {
            assert(relocs[l] == relocations_at(data, headers, i, format.endianness)[l]);
        }
        lemma_section_keeps(f, bases, i, relocs, k + 1, m, format, b);
        lemma_relocated_keeps(data, flat, headers, bases, i + 1, n, format, b);
    }
    lemma_pointer_length(target(bases, r) as u64, format.endianness, format.pointer_width);
    lemma_bytes_stay(g, at, bytes, last);
}

proof fn lemma_pointer_held(image: Image, at: int, value: u64)
    requires
        0 <= at,
        at + image.pointer_width.bytes() <= image.flat.len(),
        image.flat.subrange(at, at + image.pointer_width.bytes()) == pointer_bytes(
            value,
            image.endianness,
            image.pointer_width,
        ),
        0 < value < image.flat.len(),
        value <= usize::MAX,
        image.pointer_width == PointerWidth::P64 || value < 0x1_0000_0000,
    ensures
        image.ptr_at(at) == Some(value as usize),
{
    lemma_pointer_length(value, image.endianness, image.pointer_width);
    lemma_bytes_held(
        image.flat,
        at,
        pointer_bytes(value, image.endianness, image.pointer_width),
    );
    law_pointer_reads_back(image.flat, at, value, image.endianness, image.pointer_width);
}

/// In a loaded file every relocation that no later one overwrites leads to its target: reading the
/// pointer at its place gives the flat offset of the target, where that lies in the buffer and
/// fits the pointer.
pub proof fn law_loaded_relocations_resolve(data: Seq<u8>, i: int, k: int)
    requires
        parsed(data) is Ok,
        ({
            let format = file_format(data).unwrap();
            let headers = section_headers(data, format.endianness);
            let bases = section_starts(headers);
            &&& 0 <= i < headers.len()
            &&& 0 <= k < relocations_at(data, headers, i, format.endianness).len()
            &&& stays(data, headers, bases, headers.len() as int, i, k, format)
        }),
    ensures
        ({
            let format = file_format(data).unwrap();
            let headers = section_headers(data, format.endianness);
            let bases = section_starts(headers);
            let r = relocations_at(data, headers, i, format.endianness)[k];
            let t = target(bases, r);
            let image = Image {
                flat: parsed(data)->Ok_0,
                endianness: format.endianness,
                pointer_width: format.pointer_width,
            };
            0 < t < image.flat.len() && t <= usize::MAX && (format.pointer_width
                == PointerWidth::P64 || t < 0x1_0000_0000) ==> image.ptr_at(place(bases, i, r))
                == Some(t as usize)
        }),
{
    let format = file_format(data).unwrap();
    let headers = section_headers(data, format.endianness);
    let bases = section_starts(headers);
    let n = headers.len() as int;
    let flat = flattened(data, headers, n, format.endianness)->Ok_0;
    let r = relocations_at(data, headers, i, format.endianness)[k];
    let at = place(bases, i, r);
    let t = target(bases, r) as u64;
    let last = parsed(data)->Ok_0;
    let image = Image {
        flat: last,
        endianness: format.endianness,
        pointer_width: format.pointer_width,
    };
    law_relocations_write_targets(data, flat, headers, bases, n, format, i, k);
    law_relocated_size(data, flat, headers, bases, n, format);
    if 0 < target(bases, r) < last.len() && target(bases, r) <= usize::MAX && (
    format.pointer_width == PointerWidth::P64 || target(bases, r) < 0x1_0000_0000) {
        lemma_pointer_held(image, at, t);
    }
}

} // verus!
