//! What a single relocation does, and how relocations follow each other.
use crate::format::{FormatId, Relocation, SectionHeader};
use crate::positional::{law_reads_are_positional, number_at};
use crate::reader::parse::{relocated, relocations_of, section_relocated};
use crate::reader::pointers::law_pointer_reads_back;
use crate::reader::ErrorModel;
use vstd::prelude::*;

verus! {

/// The next relocation of section `i` writes a pointer at its offset behind the start of that
/// section. The number there is its target offset behind the start of its target section; a
/// pointer of four bytes keeps the low thirty-two bits of it. No other byte changes. It is refused
/// exactly where there is no such target section or the pointer does not fit into the buffer.
pub proof fn law_next_relocation(
    flat: Seq<u8>,
    bases: Seq<nat>,
    i: int,
    relocs: Seq<Relocation>,
    k: int,
    format: FormatId,
)
    requires
        0 <= i < bases.len(),
        0 <= k < relocs.len(),
        section_relocated(flat, bases, i, relocs, k, format) is Ok,
    ensures
        ({
            let before = section_relocated(flat, bases, i, relocs, k, format)->Ok_0;
            let after = section_relocated(flat, bases, i, relocs, k + 1, format);
            let n: int = if format.pointer_width is P32 {
                4
            } else {
                8
            };
            let r = relocs[k];
            let at = bases[i] + r.offset_in_section;
            &&& after is Err <==> r.target_section >= bases.len() || at + n > before.len()
            &&& after matches Ok(s) ==> {
                let target = bases[r.target_section as int] + r.target_offset;
                &&& s.len() == before.len()
                &&& forall|b: int|
                    0 <= b < s.len() && !(at <= b < at + n) ==> (#[trigger] s[b]) == before[b]
                &&& n == 8 && target <= u64::MAX ==> number_at(s, at, n, format.endianness)
                    == target
                &&& n == 4 && target <= u64::MAX ==> number_at(s, at, n, format.endianness)
                    == target % 0x1_0000_0000
            }
        }),
{
    let before = section_relocated(flat, bases, i, relocs, k, format)->Ok_0;
    let after = section_relocated(flat, bases, i, relocs, k + 1, format);
    let r = relocs[k];
    let at = bases[i] + r.offset_in_section;
    if after is Ok {
        let target = bases[r.target_section as int] + r.target_offset;
        law_pointer_reads_back(
            before,
            at,
            target as u64,
            format.endianness,
            format.pointer_width,
        );
        law_reads_are_positional(after->Ok_0, at, format.endianness);
    }
}

/// Sections are relocated in their order, each by all of its relocations, on top of what the
/// sections before it left. One whose relocations cannot be read ends it.
pub proof fn law_sections_are_relocated_in_order(
    data: Seq<u8>,
    flat: Seq<u8>,
    headers: Seq<SectionHeader>,
    bases: Seq<nat>,
    n: nat,
    format: FormatId,
)
    ensures
        relocated(data, flat, headers, bases, 0, format) == Ok::<
            Seq<u8>,
            ErrorModel,
        >(flat),
        relocated(data, flat, headers, bases, n as int, format) matches Ok(f) ==> {
            let after = relocated(data, flat, headers, bases, n + 1int, format);
            match relocations_of(data, headers[n as int], n, format.endianness) {
                Err(e) => after == Err::<Seq<u8>, ErrorModel>(e),
                Ok(relocs) => after == section_relocated(
                    f,
                    bases,
                    n as int,
                    relocs,
                    relocs.len() as int,
                    format,
                ),
            }
        },
{
}

} // verus!
