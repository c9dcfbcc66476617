//! Where the values of a struct stand, and what their bytes mean.
use crate::element::ValueModel;
use crate::format::{member_type_of, MemberType};
use crate::positional::{law_reads_are_positional, number_at};
use crate::reader::access::clamped;
use crate::reader::image::{text_end, Image, MemberModel};
use crate::reader::ErrorModel;
use vstd::prelude::*;
use vstd::utf8::{
    encode_utf8, encode_utf8_decode_utf8, encode_utf8_valid_utf8, valid_utf8,
};

verus! {

// ---------------------------------------------------------------------------
// Numbers, pointers, strings
// ---------------------------------------------------------------------------
/// The bytes in a pointer.
pub open spec fn pointer_size(image: Image) -> int {
    if image.pointer_width is P32 {
        4
    } else {
        8
    }
}

/// The number in the `n` bytes at `off` of the flat buffer.
pub open spec fn flat_number(image: Image, off: int, n: int) -> nat {
    number_at(image.flat, off, n, image.endianness)
}

/// The `n` bytes at `off` lie in the flat buffer.
pub open spec fn inside(image: Image, off: int, n: int) -> bool {
    0 <= off && off + n <= image.flat.len()
}

/// Numbers are read where all their bytes lie in the buffer, in the byte order of the file.
pub proof fn law_number_reads(image: Image, off: int)
    ensures
        image.u8_at(off) is Some <==> inside(image, off, 1),
        image.i8_at(off) is Some <==> inside(image, off, 1),
        image.u16_at(off) is Some <==> inside(image, off, 2),
        image.i16_at(off) is Some <==> inside(image, off, 2),
        image.u32_at(off) is Some <==> inside(image, off, 4),
        image.i32_at(off) is Some <==> inside(image, off, 4),
        image.f32_at(off) is Some <==> inside(image, off, 4),
        image.u64_at(off) is Some <==> inside(image, off, 8),
        image.u8_at(off) matches Some(v) ==> v == image.flat[off],
        image.i8_at(off) matches Some(v) ==> (v - image.flat[off]) % 0x100 == 0,
        image.u16_at(off) matches Some(v) ==> v == flat_number(image, off, 2),
        image.i16_at(off) matches Some(v) ==> (v - flat_number(image, off, 2)) % 0x1_0000 == 0,
        image.u32_at(off) matches Some(v) ==> v == flat_number(image, off, 4),
        image.i32_at(off) matches Some(v) ==> (v - flat_number(image, off, 4)) % 0x1_0000_0000
            == 0,
        image.f32_at(off) matches Some(v) ==> v.bits == flat_number(image, off, 4),
        image.u64_at(off) matches Some(v) ==> v == flat_number(image, off, 8),
{
    if 0 <= off {
        law_reads_are_positional(image.flat, off, image.endianness);
    }
}

/// A pointer of the file fits the addresses of the machine.
pub open spec fn addressable(image: Image) -> bool {
    image.flat.len() <= usize::MAX && (image.pointer_width is P32 || usize::MAX
        == 0xFFFF_FFFF_FFFF_FFFF)
}

/// Where the pointer at `off` leads: its bytes lie in the buffer, and the number in them is not
/// zero and less than the size of the buffer.
pub open spec fn lead(image: Image, off: int) -> Option<usize> {
    let n = flat_number(image, off, pointer_size(image));
    if inside(image, off, pointer_size(image)) && 0 < n < image.flat.len() {
        Some(n as usize)
    } else {
        None
    }
}

/// A pointer is read as the number in its four or eight bytes.
pub proof fn law_pointer_reads(image: Image, off: int)
    requires
        addressable(image),
    ensures
        image.ptr_at(off) == lead(image, off),
        inside(image, off, pointer_size(image)) ==> image.raw_pointer(off) == flat_number(
            image,
            off,
            pointer_size(image),
        ),
{
    if 0 <= off {
        law_reads_are_positional(image.flat, off, image.endianness);
    }
}

proof fn lemma_text_end(flat: Seq<u8>, start: int, end: int)
    requires
        0 <= start <= end <= flat.len(),
        forall|i: int| start <= i < end ==> #[trigger] flat[i] != 0,
        end < flat.len() ==> flat[end] == 0,
    ensures
        text_end(flat, start) == end,
    decreases end - start,
{
    if start < end {
        assert(flat[start] != 0);
        lemma_text_end(flat, start + 1, end);
    }
}

/// Text that stands in the buffer in UTF-8, without a zero byte in it and with one behind it, or
/// with the end of the buffer, is read back.
pub proof fn law_text_is_read_back(image: Image, off: int, text: Seq<char>)
    requires
        0 < off < image.flat.len(),
        off + encode_utf8(text).len() <= image.flat.len(),
        image.flat.subrange(off, off + encode_utf8(text).len()) == encode_utf8(text),
        forall|i: int| 0 <= i < encode_utf8(text).len() ==> #[trigger] encode_utf8(text)[i] != 0,
        off + encode_utf8(text).len() < image.flat.len() ==> image.flat[off + encode_utf8(
            text,
        ).len()] == 0,
    ensures
        image.string_at(off) == Some(text),
{
    let bytes = encode_utf8(text);
    let end = off + bytes.len();
    assert forall|i: int| off <= i < end implies #[trigger] image.flat[i] != 0 by {
        assert(image.flat.subrange(off, end)[i - off] == bytes[i - off]);
    }
    lemma_text_end(image.flat, off, end);
    encode_utf8_valid_utf8(text);
    encode_utf8_decode_utf8(text);
}

/// There is no text at the null offset, past the end, and where the bytes up to the next zero are
/// not UTF-8.
pub proof fn law_what_is_no_text(image: Image, off: int, end: int)
    ensures
        off <= 0 ==> image.string_at(off) is None,
        off >= image.flat.len() ==> image.string_at(off) is None,
        0 < off <= end <= image.flat.len() && (forall|i: int|
            off <= i < end ==> #[trigger] image.flat[i] != 0) && (end < image.flat.len()
            ==> image.flat[end] == 0) && !valid_utf8(image.flat.subrange(off, end))
            ==> image.string_at(off) is None,
{
    if 0 < off <= end <= image.flat.len() && (forall|i: int|
        off <= i < end ==> #[trigger] image.flat[i] != 0) && (end < image.flat.len()
        ==> image.flat[end] == 0) {
        lemma_text_end(image.flat, off, end);
    }
}

// ---------------------------------------------------------------------------
// Struct definitions
// ---------------------------------------------------------------------------
/// The bytes in a member definition: five numbers and three pointers with short pointers; the same
/// numbers and pointers with long ones.
pub open spec fn record_size(image: Image) -> int {
    if image.pointer_width is P32 {
        32
    } else {
        44
    }
}

/// A member definition starts with the type code, the pointer to the name, the pointer to the
/// definition of the member's own struct, and the array size.
pub proof fn law_member_records(image: Image, off: int)
    requires
        addressable(image),
    ensures
        !inside(image, off, record_size(image)) ==> image.member_at(off) is Err
            && image.member_at(off)->Err_0 is InvalidType,
        inside(image, off, record_size(image)) ==> {
            let p = pointer_size(image);
            let code = flat_number(image, off, 4);
            let name = flat_number(image, off + 4, p);
            let t = member_type_of(code as u32);
            let r = image.member_at(off);
            &&& t is None ==> r is Err && r->Err_0 is InvalidType
            &&& t is Some ==> r is Ok && r->Ok_0.member_type == t->Some_0
            &&& r matches Ok(m) ==> {
                &&& m.children_ptr == flat_number(image, off + 4 + p, p)
                &&& m.array_size == flat_number(image, off + 4 + p + p, 4)
                &&& name == 0 || name >= image.flat.len() ==> m.name == ""@
                &&& 0 < name < image.flat.len() ==> m.name == match image.string_at(name as int) {
                    Some(s) => s,
                    None => "<invalid>"@,
                }
            }
        },
{
    if inside(image, off, record_size(image)) {
        let p = pointer_size(image);
        law_reads_are_positional(image.flat, off, image.endianness);
        law_reads_are_positional(image.flat, off + 4 + p + p, image.endianness);
        law_pointer_reads(image, off + 4);
        law_pointer_reads(image, off + 4 + p);
    }
}

/// A struct definition is a row of member definitions. It ends in front of the first one with the
/// type code zero, or where no whole definition follows.
pub proof fn law_definitions_are_rows(image: Image, off: int, i: int)
    requires
        image.struct_at(off) is Ok,
        0 <= off,
        0 <= i <= image.struct_at(off)->Ok_0.len(),
    ensures
        ({
            let members = image.struct_at(off)->Ok_0;
            let at = off + record_size(image) * i;
            &&& i < members.len() ==> image.member_at(at) == Ok::<MemberModel, ErrorModel>(
                members[i],
            ) && flat_number(image, at, 4) != 0
            &&& i == members.len() ==> !inside(image, at, record_size(image)) || flat_number(
                image,
                at,
                4,
            ) == 0
        }),
    decreases i,
{
    let members = image.struct_at(off)->Ok_0;
    let size = record_size(image);
    if inside(image, off, size) {
        law_reads_are_positional(image.flat, off, image.endianness);
    }
    if i > 0 {
        let rest = image.struct_at(off + size)->Ok_0;
        assert(members =~= seq![members[0]] + rest);
        law_definitions_are_rows(image, off + size, i - 1);
        assert(off + size + size * (i - 1) == off + size * i) by (nonlinear_arith);
    } else {
        assert(size * i == 0) by (nonlinear_arith)
            requires
                i == 0,
        ;
    }
}

/// A struct definition that cannot be read has a member with an unknown type code.
pub proof fn law_unreadable_definitions(image: Image, off: int)
    requires
        image.struct_at(off) is Err,
        addressable(image),
        0 <= off,
    ensures
        exists|i: int|
            0 <= i && inside(image, #[trigger] (off + record_size(image) * i), record_size(image))
                && member_type_of(
                flat_number(image, off + record_size(image) * i, 4) as u32,
            ) is None,
    decreases image.flat.len() - off,
{
    let size = record_size(image);
    law_member_records(image, off);
    if image.member_at(off) is Err {
        let i: int = 0;
        assert(off + size * i == off) by (nonlinear_arith)
            requires
                i == 0,
        ;
        assert(inside(image, off + size * i, size));
    } else {
        law_unreadable_definitions(image, off + size);
        let i = choose|i: int|
            0 <= i && inside(image, #[trigger] (off + size + size * i), size) && member_type_of(
                flat_number(image, off + size + size * i, 4) as u32,
            ) is None;
        assert(off + size + size * i == off + size * (i + 1)) by (nonlinear_arith);
        assert(inside(image, off + size * (i + 1), size));
    }
}

// ---------------------------------------------------------------------------
// Values
// ---------------------------------------------------------------------------
/// The member as a single one.
pub open spec fn single(m: MemberModel) -> MemberModel {
    MemberModel { array_size: 1, ..m }
}

/// A member counts once, unless it is an array of more.
pub proof fn law_member_counts(m: MemberModel)
    ensures
        m.array_size == 0 ==> m.count() == 1,
        m.array_size > 0 ==> m.count() == m.array_size,
{
}

/// A single number is made of the bytes at its place; where they do not all lie in the buffer the
/// data is truncated.
pub proof fn law_single_numbers(image: Image, m: MemberModel, off: int, size: int, depth: int)
    requires
        depth <= 32,
        m.array_size <= 1,
    ensures
        ({
            let r = image.value_at(m, off, size, depth);
            let cut = r == Err::<ValueModel, ErrorModel>(ErrorModel::Truncated);
            match m.member_type {
                MemberType::Int8 | MemberType::BinormalInt8 => if inside(image, off, 1) {
                    r matches Ok(ValueModel::Int8(v)) && (v - image.flat[off]) % 0x100 == 0
                } else {
                    cut
                },
                MemberType::UInt8 | MemberType::NormalUInt8 => if inside(image, off, 1) {
                    r matches Ok(ValueModel::UInt8(v)) && v == image.flat[off]
                } else {
                    cut
                },
                MemberType::Int16 | MemberType::BinormalInt16 => if inside(image, off, 2) {
                    r matches Ok(ValueModel::Int16(v)) && (v - flat_number(image, off, 2))
                        % 0x1_0000 == 0
                } else {
                    cut
                },
                MemberType::UInt16 | MemberType::NormalUInt16 => if inside(image, off, 2) {
                    r matches Ok(ValueModel::UInt16(v)) && v == flat_number(image, off, 2)
                } else {
                    cut
                },
                MemberType::Real16 => if inside(image, off, 2) {
                    r matches Ok(ValueModel::Real16(v)) && v == flat_number(image, off, 2)
                } else {
                    cut
                },
                MemberType::Int32 => if inside(image, off, 4) {
                    r matches Ok(ValueModel::Int32(v)) && (v - flat_number(image, off, 4))
                        % 0x1_0000_0000 == 0
                } else {
                    cut
                },
                MemberType::UInt32 => if inside(image, off, 4) {
                    r matches Ok(ValueModel::UInt32(v)) && v == flat_number(image, off, 4)
                } else {
                    cut
                },
                MemberType::Real32 => if inside(image, off, 4) {
                    r matches Ok(ValueModel::Real32(v)) && v.bits == flat_number(image, off, 4)
                } else {
                    cut
                },
                _ => true,
            }
        }),
{
    law_number_reads(image, off);
    let t = m.member_type;
    let stride = t.bytes(image.pointer_width);
    let zero: int = 0;
    assert(image.scalar_at(t, off + stride * zero) == image.scalar_at(t, off)) by {
        assert(stride * zero == 0) by (nonlinear_arith)
            requires
                zero == 0,
        ;
    }
    if image.scalar_at(t, off) is Some {
        assert forall|i: int| 0 <= i < 1 implies #[trigger] image.scalar_at(t, off + stride * i)
            is Some by {
            assert(i == zero);
        }
    }
}

/// The bytes in a number of type `t`; zero where it is none.
pub open spec fn number_size(t: MemberType) -> int {
    match t {
        MemberType::Int8 => 1,
        MemberType::BinormalInt8 => 1,
        MemberType::UInt8 => 1,
        MemberType::NormalUInt8 => 1,
        MemberType::Int16 => 2,
        MemberType::BinormalInt16 => 2,
        MemberType::UInt16 => 2,
        MemberType::NormalUInt16 => 2,
        MemberType::Real16 => 2,
        MemberType::Int32 => 4,
        MemberType::UInt32 => 4,
        MemberType::Real32 => 4,
        _ => 0,
    }
}

/// An array of numbers is there where all of it lies in the buffer. Its entries are the numbers
/// that stand one behind another, each as it would be read alone.
pub proof fn law_number_arrays(
    image: Image,
    m: MemberModel,
    off: int,
    size: int,
    depth: int,
    i: int,
)
    requires
        depth <= 32,
        0 <= off,
        m.array_size >= 2,
        number_size(m.member_type) > 0,
        0 <= i < m.array_size,
    ensures
        ({
            let r = image.value_at(m, off, size, depth);
            let k = number_size(m.member_type);
            &&& inside(image, off, k * m.array_size) ==> {
                &&& r is Ok
                &&& r->Ok_0 is Array
                &&& r->Ok_0->Array_0.len() == m.array_size
                &&& image.value_at(single(m), off + k * i, size, depth) == Ok::<
                    ValueModel,
                    ErrorModel,
                >(r->Ok_0->Array_0[i])
            }
            &&& !inside(image, off, k * m.array_size) ==> r == Err::<ValueModel, ErrorModel>(
                ErrorModel::Truncated,
            )
        }),
{
    let t = m.member_type;
    let k = number_size(t);
    let n = m.array_size as int;
    assert(t.bytes(image.pointer_width) == k);
    assert forall|j: int| 0 <= j < n implies (#[trigger] image.scalar_at(t, off + k * j) is Some
        <==> off + k * j + k <= image.flat.len()) by {
        assert(k * j >= 0) by (nonlinear_arith)
            requires
                k > 0,
                j >= 0,
        ;
        law_number_reads(image, off + k * j);
    }
    if inside(image, off, k * n) {
        assert forall|j: int| 0 <= j < n implies #[trigger] image.scalar_at(t, off + k * j)
            is Some by {
            assert(k * j + k <= k * n) by (nonlinear_arith)
                requires
                    k > 0,
                    j + 1 <= n,
            ;
        }
        law_single_numbers(image, single(m), off + k * i, size, depth);
        let zero: int = 0;
        assert(off + k * i + k * zero == off + k * i) by (nonlinear_arith)
            requires
                zero == 0,
        ;
        assert(image.scalar_at(t, off + k * i) is Some);
        assert forall|j: int| 0 <= j < 1 implies #[trigger] image.scalar_at(t, off + k * i + k * j)
            is Some by {
            assert(j == zero);
        }
    } else {
        assert(image.scalar_at(t, off + k * (n - 1)) is None) by {
            assert(k * (n - 1) + k == k * n) by (nonlinear_arith);
        }
    }
}

/// Pointers and what stands beside them: a string and a reference are one pointer; an array
/// reference of either kind is a number and a pointer; a variant reference is two pointers; a
/// variant array is a pointer, a number and a pointer. A number that does not lie in the buffer
/// makes the data truncated, a pointer that does not leads nowhere.
pub proof fn law_pointer_values(image: Image, m: MemberModel, off: int, size: int, depth: int)
    requires
        depth <= 32,
        0 <= off,
        addressable(image),
    ensures
        ({
            let r = image.value_at(m, off, size, depth);
            let p = pointer_size(image);
            let cut = r == Err::<ValueModel, ErrorModel>(ErrorModel::Truncated);
            match m.member_type {
                MemberType::Reference => r == Ok::<ValueModel, ErrorModel>(
                    ValueModel::Reference { offset: lead(image, off) },
                ),
                MemberType::String => r matches Ok(ValueModel::String(s)) && s == match lead(
                    image,
                    off,
                ) {
                    Some(at) => image.string_at(at as int),
                    None => None,
                },
                MemberType::ReferenceToArray => if inside(image, off, 4) {
                    r matches Ok(ValueModel::ReferenceToArray { count, offset }) && count
                        == flat_number(image, off, 4) && offset == lead(image, off + 4)
                } else {
                    cut
                },
                MemberType::ArrayOfReferences => if inside(image, off, 4) {
                    r matches Ok(ValueModel::ArrayOfReferences { count, offset }) && count
                        == flat_number(image, off, 4) && offset == lead(image, off + 4)
                } else {
                    cut
                },
                MemberType::VariantReference => {
                    r matches Ok(ValueModel::VariantReference { type_offset, data_offset })
                        && type_offset == lead(image, off) && data_offset == lead(image, off + p)
                },
                MemberType::ReferenceToVariantArray => if inside(image, off + p, 4) {
                    r matches Ok(
                        ValueModel::ReferenceToVariantArray { type_offset, count, data_offset },
                    ) && type_offset == lead(image, off) && count == flat_number(
                        image,
                        off + p,
                        4,
                    ) && data_offset == lead(image, off + p + 4)
                } else {
                    cut
                },
                MemberType::EmptyReference => r == Ok::<ValueModel, ErrorModel>(
                    ValueModel::EmptyReference,
                ),
                _ => true,
            }
        }),
{
    let p = pointer_size(image);
    law_pointer_reads(image, off);
    law_pointer_reads(image, off + 4);
    law_pointer_reads(image, off + p);
    law_pointer_reads(image, off + p + 4);
    law_number_reads(image, off);
    law_number_reads(image, off + p);
}

/// A variant array whose type pointer, count and data pointer are written one after another, and
/// lead into the buffer, is extracted as those three.
pub proof fn law_variant_arrays_are_read_back(
    image: Image,
    m: MemberModel,
    off: int,
    size: int,
    depth: int,
    type_off: usize,
    count: u32,
    data_off: usize,
)
    requires
        depth <= 32,
        addressable(image),
        m.member_type is ReferenceToVariantArray,
        0 < type_off < image.flat.len(),
        0 < data_off < image.flat.len(),
        ({
            let p = pointer_size(image);
            &&& inside(image, off, p + 4 + p)
            &&& flat_number(image, off, p) == type_off
            &&& flat_number(image, off + p, 4) == count
            &&& flat_number(image, off + p + 4, p) == data_off
        }),
    ensures
        image.value_at(m, off, size, depth) == Ok::<ValueModel, ErrorModel>(
            ValueModel::ReferenceToVariantArray {
                type_offset: Some(type_off),
                count,
                data_offset: Some(data_off),
            },
        ),
{
    law_pointer_values(image, m, off, size, depth);
}

/// A transform is seventeen numbers of four bytes: the flags, three of translation, four of
/// rotation and nine of scale and shear.
pub proof fn law_transforms(image: Image, m: MemberModel, off: int, size: int, depth: int, i: int)
    requires
        depth <= 32,
        0 <= off,
        m.member_type is Transform,
    ensures
        ({
            let r = image.value_at(m, off, size, depth);
            &&& !inside(image, off, 68) ==> r == Err::<ValueModel, ErrorModel>(
                ErrorModel::Truncated,
            )
            &&& inside(image, off, 68) ==> {
                &&& r matches Ok(
                    ValueModel::Transform { flags, translation, rotation, scale_shear },
                )
                &&& flags == flat_number(image, off, 4)
                &&& translation.len() == 3 && rotation.len() == 4 && scale_shear.len() == 9
                &&& 0 <= i < 3 ==> translation[i].bits == flat_number(image, off + 4 + 4 * i, 4)
                &&& 0 <= i < 4 ==> rotation[i].bits == flat_number(image, off + 16 + 4 * i, 4)
                &&& 0 <= i < 9 ==> scale_shear[i].bits == flat_number(image, off + 32 + 4 * i, 4)
            }
        }),
{
    law_number_reads(image, off);
    if 0 <= i {
        law_number_reads(image, off + 4 + 4 * i);
        law_number_reads(image, off + 16 + 4 * i);
        law_number_reads(image, off + 32 + 4 * i);
    }
}

/// An inline struct holds what extraction finds at its place, one level further in; without a
/// definition it is empty.
pub proof fn law_inline_structs(image: Image, m: MemberModel, off: int, size: int, depth: int)
    requires
        depth <= 32,
        m.member_type is Inline,
    ensures
        m.children_ptr == 0 ==> image.value_at(m, off, size, depth) == Ok::<ValueModel, ErrorModel>(
            ValueModel::Struct(Seq::empty()),
        ),
        m.children_ptr > 0 && m.array_size <= 1 ==> image.value_at(m, off, size, depth)
            == match image.extracted(m.children_ptr as int, off, depth + 1) {
            Ok(fields) => Ok::<ValueModel, ErrorModel>(ValueModel::Struct(fields)),
            Err(e) => Err(e),
        },
{
}

proof fn lemma_structs_in_a_row(
    image: Image,
    t: int,
    off: int,
    size: int,
    n: int,
    depth: int,
    i: int,
)
    requires
        depth <= 32,
        0 <= i < n,
        image.structs_at(t, off, size, n, depth) is Ok,
    ensures
        image.structs_at(t, off, size, n, depth)->Ok_0.len() == n,
        image.extracted(t, clamped(off + i * size), depth + 1) is Ok,
        image.structs_at(t, off, size, n, depth)->Ok_0[i] == ValueModel::Struct(
            image.extracted(t, clamped(off + i * size), depth + 1)->Ok_0,
        ),
    decreases n,
{
    if i < n - 1 {
        lemma_structs_in_a_row(image, t, off, size, n - 1, depth, i);
    } else if n > 1 {
        lemma_structs_in_a_row(image, t, off, size, n - 1, depth, 0);
    }
}

/// An array of inline structs holds as many as it says, each `size` bytes behind the one before it.
pub proof fn law_inline_arrays(
    image: Image,
    m: MemberModel,
    off: int,
    size: int,
    depth: int,
    i: int,
)
    requires
        depth <= 32,
        m.member_type is Inline,
        m.children_ptr > 0,
        0 <= i < m.array_size,
        m.array_size >= 2,
        off + i * size < usize::MAX,
        image.value_at(m, off, size, depth) is Ok,
    ensures
        ({
            let r = image.value_at(m, off, size, depth)->Ok_0;
            let item = image.extracted(m.children_ptr as int, off + i * size, depth + 1);
            &&& r is Array
            &&& r->Array_0.len() == m.array_size
            &&& item is Ok
            &&& r->Array_0[i] == ValueModel::Struct(item->Ok_0)
        }),
{
    lemma_structs_in_a_row(
        image,
        m.children_ptr as int,
        off,
        size,
        m.array_size as int,
        depth,
        i,
    );
}

} // verus!
