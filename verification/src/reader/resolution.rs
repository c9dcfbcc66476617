//! How structs are put together from their members, and where references lead.
use crate::element::{FieldModel, ValueModel};
use crate::format::{MemberType, SectionRef};
use crate::reader::access::clamped;
use crate::reader::image::{Image, MemberModel};
use crate::reader::sizes::{
    lemma_prefix_is_sum, lemma_prefix_shallower, size_sum, unit_size,
};
use crate::reader::values::{inside, record_size};
use crate::reader::{ErrorModel, Gr2File};
use vstd::prelude::*;

verus! {

// ---------------------------------------------------------------------------
// Fields
// ---------------------------------------------------------------------------
proof fn lemma_sum_rises(image: Image, members: Seq<MemberModel>, k: int, n: int)
    requires
        0 <= k <= n,
        image.prefix_size(members, n, 0) is Ok,
    ensures
        0 <= size_sum(image, members, k) <= size_sum(image, members, n),
        image.prefix_size(members, k, 0) is Ok,
    decreases n - k,
{
    lemma_prefix_is_sum(image, members, n);
    if k < n {
        lemma_sum_rises(image, members, k, n - 1);
        lemma_unit_size(image, members, n);
        let u = unit_size(image, members[n - 1]);
        let c = members[n - 1].count();
        assert(u * c >= 0) by (nonlinear_arith)
            requires
                u >= 0,
                c >= 0,
        ;
    }
}

proof fn lemma_unit_size(image: Image, members: Seq<MemberModel>, n: int)
    requires
        0 < n,
        image.prefix_size(members, n, 0) is Ok,
    ensures
        image.element_size(members[n - 1], 0) == Ok::<int, ErrorModel>(
            unit_size(image, members[n - 1]),
        ),
        unit_size(image, members[n - 1]) >= 0,
{
    let m = members[n - 1];
    assert(image.element_size(m, 0) is Ok);
    if m.member_type == MemberType::Inline && m.children_ptr > 0 {
        let children = image.struct_at(m.children_ptr as int)->Ok_0;
        assert(image.members_size(children, 1) is Ok);
        lemma_prefix_shallower(image, children, children.len() as int, 0, 1);
        crate::reader::sizes::lemma_prefix_range(image, children, children.len() as int, 0);
    }
}

proof fn lemma_fields_have_sizes(
    image: Image,
    members: Seq<MemberModel>,
    k: int,
    off: int,
    depth: int,
)
    requires
        0 <= k,
        0 <= depth <= 32,
        image.prefix_fields(members, k, off, depth) is Ok,
    ensures
        image.prefix_size(members, k, depth) is Ok,
        image.prefix_size(members, k, 0) == image.prefix_size(members, k, depth),
    decreases k,
{
    if k > 0 {
        lemma_fields_have_sizes(image, members, k - 1, off, depth);
    }
    lemma_prefix_shallower(image, members, k, 0, depth);
}

proof fn lemma_field_places(
    image: Image,
    members: Seq<MemberModel>,
    k: int,
    off: int,
    depth: int,
    i: int,
)
    requires
        0 <= i < k,
        0 <= depth <= 32,
        0 <= off,
        image.prefix_fields(members, k, off, depth) is Ok,
        off + size_sum(image, members, k) < usize::MAX,
    ensures
        image.prefix_fields(members, k, off, depth)->Ok_0.0.len() == k,
        image.prefix_fields(members, k, off, depth)->Ok_0.1 == off + size_sum(image, members, k),
        image.value_at(
            members[i],
            off + size_sum(image, members, i),
            unit_size(image, members[i]),
            depth,
        ) == Ok::<ValueModel, ErrorModel>(
            image.prefix_fields(members, k, off, depth)->Ok_0.0[i].value,
        ),
        image.prefix_fields(members, k, off, depth)->Ok_0.0[i].name == members[i].name,
        image.prefix_fields(members, k, off, depth)->Ok_0.0[i].member_type
            == members[i].member_type,
    decreases k,
{
    lemma_fields_have_sizes(image, members, k, off, depth);
    lemma_fields_have_sizes(image, members, k - 1, off, depth);
    lemma_prefix_is_sum(image, members, k);
    lemma_sum_rises(image, members, k - 1, k);
    lemma_unit_size(image, members, k);
    let m = members[k - 1];
    let u = unit_size(image, m);
    assert(image.element_size(m, depth) == Ok::<int, ErrorModel>(u)) by {
        if m.member_type == MemberType::Inline && m.children_ptr > 0 {
            let children = image.struct_at(m.children_ptr as int)->Ok_0;
            assert(image.element_size(m, depth) is Ok);
            assert(image.members_size(children, depth + 1) is Ok);
            lemma_prefix_shallower(image, children, children.len() as int, 0, depth + 1);
        }
    }
    let c = m.count();
    assert(u * c >= 0) by (nonlinear_arith)
        requires
            u >= 0,
            c >= 0,
    ;
    if k > 1 {
        lemma_field_places(
            image,
            members,
            k - 1,
            off,
            depth,
            if i < k - 1 {
                i
            } else {
                0
            },
        );
    }
}

/// Each field of a struct bears its member's name and type, and holds the member's value at the
/// place behind all members before it.
pub proof fn law_fields_stand_in_a_row(image: Image, type_off: int, off: int, depth: int, i: int)
    requires
        image.extracted(type_off, off, depth) is Ok,
        0 <= depth,
        0 <= off,
        image.struct_at(type_off) is Ok,
        0 <= i < image.struct_at(type_off)->Ok_0.len(),
        off + size_sum(
            image,
            image.struct_at(type_off)->Ok_0,
            image.struct_at(type_off)->Ok_0.len() as int,
        ) < usize::MAX,
    ensures
        ({
            let members = image.struct_at(type_off)->Ok_0;
            let fields = image.extracted(type_off, off, depth)->Ok_0;
            &&& fields.len() == members.len()
            &&& image.value_at(
                members[i],
                off + size_sum(image, members, i),
                unit_size(image, members[i]),
                depth,
            ) == Ok::<ValueModel, ErrorModel>(fields[i].value)
            &&& fields[i].name == members[i].name
            &&& fields[i].member_type == members[i].member_type
        }),
{
    let members = image.struct_at(type_off)->Ok_0;
    lemma_field_places(image, members, members.len() as int, off, depth, i);
}

proof fn lemma_prefix_extracts(
    image: Image,
    members: Seq<MemberModel>,
    k: int,
    off: int,
)
    requires
        0 <= k <= members.len(),
        0 <= off,
        image.prefix_size(members, k, 0) is Ok,
        off + size_sum(image, members, k) < usize::MAX,
        forall|i: int|
            0 <= i < k ==> image.value_at(
                #[trigger] members[i],
                off + size_sum(image, members, i),
                unit_size(image, members[i]),
                0,
            ) is Ok,
    ensures
        image.prefix_fields(members, k, off, 0) is Ok,
        image.prefix_fields(members, k, off, 0)->Ok_0.1 == off + size_sum(image, members, k),
    decreases k,
{
    if k > 0 {
        lemma_sum_rises(image, members, k - 1, k);
        lemma_unit_size(image, members, k);
        lemma_prefix_extracts(image, members, k - 1, off);
        let m = members[k - 1];
        let u = unit_size(image, m);
        let c = m.count();
        assert(u * c >= 0) by (nonlinear_arith)
            requires
                u >= 0,
                c >= 0,
        ;
        assert(image.value_at(m, off + size_sum(image, members, k - 1), u, 0) is Ok);
    }
}

/// A struct is extracted wherever it has a size and each of its members has a value.
pub proof fn law_structs_are_extracted(image: Image, type_off: int, off: int)
    requires
        0 <= off,
        image.struct_size(type_off) is Ok,
        ({
            let members = image.struct_at(type_off)->Ok_0;
            &&& off + size_sum(image, members, members.len() as int) < usize::MAX
            &&& forall|i: int|
                0 <= i < members.len() ==> image.value_at(
                    #[trigger] members[i],
                    off + size_sum(image, members, i),
                    unit_size(image, members[i]),
                    0,
                ) is Ok
        }),
    ensures
        image.extracted(type_off, off, 0) is Ok,
{
    let members = image.struct_at(type_off)->Ok_0;
    lemma_prefix_extracts(image, members, members.len() as int, off);
}

// ---------------------------------------------------------------------------
// Depth
// ---------------------------------------------------------------------------
proof fn lemma_element_shallower(image: Image, m: MemberModel, outer: int, inner: int)
    requires
        outer <= inner <= 32,
        image.element_size(m, inner) is Ok,
    ensures
        image.element_size(m, outer) == image.element_size(m, inner),
{
    if m.member_type == MemberType::Inline && m.children_ptr > 0 {
        let children = image.struct_at(m.children_ptr as int)->Ok_0;
        assert(image.members_size(children, inner + 1) is Ok);
        lemma_prefix_shallower(image, children, children.len() as int, outer + 1, inner + 1);
    }
}

proof fn lemma_value_shallower(
    image: Image,
    m: MemberModel,
    off: int,
    size: int,
    outer: int,
    inner: int,
)
    requires
        outer <= inner <= 32,
        image.value_at(m, off, size, inner) is Ok,
    ensures
        image.value_at(m, off, size, outer) == image.value_at(m, off, size, inner),
    decreases 33 - inner, 1int, 0int,
{
    if m.member_type == MemberType::Inline && m.children_ptr > 0 {
        if m.count() == 1 {
            lemma_extracted_shallower(image, m.children_ptr as int, off, outer + 1, inner + 1);
        } else {
            lemma_structs_shallower(
                image,
                m.children_ptr as int,
                off,
                size,
                m.count() as int,
                outer,
                inner,
            );
        }
    }
}

proof fn lemma_structs_shallower(
    image: Image,
    t: int,
    off: int,
    size: int,
    n: int,
    outer: int,
    inner: int,
)
    requires
        outer <= inner <= 32,
        0 <= n,
        image.structs_at(t, off, size, n, inner) is Ok,
    ensures
        image.structs_at(t, off, size, n, outer) == image.structs_at(t, off, size, n, inner),
    decreases 33 - inner, 0int, n,
{
    if n > 0 {
        lemma_structs_shallower(image, t, off, size, n - 1, outer, inner);
        lemma_extracted_shallower(
            image,
            t,
            clamped(off + (n - 1) * size),
            outer + 1,
            inner + 1,
        );
    }
}

proof fn lemma_fields_shallower(
    image: Image,
    members: Seq<MemberModel>,
    k: int,
    off: int,
    outer: int,
    inner: int,
)
    requires
        outer <= inner <= 32,
        0 <= k,
        image.prefix_fields(members, k, off, inner) is Ok,
    ensures
        image.prefix_fields(members, k, off, outer) == image.prefix_fields(members, k, off, inner),
    decreases 33 - inner, 2int, k,
{
    if k > 0 {
        lemma_fields_shallower(image, members, k - 1, off, outer, inner);
        let m = members[k - 1];
        let at = image.prefix_fields(members, k - 1, off, inner)->Ok_0.1;
        lemma_element_shallower(image, m, outer, inner);
        lemma_value_shallower(image, m, at, image.element_size(m, inner)->Ok_0, outer, inner);
    }
}

proof fn lemma_extracted_shallower(image: Image, t: int, off: int, outer: int, inner: int)
    requires
        outer <= inner,
        image.extracted(t, off, inner) is Ok,
    ensures
        image.extracted(t, off, outer) == image.extracted(t, off, inner),
    decreases 33 - inner, 3int, 0int,
{
    let members = image.struct_at(t)->Ok_0;
    lemma_fields_shallower(image, members, members.len() as int, off, outer, inner);
}

/// A struct that is extracted deep inside others is extracted in the same way further out.
pub proof fn law_extraction_ignores_depth(image: Image, t: int, off: int, outer: int, inner: int)
    requires
        outer <= inner,
        image.extracted(t, off, inner) is Ok,
    ensures
        image.extracted(t, off, outer) == image.extracted(t, off, inner),
{
    lemma_extracted_shallower(image, t, off, outer, inner);
}

proof fn lemma_plain_fields(image: Image, members: Seq<MemberModel>, k: int, off: int, depth: int)
    requires
        0 <= depth <= 32,
        0 <= k <= members.len(),
        forall|i: int|
            0 <= i < members.len() ==> !((#[trigger] members[i]).member_type is Inline),
    ensures
        image.prefix_fields(members, k, off, depth) == image.prefix_fields(members, k, off, 0),
    decreases k,
{
    if k > 0 {
        lemma_plain_fields(image, members, k - 1, off, depth);
        let m = members[k - 1];
        assert(!(m.member_type is Inline));
        assert(image.element_size(m, depth) == image.element_size(m, 0));
        let at = image.prefix_fields(members, k - 1, off, 0)->Ok_0.1;
        let size = image.element_size(m, 0)->Ok_0;
        assert(image.value_at(m, at, size, depth) == image.value_at(m, at, size, 0));
    }
}

/// Structs may be nested thirty-two deep: up to there the depth has no say in a struct without
/// inline members, and past it nothing is extracted.
pub proof fn law_nesting_limit(image: Image, t: int, off: int, depth: int)
    requires
        0 <= depth,
    ensures
        depth > 32 ==> image.extracted(t, off, depth) is Err,
        depth <= 32 && (image.struct_at(t) is Ok ==> forall|i: int|
            0 <= i < image.struct_at(t)->Ok_0.len() ==> !((#[trigger] image.struct_at(
                t,
            )->Ok_0[i]).member_type is Inline)) ==> image.extracted(t, off, depth)
            == image.extracted(t, off, 0),
{
    if depth <= 32 && image.struct_at(t) is Ok {
        let members = image.struct_at(t)->Ok_0;
        if forall|i: int| 0 <= i < members.len() ==> !((#[trigger] members[i]).member_type
            is Inline) {
            lemma_plain_fields(image, members, members.len() as int, off, depth);
        }
    }
}

// ---------------------------------------------------------------------------
// References
// ---------------------------------------------------------------------------
/// A definition can stand at `t`: there is room for a member definition.
pub open spec fn definable(image: Image, t: int) -> bool {
    inside(image, t, record_size(image))
}

/// A reference of any kind leads to the struct at its offset; a variant reference brings its own
/// type along. Where no definition can stand at the type offset, or the reference is null, there
/// is none.
pub proof fn law_references_lead_to_structs(
    image: Image,
    t: int,
    own: usize,
    count: u32,
    off: usize,
)
    ensures
        definable(image, t) ==> {
            &&& image.referent(ValueModel::Reference { offset: Some(off) }, t) == image.extracted(
                t,
                off as int,
                0,
            )
            &&& image.referent(ValueModel::ReferenceToArray { count, offset: Some(off) }, t)
                == image.extracted(t, off as int, 0)
            &&& image.referent(ValueModel::ArrayOfReferences { count, offset: Some(off) }, t)
                == image.extracted(t, off as int, 0)
        },
        !definable(image, t) ==> {
            &&& image.referent(ValueModel::Reference { offset: Some(off) }, t) is Err
            &&& image.referent(ValueModel::ReferenceToArray { count, offset: Some(off) }, t) is Err
            &&& image.referent(ValueModel::ArrayOfReferences { count, offset: Some(off) }, t)
                is Err
        },
        definable(image, own as int) ==> image.referent(
            ValueModel::VariantReference { type_offset: Some(own), data_offset: Some(off) },
            t,
        ) == image.extracted(own as int, off as int, 0),
        !definable(image, own as int) ==> image.referent(
            ValueModel::VariantReference { type_offset: Some(own), data_offset: Some(off) },
            t,
        ) is Err,
        image.referent(ValueModel::Reference { offset: None }, t) is Err,
        image.referent(ValueModel::ReferenceToArray { count, offset: None }, t) is Err,
        image.referent(ValueModel::ArrayOfReferences { count, offset: None }, t) is Err,
        image.referent(
            ValueModel::VariantReference { type_offset: None, data_offset: Some(off) },
            t,
        ) is Err,
        image.referent(
            ValueModel::VariantReference { type_offset: Some(own), data_offset: None },
            t,
        ) is Err,
{
}

/// What is no reference leads nowhere.
pub proof fn law_other_values_lead_nowhere(image: Image, v: ValueModel, t: int)
    ensures
        !(v is Reference || v is ReferenceToArray || v is ArrayOfReferences || v
            is VariantReference) ==> image.referent(v, t) is Err,
        !(v is ReferenceToArray || v is ArrayOfReferences) ==> image.referents(v, t) is Err,
        !(v is ReferenceToVariantArray) ==> image.variant_referents(v) is Err,
        v matches ValueModel::ReferenceToArray { count, offset: None } ==> image.referents(v, t)
            is Err,
        v matches ValueModel::ArrayOfReferences { count, offset: None } ==> image.referents(v, t)
            is Err,
        v matches ValueModel::ReferenceToVariantArray { type_offset, count, data_offset } && (
        type_offset is None || data_offset is None) ==> image.variant_referents(v) is Err,
{
}

proof fn lemma_elements(image: Image, t: int, off: int, size: int, n: int)
    requires
        0 <= n,
    ensures
        image.elements(t, off, size, n) is Ok <==> forall|i: int|
            0 <= i < n ==> image.extracted(t, #[trigger] clamped(off + i * size), 0) is Ok,
        image.elements(t, off, size, n) matches Ok(items) ==> items.len() == n && forall|i: int|
            0 <= i < n ==> image.extracted(t, clamped(off + i * size), 0) == Ok::<
                Seq<FieldModel>,
                ErrorModel,
            >(#[trigger] items[i]),
    decreases n,
{
    if n > 0 {
        lemma_elements(image, t, off, size, n - 1);
        if image.elements(t, off, size, n) is Ok {
            assert forall|i: int| 0 <= i < n implies image.extracted(
                t,
                #[trigger] clamped(off + i * size),
                0,
            ) is Ok by {}
        } else {
            if image.elements(t, off, size, n - 1) is Ok {
                let j = n - 1;
                assert(image.extracted(t, clamped(off + j * size), 0) is Err);
            }
        }
    }
}

/// An array of up to sixteen mega-elements is resolved exactly where its struct has a size and
/// each element can be extracted: the first at the offset, each other one a struct size further.
pub proof fn law_arrays_are_rows_of_structs(image: Image, t: int, off: usize, count: u32, i: int)
    requires
        0 <= i < count,
    ensures
        ({
            let v = ValueModel::ReferenceToArray { count, offset: Some(off) };
            let r = image.referents(v, t);
            &&& count > 16 * 1024 * 1024 ==> r is Err
            &&& image.struct_size(t) is Err ==> r is Err
            &&& count <= 16 * 1024 * 1024 && image.struct_size(t) is Ok ==> {
                let size = image.struct_size(t)->Ok_0;
                &&& r is Ok <==> forall|k: int|
                    0 <= k < count ==> image.extracted(t, #[trigger] clamped(off + k * size), 0)
                        is Ok
                &&& r is Ok ==> r->Ok_0.len() == count
                &&& r is Ok && off + i * size < usize::MAX ==> image.extracted(
                    t,
                    off + i * size,
                    0,
                ) == Ok::<Seq<FieldModel>, ErrorModel>(r->Ok_0[i])
            }
        }),
{
    if image.struct_size(t) is Ok {
        lemma_elements(image, t, off as int, image.struct_size(t)->Ok_0, count as int);
    }
}

/// The three kinds of array reference are resolved alike; a variant array brings its own type
/// along.
pub proof fn law_array_references_are_alike(image: Image, t: usize, off: usize, count: u32)
    ensures
        image.referents(ValueModel::ArrayOfReferences { count, offset: Some(off) }, t as int)
            == image.referents(ValueModel::ReferenceToArray { count, offset: Some(off) }, t as int),
        image.variant_referents(
            ValueModel::ReferenceToVariantArray {
                type_offset: Some(t),
                count,
                data_offset: Some(off),
            },
        ) == image.referents(ValueModel::ReferenceToArray { count, offset: Some(off) }, t as int),
{
}

/// An array that is empty resolves to nothing, where its struct has a size.
pub proof fn law_empty_arrays(image: Image, t: int, off: usize)
    requires
        image.struct_size(t) is Ok,
    ensures
        image.referents(ValueModel::ReferenceToArray { count: 0, offset: Some(off) }, t) == Ok::<
            Seq<Seq<FieldModel>>,
            ErrorModel,
        >(Seq::empty()),
{
}

/// A section reference leads to its offset behind the start of its section. There is none with the
/// section number that stands for no section, or past the last section.
pub proof fn law_section_references(f: Gr2File, r: SectionRef)
    ensures
        r.section == 0xFFFF_FFFF || r.section >= f.sections@.len() ==> f.target(r) is None,
        r.section != 0xFFFF_FFFF && r.section < f.sections@.len() ==> f.target(r) is Some,
        r.section != 0xFFFF_FFFF && r.section < f.sections@.len()
            && f.sections@[r.section as int].base_address + r.offset <= usize::MAX ==> f.target(r)
            == Some((f.sections@[r.section as int].base_address + r.offset) as usize),
{
}

/// The root node is the struct that the header's two references lead to: its type by the first,
/// its data by the second.
pub proof fn law_root_node(f: Gr2File)
    ensures
        f.target(f.header.root_type) is None || f.target(f.header.root_node) is None ==> f.root()
            is Err,
        f.target(f.header.root_type) matches Some(t) ==> (f.target(f.header.root_node) matches Some(
            d,
        ) ==> f.root() == f.image().extracted(t as int, d as int, 0)),
{
}

} // verus!
