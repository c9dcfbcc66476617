//! What holds of the sizes of structs, and of structs that contain themselves.
use crate::format::MemberType;
use crate::reader::access::clamped;
use crate::reader::extract::{lemma_prefix_fields_fails, lemma_prefix_size_fails};
use crate::reader::image::{Image, MemberModel};
use crate::reader::layout::too_deep;
use crate::reader::{ErrorModel, MAX_EXTRACT_DEPTH};
use vstd::prelude::*;

verus! {

// ---------------------------------------------------------------------------
// Sums
// ---------------------------------------------------------------------------
/// The size of one element of `m`: for an inline struct that of its type, and zero where it
/// names none.
pub open spec fn unit_size(image: Image, m: MemberModel) -> int {
    if m.member_type == MemberType::Inline {
        if m.children_ptr > 0 {
            image.struct_size(m.children_ptr as int)->Ok_0
        } else {
            0
        }
    } else {
        m.member_type.bytes(image.pointer_width) as int
    }
}

/// The sizes of the first `k` members, each times its number of elements, added up.
pub open spec fn size_sum(image: Image, members: Seq<MemberModel>, k: int) -> int
    decreases k,
{
    if k <= 0 {
        0
    } else {
        size_sum(image, members, k - 1) + unit_size(image, members[k - 1]) * members[k - 1].count()
    }
}

/// Every inline struct among the first `k` members has a size of its own.
pub open spec fn inline_sized(image: Image, members: Seq<MemberModel>, k: int) -> bool {
    forall|i: int|
        0 <= i < k && (#[trigger] members[i]).member_type == MemberType::Inline
            && members[i].children_ptr > 0 ==> image.struct_size(members[i].children_ptr as int)
            is Ok
}

/// A struct that has a size deep inside others has the same size further out.
pub proof fn lemma_prefix_shallower(
    image: Image,
    members: Seq<MemberModel>,
    k: int,
    outer: int,
    inner: int,
)
    requires
        outer <= inner <= MAX_EXTRACT_DEPTH,
        image.prefix_size(members, k, inner) is Ok,
    ensures
        image.prefix_size(members, k, outer) == image.prefix_size(members, k, inner),
    decreases MAX_EXTRACT_DEPTH + 1 - inner, k,
{
    if k > 0 {
        lemma_prefix_shallower(image, members, k - 1, outer, inner);
        let m = members[k - 1];
        assert(image.element_size(m, inner) is Ok);
        if m.member_type == MemberType::Inline && m.children_ptr > 0 {
            let children = image.struct_at(m.children_ptr as int)->Ok_0;
            assert(image.members_size(children, inner + 1) is Ok);
            lemma_prefix_shallower(
                image,
                children,
                children.len() as int,
                outer + 1,
                inner + 1,
            );
        }
        assert(image.element_size(m, outer) == image.element_size(m, inner));
    }
}

/// Nesting a struct more deeply changes its size only by running into the limit: where it has a
/// size at depth `inner`, it has the same at every depth above.
pub proof fn law_size_ignores_depth(
    image: Image,
    members: Seq<MemberModel>,
    outer: int,
    inner: int,
)
    requires
        outer <= inner,
        image.members_size(members, inner) is Ok,
    ensures
        image.members_size(members, outer) == image.members_size(members, inner),
{
    lemma_prefix_shallower(image, members, members.len() as int, outer, inner);
}

pub proof fn lemma_prefix_range(image: Image, members: Seq<MemberModel>, k: int, depth: int)
    requires
        depth <= MAX_EXTRACT_DEPTH,
        image.prefix_size(members, k, depth) is Ok,
    ensures
        0 <= image.prefix_size(members, k, depth)->Ok_0 <= usize::MAX,
    decreases MAX_EXTRACT_DEPTH + 1 - depth, k,
{
    if k > 0 {
        lemma_prefix_range(image, members, k - 1, depth);
        let m = members[k - 1];
        let size = image.element_size(m, depth)->Ok_0;
        if m.member_type == MemberType::Inline && m.children_ptr > 0 {
            let children = image.struct_at(m.children_ptr as int)->Ok_0;
            assert(image.members_size(children, depth + 1) is Ok);
            lemma_prefix_range(image, children, children.len() as int, depth + 1);
        }
        let n = m.count();
        assert(size * n >= 0) by (nonlinear_arith)
            requires
                size >= 0,
                n >= 0,
        ;
    }
}

pub proof fn lemma_prefix_is_sum(image: Image, members: Seq<MemberModel>, k: int)
    requires
        image.prefix_size(members, k, 0) is Ok,
    ensures
        size_sum(image, members, k) >= 0,
        image.prefix_size(members, k, 0)->Ok_0 == clamped(size_sum(image, members, k)),
        inline_sized(image, members, k),
    decreases k,
{
    if k > 0 {
        lemma_prefix_is_sum(image, members, k - 1);
        let m = members[k - 1];
        let size = image.element_size(m, 0)->Ok_0;
        assert(image.element_size(m, 0) is Ok);
        if m.member_type == MemberType::Inline && m.children_ptr > 0 {
            let children = image.struct_at(m.children_ptr as int)->Ok_0;
            assert(image.members_size(children, 1) is Ok);
            law_size_ignores_depth(image, children, 0, 1);
            assert(image.struct_size(m.children_ptr as int) is Ok);
            lemma_prefix_range(image, children, children.len() as int, 0);
        }
        assert(size == unit_size(image, m));
        let n = m.count();
        assert(size * n >= 0) by (nonlinear_arith)
            requires
                size >= 0,
                n >= 0,
        ;
    }
}

/// The size of a struct is the sum of its members' sizes, each times its number of elements; an
/// inline struct counts with the size of its own type. A sum past the address space counts as
/// the greatest size there is.
pub proof fn law_struct_size_is_sum(image: Image, type_off: int)
    requires
        image.struct_size(type_off) is Ok,
    ensures
        image.struct_at(type_off) is Ok,
        ({
            let members = image.struct_at(type_off)->Ok_0;
            let n = members.len() as int;
            &&& inline_sized(image, members, n)
            &&& image.struct_size(type_off)->Ok_0 == clamped(size_sum(image, members, n))
            &&& size_sum(image, members, n) <= usize::MAX ==> image.struct_size(type_off)->Ok_0
                == size_sum(image, members, n)
        }),
{
    let members = image.struct_at(type_off)->Ok_0;
    lemma_prefix_is_sum(image, members, members.len() as int);
}

// ---------------------------------------------------------------------------
// Failures
// ---------------------------------------------------------------------------
/// An error that comes of nesting too deeply or of a definition that cannot be read.
pub open spec fn size_failure(image: Image, e: ErrorModel) -> bool {
    e == too_deep() || exists|t: int| #[trigger]
        image.struct_at(t) == Err::<Seq<MemberModel>, ErrorModel>(e)
}

proof fn lemma_prefix_failure(image: Image, members: Seq<MemberModel>, k: int, depth: int)
    requires
        depth <= MAX_EXTRACT_DEPTH,
        image.prefix_size(members, k, depth) is Err,
    ensures
        size_failure(image, image.prefix_size(members, k, depth)->Err_0),
    decreases MAX_EXTRACT_DEPTH + 1 - depth, k,
{
    if image.prefix_size(members, k - 1, depth) is Err {
        lemma_prefix_failure(image, members, k - 1, depth);
    } else {
        let m = members[k - 1];
        let definition = image.struct_at(m.children_ptr as int);
        assert(image.element_size(m, depth) is Err);
        if definition is Ok && depth < MAX_EXTRACT_DEPTH {
            let children = definition->Ok_0;
            assert(image.members_size(children, depth + 1) is Err);
            lemma_prefix_failure(image, children, children.len() as int, depth + 1);
        }
    }
}

/// A struct has no size only where its structs nest too deeply or one of their definitions
/// cannot be read, and the error says which.
pub proof fn law_struct_size_failures(image: Image, type_off: int)
    requires
        image.struct_size(type_off) is Err,
    ensures
        size_failure(image, image.struct_size(type_off)->Err_0),
{
    if image.struct_at(type_off) is Ok {
        let members = image.struct_at(type_off)->Ok_0;
        lemma_prefix_failure(image, members, members.len() as int, 0);
    }
}

/// Member `k` of the struct defined at `type_off` is that struct itself, inline.
pub open spec fn holds_itself(image: Image, type_off: int, k: int) -> bool {
    &&& type_off > 0
    &&& image.struct_at(type_off) is Ok
    &&& 0 <= k < image.struct_at(type_off)->Ok_0.len()
    &&& image.struct_at(type_off)->Ok_0[k].member_type == MemberType::Inline
    &&& image.struct_at(type_off)->Ok_0[k].children_ptr == type_off
}

proof fn lemma_cyclic_size_fails(image: Image, type_off: int, k: int, depth: int)
    requires
        holds_itself(image, type_off, k),
    ensures
        image.members_size(image.struct_at(type_off)->Ok_0, depth) is Err,
    decreases MAX_EXTRACT_DEPTH + 1 - depth,
{
    if depth <= MAX_EXTRACT_DEPTH {
        let members = image.struct_at(type_off)->Ok_0;
        lemma_cyclic_size_fails(image, type_off, k, depth + 1);
        assert(image.element_size(members[k], depth) is Err);
        assert(image.prefix_size(members, k + 1, depth) is Err);
        lemma_prefix_size_fails(image, members, k + 1, members.len() as int, depth);
    }
}

/// A struct that contains itself is never extracted and has no size.
pub proof fn law_cyclic_structs_fail(image: Image, type_off: int, k: int, off: int, depth: int)
    requires
        holds_itself(image, type_off, k),
    ensures
        image.extracted(type_off, off, depth) is Err,
        image.struct_size(type_off) is Err,
{
    lemma_cyclic_size_fails(image, type_off, k, 0);
    if depth <= MAX_EXTRACT_DEPTH {
        let members = image.struct_at(type_off)->Ok_0;
        lemma_cyclic_size_fails(image, type_off, k, depth + 1);
        assert(image.element_size(members[k], depth) is Err);
        assert(image.prefix_fields(members, k + 1, off, depth) is Err);
        lemma_prefix_fields_fails(image, members, k + 1, members.len() as int, off, depth);
    }
}

/// The first `k` members have a size at every depth, or else fail by nesting too deeply.
pub open spec fn fail_by_depth_only(image: Image, members: Seq<MemberModel>, k: int) -> bool {
    forall|d: int|
        0 <= d <= MAX_EXTRACT_DEPTH ==> (#[trigger] image.prefix_size(members, k, d)) is Ok
            || image.prefix_size(members, k, d) == Err::<int, ErrorModel>(too_deep())
}

proof fn lemma_cycle_too_deep(image: Image, type_off: int, k: int, depth: int)
    requires
        0 <= depth,
        holds_itself(image, type_off, k),
        fail_by_depth_only(image, image.struct_at(type_off)->Ok_0, k),
    ensures
        image.members_size(image.struct_at(type_off)->Ok_0, depth) == Err::<int, ErrorModel>(
            too_deep(),
        ),
    decreases MAX_EXTRACT_DEPTH + 1 - depth,
{
    if depth <= MAX_EXTRACT_DEPTH {
        let members = image.struct_at(type_off)->Ok_0;
        let n = members.len() as int;
        lemma_cycle_too_deep(image, type_off, k, depth + 1);
        assert(image.element_size(members[k], depth) == Err::<int, ErrorModel>(too_deep()));
        assert(image.prefix_size(members, k, depth) is Ok || image.prefix_size(members, k, depth)
            == Err::<int, ErrorModel>(too_deep()));
        assert(image.prefix_size(members, k + 1, depth) == Err::<int, ErrorModel>(too_deep()));
        lemma_prefix_size_fails(image, members, k + 1, n, depth);
    }
}

/// A struct that contains itself fails by nesting too deeply, where no member before that one
/// fails in another way: so ends its size, and so its extraction within the depth limit.
pub proof fn law_cycles_exceed_depth(image: Image, type_off: int, k: int, off: int, depth: int)
    requires
        holds_itself(image, type_off, k),
        fail_by_depth_only(image, image.struct_at(type_off)->Ok_0, k),
    ensures
        image.struct_size(type_off) == Err::<int, ErrorModel>(too_deep()),
        0 <= depth <= MAX_EXTRACT_DEPTH && image.prefix_fields(
            image.struct_at(type_off)->Ok_0,
            k,
            off,
            depth,
        ) is Ok ==> image.extracted(type_off, off, depth) is Err && image.extracted(
            type_off,
            off,
            depth,
        )->Err_0 == too_deep(),
{
    let members = image.struct_at(type_off)->Ok_0;
    let n = members.len() as int;
    lemma_cycle_too_deep(image, type_off, k, 0);
    if 0 <= depth <= MAX_EXTRACT_DEPTH && image.prefix_fields(members, k, off, depth) is Ok {
        lemma_cycle_too_deep(image, type_off, k, depth + 1);
        assert(image.element_size(members[k], depth) == Err::<int, ErrorModel>(too_deep()));
        assert(image.prefix_fields(members, k + 1, off, depth) is Err);
        lemma_prefix_fields_fails(image, members, k + 1, n, off, depth);
    }
}

} // verus!
