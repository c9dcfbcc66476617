//! How listings are laid out.
use crate::dump::{
    child_type_texts, children_texts, field_texts, fields_texts, header_texts, items_texts,
    member_text, plain_line, section_line_text, summary_texts,
};
use crate::element::{FieldModel, ValueModel};
use crate::reader::image::{Image, MemberModel};
use crate::reader::Gr2File;
use crate::reading::{law_decimal_text, read};
use crate::text::{decimal_text, padded_text, signed_text, spaces};
use vstd::prelude::*;
use vstd::string::*;

verus! {

/// `s` starts with `head`.
pub open spec fn opens_with(s: Seq<char>, head: Seq<char>) -> bool {
    head.len() <= s.len() && s.take(head.len() as int) == head
}

/// Every line starts with `head`.
pub open spec fn all_open_with(lines: Seq<Seq<char>>, head: Seq<char>) -> bool {
    forall|i: int| 0 <= i < lines.len() ==> opens_with(#[trigger] lines[i], head)
}

proof fn lemma_opens(a: Seq<char>, b: Seq<char>)
    ensures
        opens_with(a + b, a),
{
    assert((a + b).take(a.len() as int) =~= a);
}

proof fn lemma_opens_shorter(s: Seq<char>, a: Seq<char>, b: Seq<char>)
    requires
        opens_with(s, a + b),
    ensures
        opens_with(s, a),
{
    assert(s.take(a.len() as int) =~= a) by {
        assert forall|i: int| 0 <= i < a.len() implies s[i] == a[i] by {
            assert(s.take((a + b).len() as int)[i] == (a + b)[i]);
        }
    }
}

proof fn lemma_deeper_lines(lines: Seq<Seq<char>>, a: Seq<char>, b: Seq<char>)
    requires
        all_open_with(lines, a + b),
    ensures
        all_open_with(lines, a),
{
    assert forall|i: int| 0 <= i < lines.len() implies opens_with(#[trigger] lines[i], a) by {
        lemma_opens_shorter(lines[i], a, b);
    }
}

proof fn lemma_lines_join(a: Seq<Seq<char>>, b: Seq<Seq<char>>, head: Seq<char>)
    requires
        all_open_with(a, head),
        all_open_with(b, head),
    ensures
        all_open_with(a + b, head),
{
    assert forall|i: int| 0 <= i < (a + b).len() implies opens_with(
        #[trigger] (a + b)[i],
        head,
    ) by {
        if i < a.len() {
            assert((a + b)[i] == a[i]);
        } else {
            assert((a + b)[i] == b[i - a.len()]);
        }
    }
}

proof fn lemma_plain_line_opens(field: FieldModel, indent: Seq<char>)
    requires
        !(field.value is Struct),
    ensures
        opens_with(plain_line(field, indent), indent + padded_text(field.name, 30)),
{
    let head = indent + padded_text(field.name, 30);
    let line = plain_line(field, indent);
    assert(line.len() >= head.len());
    assert(line.take(head.len() as int) =~= head);
}

/// The lines about fields are the lines about each of them, one after another: those about a
/// first part, and then those about the rest.
pub proof fn law_listings_join(a: Seq<FieldModel>, b: Seq<FieldModel>, indent: Seq<char>)
    ensures
        fields_texts(a + b, indent) == fields_texts(a, indent) + fields_texts(b, indent),
    decreases b.len(),
{
    if b.len() == 0 {
        assert(a + b =~= a);
        assert(fields_texts(a, indent) + fields_texts(b, indent) =~= fields_texts(a, indent));
    } else {
        assert((a + b).drop_last() =~= a + b.drop_last());
        law_listings_join(a, b.drop_last(), indent);
        assert(fields_texts(a + b, indent) =~= fields_texts(a, indent) + fields_texts(b, indent));
    }
}

proof fn lemma_field_indented(field: FieldModel, indent: Seq<char>)
    ensures
        all_open_with(field_texts(field, indent), indent),
    decreases field,
{
    match field.value {
        ValueModel::Struct(fields) => {
            lemma_fields_indented(fields, indent + "  "@);
            lemma_deeper_lines(fields_texts(fields, indent + "  "@), indent, "  "@);
            lemma_opens(indent, field.name + ":"@);
            assert(indent + field.name + ":"@ =~= indent + (field.name + ":"@));
        },
        ValueModel::Array(items) => {
            if crate::dump::all_structs(items) {
                lemma_items_indented(items, indent + "  "@);
                lemma_deeper_lines(items_texts(items, indent + "  "@), indent, "  "@);
                let rest = field.name + " ["@ + decimal_text(items.len()) + " structs]:"@;
                lemma_opens(indent, rest);
                assert(indent + field.name + " ["@ + decimal_text(items.len()) + " structs]:"@
                    =~= indent + rest);
            } else {
                lemma_plain_line_opens(field, indent);
                lemma_opens_shorter(
                    plain_line(field, indent),
                    indent,
                    padded_text(field.name, 30),
                );
            }
        },
        _ => {
            lemma_plain_line_opens(field, indent);
            lemma_opens_shorter(plain_line(field, indent), indent, padded_text(field.name, 30));
        },
    }
}

proof fn lemma_fields_indented(fields: Seq<FieldModel>, indent: Seq<char>)
    ensures
        all_open_with(fields_texts(fields, indent), indent),
    decreases fields,
{
    if fields.len() > 0 {
        lemma_fields_indented(fields.drop_last(), indent);
        lemma_field_indented(fields.last(), indent);
        lemma_lines_join(
            fields_texts(fields.drop_last(), indent),
            field_texts(fields.last(), indent),
            indent,
        );
    }
}

proof fn lemma_items_indented(items: Seq<ValueModel>, indent: Seq<char>)
    ensures
        all_open_with(items_texts(items, indent), indent),
    decreases items,
{
    if items.len() > 0 {
        lemma_items_indented(items.drop_last(), indent);
        match items.last() {
            ValueModel::Struct(fields) => {
                lemma_fields_indented(fields, indent + "  "@);
                lemma_deeper_lines(fields_texts(fields, indent + "  "@), indent, "  "@);
                let rest = "["@ + decimal_text((items.len() - 1) as nat) + "]:"@;
                lemma_opens(indent, rest);
                let head = indent + "["@ + decimal_text((items.len() - 1) as nat) + "]:"@;
                assert(head =~= indent + rest);
                lemma_lines_join(seq![head], fields_texts(fields, indent + "  "@), indent);
                lemma_lines_join(
                    items_texts(items.drop_last(), indent),
                    seq![head] + fields_texts(fields, indent + "  "@),
                    indent,
                );
            },
            _ => {
                assert(items_texts(items, indent) =~= items_texts(items.drop_last(), indent));
            },
        }
    }
}

/// Every line about a field starts with the field's indentation. Below a struct the lines about
/// its fields are indented by two spaces more.
pub proof fn law_lines_are_indented(field: FieldModel, indent: Seq<char>)
    ensures
        all_open_with(field_texts(field, indent), indent),
        field.value matches ValueModel::Struct(fields) ==> {
            let lines = field_texts(field, indent);
            &&& lines.len() == 1 + fields_texts(fields, indent).len()
            &&& lines[0] == indent + field.name + seq![':']
            &&& all_open_with(lines.skip(1), indent + seq![' ', ' '])
        },
{
    reveal_strlit("  ");
    reveal_strlit(":");
    lemma_field_indented(field, indent);
    if let ValueModel::Struct(fields) = field.value {
        lemma_fields_indented(fields, indent + "  "@);
        let lines = field_texts(field, indent);
        assert(lines.skip(1) =~= fields_texts(fields, indent + "  "@));
        assert("  "@ =~= seq![' ', ' ']);
        assert(":"@ =~= seq![':']);
        lemma_same_count(fields, indent, indent + "  "@);
    }
}

proof fn lemma_same_count(fields: Seq<FieldModel>, a: Seq<char>, b: Seq<char>)
    ensures
        fields_texts(fields, a).len() == fields_texts(fields, b).len(),
    decreases fields,
{
    if fields.len() > 0 {
        lemma_same_count(fields.drop_last(), a, b);
        lemma_same_count_field(fields.last(), a, b);
    }
}

proof fn lemma_same_count_field(field: FieldModel, a: Seq<char>, b: Seq<char>)
    ensures
        field_texts(field, a).len() == field_texts(field, b).len(),
    decreases field,
{
    match field.value {
        ValueModel::Struct(fields) => {
            lemma_same_count(fields, a + "  "@, b + "  "@);
        },
        ValueModel::Array(items) => {
            lemma_same_count_items(items, a + "  "@, b + "  "@);
        },
        _ => {},
    }
}

proof fn lemma_same_count_items(items: Seq<ValueModel>, a: Seq<char>, b: Seq<char>)
    ensures
        items_texts(items, a).len() == items_texts(items, b).len(),
    decreases items,
{
    if items.len() > 0 {
        lemma_same_count_items(items.drop_last(), a, b);
        match items.last() {
            ValueModel::Struct(fields) => {
                lemma_same_count(fields, a + "  "@, b + "  "@);
            },
            _ => {},
        }
    }
}

/// A field with a plain value takes one line: the indentation, the name in thirty columns, and
/// the value.
pub proof fn law_plain_fields_take_one_line(field: FieldModel, indent: Seq<char>)
    requires
        !(field.value is Struct),
        !(field.value is Array),
    ensures
        field_texts(field, indent).len() == 1,
        opens_with(field_texts(field, indent)[0], indent + padded_text(field.name, 30)),
{
    lemma_plain_line_opens(field, indent);
}

/// What follows the name of a field with a whole number reads back as that number.
pub proof fn law_number_lines(field: FieldModel, indent: Seq<char>, text: Seq<char>)
    requires
        field_texts(field, indent).len() == 1,
        field_texts(field, indent)[0] == indent + padded_text(field.name, 30) + seq![' ', '=', ' ']
            + text,
    ensures
        field.value matches ValueModel::UInt8(v) ==> read(text, 10) == v,
        field.value matches ValueModel::UInt16(v) ==> read(text, 10) == v,
        field.value matches ValueModel::UInt32(v) ==> read(text, 10) == v,
        field.value matches ValueModel::Int8(v) ==> text == signed_text(v as int),
        field.value matches ValueModel::Int16(v) ==> text == signed_text(v as int),
        field.value matches ValueModel::Int32(v) ==> text == signed_text(v as int),
{
    reveal_strlit(" = ");
    assert(" = "@ =~= seq![' ', '=', ' ']);
    let head = indent + padded_text(field.name, 30) + " = "@;
    let line = field_texts(field, indent)[0];
    match field.value {
        ValueModel::UInt8(v) => {
            law_decimal_text(v as nat);
            lemma_same_tail(head, text, decimal_text(v as nat));
        },
        ValueModel::UInt16(v) => {
            law_decimal_text(v as nat);
            lemma_same_tail(head, text, decimal_text(v as nat));
        },
        ValueModel::UInt32(v) => {
            law_decimal_text(v as nat);
            lemma_same_tail(head, text, decimal_text(v as nat));
        },
        ValueModel::Int8(v) => {
            lemma_same_tail(head, text, signed_text(v as int));
        },
        ValueModel::Int16(v) => {
            lemma_same_tail(head, text, signed_text(v as int));
        },
        ValueModel::Int32(v) => {
            lemma_same_tail(head, text, signed_text(v as int));
        },
        _ => {},
    }
}

proof fn lemma_same_tail(head: Seq<char>, a: Seq<char>, b: Seq<char>)
    requires
        head + a == head + b,
    ensures
        a == b,
{
    assert((head + a).skip(head.len() as int) =~= a);
    assert((head + b).skip(head.len() as int) =~= b);
}

/// A summary has a line for each section, in their order, behind the seven lines about the header
/// and before the two about the buffer.
pub proof fn law_summary_layout(f: Gr2File, i: int)
    requires
        0 <= i < f.sections@.len(),
    ensures
        summary_texts(f).len() == f.sections@.len() + 9,
        summary_texts(f)[7 + i] == section_line_text(i as nat, f.sections@[i]),
        forall|k: int| 0 <= k < 7 ==> (#[trigger] summary_texts(f)[k]) == header_texts(f)[k],
{
}

/// The definition behind a member is listed for the four kinds of members whose definition says
/// how what they hold or lead to is laid out, where it lies in the buffer; nothing is listed more
/// than three levels down.
pub proof fn law_listed_definitions(image: Image, m: MemberModel, depth: int)
    ensures
        depth > 3 ==> child_type_texts(image, m, depth).len() == 0,
        m.children_ptr == 0 || m.children_ptr >= image.flat.len() ==> child_type_texts(
            image,
            m,
            depth,
        ).len() == 0,
        !(m.member_type is Inline || m.member_type is Reference || m.member_type
            is ReferenceToArray || m.member_type is ArrayOfReferences) ==> child_type_texts(
            image,
            m,
            depth,
        ).len() == 0,
{
}

/// A listed definition opens with the member's name in brackets, then has a line for each of its
/// members, two spaces deeper, and then the definitions behind those.
pub proof fn law_definition_lines(image: Image, m: MemberModel, depth: int, i: int)
    requires
        1 <= depth <= 3,
        0 < m.children_ptr < image.flat.len(),
        m.member_type is Inline || m.member_type is Reference || m.member_type is ReferenceToArray
            || m.member_type is ArrayOfReferences,
        image.struct_at(m.children_ptr as int) is Ok,
        0 <= i < image.struct_at(m.children_ptr as int)->Ok_0.len(),
    ensures
        ({
            let members = image.struct_at(m.children_ptr as int)->Ok_0;
            let lines = child_type_texts(image, m, depth);
            let indent = Seq::new((2 * depth + 2) as nat, |k: int| ' ');
            &&& lines[0] == indent + seq!['['] + m.name + seq![']', ':']
            &&& lines[1 + i] == member_text(
                members[i],
                Seq::new((2 * depth + 4) as nat, |k: int| ' '),
            )
            &&& lines.skip(1 + members.len() as int) == children_texts(
                image,
                members,
                members.len() as int,
                depth + 1,
            )
        }),
{
    reveal_strlit("[");
    reveal_strlit("]:");
    reveal_strlit("  ");
    let members = image.struct_at(m.children_ptr as int)->Ok_0;
    let lines = child_type_texts(image, m, depth);
    let indent = spaces((2 * (depth + 1)) as nat);
    assert(indent =~= Seq::new((2 * depth + 2) as nat, |k: int| ' '));
    assert("["@ =~= seq!['[']);
    assert("]:"@ =~= seq![']', ':']);
    assert(indent + "  "@ =~= Seq::new((2 * depth + 4) as nat, |k: int| ' '));
    assert(lines.skip(1 + members.len() as int) =~= children_texts(
        image,
        members,
        members.len() as int,
        depth + 1,
    ));
}

} // verus!
