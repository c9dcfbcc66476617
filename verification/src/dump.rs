//! A readable listing of a loaded file: headers, type definitions, the root node.
use crate::debug::{float3_text, push_float3, push_values, values_joined};
use crate::element::{
    field_models, lemma_field_models_push, lemma_value_models, lemma_value_models_push,
    value_models, Field, FieldModel, Value, ValueModel,
};
use crate::format::{Endianness, MemberType, PointerWidth};
use crate::reader::access::member_models;
use crate::reader::image::{Image, MemberModel};
use crate::reader::{Error, Gr2File, MemberDef, Section};
use crate::text::{
    decimal, decimal_text, fmt_ptr, hex, hex4, hex_text, padded, padded_lower_hex_text,
    padded_text, ptr_text, push_spaces, signed, signed_text, spaces,
};
use vstd::prelude::*;
use vstd::string::*;

verus! {

/// The texts of lines.
pub open spec fn line_texts(lines: Seq<String>) -> Seq<Seq<char>> {
    Seq::new(lines.len(), |i: int| lines[i]@)
}

proof fn lemma_line_texts_push(lines: Seq<String>, s: String)
    ensures
        line_texts(lines.push(s)) == line_texts(lines).push(s@),
{
    assert(line_texts(lines.push(s)) =~= line_texts(lines).push(s@));
}

// ---------------------------------------------------------------------------
// Headers
// ---------------------------------------------------------------------------

/// The name of a byte order.
pub open spec fn endianness_text(e: Endianness) -> Seq<char> {
    match e {
        Endianness::Little => "Little"@,
        Endianness::Big => "Big"@,
    }
}

/// The name of a pointer width.
pub open spec fn width_text(w: PointerWidth) -> Seq<char> {
    match w {
        PointerWidth::P32 => "P32"@,
        PointerWidth::P64 => "P64"@,
    }
}

/// The line about a section.
pub open spec fn section_line_text(i: nat, s: Section) -> Seq<char> {
    "  ["@ + decimal_text(i) + "] "@ + s.header.compression.text() + ": "@ + decimal_text(
        s.header.compressed_size as nat,
    ) + " -> "@ + decimal_text(s.header.uncompressed_size as nat) + " bytes, base=0x"@ + hex_text(
        s.base_address as nat,
    ) + ", relocs="@ + decimal_text(s.header.num_relocations as nat) + ", marshal="@
        + decimal_text(s.header.num_mixed_marshalling as nat)
}

/// The lines about the header, and the title of the list of sections.
pub open spec fn header_texts(f: Gr2File) -> Seq<Seq<char>> {
    seq![
        "=== GR2 Header ==="@,
        "  Format: "@ + endianness_text(f.magic.format.endianness) + " "@ + width_text(
            f.magic.format.pointer_width,
        ),
        "  "@ + f.header.text(),
        "  Root type: section "@ + decimal_text(f.header.root_type.section as nat)
            + " offset 0x"@ + hex_text(f.header.root_type.offset as nat),
        "  Root node: section "@ + decimal_text(f.header.root_node.section as nat)
            + " offset 0x"@ + hex_text(f.header.root_node.offset as nat),
        ""@,
        "=== Sections ==="@,
    ]
}

/// The lines about the header, the sections and the flat buffer.
pub open spec fn summary_texts(f: Gr2File) -> Seq<Seq<char>> {
    header_texts(f) + Seq::new(
        f.sections@.len(),
        |i: int| section_line_text(i as nat, f.sections@[i]),
    ) + seq![
        ""@,
        "=== Flat buffer: "@ + decimal_text(f.flat@.len()) + " bytes ==="@,
    ]
}

fn section_line(i: usize, s: &Section) -> (r: String)
    ensures
        r@ == section_line_text(i as nat, *s),
{
    let mut t = "  [".to_string();
    t.append(decimal(i as u64).as_str());
    t.append("] ");
    t.append(s.header.compression.to_string().as_str());
    t.append(": ");
    t.append(decimal(s.header.compressed_size as u64).as_str());
    t.append(" -> ");
    t.append(decimal(s.header.uncompressed_size as u64).as_str());
    t.append(" bytes, base=0x");
    t.append(hex(s.base_address as u64).as_str());
    t.append(", relocs=");
    t.append(decimal(s.header.num_relocations as u64).as_str());
    t.append(", marshal=");
    t.append(decimal(s.header.num_mixed_marshalling as u64).as_str());
    t
}

/// The lines about the header, the sections and the flat buffer.
pub fn summary_lines(f: &Gr2File) -> (r: Vec<String>)
    ensures
        line_texts(r@) == summary_texts(*f),
{
    let mut lines: Vec<String> = Vec::new();
    lines.push("=== GR2 Header ===".to_string());

    let mut format = "  Format: ".to_string();
    format.append(
        match f.magic.format.endianness {
            Endianness::Little => "Little",
            Endianness::Big => "Big",
        },
    );
    format.append(" ");
    format.append(
        match f.magic.format.pointer_width {
            PointerWidth::P32 => "P32",
            PointerWidth::P64 => "P64",
        },
    );
    lines.push(format);

    let mut header = "  ".to_string();
    header.append(f.header.to_string().as_str());
    lines.push(header);

    let mut root_type = "  Root type: section ".to_string();
    root_type.append(decimal(f.header.root_type.section as u64).as_str());
    root_type.append(" offset 0x");
    root_type.append(hex(f.header.root_type.offset as u64).as_str());
    lines.push(root_type);

    let mut root_node = "  Root node: section ".to_string();
    root_node.append(decimal(f.header.root_node.section as u64).as_str());
    root_node.append(" offset 0x");
    root_node.append(hex(f.header.root_node.offset as u64).as_str());
    lines.push(root_node);

    lines.push("".to_string());
    lines.push("=== Sections ===".to_string());
    let ghost top = line_texts(lines@);
    assert(top =~= header_texts(*f));
    let ghost sections = Seq::new(
        f.sections@.len(),
        |i: int| section_line_text(i as nat, f.sections@[i]),
    );
    let mut i: usize = 0;
    while i < f.sections.len()
        invariant
            i <= f.sections@.len(),
            sections == Seq::new(
                f.sections@.len(),
                |i: int| section_line_text(i as nat, f.sections@[i]),
            ),
            line_texts(lines@) == top + sections.take(i as int),
        decreases f.sections@.len() - i,
    {
        let line = section_line(i, &f.sections[i]);
        proof {
            lemma_line_texts_push(lines@, line);
            assert(sections.take(i + 1) =~= sections.take(i as int).push(line@));
        }
        lines.push(line);
        i = i + 1;
        assert(line_texts(lines@) =~= top + sections.take(i as int));
    }
    lines.push("".to_string());
    let mut flat = "=== Flat buffer: ".to_string();
    flat.append(decimal(f.flat.len() as u64).as_str());
    flat.append(" bytes ===");
    lines.push(flat);
    assert(sections.take(i as int) =~= sections);
    assert(line_texts(lines@) =~= summary_texts(*f));
    lines
}

// ---------------------------------------------------------------------------
// Type definitions
// ---------------------------------------------------------------------------

/// The array size of a member, in brackets, where it has one.
pub open spec fn array_text(n: u32) -> Seq<char> {
    if n > 0 {
        "["@ + decimal_text(n as nat) + "]"@
    } else {
        Seq::empty()
    }
}

/// The line about a member.
pub open spec fn member_text(m: MemberModel, indent: Seq<char>) -> Seq<char> {
    indent + padded_text(m.name, 30) + " : "@ + m.member_type.text() + array_text(m.array_size)
}

/// The line about a member of the root type, with the place of its own definition.
pub open spec fn root_member_text(m: MemberModel) -> Seq<char> {
    member_text(m, "  "@) + if m.children_ptr > 0 {
        " -> children@0x"@ + hex_text(m.children_ptr as nat)
    } else {
        Seq::empty()
    }
}

/// Whether the definition behind a member is listed.
pub open spec fn lists_children(image: Image, m: MemberModel) -> bool {
    &&& 0 < m.children_ptr < image.flat.len()
    &&& m.member_type == MemberType::Inline || m.member_type == MemberType::Reference
        || m.member_type == MemberType::ReferenceToArray || m.member_type
        == MemberType::ArrayOfReferences
}

/// The definition behind a member and those below it, three levels deep.
pub open spec fn child_type_texts(image: Image, m: MemberModel, depth: int) -> Seq<Seq<char>>
    decreases 4 - depth, 0int,
{
    if depth > 3 || !lists_children(image, m) {
        Seq::empty()
    } else {
        match image.struct_at(m.children_ptr as int) {
            Err(e) => Seq::empty(),
            Ok(children) => if children.len() == 0 {
                Seq::empty()
            } else {
                let indent = spaces((2 * (depth + 1)) as nat);
                seq![indent + "["@ + m.name + "]:"@] + Seq::new(
                    children.len(),
                    |i: int| member_text(children[i], indent + "  "@),
                ) + children_texts(image, children, children.len() as int, depth + 1)
            },
        }
    }
}

/// The definitions behind the first `k` members.
pub open spec fn children_texts(image: Image, members: Seq<MemberModel>, k: int, depth: int) -> Seq<
    Seq<char>,
>
    decreases 4 - depth, k + 1,
{
    if k <= 0 {
        Seq::empty()
    } else {
        children_texts(image, members, k - 1, depth) + child_type_texts(
            image,
            members[k - 1],
            depth,
        )
    }
}

/// The title of the listing of the struct defined at `type_off`, behind an empty line.
pub open spec fn type_title(type_off: int) -> Seq<Seq<char>> {
    seq![""@, "=== Root Type Definition (at 0x"@ + hex_text(type_off as nat) + ") ==="@]
}

/// The listing of the struct defined at `type_off`.
pub open spec fn type_texts(image: Image, type_off: int, members: Seq<MemberModel>) -> Seq<
    Seq<char>,
> {
    type_title(type_off) + Seq::new(members.len(), |i: int| root_member_text(members[i]))
        + children_texts(image, members, members.len() as int, 1)
}

/// A listing, and the error that ends it early, if any.
pub struct TypeListing {
    pub lines: Vec<String>,
    pub error: Option<Error>,
}

fn member_line(m: &MemberDef, indent: &str) -> (r: String)
    ensures
        r@ == member_text(m@, indent@),
{
    let mut s = indent.to_string();
    s.append(padded(m.name.as_str(), 30).as_str());
    s.append(" : ");
    s.append(m.member_type.to_string().as_str());
    let ghost head = s@;
    if m.array_size > 0 {
        s.append("[");
        s.append(decimal(m.array_size as u64).as_str());
        s.append("]");
    }
    assert(s@ =~= head + array_text(m.array_size));
    s
}

fn root_member_line(m: &MemberDef) -> (r: String)
    ensures
        r@ == root_member_text(m@),
{
    let mut s = member_line(m, "  ");
    if m.children_ptr > 0 {
        s.append(" -> children@0x");
        s.append(hex(m.children_ptr as u64).as_str());
    }
    assert(s@ =~= root_member_text(m@));
    s
}

/// Appends the listing of the definition behind a member.
fn push_child_type(f: &Gr2File, m: &MemberDef, depth: usize, lines: &mut Vec<String>)
    ensures
        line_texts(final(lines)@) == line_texts(old(lines)@) + child_type_texts(
            f.image(),
            m@,
            depth as int,
        ),
    decreases 4 - depth, 0int,
{
    let ghost image = f.image();
    let ghost before = line_texts(lines@);
    assert(before + Seq::empty() =~= before);
    if depth > 3 {
        return;
    }
    if m.children_ptr == 0 || m.children_ptr >= f.flat.len() {
        return;
    }
    match m.member_type {
        MemberType::Inline
        | MemberType::Reference
        | MemberType::ReferenceToArray
        | MemberType::ArrayOfReferences => {},
        _ => {
            return;
        },
    }
    let children = match f.walk_struct_def(m.children_ptr) {
        Ok(children) => children,
        Err(_) => {
            return;
        },
    };
    if children.len() == 0 {
        return;
    }
    let ghost models = member_models(children@);
    let mut indent = String::new();
    push_spaces(&mut indent, 2 * (depth + 1));
    let ghost pad = spaces((2 * (depth + 1)) as nat);
    assert(indent@ =~= pad);
    let mut head = indent.clone();
    head.append("[");
    head.append(m.name.as_str());
    head.append("]:");
    proof {
        lemma_line_texts_push(lines@, head);
    }
    lines.push(head);
    indent.append("  ");
    let ghost top = line_texts(lines@);
    let ghost rows = Seq::new(models.len(), |i: int| member_text(models[i], pad + "  "@));
    let mut i: usize = 0;
    while i < children.len()
        invariant
            i <= children@.len(),
            models == member_models(children@),
            indent@ == pad + "  "@,
            rows == Seq::new(models.len(), |i: int| member_text(models[i], pad + "  "@)),
            line_texts(lines@) == top + rows.take(i as int),
        decreases children@.len() - i,
    {
        let line = member_line(&children[i], indent.as_str());
        proof {
            lemma_line_texts_push(lines@, line);
            assert(rows.take(i + 1) =~= rows.take(i as int).push(line@));
        }
        lines.push(line);
        i = i + 1;
        assert(line_texts(lines@) =~= top + rows.take(i as int));
    }
    push_children(f, &children, depth + 1, lines);
    assert(line_texts(lines@) =~= before + child_type_texts(image, m@, depth as int));
}

/// Appends the listings of the definitions behind all members.
fn push_children(f: &Gr2File, members: &Vec<MemberDef>, depth: usize, lines: &mut Vec<String>)
    requires
        depth <= 4,
    ensures
        line_texts(final(lines)@) == line_texts(old(lines)@) + children_texts(
            f.image(),
            member_models(members@),
            members@.len() as int,
            depth as int,
        ),
    decreases 4 - depth, 1int,
{
    let ghost image = f.image();
    let ghost models = member_models(members@);
    let ghost before = line_texts(lines@);
    let mut i: usize = 0;
    assert(before + Seq::empty() =~= before);
    while i < members.len()
        invariant
            i <= members@.len(),
            depth <= 4,
            image == f.image(),
            models == member_models(members@),
            line_texts(lines@) == before + children_texts(image, models, i as int, depth as int),
        decreases members@.len() - i,
    {
        push_child_type(f, &members[i], depth, lines);
        i = i + 1;
        assert(line_texts(lines@) =~= before + children_texts(
            image,
            models,
            i as int,
            depth as int,
        ));
    }
}

/// Lists the definition of the root type: nothing where the header points nowhere, the title
/// alone where the definition cannot be read.
pub fn type_lines(f: &Gr2File) -> (r: TypeListing)
    ensures
        match f.target(f.header.root_type) {
            None => r.lines@.len() == 0 && r.error is None,
            Some(off) => match f.image().struct_at(off as int) {
                Err(e) => line_texts(r.lines@) == type_title(off as int) && r.error is Some
                    && r.error->Some_0@ == e,
                Ok(members) => line_texts(r.lines@) == type_texts(f.image(), off as int, members)
                    && r.error is None,
            },
        },
{
    let mut lines: Vec<String> = Vec::new();
    let type_offset: usize = match f.resolve_ref(f.header.root_type) {
        Some(off) => off,
        None => {
            return TypeListing { lines, error: None };
        },
    };
    lines.push("".to_string());
    let mut title = "=== Root Type Definition (at 0x".to_string();
    title.append(hex(type_offset as u64).as_str());
    title.append(") ===");
    lines.push(title);
    let ghost top = line_texts(lines@);
    assert(top =~= type_title(type_offset as int));
    let members = match f.walk_struct_def(type_offset) {
        Ok(members) => members,
        Err(e) => {
            return TypeListing { lines, error: Some(e) };
        },
    };
    let ghost models = member_models(members@);
    let ghost rows = Seq::new(models.len(), |i: int| root_member_text(models[i]));
    let mut i: usize = 0;
    while i < members.len()
        invariant
            i <= members@.len(),
            models == member_models(members@),
            rows == Seq::new(models.len(), |i: int| root_member_text(models[i])),
            line_texts(lines@) == top + rows.take(i as int),
        decreases members@.len() - i,
    {
        let line = root_member_line(&members[i]);
        proof {
            lemma_line_texts_push(lines@, line);
            assert(rows.take(i + 1) =~= rows.take(i as int).push(line@));
        }
        lines.push(line);
        i = i + 1;
        assert(line_texts(lines@) =~= top + rows.take(i as int));
    }
    push_children(f, &members, 1, &mut lines);
    assert(line_texts(lines@) =~= type_texts(f.image(), type_offset as int, models));
    TypeListing { lines, error: None }
}

// ---------------------------------------------------------------------------
// Fields
// ---------------------------------------------------------------------------

/// The start of the line about a field with a plain value.
pub open spec fn field_head(name: Seq<char>, indent: Seq<char>) -> Seq<char> {
    indent + padded_text(name, 30)
}

/// The line about a field whose value takes one line.
pub open spec fn plain_line(field: FieldModel, indent: Seq<char>) -> Seq<char> {
    let head = field_head(field.name, indent);
    match field.value {
        ValueModel::Int8(v) => head + " = "@ + signed_text(v as int),
        ValueModel::UInt8(v) => head + " = "@ + decimal_text(v as nat),
        ValueModel::Int16(v) => head + " = "@ + signed_text(v as int),
        ValueModel::UInt16(v) => head + " = "@ + decimal_text(v as nat),
        ValueModel::Int32(v) => head + " = "@ + signed_text(v as int),
        ValueModel::UInt32(v) => head + " = "@ + decimal_text(v as nat),
        ValueModel::Real16(v) => head + " = 0x"@ + padded_lower_hex_text(v as nat, 4) + " (f16)"@,
        ValueModel::Real32(v) => head + " = "@ + v.text(),
        ValueModel::String(Some(s)) => head + " = \""@ + s + "\""@,
        ValueModel::String(None) => head + " = null"@,
        ValueModel::Reference { offset } => head + " -> "@ + ptr_text(offset),
        ValueModel::ReferenceToArray { count, offset } => head + " -> ["@ + decimal_text(
            count as nat,
        ) + " items]"@ + at_text(offset),
        ValueModel::ArrayOfReferences { count, offset } => head + " -> ["@ + decimal_text(
            count as nat,
        ) + " refs]"@ + at_text(offset),
        ValueModel::VariantReference { type_offset, data_offset } => {
            head + " -> variant(type="@ + ptr_text(type_offset) + ", data="@ + ptr_text(
                data_offset,
            ) + ")"@
        },
        ValueModel::ReferenceToVariantArray { type_offset, count, data_offset } => {
            head + " -> variant_array(type="@ + ptr_text(type_offset) + ", count="@ + decimal_text(
                count as nat,
            ) + ", data="@ + ptr_text(data_offset) + ")"@
        },
        ValueModel::Transform { flags, translation, .. } => {
            head + " = Transform(flags=0x"@ + hex_text(flags as nat) + ", t="@ + float3_text(
                translation,
                0,
            ) + ")"@
        },
        ValueModel::EmptyReference => head + " = <empty ref>"@,
        ValueModel::Array(items) => head + " = ["@ + values_joined(items) + "]"@,
        ValueModel::Struct(fields) => Seq::empty(),
    }
}

/// The place of an array, where it has one.
pub open spec fn at_text(offset: Option<usize>) -> Seq<char> {
    match offset {
        Some(o) => " @ 0x"@ + hex_text(o as nat),
        None => " null"@,
    }
}

/// All items are structs.
pub open spec fn all_structs(items: Seq<ValueModel>) -> bool {
    forall|i: int| 0 <= i < items.len() ==> #[trigger] items[i] is Struct
}

/// The lines about a field: one for a plain value; for a struct, its name and the lines of its
/// fields below it; for an array of structs, its name and each of them below it.
pub open spec fn field_texts(field: FieldModel, indent: Seq<char>) -> Seq<Seq<char>>
    decreases field,
{
    match field.value {
        ValueModel::Struct(fields) => seq![indent + field.name + ":"@]
            + fields_texts(fields, indent + "  "@),
        ValueModel::Array(items) => if all_structs(items) {
            seq![indent + field.name + " ["@ + decimal_text(items.len()) + " structs]:"@]
                + items_texts(items, indent + "  "@)
        } else {
            seq![plain_line(field, indent)]
        },
        _ => seq![plain_line(field, indent)],
    }
}

/// The lines about fields, one after another.
pub open spec fn fields_texts(fields: Seq<FieldModel>, indent: Seq<char>) -> Seq<Seq<char>>
    decreases fields,
{
    if fields.len() == 0 {
        Seq::empty()
    } else {
        fields_texts(fields.drop_last(), indent) + field_texts(fields.last(), indent)
    }
}

/// The lines about the structs of an array, each behind its number.
pub open spec fn items_texts(items: Seq<ValueModel>, indent: Seq<char>) -> Seq<Seq<char>>
    decreases items,
{
    if items.len() == 0 {
        Seq::empty()
    } else {
        items_texts(items.drop_last(), indent) + match items.last() {
            ValueModel::Struct(fields) => seq![
                indent + "["@ + decimal_text((items.len() - 1) as nat) + "]:"@,
            ] + fields_texts(fields, indent + "  "@),
            _ => Seq::empty(),
        }
    }
}

/// The place of an array, where it has one.
fn push_at(s: &mut String, offset: Option<usize>)
    ensures
        final(s)@ == old(s)@ + at_text(offset),
{
    match offset {
        Some(o) => {
            s.append(" @ 0x");
            s.append(hex(o as u64).as_str());
        },
        None => {
            s.append(" null");
        },
    }
    assert(s@ =~= old(s)@ + at_text(offset));
}

/// The line about a field whose value takes one line.
fn plain_field_line(field: &Field, indent: &str) -> (r: String)
    requires
        !(field.value is Struct),
    ensures
        r@ == plain_line(field@, indent@),
{
    let mut s = indent.to_string();
    s.append(padded(field.name.as_str(), 30).as_str());
    match &field.value {
        Value::Int8(v) => {
            s.append(" = ");
            s.append(signed(*v as i32).as_str());
            s
        },
        Value::UInt8(v) => {
            s.append(" = ");
            s.append(decimal(*v as u64).as_str());
            s
        },
        Value::Int16(v) => {
            s.append(" = ");
            s.append(signed(*v as i32).as_str());
            s
        },
        Value::UInt16(v) => {
            s.append(" = ");
            s.append(decimal(*v as u64).as_str());
            s
        },
        Value::Int32(v) => {
            s.append(" = ");
            s.append(signed(*v).as_str());
            s
        },
        Value::UInt32(v) => {
            s.append(" = ");
            s.append(decimal(*v as u64).as_str());
            s
        },
        Value::Real16(v) => {
            s.append(" = 0x");
            s.append(hex4(*v).as_str());
            s.append(" (f16)");
            s
        },
        Value::Real32(v) => {
            s.append(" = ");
            s.append(v.to_string().as_str());
            s
        },
        Value::String(Some(t)) => {
            s.append(" = \"");
            s.append(t.as_str());
            s.append("\"");
            s
        },
        Value::String(None) => {
            s.append(" = null");
            s
        },
        Value::Reference { offset } => {
            s.append(" -> ");
            s.append(fmt_ptr(*offset).as_str());
            s
        },
        Value::ReferenceToArray { count, offset } => {
            s.append(" -> [");
            s.append(decimal(*count as u64).as_str());
            s.append(" items]");
            push_at(&mut s, *offset);
            s
        },
        Value::ArrayOfReferences { count, offset } => {
            s.append(" -> [");
            s.append(decimal(*count as u64).as_str());
            s.append(" refs]");
            push_at(&mut s, *offset);
            s
        },
        Value::VariantReference { type_offset, data_offset } => {
            s.append(" -> variant(type=");
            s.append(fmt_ptr(*type_offset).as_str());
            s.append(", data=");
            s.append(fmt_ptr(*data_offset).as_str());
            s.append(")");
            s
        },
        Value::ReferenceToVariantArray { type_offset, count, data_offset } => {
            s.append(" -> variant_array(type=");
            s.append(fmt_ptr(*type_offset).as_str());
            s.append(", count=");
            s.append(decimal(*count as u64).as_str());
            s.append(", data=");
            s.append(fmt_ptr(*data_offset).as_str());
            s.append(")");
            s
        },
        Value::Transform { flags, translation, .. } => {
            s.append(" = Transform(flags=0x");
            s.append(hex(*flags as u64).as_str());
            s.append(", t=");
            push_float3(&mut s, translation);
            s.append(")");
            s
        },
        Value::EmptyReference => {
            s.append(" = <empty ref>");
            s
        },
        Value::Array(items) => {
            s.append(" = [");
            push_values(&mut s, items);
            s.append("]");
            s
        },
        Value::Struct(_) => String::new(),
    }
}

/// Whether all items are structs.
fn only_structs(items: &Vec<Value>) -> (r: bool)
    ensures
        r == all_structs(value_models(items@)),
{
    proof {
        lemma_value_models(items@);
    }
    let ghost models = value_models(items@);
    let mut i: usize = 0;
    while i < items.len()
        invariant
            i <= items@.len(),
            models == value_models(items@),
            models.len() == items@.len(),
            forall|k: int| 0 <= k < items@.len() ==> #[trigger] models[k] == items@[k]@,
            forall|k: int| 0 <= k < i ==> #[trigger] models[k] is Struct,
        decreases items@.len() - i,
    {
        match &items[i] {
            Value::Struct(_) => {
                assert(models[i as int] is Struct);
            },
            _ => {
                assert(!(models[i as int] is Struct));
                return false;
            },
        }
        i = i + 1;
    }
    true
}

/// Appends the lines about a field.
fn push_field(field: &Field, indent: &str, lines: &mut Vec<String>)
    ensures
        line_texts(final(lines)@) == line_texts(old(lines)@) + field_texts(field@, indent@),
    decreases field,
{
    let ghost before = line_texts(lines@);
    match &field.value {
        Value::Struct(fields) => {
            let mut s = indent.to_string();
            s.append(field.name.as_str());
            s.append(":");
            proof {
                lemma_line_texts_push(lines@, s);
            }
            lines.push(s);
            let mut inner = indent.to_string();
            inner.append("  ");
            push_fields(fields, inner.as_str(), lines);
        },
        Value::Array(items) => {
            if only_structs(items) {
                let mut s = indent.to_string();
                s.append(field.name.as_str());
                s.append(" [");
                s.append(decimal(items.len() as u64).as_str());
                s.append(" structs]:");
                proof {
                    lemma_value_models(items@);
                    lemma_line_texts_push(lines@, s);
                }
                lines.push(s);
                let mut inner = indent.to_string();
                inner.append("  ");
                push_items(items, inner.as_str(), lines);
            } else {
                let line = plain_field_line(field, indent);
                proof {
                    lemma_line_texts_push(lines@, line);
                }
                lines.push(line);
            }
        },
        _ => {
            let line = plain_field_line(field, indent);
            proof {
                lemma_line_texts_push(lines@, line);
            }
            lines.push(line);
        },
    }
    assert(line_texts(lines@) =~= before + field_texts(field@, indent@));
}

/// Appends the lines about fields, one after another.
fn push_fields(fields: &Vec<Field>, indent: &str, lines: &mut Vec<String>)
    ensures
        line_texts(final(lines)@) == line_texts(old(lines)@) + fields_texts(
            field_models(fields@),
            indent@,
        ),
    decreases fields,
{
    let ghost before = line_texts(lines@);
    let mut i: usize = 0;
    assert(field_models(fields@.take(0)) =~= Seq::empty());
    assert(before + Seq::empty() =~= before);
    while i < fields.len()
        invariant
            i <= fields@.len(),
            line_texts(lines@) == before + fields_texts(
                field_models(fields@.take(i as int)),
                indent@,
            ),
        decreases fields@.len() - i,
    {
        assert(decreases_to!(fields => fields@[i as int]));
        push_field(&fields[i], indent, lines);
        proof {
            let head = fields@.take(i as int);
            let f = fields@[i as int];
            assert(fields@.take(i + 1) =~= head.push(f));
            lemma_field_models_push(head, f);
            assert(field_models(head).push(f@).drop_last() =~= field_models(head));
        }
        i = i + 1;
        assert(line_texts(lines@) =~= before + fields_texts(
            field_models(fields@.take(i as int)),
            indent@,
        ));
    }
    assert(fields@.take(i as int) =~= fields@);
}

/// Appends the lines about the structs of an array, each behind its number.
fn push_items(items: &Vec<Value>, indent: &str, lines: &mut Vec<String>)
    ensures
        line_texts(final(lines)@) == line_texts(old(lines)@) + items_texts(
            value_models(items@),
            indent@,
        ),
    decreases items,
{
    let ghost before = line_texts(lines@);
    let mut i: usize = 0;
    assert(value_models(items@.take(0)) =~= Seq::empty());
    assert(before + Seq::empty() =~= before);
    while i < items.len()
        invariant
            i <= items@.len(),
            line_texts(lines@) == before + items_texts(
                value_models(items@.take(i as int)),
                indent@,
            ),
        decreases items@.len() - i,
    {
        assert(decreases_to!(items => items@[i as int]));
        if let Value::Struct(fields) = &items[i] {
            let mut s = indent.to_string();
            s.append("[");
            s.append(decimal(i as u64).as_str());
            s.append("]:");
            proof {
                lemma_line_texts_push(lines@, s);
            }
            lines.push(s);
            let mut inner = indent.to_string();
            inner.append("  ");
            push_fields(fields, inner.as_str(), lines);
        }
        proof {
            let head = items@.take(i as int);
            let v = items@[i as int];
            assert(items@.take(i + 1) =~= head.push(v));
            lemma_value_models_push(head, v);
            lemma_value_models(head);
            assert(value_models(head).push(v@).drop_last() =~= value_models(head));
        }
        i = i + 1;
        assert(line_texts(lines@) =~= before + items_texts(
            value_models(items@.take(i as int)),
            indent@,
        ));
    }
    assert(items@.take(i as int) =~= items@);
}

/// Lists fields, one level in.
pub fn field_lines(fields: &Vec<Field>) -> (r: Vec<String>)
    ensures
        line_texts(r@) == fields_texts(field_models(fields@), "  "@),
{
    let mut lines: Vec<String> = Vec::new();
    push_fields(fields, "  ", &mut lines);
    assert(line_texts(lines@) =~= fields_texts(field_models(fields@), "  "@));
    lines
}

} // verus!
