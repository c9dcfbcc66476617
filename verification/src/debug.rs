//! Values as text for debugging: the name of the variant and what it holds.
use crate::element::{
    field_models, lemma_field_models_push, lemma_value_models_push, value_models, Field,
    FieldModel, Float32, Value, ValueModel,
};
use crate::text::{
    decimal, decimal_text, signed, signed_text,
};
use vstd::prelude::*;
use vstd::string::*;

verus! {

/// The text that the standard library shows a string as for debugging: in quotes, with special
/// characters escaped.
pub uninterp spec fn quoted_text(s: Seq<char>) -> Seq<char>;

/// Shows a string in quotes, with special characters escaped. Calls `format!` with the `{:?}`
/// placeholder for a string, whose output is taken to depend on the string alone.
#[verifier::external_body]
fn quoted(s: &str) -> (r: String)
    ensures
        r@ == quoted_text(s@),
{
    format!("{:?}", s)
}

/// An optional offset.
pub open spec fn offset_text(o: Option<usize>) -> Seq<char> {
    match o {
        Some(n) => "Some("@ + decimal_text(n as nat) + ")"@,
        None => "None"@,
    }
}

/// Three floating-point numbers from entry `k` on, as a list.
pub open spec fn float3_text(s: Seq<Float32>, k: int) -> Seq<char> {
    "["@ + s[k].debug_text() + ", "@ + s[k + 1].debug_text() + ", "@ + s[k + 2].debug_text() + "]"@
}

/// Four floating-point numbers as a list.
pub open spec fn float4_text(s: Seq<Float32>) -> Seq<char> {
    "["@ + s[0].debug_text() + ", "@ + s[1].debug_text() + ", "@ + s[2].debug_text() + ", "@
        + s[3].debug_text() + "]"@
}

/// A field: its name, type and value.
pub open spec fn field_text(f: FieldModel) -> Seq<char>
    decreases f,
{
    "Field { name: "@ + quoted_text(f.name) + ", member_type: "@ + f.member_type.text()
        + ", value: "@ + debug_text(f.value) + " }"@
}

/// Fields with commas between them.
pub open spec fn fields_joined(fields: Seq<FieldModel>) -> Seq<char>
    decreases fields,
{
    if fields.len() == 0 {
        Seq::empty()
    } else if fields.len() == 1 {
        field_text(fields.last())
    } else {
        fields_joined(fields.drop_last()) + ", "@ + field_text(fields.last())
    }
}

/// Values with commas between them.
pub open spec fn values_joined(items: Seq<ValueModel>) -> Seq<char>
    decreases items,
{
    if items.len() == 0 {
        Seq::empty()
    } else if items.len() == 1 {
        debug_text(items.last())
    } else {
        values_joined(items.drop_last()) + ", "@ + debug_text(items.last())
    }
}

/// The text that a value is shown as for debugging.
pub open spec fn debug_text(v: ValueModel) -> Seq<char>
    decreases v,
{
    match v {
        ValueModel::Int8(v) => "Int8("@ + signed_text(v as int) + ")"@,
        ValueModel::UInt8(v) => "UInt8("@ + decimal_text(v as nat) + ")"@,
        ValueModel::Int16(v) => "Int16("@ + signed_text(v as int) + ")"@,
        ValueModel::UInt16(v) => "UInt16("@ + decimal_text(v as nat) + ")"@,
        ValueModel::Int32(v) => "Int32("@ + signed_text(v as int) + ")"@,
        ValueModel::UInt32(v) => "UInt32("@ + decimal_text(v as nat) + ")"@,
        ValueModel::Real16(v) => "Real16("@ + decimal_text(v as nat) + ")"@,
        ValueModel::Real32(v) => "Real32("@ + v.debug_text() + ")"@,
        ValueModel::String(None) => "String(None)"@,
        ValueModel::String(Some(s)) => "String(Some("@ + quoted_text(s) + "))"@,
        ValueModel::Struct(fields) => "Struct(["@ + fields_joined(fields) + "])"@,
        ValueModel::Reference { offset } => "Reference { offset: "@ + offset_text(offset) + " }"@,
        ValueModel::ReferenceToArray { count, offset } => "ReferenceToArray { count: "@
            + decimal_text(count as nat) + ", offset: "@ + offset_text(offset) + " }"@,
        ValueModel::ArrayOfReferences { count, offset } => "ArrayOfReferences { count: "@
            + decimal_text(count as nat) + ", offset: "@ + offset_text(offset) + " }"@,
        ValueModel::VariantReference { type_offset, data_offset } => {
            "VariantReference { type_offset: "@ + offset_text(type_offset) + ", data_offset: "@
                + offset_text(data_offset) + " }"@
        },
        ValueModel::ReferenceToVariantArray { type_offset, count, data_offset } => {
            "ReferenceToVariantArray { type_offset: "@ + offset_text(type_offset) + ", count: "@
                + decimal_text(count as nat) + ", data_offset: "@ + offset_text(data_offset)
                + " }"@
        },
        ValueModel::Transform { flags, translation, rotation, scale_shear } => {
            "Transform { flags: "@ + decimal_text(flags as nat) + ", translation: "@ + float3_text(
                translation,
                0,
            ) + ", rotation: "@ + float4_text(rotation) + ", scale_shear: ["@ + float3_text(
                scale_shear,
                0,
            ) + ", "@ + float3_text(scale_shear, 3) + ", "@ + float3_text(scale_shear, 6) + "] }"@
        },
        ValueModel::EmptyReference => "EmptyReference"@,
        ValueModel::Array(items) => "Array(["@ + values_joined(items) + "])"@,
    }
}

fn push_offset(s: &mut String, o: Option<usize>)
    ensures
        final(s)@ == old(s)@ + offset_text(o),
{
    match o {
        Some(n) => {
            s.append("Some(");
            s.append(decimal(n as u64).as_str());
            s.append(")");
        },
        None => {
            s.append("None");
        },
    }
    assert(s@ =~= old(s)@ + offset_text(o));
}

/// Appends three floating-point numbers as a list.
pub(crate) fn push_float3(s: &mut String, v: &[Float32; 3])
    ensures
        final(s)@ == old(s)@ + float3_text(v@, 0),
{
    s.append("[");
    s.append(v[0].to_debug_string().as_str());
    s.append(", ");
    s.append(v[1].to_debug_string().as_str());
    s.append(", ");
    s.append(v[2].to_debug_string().as_str());
    s.append("]");
    assert(s@ =~= old(s)@ + float3_text(v@, 0));
}

fn push_float4(s: &mut String, v: &[Float32; 4])
    ensures
        final(s)@ == old(s)@ + float4_text(v@),
{
    s.append("[");
    s.append(v[0].to_debug_string().as_str());
    s.append(", ");
    s.append(v[1].to_debug_string().as_str());
    s.append(", ");
    s.append(v[2].to_debug_string().as_str());
    s.append(", ");
    s.append(v[3].to_debug_string().as_str());
    s.append("]");
    assert(s@ =~= old(s)@ + float4_text(v@));
}

fn push_field(s: &mut String, f: &Field)
    ensures
        final(s)@ == old(s)@ + field_text(f@),
    decreases f,
{
    s.append("Field { name: ");
    s.append(quoted(f.name.as_str()).as_str());
    s.append(", member_type: ");
    s.append(f.member_type.to_string().as_str());
    s.append(", value: ");
    s.append(debug_string(&f.value).as_str());
    s.append(" }");
    assert(s@ =~= old(s)@ + field_text(f@));
}

fn push_fields(s: &mut String, fields: &Vec<Field>)
    ensures
        final(s)@ == old(s)@ + fields_joined(field_models(fields@)),
    decreases fields,
{
    let mut i: usize = 0;
    assert(field_models(fields@.take(0)) =~= Seq::empty());
    assert(s@ =~= old(s)@ + Seq::empty());
    while i < fields.len()
        invariant
            i <= fields@.len(),
            s@ == old(s)@ + fields_joined(field_models(fields@.take(i as int))),
            field_models(fields@.take(i as int)).len() == i,
        decreases fields@.len() - i,
    {
        assert(decreases_to!(fields => fields@[i as int]));
        if i > 0 {
            s.append(", ");
        }
        push_field(s, &fields[i]);
        proof {
            let head = fields@.take(i as int);
            let f = fields@[i as int];
            assert(fields@.take(i + 1) =~= head.push(f));
            lemma_field_models_push(head, f);
            assert(field_models(head).push(f@).drop_last() =~= field_models(head));
        }
        i = i + 1;
        assert(s@ =~= old(s)@ + fields_joined(field_models(fields@.take(i as int))));
    }
    assert(fields@.take(i as int) =~= fields@);
}

/// Appends values with commas between them.
pub(crate) fn push_values(s: &mut String, items: &Vec<Value>)
    ensures
        final(s)@ == old(s)@ + values_joined(value_models(items@)),
    decreases items,
{
    let mut i: usize = 0;
    assert(value_models(items@.take(0)) =~= Seq::empty());
    assert(s@ =~= old(s)@ + Seq::empty());
    while i < items.len()
        invariant
            i <= items@.len(),
            s@ == old(s)@ + values_joined(value_models(items@.take(i as int))),
            value_models(items@.take(i as int)).len() == i,
        decreases items@.len() - i,
    {
        assert(decreases_to!(items => items@[i as int]));
        if i > 0 {
            s.append(", ");
        }
        s.append(debug_string(&items[i]).as_str());
        proof {
            let head = items@.take(i as int);
            let v = items@[i as int];
            assert(items@.take(i + 1) =~= head.push(v));
            lemma_value_models_push(head, v);
            assert(value_models(head).push(v@).drop_last() =~= value_models(head));
        }
        i = i + 1;
        assert(s@ =~= old(s)@ + values_joined(value_models(items@.take(i as int))));
    }
    assert(items@.take(i as int) =~= items@);
}

/// The text that a value is shown as for debugging.
pub fn debug_string(value: &Value) -> (r: String)
    ensures
        r@ == debug_text(value@),
    decreases value,
{
    match value {
        Value::Int8(v) => {
            let mut s = "Int8(".to_string();
            s.append(signed(*v as i32).as_str());
            s.append(")");
            s
        },
        Value::UInt8(v) => {
            let mut s = "UInt8(".to_string();
            s.append(decimal(*v as u64).as_str());
            s.append(")");
            s
        },
        Value::Int16(v) => {
            let mut s = "Int16(".to_string();
            s.append(signed(*v as i32).as_str());
            s.append(")");
            s
        },
        Value::UInt16(v) => {
            let mut s = "UInt16(".to_string();
            s.append(decimal(*v as u64).as_str());
            s.append(")");
            s
        },
        Value::Int32(v) => {
            let mut s = "Int32(".to_string();
            s.append(signed(*v).as_str());
            s.append(")");
            s
        },
        Value::UInt32(v) => {
            let mut s = "UInt32(".to_string();
            s.append(decimal(*v as u64).as_str());
            s.append(")");
            s
        },
        Value::Real16(v) => {
            let mut s = "Real16(".to_string();
            s.append(decimal(*v as u64).as_str());
            s.append(")");
            s
        },
        Value::Real32(v) => {
            let mut s = "Real32(".to_string();
            s.append(v.to_debug_string().as_str());
            s.append(")");
            s
        },
        Value::String(None) => "String(None)".to_string(),
        Value::String(Some(t)) => {
            let mut s = "String(Some(".to_string();
            s.append(quoted(t.as_str()).as_str());
            s.append("))");
            s
        },
        Value::Struct(fields) => {
            let mut s = "Struct([".to_string();
            push_fields(&mut s, fields);
            s.append("])");
            s
        },
        Value::Reference { offset } => {
            let mut s = "Reference { offset: ".to_string();
            push_offset(&mut s, *offset);
            s.append(" }");
            s
        },
        Value::ReferenceToArray { count, offset } => {
            let mut s = "ReferenceToArray { count: ".to_string();
            s.append(decimal(*count as u64).as_str());
            s.append(", offset: ");
            push_offset(&mut s, *offset);
            s.append(" }");
            s
        },
        Value::ArrayOfReferences { count, offset } => {
            let mut s = "ArrayOfReferences { count: ".to_string();
            s.append(decimal(*count as u64).as_str());
            s.append(", offset: ");
            push_offset(&mut s, *offset);
            s.append(" }");
            s
        },
        Value::VariantReference { type_offset, data_offset } => {
            let mut s = "VariantReference { type_offset: ".to_string();
            push_offset(&mut s, *type_offset);
            s.append(", data_offset: ");
            push_offset(&mut s, *data_offset);
            s.append(" }");
            s
        },
        Value::ReferenceToVariantArray { type_offset, count, data_offset } => {
            let mut s = "ReferenceToVariantArray { type_offset: ".to_string();
            push_offset(&mut s, *type_offset);
            s.append(", count: ");
            s.append(decimal(*count as u64).as_str());
            s.append(", data_offset: ");
            push_offset(&mut s, *data_offset);
            s.append(" }");
            s
        },
        Value::Transform { flags, translation, rotation, scale_shear } => {
            let mut s = "Transform { flags: ".to_string();
            s.append(decimal(*flags as u64).as_str());
            s.append(", translation: ");
            push_float3(&mut s, translation);
            s.append(", rotation: ");
            push_float4(&mut s, rotation);
            s.append(", scale_shear: [");
            push_float3(&mut s, &scale_shear[0]);
            s.append(", ");
            push_float3(&mut s, &scale_shear[1]);
            s.append(", ");
            push_float3(&mut s, &scale_shear[2]);
            s.append("] }");
            s
        },
        Value::EmptyReference => "EmptyReference".to_string(),
        Value::Array(items) => {
            let mut s = "Array([".to_string();
            push_values(&mut s, items);
            s.append("])");
            s
        },
    }
}

} // verus!
