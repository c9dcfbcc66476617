//! Typed element tree for extracted struct data.
//!
//! A [`Field`] pairs a member's name and type with an extracted [`Value`]. References hold
//! offsets into the flat buffer; they are not followed.
use crate::format::MemberType;
use vstd::prelude::*;

verus! {

/// A thirty-two bit floating-point number, held as its bits.
#[derive(Debug, Clone, Copy)]
pub struct Float32 {
    pub bits: u32,
}

impl Float32 {
    /// All exponent bits are set, and some bit of the fraction is.
    pub open spec fn nan(self) -> bool {
        self.bits % 0x8000_0000 > 0x7F80_0000
    }

    /// Zero of either sign.
    pub open spec fn zero(self) -> bool {
        self.bits % 0x8000_0000 == 0
    }
}

impl PartialEq for Float32 {
    /// Equality of the numbers: the two zeros are equal, and what is not a number equals nothing.
    fn eq(&self, other: &Self) -> (r: bool) {
        let a: u32 = self.bits % 0x8000_0000;
        let b: u32 = other.bits % 0x8000_0000;
        a <= 0x7F80_0000 && b <= 0x7F80_0000 && (self.bits == other.bits || (a == 0 && b == 0))
    }
}

impl vstd::std_specs::cmp::PartialEqSpecImpl for Float32 {
    open spec fn obeys_eq_spec() -> bool {
        true
    }

    open spec fn eq_spec(&self, other: &Self) -> bool {
        !self.nan() && !other.nan() && (self.bits == other.bits || (self.zero() && other.zero()))
    }
}

#[derive(Debug, PartialEq)]
pub struct Field {
    pub name: String,
    pub member_type: MemberType,
    pub value: Value,
}

#[derive(Debug, PartialEq)]
pub enum Value {
    Int8(i8),
    UInt8(u8),
    Int16(i16),
    UInt16(u16),
    Int32(i32),
    UInt32(u32),
    /// A sixteen-bit floating-point number, as its bits.
    Real16(u16),
    Real32(Float32),
    String(Option<String>),
    Struct(Vec<Field>),
    Reference { offset: Option<usize> },
    ReferenceToArray { count: u32, offset: Option<usize> },
    ArrayOfReferences { count: u32, offset: Option<usize> },
    VariantReference { type_offset: Option<usize>, data_offset: Option<usize> },
    ReferenceToVariantArray {
        type_offset: Option<usize>,
        count: u32,
        data_offset: Option<usize>,
    },
    Transform {
        flags: u32,
        translation: [Float32; 3],
        rotation: [Float32; 4],
        scale_shear: [[Float32; 3]; 3],
    },
    EmptyReference,
    Array(Vec<Value>),
}

/// What a [`Field`] stands for.
pub struct FieldModel {
    pub name: Seq<char>,
    pub member_type: MemberType,
    pub value: ValueModel,
}

/// What a [`Value`] stands for.
pub enum ValueModel {
    Int8(i8),
    UInt8(u8),
    Int16(i16),
    UInt16(u16),
    Int32(i32),
    UInt32(u32),
    Real16(u16),
    Real32(Float32),
    String(Option<Seq<char>>),
    Struct(Seq<FieldModel>),
    Reference { offset: Option<usize> },
    ReferenceToArray { count: u32, offset: Option<usize> },
    ArrayOfReferences { count: u32, offset: Option<usize> },
    VariantReference { type_offset: Option<usize>, data_offset: Option<usize> },
    ReferenceToVariantArray {
        type_offset: Option<usize>,
        count: u32,
        data_offset: Option<usize>,
    },
    Transform {
        flags: u32,
        translation: Seq<Float32>,
        rotation: Seq<Float32>,
        scale_shear: Seq<Float32>,
    },
    EmptyReference,
    Array(Seq<ValueModel>),
}

/// The models of a sequence of fields.
pub open spec fn field_models(s: Seq<Field>) -> Seq<FieldModel>
    decreases s,
{
    if s.len() == 0 {
        Seq::empty()
    } else {
        field_models(s.drop_last()).push(s.last().model())
    }
}

/// The models of a sequence of values.
pub open spec fn value_models(s: Seq<Value>) -> Seq<ValueModel>
    decreases s,
{
    if s.len() == 0 {
        Seq::empty()
    } else {
        value_models(s.drop_last()).push(s.last().model())
    }
}

impl Field {
    pub open spec fn model(self) -> FieldModel
        decreases self,
    {
        FieldModel {
            name: self.name@,
            member_type: self.member_type,
            value: self.value.model(),
        }
    }
}

impl Value {
    pub open spec fn model(self) -> ValueModel
        decreases self,
    {
        match self {
            Value::Int8(v) => ValueModel::Int8(v),
            Value::UInt8(v) => ValueModel::UInt8(v),
            Value::Int16(v) => ValueModel::Int16(v),
            Value::UInt16(v) => ValueModel::UInt16(v),
            Value::Int32(v) => ValueModel::Int32(v),
            Value::UInt32(v) => ValueModel::UInt32(v),
            Value::Real16(v) => ValueModel::Real16(v),
            Value::Real32(v) => ValueModel::Real32(v),
            Value::String(None) => ValueModel::String(None),
            Value::String(Some(s)) => ValueModel::String(Some(s@)),
            Value::Struct(fields) => ValueModel::Struct(field_models(fields@)),
            Value::Reference { offset } => ValueModel::Reference { offset },
            Value::ReferenceToArray { count, offset } => ValueModel::ReferenceToArray {
                count,
                offset,
            },
            Value::ArrayOfReferences { count, offset } => ValueModel::ArrayOfReferences {
                count,
                offset,
            },
            Value::VariantReference { type_offset, data_offset } => ValueModel::VariantReference {
                type_offset,
                data_offset,
            },
            Value::ReferenceToVariantArray { type_offset, count, data_offset } => {
                ValueModel::ReferenceToVariantArray { type_offset, count, data_offset }
            },
            Value::Transform { flags, translation, rotation, scale_shear } => {
                ValueModel::Transform {
                    flags,
                    translation: translation@,
                    rotation: rotation@,
                    scale_shear: scale_shear@[0]@ + scale_shear@[1]@ + scale_shear@[2]@,
                }
            },
            Value::EmptyReference => ValueModel::EmptyReference,
            Value::Array(items) => ValueModel::Array(value_models(items@)),
        }
    }
}

impl View for Field {
    type V = FieldModel;

    open spec fn view(&self) -> FieldModel {
        self.model()
    }
}

impl View for Value {
    type V = ValueModel;

    open spec fn view(&self) -> ValueModel {
        self.model()
    }
}

/// The models of fields are taken one by one.
pub proof fn lemma_field_models(s: Seq<Field>)
    ensures
        field_models(s).len() == s.len(),
        forall|i: int| 0 <= i < s.len() ==> #[trigger] field_models(s)[i] == s[i]@,
    decreases s.len(),
{
    if s.len() > 0 {
        lemma_field_models(s.drop_last());
        assert forall|i: int| 0 <= i < s.len() implies #[trigger] field_models(s)[i] == s[i]@ by {
            if i < s.len() - 1 {
                assert(field_models(s.drop_last())[i] == s.drop_last()[i]@);
            }
        }
    }
}

/// Adding a field adds its model.
pub proof fn lemma_field_models_push(s: Seq<Field>, f: Field)
    ensures
        field_models(s.push(f)) == field_models(s).push(f@),
{
    assert(s.push(f).drop_last() =~= s);
}

/// Adding a value adds its model.
pub proof fn lemma_value_models_push(s: Seq<Value>, v: Value)
    ensures
        value_models(s.push(v)) == value_models(s).push(v@),
{
    assert(s.push(v).drop_last() =~= s);
}

/// The models of values are taken one by one.
pub proof fn lemma_value_models(s: Seq<Value>)
    ensures
        value_models(s).len() == s.len(),
        forall|i: int| 0 <= i < s.len() ==> #[trigger] value_models(s)[i] == s[i]@,
    decreases s.len(),
{
    if s.len() > 0 {
        lemma_value_models(s.drop_last());
        assert forall|i: int| 0 <= i < s.len() implies #[trigger] value_models(s)[i] == s[i]@ by {
            if i < s.len() - 1 {
                assert(value_models(s.drop_last())[i] == s.drop_last()[i]@);
            }
        }
    }
}

/// A copy of a field.
fn copy_field(field: &Field) -> (r: Field)
    ensures
        r@ == field@,
    decreases field,
{
    Field {
        name: field.name.clone(),
        member_type: field.member_type,
        value: copy_value(&field.value),
    }
}

/// A copy of a value with everything below it.
fn copy_value(value: &Value) -> (r: Value)
    ensures
        r@ == value@,
    decreases value,
{
    match value {
        Value::Int8(v) => Value::Int8(*v),
        Value::UInt8(v) => Value::UInt8(*v),
        Value::Int16(v) => Value::Int16(*v),
        Value::UInt16(v) => Value::UInt16(*v),
        Value::Int32(v) => Value::Int32(*v),
        Value::UInt32(v) => Value::UInt32(*v),
        Value::Real16(v) => Value::Real16(*v),
        Value::Real32(v) => Value::Real32(*v),
        Value::String(None) => Value::String(None),
        Value::String(Some(s)) => Value::String(Some(s.clone())),
        Value::Struct(fields) => {
            let mut copy: Vec<Field> = Vec::new();
            let mut i: usize = 0;
            while i < fields.len()
                invariant
                    value is Struct && value->Struct_0 == fields,
                    i <= fields.len(),
                    field_models(copy@) == field_models(fields@.take(i as int)),
                decreases fields.len() - i,
            {
                assert(decreases_to!(value => fields@[i as int]));
                let f = copy_field(&fields[i]);
                proof {
                    lemma_field_models_push(copy@, f);
                    lemma_field_models_push(fields@.take(i as int), fields@[i as int]);
                    assert(fields@.take(i + 1) =~= fields@.take(i as int).push(fields@[i as int]));
                }
                copy.push(f);
                i = i + 1;
            }
            assert(fields@.take(i as int) =~= fields@);
            Value::Struct(copy)
        },
        Value::Reference { offset } => Value::Reference { offset: *offset },
        Value::ReferenceToArray { count, offset } => Value::ReferenceToArray {
            count: *count,
            offset: *offset,
        },
        Value::ArrayOfReferences { count, offset } => Value::ArrayOfReferences {
            count: *count,
            offset: *offset,
        },
        Value::VariantReference { type_offset, data_offset } => Value::VariantReference {
            type_offset: *type_offset,
            data_offset: *data_offset,
        },
        Value::ReferenceToVariantArray { type_offset, count, data_offset } => {
            Value::ReferenceToVariantArray {
                type_offset: *type_offset,
                count: *count,
                data_offset: *data_offset,
            }
        },
        Value::Transform { flags, translation, rotation, scale_shear } => Value::Transform {
            flags: *flags,
            translation: *translation,
            rotation: *rotation,
            scale_shear: *scale_shear,
        },
        Value::EmptyReference => Value::EmptyReference,
        Value::Array(items) => {
            let mut copy: Vec<Value> = Vec::new();
            let mut i: usize = 0;
            while i < items.len()
                invariant
                    value is Array && value->Array_0 == items,
                    i <= items.len(),
                    value_models(copy@) == value_models(items@.take(i as int)),
                decreases items.len() - i,
            {
                assert(decreases_to!(value => items@[i as int]));
                let v = copy_value(&items[i]);
                proof {
                    lemma_value_models_push(copy@, v);
                    lemma_value_models_push(items@.take(i as int), items@[i as int]);
                    assert(items@.take(i + 1) =~= items@.take(i as int).push(items@[i as int]));
                }
                copy.push(v);
                i = i + 1;
            }
            assert(items@.take(i as int) =~= items@);
            Value::Array(copy)
        },
    }
}

impl Clone for Field {
    fn clone(&self) -> (r: Self)
        ensures
            r@ == self@,
    {
        copy_field(self)
    }
}

impl Clone for Value {
    fn clone(&self) -> (r: Self)
        ensures
            r@ == self@,
    {
        copy_value(self)
    }
}

} // verus!
