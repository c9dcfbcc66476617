//! What the data in the flat buffer means under a struct definition: sizes, fields, arrays.
use crate::debug::debug_text;
use crate::element::{FieldModel, Float32, ValueModel};
use crate::format::MemberType;
use crate::reader::access::clamped;
use crate::reader::image::{Image, MemberModel};
use crate::reader::{ErrorModel, MAX_ARRAY_COUNT, MAX_EXTRACT_DEPTH};
use crate::text::{decimal_text, hex_text};
use vstd::prelude::*;

verus! {

impl MemberModel {
    /// The number of elements of a member; a size of zero means one.
    pub open spec fn count(self) -> nat {
        if self.array_size < 1 {
            1
        } else {
            self.array_size as nat
        }
    }
}

/// The error for structs nested too deeply to have a size.
pub open spec fn too_deep() -> ErrorModel {
    ErrorModel::InvalidType(
        "struct size computation depth exceeded "@ + decimal_text(MAX_EXTRACT_DEPTH as nat),
    )
}

impl Image {
    // -----------------------------------------------------------------------
    // Sizes
    // -----------------------------------------------------------------------
    /// The size of one element of a member, at nesting depth `depth`.
    pub open spec fn element_size(self, m: MemberModel, depth: int) -> Result<int, ErrorModel>
        decreases MAX_EXTRACT_DEPTH + 1 - depth, 0int,
        when depth <= MAX_EXTRACT_DEPTH
    {
        if m.member_type == MemberType::Inline {
            if m.children_ptr > 0 {
                match self.struct_at(m.children_ptr as int) {
                    Err(e) => Err(e),
                    Ok(children) => self.members_size(children, depth + 1),
                }
            } else {
                Ok(0)
            }
        } else {
            Ok(m.member_type.bytes(self.pointer_width) as int)
        }
    }

    /// The size of the first `k` members together.
    pub open spec fn prefix_size(self, members: Seq<MemberModel>, k: int, depth: int) -> Result<
        int,
        ErrorModel,
    >
        decreases MAX_EXTRACT_DEPTH + 1 - depth, k + 1,
        when depth <= MAX_EXTRACT_DEPTH
    {
        if k <= 0 {
            Ok(0)
        } else {
            match self.prefix_size(members, k - 1, depth) {
                Err(e) => Err(e),
                Ok(sum) => match self.element_size(members[k - 1], depth) {
                    Err(e) => Err(e),
                    Ok(size) => Ok(clamped(sum + clamped(size * members[k - 1].count()))),
                },
            }
        }
    }

    /// The size of a struct with the given members, at nesting depth `depth`.
    pub open spec fn members_size(self, members: Seq<MemberModel>, depth: int) -> Result<
        int,
        ErrorModel,
    >
        decreases MAX_EXTRACT_DEPTH + 1 - depth, members.len() + 2,
    {
        if depth > MAX_EXTRACT_DEPTH {
            Err(too_deep())
        } else {
            self.prefix_size(members, members.len() as int, depth)
        }
    }

    /// The size of one instance of the struct defined at `type_off`.
    pub open spec fn struct_size(self, type_off: int) -> Result<int, ErrorModel> {
        match self.struct_at(type_off) {
            Err(e) => Err(e),
            Ok(members) => self.members_size(members, 0),
        }
    }

    // -----------------------------------------------------------------------
    // Fields
    // -----------------------------------------------------------------------
    /// The number of the given type at `off`; there is none for types that are no numbers.
    pub open spec fn scalar_at(self, t: MemberType, off: int) -> Option<ValueModel> {
        match t {
            MemberType::Int8 | MemberType::BinormalInt8 => match self.i8_at(off) {
                Some(v) => Some(ValueModel::Int8(v)),
                None => None,
            },
            MemberType::UInt8 | MemberType::NormalUInt8 => match self.u8_at(off) {
                Some(v) => Some(ValueModel::UInt8(v)),
                None => None,
            },
            MemberType::Int16 | MemberType::BinormalInt16 => match self.i16_at(off) {
                Some(v) => Some(ValueModel::Int16(v)),
                None => None,
            },
            MemberType::UInt16 | MemberType::NormalUInt16 => match self.u16_at(off) {
                Some(v) => Some(ValueModel::UInt16(v)),
                None => None,
            },
            MemberType::Real16 => match self.u16_at(off) {
                Some(v) => Some(ValueModel::Real16(v)),
                None => None,
            },
            MemberType::Int32 => match self.i32_at(off) {
                Some(v) => Some(ValueModel::Int32(v)),
                None => None,
            },
            MemberType::UInt32 => match self.u32_at(off) {
                Some(v) => Some(ValueModel::UInt32(v)),
                None => None,
            },
            MemberType::Real32 => match self.f32_at(off) {
                Some(v) => Some(ValueModel::Real32(v)),
                None => None,
            },
            _ => None,
        }
    }

    /// `n` numbers in a row, each behind the one before it. A single one stands for itself, more
    /// form an array.
    pub open spec fn scalars_at(self, t: MemberType, off: int, n: nat) -> Result<
        ValueModel,
        ErrorModel,
    > {
        let stride = t.bytes(self.pointer_width);
        if exists|i: int| 0 <= i < n && #[trigger] self.scalar_at(t, off + stride * i) is None {
            Err(ErrorModel::Truncated)
        } else if n == 1 {
            Ok(self.scalar_at(t, off).unwrap())
        } else {
            Ok(
                ValueModel::Array(
                    Seq::new(n, |i: int| self.scalar_at(t, off + stride * i).unwrap()),
                ),
            )
        }
    }

    /// `n` floating-point numbers in a row.
    pub open spec fn floats_at(self, off: int, n: nat) -> Seq<Float32> {
        Seq::new(n, |i: int| self.f32_at(off + 4 * i).unwrap())
    }

    /// The value of a member at `off`, whose elements have the given size.
    pub open spec fn value_at(self, m: MemberModel, off: int, size: int, depth: int) -> Result<
        ValueModel,
        ErrorModel,
    >
        decreases MAX_EXTRACT_DEPTH + 1 - depth, 1int, 0int,
        when depth <= MAX_EXTRACT_DEPTH
    {
        let width = self.pointer_width.bytes();
        match m.member_type {
            MemberType::String => Ok(
                ValueModel::String(
                    match self.ptr_at(off) {
                        Some(p) => self.string_at(p as int),
                        None => None,
                    },
                ),
            ),
            MemberType::Reference => Ok(ValueModel::Reference { offset: self.ptr_at(off) }),
            MemberType::ReferenceToArray => match self.u32_at(off) {
                Some(count) => Ok(
                    ValueModel::ReferenceToArray { count, offset: self.ptr_at(off + 4) },
                ),
                None => Err(ErrorModel::Truncated),
            },
            MemberType::ArrayOfReferences => match self.u32_at(off) {
                Some(count) => Ok(
                    ValueModel::ArrayOfReferences { count, offset: self.ptr_at(off + 4) },
                ),
                None => Err(ErrorModel::Truncated),
            },
            MemberType::VariantReference => Ok(
                ValueModel::VariantReference {
                    type_offset: self.ptr_at(off),
                    data_offset: self.ptr_at(off + width),
                },
            ),
            MemberType::ReferenceToVariantArray => match self.u32_at(off + width) {
                Some(count) => Ok(
                    ValueModel::ReferenceToVariantArray {
                        type_offset: self.ptr_at(off),
                        count,
                        data_offset: self.ptr_at(off + width + 4),
                    },
                ),
                None => Err(ErrorModel::Truncated),
            },
            MemberType::Transform => if self.holds(off, 68) {
                Ok(
                    ValueModel::Transform {
                        flags: self.u32_at(off).unwrap(),
                        translation: self.floats_at(off + 4, 3),
                        rotation: self.floats_at(off + 16, 4),
                        scale_shear: self.floats_at(off + 32, 9),
                    },
                )
            } else {
                Err(ErrorModel::Truncated)
            },
            MemberType::Inline => if m.children_ptr == 0 {
                Ok(ValueModel::Struct(Seq::empty()))
            } else if m.count() == 1 {
                match self.extracted(m.children_ptr as int, off, depth + 1) {
                    Err(e) => Err(e),
                    Ok(fields) => Ok(ValueModel::Struct(fields)),
                }
            } else {
                match self.structs_at(m.children_ptr as int, off, size, m.count() as int, depth) {
                    Err(e) => Err(e),
                    Ok(items) => Ok(ValueModel::Array(items)),
                }
            },
            MemberType::EmptyReference | MemberType::Terminator => Ok(ValueModel::EmptyReference),
            _ => self.scalars_at(m.member_type, off, m.count()),
        }
    }

    /// `n` structs, each `size` bytes behind the one before it, one level below `depth`.
    pub open spec fn structs_at(
        self,
        type_off: int,
        off: int,
        size: int,
        n: int,
        depth: int,
    ) -> Result<Seq<ValueModel>, ErrorModel>
        decreases MAX_EXTRACT_DEPTH + 1 - depth, 0int, n,
        when depth <= MAX_EXTRACT_DEPTH
    {
        if n <= 0 {
            Ok(Seq::empty())
        } else {
            match self.structs_at(type_off, off, size, n - 1, depth) {
                Err(e) => Err(e),
                Ok(items) => match self.extracted(
                    type_off,
                    clamped(off + (n - 1) * size),
                    depth + 1,
                ) {
                    Err(e) => Err(e),
                    Ok(fields) => Ok(items.push(ValueModel::Struct(fields))),
                },
            }
        }
    }

    /// The fields for the first `k` members, and the offset behind them.
    pub open spec fn prefix_fields(
        self,
        members: Seq<MemberModel>,
        k: int,
        off: int,
        depth: int,
    ) -> Result<(Seq<FieldModel>, int), ErrorModel>
        decreases MAX_EXTRACT_DEPTH + 1 - depth, 2int, k,
        when depth <= MAX_EXTRACT_DEPTH
    {
        if k <= 0 {
            Ok((Seq::empty(), off))
        } else {
            let m = members[k - 1];
            match self.prefix_fields(members, k - 1, off, depth) {
                Err(e) => Err(e),
                Ok((fields, at)) => match self.element_size(m, depth) {
                    Err(e) => Err(e),
                    Ok(size) => match self.value_at(m, at, size, depth) {
                        Err(e) => Err(e),
                        Ok(value) => Ok(
                            (
                                fields.push(
                                    FieldModel { name: m.name, member_type: m.member_type, value },
                                ),
                                clamped(at + clamped(size * m.count())),
                            ),
                        ),
                    },
                },
            }
        }
    }

    /// The fields of the struct at `off`, defined at `type_off`, at nesting depth `depth`.
    pub open spec fn extracted(self, type_off: int, off: int, depth: int) -> Result<
        Seq<FieldModel>,
        ErrorModel,
    >
        decreases MAX_EXTRACT_DEPTH + 1 - depth, 3int, 0int,
    {
        if depth > MAX_EXTRACT_DEPTH {
            Err(
                ErrorModel::InvalidType(
                    "struct extraction depth exceeded "@ + decimal_text(MAX_EXTRACT_DEPTH as nat)
                        + " (possible cycle at type offset 0x"@ + hex_text(type_off as nat) + ")"@,
                ),
            )
        } else {
            match self.struct_at(type_off) {
                Err(e) => Err(e),
                Ok(members) => match self.prefix_fields(members, members.len() as int, off, depth) {
                    Err(e) => Err(e),
                    Ok((fields, end)) => Ok(fields),
                },
            }
        }
    }

    // -----------------------------------------------------------------------
    // References
    // -----------------------------------------------------------------------
    /// The first `n` elements of an array of structs of the given size.
    pub open spec fn elements(self, type_off: int, off: int, size: int, n: int) -> Result<
        Seq<Seq<FieldModel>>,
        ErrorModel,
    >
        decreases n,
    {
        if n <= 0 {
            Ok(Seq::empty())
        } else {
            match self.elements(type_off, off, size, n - 1) {
                Err(e) => Err(e),
                Ok(items) => match self.extracted(type_off, clamped(off + (n - 1) * size), 0) {
                    Err(e) => Err(e),
                    Ok(fields) => Ok(items.push(fields)),
                },
            }
        }
    }

    /// The elements of an array of `count` structs.
    pub open spec fn array_at(self, type_off: int, off: int, count: u32) -> Result<
        Seq<Seq<FieldModel>>,
        ErrorModel,
    > {
        if count > MAX_ARRAY_COUNT {
            Err(
                ErrorModel::InvalidType(
                    "array count "@ + decimal_text(count as nat) + " exceeds maximum ("@
                        + decimal_text(MAX_ARRAY_COUNT as nat) + ")"@,
                ),
            )
        } else {
            match self.struct_size(type_off) {
                Err(e) => Err(e),
                Ok(size) => self.elements(type_off, off, size, count as int),
            }
        }
    }

    /// The struct at `off`, where there is a definition at `type_off` to read it by.
    pub open spec fn defined(self, type_off: int, off: int) -> Result<Seq<FieldModel>, ErrorModel> {
        if self.holds(type_off, self.member_size()) {
            self.extracted(type_off, off, 0)
        } else {
            Err(
                ErrorModel::InvalidType(
                    "type definition at 0x"@ + hex_text(type_off as nat) + " is missing"@,
                ),
            )
        }
    }

    /// The struct that a reference leads to.
    pub open spec fn referent(self, value: ValueModel, type_off: int) -> Result<
        Seq<FieldModel>,
        ErrorModel,
    > {
        match value {
            ValueModel::Reference { offset: Some(off) } => self.defined(
                type_off,
                off as int,
            ),
            ValueModel::Reference { offset: None } => Err(
                ErrorModel::InvalidType("null reference"@),
            ),
            ValueModel::VariantReference { type_offset: Some(t), data_offset: Some(off) } => {
                self.defined(t as int, off as int)
            },
            ValueModel::VariantReference { .. } => Err(
                ErrorModel::InvalidType("null variant reference"@),
            ),
            ValueModel::ReferenceToArray { offset: Some(off), .. } => self.defined(
                type_off,
                off as int,
            ),
            ValueModel::ArrayOfReferences { offset: Some(off), .. } => self.defined(
                type_off,
                off as int,
            ),
            ValueModel::ReferenceToArray { offset: None, .. } => Err(
                ErrorModel::InvalidType("null array reference"@),
            ),
            ValueModel::ArrayOfReferences { offset: None, .. } => Err(
                ErrorModel::InvalidType("null array reference"@),
            ),
            _ => Err(
                ErrorModel::InvalidType(
                    "value is not a resolvable reference: "@ + debug_text(value),
                ),
            ),
        }
    }

    /// The structs that an array reference leads to.
    pub open spec fn referents(self, value: ValueModel, type_off: int) -> Result<
        Seq<Seq<FieldModel>>,
        ErrorModel,
    > {
        match value {
            ValueModel::ReferenceToArray { count, offset: Some(off) } => self.array_at(
                type_off,
                off as int,
                count,
            ),
            ValueModel::ArrayOfReferences { count, offset: Some(off) } => self.array_at(
                type_off,
                off as int,
                count,
            ),
            ValueModel::ReferenceToArray { offset: None, .. } => Err(
                ErrorModel::InvalidType("null array reference"@),
            ),
            ValueModel::ArrayOfReferences { offset: None, .. } => Err(
                ErrorModel::InvalidType("null array reference"@),
            ),
            _ => Err(
                ErrorModel::InvalidType(
                    "value is not a ReferenceToArray or ArrayOfReferences: "@ + debug_text(value),
                ),
            ),
        }
    }

    /// The structs that a variant array leads to, which names its own type.
    pub open spec fn variant_referents(self, value: ValueModel) -> Result<
        Seq<Seq<FieldModel>>,
        ErrorModel,
    > {
        match value {
            ValueModel::ReferenceToVariantArray {
                type_offset: Some(t),
                count,
                data_offset: Some(off),
            } => self.array_at(t as int, off as int, count),
            ValueModel::ReferenceToVariantArray { .. } => Err(
                ErrorModel::InvalidType("null variant array reference"@),
            ),
            _ => Err(
                ErrorModel::InvalidType(
                    "value is not a ReferenceToVariantArray: "@ + debug_text(value),
                ),
            ),
        }
    }
}

} // verus!
