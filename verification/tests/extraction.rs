use gr2_rs::debug::debug_string;
use gr2_rs::dump::{field_lines, summary_lines, type_lines};
use gr2_rs::element::{Field, Float32, Value};
use gr2_rs::format::{
    Compression, Endianness, FormatId, Header, MagicBlock, MemberType, PointerWidth,
    SectionHeader, SectionRef,
};
use gr2_rs::reader::{Error, Gr2File, Section, MAX_ARRAY_COUNT};
use gr2_rs::text;

fn float(x: f32) -> Float32 {
    Float32 { bits: x.to_bits() }
}

/// A little-endian file with pointers of thirty-two bits and one section.
fn gr2(flat: Vec<u8>) -> Gr2File {
    let format =
        FormatId { endianness: Endianness::Little, pointer_width: PointerWidth::P32 };
    let header = SectionHeader {
        compression: Compression::BitKnit2,
        offset_in_file: 0,
        compressed_size: 17,
        uncompressed_size: flat.len() as u32,
        alignment: 0,
        first_16bit: 0,
        first_8bit: 0,
        relocations_offset: 0,
        num_relocations: 3,
        mixed_marshalling_offset: 0,
        num_mixed_marshalling: 2,
    };
    Gr2File {
        magic: MagicBlock { format, headers_size: 0, header_format: 0 },
        header: Header {
            version: 7,
            file_size: 1000,
            crc: 0,
            sections_offset: 0,
            num_sections: 1,
            root_type: SectionRef { section: 0, offset: 32 },
            root_node: SectionRef { section: 0, offset: 400 },
            tag: 0x1234,
            extra_tags: [0; 4],
            string_table_crc: 0,
        },
        sections: vec![Section { header, base_address: 0 }],
        flat,
        endianness: Endianness::Little,
        pointer_width: PointerWidth::P32,
    }
}

fn put(flat: &mut [u8], off: usize, v: u32) {
    flat[off..off + 4].copy_from_slice(&v.to_le_bytes());
}

fn member(flat: &mut [u8], off: usize, t: MemberType, name: u32, children: u32, size: u32) {
    put(flat, off, t.code());
    put(flat, off + 4, name);
    put(flat, off + 8, children);
    put(flat, off + 12, size);
}

fn text_at(flat: &mut [u8], off: usize, s: &str) {
    flat[off..off + s.len()].copy_from_slice(s.as_bytes());
}

fn one(t: MemberType, size: u32, data: &[u8]) -> Result<Value, Error> {
    let mut flat = vec![0u8; 128];
    member(&mut flat, 32, t, 0, 0, size);
    flat.extend_from_slice(data);
    gr2(flat).extract_struct(32, 128).map(|mut f| f.remove(0).value)
}

#[test]
fn scalars_of_every_type() {
    assert_eq!(one(MemberType::Int8, 0, &[0xFE]).unwrap(), Value::Int8(-2));
    assert_eq!(one(MemberType::BinormalInt8, 1, &[3]).unwrap(), Value::Int8(3));
    assert_eq!(one(MemberType::UInt8, 0, &[0xFE]).unwrap(), Value::UInt8(254));
    assert_eq!(one(MemberType::NormalUInt8, 0, &[9]).unwrap(), Value::UInt8(9));
    assert_eq!(one(MemberType::Int16, 0, &[0xFE, 0xFF]).unwrap(), Value::Int16(-2));
    assert_eq!(one(MemberType::BinormalInt16, 0, &[1, 1]).unwrap(), Value::Int16(257));
    assert_eq!(one(MemberType::UInt16, 0, &[0xFE, 0xFF]).unwrap(), Value::UInt16(0xFFFE));
    assert_eq!(one(MemberType::NormalUInt16, 0, &[2, 0]).unwrap(), Value::UInt16(2));
    assert_eq!(one(MemberType::Real16, 0, &[0, 0x3C]).unwrap(), Value::Real16(0x3C00));
    assert_eq!(one(MemberType::Int32, 0, &[0xFF; 4]).unwrap(), Value::Int32(-1));
    assert_eq!(one(MemberType::UInt32, 0, &[0xFF; 4]).unwrap(), Value::UInt32(u32::MAX));
    assert_eq!(
        one(MemberType::Real32, 0, &2.5f32.to_le_bytes()).unwrap(),
        Value::Real32(float(2.5))
    );
    assert_eq!(one(MemberType::EmptyReference, 0, &[]).unwrap(), Value::EmptyReference);
}

#[test]
fn scalar_arrays_are_complete() {
    assert_eq!(
        one(MemberType::UInt16, 3, &[1, 0, 2, 0, 3, 0]).unwrap(),
        Value::Array(vec![Value::UInt16(1), Value::UInt16(2), Value::UInt16(3)])
    );
    assert!(matches!(one(MemberType::UInt16, 3, &[1, 0, 2, 0, 3]), Err(Error::Truncated)));
    assert!(matches!(one(MemberType::UInt8, u32::MAX, &[1]), Err(Error::Truncated)));
}

#[test]
fn truncated_data_is_an_error() {
    assert!(matches!(one(MemberType::Int32, 0, &[1, 2, 3]), Err(Error::Truncated)));
    assert!(matches!(one(MemberType::Transform, 0, &[0; 67]), Err(Error::Truncated)));
    assert!(matches!(one(MemberType::ReferenceToArray, 0, &[0; 3]), Err(Error::Truncated)));
    assert!(matches!(one(MemberType::ArrayOfReferences, 0, &[0; 3]), Err(Error::Truncated)));
    assert!(matches!(
        one(MemberType::ReferenceToVariantArray, 0, &[0; 7]),
        Err(Error::Truncated)
    ));
    // References that cannot be read are null.
    assert_eq!(
        one(MemberType::VariantReference, 0, &[]).unwrap(),
        Value::VariantReference { type_offset: None, data_offset: None }
    );
    assert_eq!(one(MemberType::String, 0, &[1]).unwrap(), Value::String(None));
}

#[test]
fn references_hold_offsets() {
    assert_eq!(
        one(MemberType::ReferenceToArray, 0, &[7, 0, 0, 0, 5, 0, 0, 0]).unwrap(),
        Value::ReferenceToArray { count: 7, offset: Some(5) }
    );
    assert_eq!(
        one(MemberType::ArrayOfReferences, 0, &[7, 0, 0, 0, 0xFF, 0, 0, 0]).unwrap(),
        Value::ArrayOfReferences { count: 7, offset: None }
    );
    assert_eq!(
        one(MemberType::VariantReference, 0, &[3, 0, 0, 0, 5, 0, 0, 0]).unwrap(),
        Value::VariantReference { type_offset: Some(3), data_offset: Some(5) }
    );
    assert_eq!(
        one(MemberType::ReferenceToVariantArray, 0, &[3, 0, 0, 0, 9, 0, 0, 0, 5, 0, 0, 0])
            .unwrap(),
        Value::ReferenceToVariantArray {
            type_offset: Some(3),
            count: 9,
            data_offset: Some(5)
        }
    );
}

/// Two members `x` and `y` at 200, and a root type at 32 with an inline array `points` of them
/// and a number `n`.
fn nested() -> Vec<u8> {
    let mut flat = vec![0u8; 500];
    text_at(&mut flat, 300, "x");
    text_at(&mut flat, 302, "y");
    text_at(&mut flat, 304, "points");
    text_at(&mut flat, 312, "n");
    member(&mut flat, 200, MemberType::Int16, 300, 0, 0);
    member(&mut flat, 232, MemberType::UInt8, 302, 0, 0);
    member(&mut flat, 32, MemberType::Inline, 304, 200, 2);
    member(&mut flat, 64, MemberType::UInt32, 312, 0, 0);
    flat[400..410].copy_from_slice(&[1, 0, 2, 0xFF, 0xFF, 4, 5, 0, 0, 0]);
    flat
}

#[test]
fn inline_arrays_of_structs() {
    let f = gr2(nested());
    assert_eq!(f.struct_data_size(200).unwrap(), 3);
    assert_eq!(f.struct_data_size(32).unwrap(), 10);
    let fields = f.extract_root().unwrap();
    let point = |x: i16, y: u8| {
        Value::Struct(vec![
            Field { name: "x".into(), member_type: MemberType::Int16, value: Value::Int16(x) },
            Field { name: "y".into(), member_type: MemberType::UInt8, value: Value::UInt8(y) },
        ])
    };
    assert_eq!(
        fields,
        vec![
            Field {
                name: "points".into(),
                member_type: MemberType::Inline,
                value: Value::Array(vec![point(1, 2), point(-1, 4)]),
            },
            Field {
                name: "n".into(),
                member_type: MemberType::UInt32,
                value: Value::UInt32(5),
            },
        ]
    );
    assert_eq!(fields.clone(), fields);
}

#[test]
fn fields_match_members() {
    let f = gr2(nested());
    let members = f.walk_struct_def(32).unwrap();
    let fields = f.extract_struct(32, 400).unwrap();
    assert_eq!(members.len(), fields.len());
    for (m, field) in members.iter().zip(&fields) {
        assert_eq!(m.name, field.name);
        assert_eq!(m.member_type, field.member_type);
        assert_ne!(m.member_type, MemberType::Terminator);
    }
}

#[test]
fn inline_without_definition_is_empty() {
    assert_eq!(one(MemberType::Inline, 5, &[]).unwrap(), Value::Struct(vec![]));
}

#[test]
fn struct_that_contains_itself_fails() {
    let mut flat = vec![0u8; 128];
    member(&mut flat, 32, MemberType::Inline, 0, 32, 1);
    let f = gr2(flat);
    for err in [f.struct_data_size(32).unwrap_err(), f.extract_struct(32, 0).unwrap_err()] {
        assert_eq!(
            err.to_string(),
            "invalid type: struct size computation depth exceeded 32"
        );
    }
    assert_eq!(
        f.extract_struct_inner(0x20, 0, 33).unwrap_err().to_string(),
        "invalid type: struct extraction depth exceeded 32 (possible cycle at type offset 0x20)"
    );
}

#[test]
fn sizes_that_do_not_fit_stop_at_the_largest() {
    // Each level holds 2^32 - 1 structs of the next one.
    let mut flat = vec![0u8; 400];
    for i in 0..4 {
        member(&mut flat, 64 * i + 32, MemberType::Inline, 0, 64 * i as u32 + 96, u32::MAX);
    }
    member(&mut flat, 64 * 4 + 32, MemberType::UInt8, 0, 0, 2);
    let f = gr2(flat);
    assert_eq!(f.struct_data_size(32).unwrap(), usize::MAX);
    assert_eq!(f.extract_struct(64 * 4 + 32, usize::MAX).unwrap_err().to_string(), "file truncated");
    assert_eq!(f.read_u32(usize::MAX), None);
    assert_eq!(f.read_ptr(usize::MAX), None);
    assert_eq!(f.read_u64(usize::MAX - 3), None);
    assert_eq!(f.read_string(usize::MAX), None);
}

#[test]
fn bad_member_definitions() {
    let mut flat = vec![0u8; 100];
    put(&mut flat, 32, 6);
    let f = gr2(flat);
    assert_eq!(
        f.walk_struct_def(32).unwrap_err().to_string(),
        "invalid type: unknown member type 6 at offset 0x20"
    );
    assert_eq!(
        f.read_member_def(0x60).unwrap_err().to_string(),
        "invalid type: member definition at 0x60 extends past flat buffer"
    );
    assert!(f.extract_struct(32, 0).is_err());
    assert!(f.struct_data_size(32).is_err());
}

#[test]
fn member_names() {
    let mut flat = vec![0u8; 128];
    flat[100] = 0xFF;
    text_at(&mut flat, 102, "h\u{e9}");
    member(&mut flat, 0, MemberType::Int8, 100, 0, 0);
    member(&mut flat, 32, MemberType::Int8, 102, 0, 0);
    member(&mut flat, 64, MemberType::Int8, 1000, 0, 0);
    let f = gr2(flat);
    assert_eq!(f.read_member_def(0).unwrap().name, "<invalid>");
    assert_eq!(f.read_member_def(32).unwrap().name, "h\u{e9}");
    assert_eq!(f.read_member_def(64).unwrap().name, "");
}

#[test]
fn text_without_terminator_runs_to_the_end() {
    let f = gr2(b".abc".to_vec());
    assert_eq!(f.read_string(1), Some("abc"));
    assert_eq!(gr2(vec![1, 0]).read_string(1), Some(""));
}

// ---- references ----

#[test]
fn resolved_arrays_are_complete() {
    let f = gr2(nested());
    for v in [
        Value::ReferenceToArray { count: 2, offset: Some(400) },
        Value::ArrayOfReferences { count: 2, offset: Some(400) },
    ] {
        let items = f.resolve_array(&v, 200).unwrap();
        assert_eq!(items.len(), 2);
        assert_eq!(items[0][0].value, Value::Int16(1));
        assert_eq!(items[1][0].value, Value::Int16(-1));
        assert_eq!(f.resolve_value(&v, 200).unwrap(), items[0]);
    }
    let v = Value::ReferenceToVariantArray {
        type_offset: Some(200),
        count: 2,
        data_offset: Some(400),
    };
    let items = f.resolve_variant_array(&v).unwrap();
    assert_eq!(items.len(), 2);
    assert_eq!(items[1][1].value, Value::UInt8(4));
    let v = Value::VariantReference { type_offset: Some(200), data_offset: Some(403) };
    assert_eq!(f.resolve_value(&v, 0).unwrap(), items[1]);
    let none = Value::ReferenceToArray { count: 0, offset: Some(400) };
    assert!(f.resolve_array(&none, 200).unwrap().is_empty());
}

#[test]
fn missing_type_definitions_are_errors() {
    let f = gr2(vec![0u8; 40]);
    let text = |v: Value, t: usize| f.resolve_value(&v, t).unwrap_err().to_string();
    for v in [
        Value::Reference { offset: Some(4) },
        Value::ReferenceToArray { count: 1, offset: Some(4) },
        Value::ArrayOfReferences { count: 1, offset: Some(4) },
    ] {
        assert_eq!(text(v.clone(), 9), "invalid type: type definition at 0x9 is missing");
        assert_eq!(text(v.clone(), 40), "invalid type: type definition at 0x28 is missing");
        assert!(f.resolve_value(&v, usize::MAX).is_err());
        // A definition of no members is one.
        assert_eq!(f.resolve_value(&v, 8).unwrap(), vec![]);
    }
    let v = Value::VariantReference { type_offset: Some(16), data_offset: Some(4) };
    assert_eq!(text(v, 0), "invalid type: type definition at 0x10 is missing");
    let v = Value::VariantReference { type_offset: Some(8), data_offset: Some(4) };
    assert_eq!(f.resolve_value(&v, 16).unwrap(), vec![]);
    assert!(f.walk_struct_def(16).unwrap().is_empty());
    assert!(f.extract_struct(16, 4).unwrap().is_empty());
}

#[test]
fn struct_size_adds_up_its_members() {
    let f = gr2(nested());
    // Two points of an Int16 and a UInt8 each, and a UInt32.
    assert_eq!(f.struct_data_size(200).unwrap(), 3);
    assert_eq!(f.struct_data_size(32).unwrap(), 2 * 3 + 4);
}

#[test]
fn cycle_behind_a_member_that_fails() {
    let mut flat = vec![0u8; 256];
    // The first member is an inline struct of an unknown type, the second the struct itself.
    member(&mut flat, 32, MemberType::Inline, 0, 160, 1);
    member(&mut flat, 64, MemberType::Inline, 0, 32, 1);
    put(&mut flat, 160, 77);
    let f = gr2(flat);
    assert_eq!(
        f.struct_data_size(32).unwrap_err().to_string(),
        "invalid type: unknown member type 77 at offset 0xa0"
    );
}

#[test]
fn array_past_the_end_fails() {
    let f = gr2(nested());
    let v = Value::ReferenceToArray { count: 2, offset: Some(496) };
    assert!(matches!(f.resolve_array(&v, 200), Err(Error::Truncated)));
}

#[test]
fn reference_errors() {
    let f = gr2(nested());
    let value = |v: Value| f.resolve_value(&v, 200).unwrap_err().to_string();
    let array = |v: Value| f.resolve_array(&v, 200).unwrap_err().to_string();
    let variant = |v: Value| f.resolve_variant_array(&v).unwrap_err().to_string();
    assert_eq!(value(Value::Reference { offset: None }), "invalid type: null reference");
    assert_eq!(
        value(Value::VariantReference { type_offset: Some(1), data_offset: None }),
        "invalid type: null variant reference"
    );
    assert_eq!(
        value(Value::ReferenceToArray { count: 1, offset: None }),
        "invalid type: null array reference"
    );
    assert_eq!(
        value(Value::ArrayOfReferences { count: 1, offset: None }),
        "invalid type: null array reference"
    );
    assert_eq!(
        value(Value::Int32(5)),
        "invalid type: value is not a resolvable reference: Int32(5)"
    );
    assert_eq!(
        array(Value::ReferenceToArray { count: 1, offset: None }),
        "invalid type: null array reference"
    );
    assert_eq!(
        array(Value::ArrayOfReferences { count: 1, offset: None }),
        "invalid type: null array reference"
    );
    assert_eq!(
        array(Value::String(Some("a\"b".to_string()))),
        "invalid type: value is not a ReferenceToArray or ArrayOfReferences: \
         String(Some(\"a\\\"b\"))"
    );
    assert_eq!(
        array(Value::ReferenceToArray { count: MAX_ARRAY_COUNT + 1, offset: Some(400) }),
        "invalid type: array count 16777217 exceeds maximum (16777216)"
    );
    assert_eq!(
        variant(Value::ReferenceToVariantArray {
            type_offset: None,
            count: 1,
            data_offset: Some(1)
        }),
        "invalid type: null variant array reference"
    );
    assert_eq!(
        variant(Value::EmptyReference),
        "invalid type: value is not a ReferenceToVariantArray: EmptyReference"
    );
    assert_eq!(
        variant(Value::ReferenceToVariantArray {
            type_offset: Some(200),
            count: MAX_ARRAY_COUNT + 1,
            data_offset: Some(1)
        }),
        "invalid type: array count 16777217 exceeds maximum (16777216)"
    );
}

#[test]
fn root_references() {
    let mut f = gr2(nested());
    f.header.root_node = SectionRef { section: 7, offset: 0 };
    assert_eq!(
        f.extract_root().unwrap_err().to_string(),
        "invalid type: root_node ref is invalid"
    );
    f.header.root_type = SectionRef::invalid();
    assert_eq!(
        f.extract_root().unwrap_err().to_string(),
        "invalid type: root_type ref is invalid"
    );
}

#[test]
fn section_data_past_the_end() {
    let mut f = gr2(vec![1, 2, 3, 4]);
    f.sections[0].base_address = 2;
    assert_eq!(f.section_data(0), None);
    f.sections[0].header.uncompressed_size = 2;
    assert_eq!(f.section_data(0), Some(&[3u8, 4][..]));
    f.sections[0].base_address = usize::MAX;
    assert_eq!(f.section_data(0), None);
    assert_eq!(f.resolve_ref(SectionRef { section: 0, offset: 9 }), Some(usize::MAX));
}

#[test]
fn floats_compare_as_numbers() {
    assert_eq!(float(0.0), float(-0.0));
    assert_ne!(float(f32::NAN), float(f32::NAN));
    assert_ne!(float(1.0), float(-1.0));
    assert_eq!(float(f32::INFINITY), float(f32::INFINITY));
}

// ---- debug text ----

#[test]
fn values_are_shown_by_variant() {
    let field = |name: &str, value: Value| Field {
        name: name.into(),
        member_type: MemberType::Int32,
        value,
    };
    for v in [
        Value::Int8(-5),
        Value::UInt8(5),
        Value::Int16(-500),
        Value::UInt16(500),
        Value::Int32(i32::MIN),
        Value::UInt32(7),
        Value::Real16(0x3C00),
        Value::String(None),
        Value::String(Some("tab\t \"quoted\" \u{e9} \u{0}".into())),
        Value::Struct(vec![]),
        Value::Struct(vec![field("a", Value::Int8(1)), field("b", Value::Array(vec![]))]),
        Value::Reference { offset: Some(3) },
        Value::Reference { offset: None },
        Value::ReferenceToArray { count: 2, offset: Some(usize::MAX) },
        Value::ArrayOfReferences { count: 2, offset: None },
        Value::VariantReference { type_offset: None, data_offset: Some(1) },
        Value::ReferenceToVariantArray { type_offset: Some(1), count: 9, data_offset: None },
        Value::EmptyReference,
        Value::Array(vec![Value::Int8(1), Value::EmptyReference, Value::UInt8(2)]),
    ] {
        assert_eq!(debug_string(&v), format!("{v:?}"));
    }
    assert_eq!(debug_string(&Value::Real32(float(1.5))), "Real32(1.5)");
    let row = [float(1.0), float(0.0), float(2.5)];
    assert_eq!(
        debug_string(&Value::Transform {
            flags: 7,
            translation: row,
            rotation: [float(0.0), float(-0.0), float(1e-7), float(1.0)],
            scale_shear: [row, [float(0.0); 3], row],
        }),
        "Transform { flags: 7, translation: [1.0, 0.0, 2.5], \
         rotation: [0.0, -0.0, 1e-7, 1.0], \
         scale_shear: [[1.0, 0.0, 2.5], [0.0, 0.0, 0.0], [1.0, 0.0, 2.5]] }"
    );
}

#[test]
fn errors_show_numbers() {
    let f = gr2(nested());
    assert_eq!(
        f.resolve_value(&Value::Real32(float(1.5)), 200).unwrap_err().to_string(),
        "invalid type: value is not a resolvable reference: Real32(1.5)"
    );
    assert_eq!(
        f.resolve_array(&Value::Real32(float(3.0)), 200).unwrap_err().to_string(),
        "invalid type: value is not a ReferenceToArray or ArrayOfReferences: Real32(3.0)"
    );
}

// ---- listings ----

fn listed(value: Value) -> Vec<String> {
    let field = Field { name: "name".into(), member_type: MemberType::Int8, value };
    field_lines(&vec![field])
}

#[test]
fn plain_values_take_one_line() {
    let head = format!("  {:30}", "name");
    let cases = [
        (Value::Int8(-3), " = -3"),
        (Value::UInt8(3), " = 3"),
        (Value::Int16(-300), " = -300"),
        (Value::UInt16(300), " = 300"),
        (Value::Int32(i32::MIN), " = -2147483648"),
        (Value::UInt32(u32::MAX), " = 4294967295"),
        (Value::Real16(0x3C), " = 0x003c (f16)"),
        (Value::Real32(float(1.5)), " = 1.5"),
        (Value::Real32(float(2.0)), " = 2"),
        (Value::String(Some("hi".into())), " = \"hi\""),
        (Value::String(None), " = null"),
        (Value::Reference { offset: Some(255) }, " -> 0xff"),
        (Value::Reference { offset: None }, " -> null"),
        (Value::ReferenceToArray { count: 2, offset: Some(16) }, " -> [2 items] @ 0x10"),
        (Value::ReferenceToArray { count: 2, offset: None }, " -> [2 items] null"),
        (Value::ArrayOfReferences { count: 2, offset: Some(16) }, " -> [2 refs] @ 0x10"),
        (Value::ArrayOfReferences { count: 2, offset: None }, " -> [2 refs] null"),
        (
            Value::VariantReference { type_offset: Some(1), data_offset: None },
            " -> variant(type=0x1, data=null)",
        ),
        (
            Value::ReferenceToVariantArray {
                type_offset: None,
                count: 4,
                data_offset: Some(32),
            },
            " -> variant_array(type=null, count=4, data=0x20)",
        ),
        (
            Value::Transform {
                flags: 0x1F,
                translation: [float(1.0), float(2.5), float(3.0)],
                rotation: [float(0.0); 4],
                scale_shear: [[float(0.0); 3]; 3],
            },
            " = Transform(flags=0x1f, t=[1.0, 2.5, 3.0])",
        ),
        (Value::EmptyReference, " = <empty ref>"),
        (
            Value::Array(vec![Value::Int8(1), Value::UInt32(2), Value::EmptyReference]),
            " = [Int8(1), UInt32(2), EmptyReference]",
        ),
        (
            Value::Array(vec![Value::Real32(float(2.0)), Value::Real32(float(-0.5))]),
            " = [Real32(2.0), Real32(-0.5)]",
        ),
        (
            Value::Array(vec![
                Value::Int8(1),
                Value::Struct(vec![
                    Field {
                        name: "a\"".into(),
                        member_type: MemberType::Real32,
                        value: Value::Real32(float(3.0)),
                    },
                    Field {
                        name: "b".into(),
                        member_type: MemberType::String,
                        value: Value::String(Some("x".into())),
                    },
                ]),
                Value::Array(vec![Value::Real32(float(0.25)), Value::String(None)]),
            ]),
            " = [Int8(1), Struct([Field { name: \"a\\\"\", member_type: Real32, \
             value: Real32(3.0) }, Field { name: \"b\", member_type: String, \
             value: String(Some(\"x\")) }]), Array([Real32(0.25), String(None)])]",
        ),
        (
            Value::Array(vec![Value::Transform {
                flags: 7,
                translation: [float(1.0), float(2.0), float(3.0)],
                rotation: [float(0.0), float(0.0), float(0.0), float(1.0)],
                scale_shear: [
                    [float(1.0), float(0.0), float(0.0)],
                    [float(0.0), float(1.5), float(0.0)],
                    [float(0.0), float(0.0), float(1.0)],
                ],
            }]),
            " = [Transform { flags: 7, translation: [1.0, 2.0, 3.0], \
             rotation: [0.0, 0.0, 0.0, 1.0], \
             scale_shear: [[1.0, 0.0, 0.0], [0.0, 1.5, 0.0], [0.0, 0.0, 1.0]] }]",
        ),
    ];
    for (value, expected) in cases {
        assert_eq!(listed(value), vec![format!("{head}{expected}")]);
    }
}

#[test]
fn structs_are_listed_below_their_name() {
    let f = gr2(nested());
    let lines = field_lines(&f.extract_root().unwrap());
    let x = format!("      {:30}", "x");
    let y = format!("      {:30}", "y");
    assert_eq!(
        lines,
        vec![
            "  points [2 structs]:".to_string(),
            "    [0]:".to_string(),
            format!("{x} = 1"),
            format!("{y} = 2"),
            "    [1]:".to_string(),
            format!("{x} = -1"),
            format!("{y} = 4"),
            format!("  {:30} = 5", "n"),
        ]
    );
    let inner = Field { name: "v".into(), member_type: MemberType::Int8, value: Value::Int8(1) };
    assert_eq!(
        listed(Value::Struct(vec![inner])),
        vec!["  name:".to_string(), format!("    {:30} = 1", "v")]
    );
    assert_eq!(listed(Value::Array(vec![])), vec!["  name [0 structs]:".to_string()]);
}

#[test]
fn summary_names_header_and_sections() {
    assert_eq!(
        summary_lines(&gr2(nested())),
        vec![
            "=== GR2 Header ===",
            "  Format: Little P32",
            "  GR2 v7: 1000 bytes, 1 sections, tag=0x00001234",
            "  Root type: section 0 offset 0x20",
            "  Root node: section 0 offset 0x190",
            "",
            "=== Sections ===",
            "  [0] bitknit2: 17 -> 500 bytes, base=0x0, relocs=3, marshal=2",
            "",
            "=== Flat buffer: 500 bytes ===",
        ]
    );
}

#[test]
fn type_definitions_are_listed() {
    let f = gr2(nested());
    let listing = type_lines(&f);
    assert!(listing.error.is_none());
    assert_eq!(
        listing.lines,
        vec![
            "".to_string(),
            "=== Root Type Definition (at 0x20) ===".to_string(),
            format!("  {:30} : Inline[2] -> children@0xc8", "points"),
            format!("  {:30} : UInt32", "n"),
            "    [points]:".to_string(),
            format!("      {:30} : Int16", "x"),
            format!("      {:30} : UInt8", "y"),
        ]
    );
}

#[test]
fn type_listing_is_three_levels_deep() {
    let mut flat = vec![0u8; 400];
    text_at(&mut flat, 200, "a");
    member(&mut flat, 32, MemberType::Reference, 200, 32, 0);
    let lines = type_lines(&gr2(flat)).lines;
    let row = format!("{:30} : Reference", "a");
    assert_eq!(
        lines[2..],
        [
            format!("  {row} -> children@0x20"),
            "    [a]:".to_string(),
            format!("      {row}"),
            "      [a]:".to_string(),
            format!("        {row}"),
            "        [a]:".to_string(),
            format!("          {row}"),
        ]
    );
}

#[test]
fn type_listing_of_bad_types() {
    let mut flat = vec![0u8; 100];
    put(&mut flat, 32, 77);
    let mut f = gr2(flat);
    let listing = type_lines(&f);
    assert_eq!(listing.lines.len(), 2);
    assert_eq!(
        listing.error.unwrap().to_string(),
        "invalid type: unknown member type 77 at offset 0x20"
    );
    f.header.root_type = SectionRef::invalid();
    let listing = type_lines(&f);
    assert!(listing.lines.is_empty());
    assert!(listing.error.is_none());
}

#[test]
fn numbers_as_text() {
    assert_eq!(text::decimal(0), "0");
    assert_eq!(text::decimal(u64::MAX), "18446744073709551615");
    assert_eq!(text::hex(0), "0");
    assert_eq!(text::hex(0xDEADBEEF), "deadbeef");
    assert_eq!(text::hex8(0xBEEF), "0000BEEF");
    assert_eq!(text::hex4(0xBEE), "0bee");
    assert_eq!(text::signed(-120), "-120");
    assert_eq!(text::padded("ab", 4), "ab  ");
    assert_eq!(text::padded("abcde", 4), "abcde");
    assert_eq!(text::padded("\u{e9}", 3), "\u{e9}  ");
    assert_eq!(text::fmt_ptr(Some(26)), "0x1a");
    assert_eq!(text::fmt_ptr(None), "null");
}
