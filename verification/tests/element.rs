use gr2_rs::element::{Field, Float32, Value};
use gr2_rs::format::MemberType;

fn float(x: f32) -> Float32 {
    Float32 { bits: x.to_bits() }
}

#[test]
fn value_clone_equality() {
    let a = Value::UInt32(42);
    let b = a.clone();
    assert_eq!(a, b);

    let s = Value::String(Some("hello".into()));
    assert_eq!(s, s.clone());
}

#[test]
fn value_nan_inequality() {
    let a = Value::Real32(float(f32::NAN));
    let b = Value::Real32(float(f32::NAN));
    // NaN != NaN by IEEE 754, and PartialEq for f32 respects this
    assert_ne!(a, b);
}

#[test]
fn value_array_nested() {
    let arr = Value::Array(vec![
        Value::Struct(vec![Field {
            name: "x".into(),
            member_type: MemberType::Real32,
            value: Value::Real32(float(1.0)),
        }]),
        Value::Struct(vec![Field {
            name: "x".into(),
            member_type: MemberType::Real32,
            value: Value::Real32(float(2.0)),
        }]),
    ]);
    if let Value::Array(items) = &arr {
        assert_eq!(items.len(), 2);
    } else {
        panic!("expected Array");
    }
}

#[test]
fn value_transform_fields() {
    let t = Value::Transform {
        flags: 7,
        translation: [float(1.0), float(2.0), float(3.0)],
        rotation: [float(0.0), float(0.0), float(0.0), float(1.0)],
        scale_shear: [
            [float(1.0), float(0.0), float(0.0)],
            [float(0.0), float(1.0), float(0.0)],
            [float(0.0), float(0.0), float(1.0)],
        ],
    };
    if let Value::Transform { flags, .. } = &t {
        assert_eq!(*flags, 7);
    } else {
        panic!("expected Transform");
    }
}

#[test]
fn field_construction() {
    let f = Field {
        name: "Position".into(),
        member_type: MemberType::Real32,
        value: Value::Array(vec![Value::Real32(float(1.0)), Value::Real32(float(2.0)), Value::Real32(float(3.0))]),
    };
    assert_eq!(f.name, "Position");
    assert_eq!(f.member_type, MemberType::Real32);
    if let Value::Array(vals) = &f.value {
        assert_eq!(vals.len(), 3);
    } else {
        panic!("expected Array");
    }
}
