use gr2_rs::big::Big;
use gr2_rs::element::Float32;

fn compare(bits: u32) {
    let x = f32::from_bits(bits);
    let f = Float32 { bits };
    assert_eq!(f.to_string(), format!("{x}"));
    assert_eq!(f.to_debug_string(), format!("{x:?}"));
}

fn reads_back(bits: u32) {
    let f = Float32 { bits };
    assert_eq!(f.to_string().parse::<f32>().unwrap().to_bits(), bits);
    assert_eq!(f.to_debug_string().parse::<f32>().unwrap().to_bits(), bits);
}

#[test]
fn floating_point_numbers_as_text() {
    for (x, display, debug) in [
        (0.0, "0", "0.0"),
        (-0.0, "-0", "-0.0"),
        (1.0, "1", "1.0"),
        (-1.5, "-1.5", "-1.5"),
        (0.1, "0.1", "0.1"),
        (100.0, "100", "100.0"),
        (16777216.0, "16777216", "16777216.0"),
        (0.0001, "0.0001", "0.0001"),
        (0.00009, "0.00009", "9e-5"),
        (1e15, "1000000000000000", "1000000000000000.0"),
        (1e16, "10000000000000000", "1e16"),
        (1.5e-7, "0.00000015", "1.5e-7"),
        (f32::INFINITY, "inf", "inf"),
        (f32::NEG_INFINITY, "-inf", "-inf"),
        (f32::NAN, "NaN", "NaN"),
        (f32::MAX, "340282350000000000000000000000000000000", "3.4028235e38"),
        (
            f32::MIN_POSITIVE,
            "0.000000000000000000000000000000000000011754944",
            "1.1754944e-38",
        ),
        (
            f32::from_bits(1),
            "0.000000000000000000000000000000000000000000001",
            "1e-45",
        ),
    ] {
        let f = Float32 { bits: x.to_bits() };
        assert_eq!(f.to_string(), display);
        assert_eq!(f.to_debug_string(), debug);
        compare(x.to_bits());
    }
    compare(0xFFC0_0001);
}

#[test]
fn numbers_next_to_powers_of_two() {
    for exponent in 0..255u32 {
        for fraction in [0, 1, 2, 0x7F_FFFE, 0x7F_FFFF] {
            compare(exponent << 23 | fraction);
        }
    }
}

#[test]
fn numbers_next_to_powers_of_ten() {
    for e in -45..39 {
        let bits = format!("1e{e}").parse::<f32>().unwrap().to_bits();
        for b in bits.saturating_sub(2)..bits + 3 {
            compare(b);
        }
    }
}

#[test]
fn numbers_next_to_where_exponents_begin() {
    for bits in [1e-4f32.to_bits(), 1e16f32.to_bits()] {
        for b in bits - 20..bits + 20 {
            compare(b);
            compare(b | 0x8000_0000);
        }
    }
}

#[test]
fn small_whole_numbers_and_fractions() {
    for n in 0..400 {
        compare((n as f32).to_bits());
        compare((n as f32 / 8.0).to_bits());
        compare((n as f32 / 10.0).to_bits());
    }
}

#[test]
fn numbers_of_any_bits() {
    let mut bits = 12345u32;
    for _ in 0..1000 {
        bits = bits.wrapping_mul(1664525).wrapping_add(1013904223);
        compare(bits);
    }
}

#[test]
fn subnormal_numbers() {
    let mut bits = 99u32;
    for _ in 0..300 {
        bits = bits.wrapping_mul(1664525).wrapping_add(1013904223);
        compare(bits >> 9);
    }
}

#[test]
fn text_reads_back_as_the_same_number() {
    let mut bits = 777u32;
    for _ in 0..500 {
        bits = bits.wrapping_mul(1664525).wrapping_add(1013904223);
        if f32::from_bits(bits).is_finite() {
            reads_back(bits);
        }
    }
}

#[test]
fn shortest_decimals() {
    let decimal = |x: f32| Float32 { bits: x.to_bits() }.to_decimal();
    assert_eq!(decimal(1.0), (1, 0));
    assert_eq!(decimal(-2.5), (25, -1));
    assert_eq!(decimal(0.3), (3, -1));
    assert_eq!(decimal(1.2e10), (12, 9));
    assert_eq!(decimal(f32::MAX), (34028235, 31));
    assert_eq!(decimal(f32::from_bits(1)), (1, -45));
}

#[test]
fn large_numbers() {
    let mut a = Big::from_small(1);
    for _ in 0..20 {
        a = a.times(10);
    }
    // 10^20 is 5 * 2^64 + 7766279631452241920.
    assert_eq!(a.limbs[..3], [1661992960, 1808227885, 5]);
    let b = a.plus(&a);
    assert!(a.below(&b));
    assert!(!b.below(&a));
    assert!(!a.below(&a));
    let c = b.minus(&a);
    assert!(!c.below(&a) && !a.below(&c));
    let one = Big::from_small(1);
    let d = a.minus(&one);
    assert!(d.below(&a));
    assert_eq!(d.limbs[..3], [1661992959, 1808227885, 5]);
    let top = Big::from_small(u32::MAX).plus(&one);
    assert_eq!(top.limbs[..2], [0, 1]);
    assert_eq!(top.minus(&one).limbs[..2], [u32::MAX, 0]);
}
