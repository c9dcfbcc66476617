use gr2_rs::bitknit::cdf::{AdaptiveModel, FrequencyTable};
use gr2_rs::bitknit::lru::LruCache;
use gr2_rs::bitknit::rans::RansState;
use gr2_rs::bitknit::{decompress, Error, BITKNIT_MAGIC};

// ---- FrequencyTable (via AdaptiveModel) ----

#[test]
fn frequency_table_initial_cdf_sum() {
    let m = AdaptiveModel::new(1024, 300, 36, 15, 10);
    assert_eq!(m.cdf.sums[300] as u32, 1 << 15,
        "CDF total must equal 2^freq_bits");
}

#[test]
fn frequency_table_monotonic() {
    let m = AdaptiveModel::new(1024, 300, 36, 15, 10);
    for i in 0..300 {
        assert!(m.cdf.sums[i] < m.cdf.sums[i + 1],
            "CDF must be strictly monotonic: sums[{i}]={} >= sums[{}]={}",
            m.cdf.sums[i], i + 1, m.cdf.sums[i + 1]);
    }
}

#[test]
fn frequency_table_lookup_agrees_with_linear_scan() {
    let m = AdaptiveModel::new(1024, 300, 36, 15, 10);
    // Spot-check every 127th code value across the full range
    for code in (0..32768u32).step_by(127) {
        let sym_fast = m.cdf.find_symbol(code);
        let mut sym_linear = 0u16;
        while (sym_linear as usize) < 300
            && code >= m.cdf.sums[sym_linear as usize + 1] as u32
        {
            sym_linear += 1;
        }
        assert_eq!(sym_fast, sym_linear, "lookup mismatch at code={code}");
    }
}

#[test]
fn frequency_table_boundary_symbols() {
    let m = AdaptiveModel::new(1024, 300, 36, 15, 10);
    assert_eq!(m.cdf.find_symbol(0), 0);
    assert_eq!(m.cdf.find_symbol(32767), 299);
}

// ---- AdaptiveModel ----

#[test]
fn adaptive_model_initial_cdf_valid() {
    let m = AdaptiveModel::new(1024, 300, 36, 15, 10);
    assert_eq!(m.cdf.sums[0], 0);
    assert_eq!(m.cdf.sums[m.cdf.vocab_size] as u32, 1 << 15);
    for i in 0..m.cdf.vocab_size {
        assert!(m.cdf.sums[i] < m.cdf.sums[i + 1]);
    }
}

#[test]
fn adaptive_model_freq_conservation() {
    let m = AdaptiveModel::new(1024, 300, 36, 15, 10);
    let total = 1u32 << 15;
    let lhs = m.freq_incr as u32 * m.adaptation_interval + m.last_freq_incr as u32;
    let rhs = total - 300 + 1;
    assert_eq!(lhs, rhs,
        "frequency increments must conserve total probability mass");
}

#[test]
fn adaptive_model_adaptation_cycle() {
    let mut m = AdaptiveModel::new(1024, 300, 36, 15, 10);
    let old_sums: Vec<u16> = m.cdf.sums.clone();

    for _ in 0..1024 {
        m.observe_symbol(0);
    }

    assert_eq!(m.counter, 0, "counter must reset after adaptation");
    assert!(m.freq_accum.iter().all(|&f| f == 1),
        "freq_accum must reset to 1 after adaptation");
    assert_ne!(m.cdf.sums, old_sums,
        "CDF must change after adaptation with skewed observations");
}

#[test]
fn adaptive_model_floor_division() {
    // The adaptation loop uses `(sum - old) >> 1` (arithmetic right shift =
    // floor division). For odd negative deltas this differs from truncation
    // (`/ 2`) by 1. This test constructs a scenario with provably odd
    // negative deltas and verifies the correct result.
    let mut m = AdaptiveModel::new(1024, 4, 0, 15, 10);

    // Cycle 1: all observations on symbol 0 → biases CDF toward symbol 0
    for _ in 0..1024 {
        m.observe_symbol(0);
    }

    // Cycle 2: all observations on symbol 3 → creates negative deltas
    // for symbols 1 and 2 whose CDF values must decrease
    for _ in 0..1024 {
        m.observe_symbol(3);
    }

    // After cycle 2, symbol 2 has an odd negative delta:
    //   sum = 2, old = 24575, delta = -24573
    //   Floor: 24575 + (-24573 >> 1) = 24575 + (-12287) = 12288
    //   Trunc: 24575 + (-24573 / 2)  = 24575 + (-12286) = 12289
    assert_eq!(m.cdf.sums[2], 12288,
        "must use floor division (>>1), not truncation (/2)");
}

#[test]
fn adaptive_model_cdf_valid_after_adaptation() {
    let mut m = AdaptiveModel::new(1024, 300, 36, 15, 10);
    // Heavily skew toward symbol 0
    for _ in 0..1024 {
        m.observe_symbol(0);
    }
    assert_eq!(m.cdf.sums[0], 0);
    assert_eq!(m.cdf.sums[300] as u32, 1 << 15);
    for i in 0..300 {
        assert!(m.cdf.sums[i] < m.cdf.sums[i + 1],
            "CDF not monotonic after adaptation at index {i}");
    }
}

// ---- RansState ----

#[test]
fn rans_refill_from_stream() {
    let mut s = RansState { bits: 1 };
    let stream = [0xABCDu16];
    let mut pos = 0;
    s.maybe_refill(&stream, &mut pos);
    assert_eq!(s.bits, (1 << 16) | 0xABCD);
    assert_eq!(pos, 1);
}

#[test]
fn rans_no_refill_when_above_threshold() {
    let mut s = RansState { bits: 0x20000 };
    let stream = [0xFFFFu16];
    let mut pos = 0;
    s.maybe_refill(&stream, &mut pos);
    assert_eq!(s.bits, 0x20000);
    assert_eq!(pos, 0);
}

#[test]
fn rans_pop_bits_extracts_low_bits() {
    let mut s = RansState { bits: 0x12345678 };
    let stream = [];
    let mut pos = 0;
    let extracted = s.pop_bits(&stream, &mut pos, 8);
    assert_eq!(extracted, 0x78);
    assert_eq!(s.bits, 0x00123456);
}

#[test]
fn rans_pop_cdf_uniform_two_symbols() {
    let mut cdf = FrequencyTable::new(4, 2, 2);
    cdf.sums = vec![0, 8, 16];
    cdf.finish_update();

    // code=5 is in [0,8) → symbol 0
    let mut s = RansState { bits: 0x20005 };
    let stream = [];
    let mut pos = 0;
    let sym = s.pop_cdf(&stream, &mut pos, &cdf);
    assert_eq!(sym, 0);
    // raw = (0x20005 >> 4) * 8 + 5 - 0 = 0x2000 * 8 + 5 = 0x10005
    assert_eq!(s.bits, 0x10005);

    // code=10 is in [8,16) → symbol 1
    let mut s = RansState { bits: 0x2000A };
    let mut pos = 0;
    let sym = s.pop_cdf(&stream, &mut pos, &cdf);
    assert_eq!(sym, 1);
    // raw = (0x2000A >> 4) * 8 + 10 - 8 = 0x2000 * 8 + 2 = 0x10002
    assert_eq!(s.bits, 0x10002);
}

// ---- LruCache ----

#[test]
fn lru_initial_state() {
    let c = LruCache::new();
    assert_eq!(c.entries, [1; 8]);
    assert_eq!(c.order, 0x76543210);
}

#[test]
fn lru_hit_0_preserves_order() {
    let mut c = LruCache::new();
    let val = c.hit(0);
    assert_eq!(val, 1);
    assert_eq!(c.order, 0x76543210);
}

#[test]
fn lru_hit_7_promotes_to_front() {
    let mut c = LruCache::new();
    c.hit(7);
    // Slot 7 moves to MRU, others shift:
    // 76543210 → 65432107
    assert_eq!(c.order, 0x65432107);
}

#[test]
fn lru_order_permutation_invariant() {
    let mut c = LruCache::new();
    c.insert(42);
    c.insert(99);
    c.hit(3);
    c.hit(0);
    c.insert(7);
    c.hit(5);

    let mut nibbles: Vec<u32> = (0..8)
        .map(|i| (c.order >> (i * 4)) & 0xF)
        .collect();
    nibbles.sort();
    assert_eq!(nibbles, vec![0, 1, 2, 3, 4, 5, 6, 7],
        "order register must contain exactly one of each nibble 0-7");
}

#[test]
fn lru_insert_evicts_oldest() {
    let mut c = LruCache::new();
    // order = 0x76543210 → idx7=7, idx6=6
    // insert(42): entries[7] = entries[6] (=1), entries[6] = 42
    c.insert(42);
    assert_eq!(c.entries[6], 42);
    assert_eq!(c.entries[7], 1);
}

#[test]
fn lru_hit_returns_correct_entry() {
    let mut c = LruCache::new();
    c.insert(100); // entries[6] = 100
    c.insert(200); // entries[7] = entries[6] = 100, entries[6] = 200

    // Position 6 in order 0x76543210 has slot 6
    let val = c.hit(6);
    assert_eq!(val, 200);
}

// ---- decompress() ----

#[test]
fn decompress_empty_input() {
    let result = decompress(&[], &mut [0u8; 16]);
    assert!(matches!(result, Err(Error::InputTruncated)));
}

#[test]
fn decompress_single_byte_input() {
    let result = decompress(&[0x42], &mut [0u8; 16]);
    assert!(matches!(result, Err(Error::InputTruncated)));
}

#[test]
fn decompress_bad_magic() {
    let result = decompress(&[0x00, 0x00], &mut [0u8; 16]);
    assert!(matches!(result, Err(Error::InvalidMagic)));
}

#[test]
fn decompress_zero_length_output() {
    let input = BITKNIT_MAGIC.to_le_bytes();
    let result = decompress(&input, &mut []);
    assert!(result.is_ok());
}
