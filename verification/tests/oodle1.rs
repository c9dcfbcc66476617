use gr2_rs::format::Endianness;
use gr2_rs::oodle1::coder::Decoder;
use gr2_rs::oodle1::dictionary::{parse_parameter, Dictionary, Parameter};
use gr2_rs::oodle1::window::{WeighWindow, FIXED_ONE};
use gr2_rs::oodle1::{decompress, Error};

// ---- Decoder ----

#[test]
fn decoder_init_state() {
    let data = [0b10110100u8, 0x00, 0x00, 0x00];
    let d = Decoder::new(&data);
    assert_eq!(d.numer, 0b10110100 >> 1); // top 7 bits
    assert_eq!(d.denom, 0x80);
    assert_eq!(d.pos, 0);
}

#[test]
fn decoder_empty_stream() {
    let d = Decoder::new(&[]);
    assert_eq!(d.numer, 0);
    assert_eq!(d.denom, 0x80);
}

#[test]
fn decode_commit_uniform_two() {
    // With enough input bytes, decode_commit(2) should return 0 or 1
    let data = vec![0u8; 64];
    let mut d = Decoder::new(&data);
    let v = d.decode_commit(2);
    assert!(v < 2);
}

// ---- WeighWindow ----

#[test]
fn weigh_window_initial_state() {
    let w = WeighWindow::new(255, 10);
    assert_eq!(w.weight_total, 4);
    assert_eq!(w.weights.len(), 1);
    assert_eq!(w.values.len(), 1);
    assert_eq!(w.ranges.len(), 2);
    assert_eq!(w.ranges[0], 0);
    assert_eq!(w.ranges[1], FIXED_ONE);
    assert_eq!(w.count_cap, 11); // 10 + 1
}

#[test]
fn weigh_window_thresh_values() {
    // Small alphabet: thresh_increase_cap = 128
    let w = WeighWindow::new(10, 5);
    assert_eq!(w.thresh_increase_cap, 128);
    assert_eq!(w.thresh_weight_rebuild, 320); // max(256, min(320, 15160))

    // Large alphabet: thresh_increase_cap is capped
    let w = WeighWindow::new(1000, 100);
    assert_eq!(w.thresh_weight_rebuild, 15160); // min(32000, 15160)
    assert_eq!(w.thresh_increase_cap, 2000); // min(2000, 15160/2-32=7548)
}

#[test]
fn weigh_window_rebuild_weights_halves() {
    let mut w = WeighWindow::new(255, 10);
    w.weights = vec![4, 10, 6, 8];
    w.values = vec![0, 1, 2, 3];
    w.weight_total = 28;

    w.rebuild_weights();

    // All weights halved
    let total: u16 = w.weights.iter().sum();
    assert_eq!(w.weight_total, total);
    // Escape (index 0) should be halved: 4/2 = 2
    assert_eq!(w.weights[0], 2);
}

#[test]
fn weigh_window_rebuild_weights_removes_zeros() {
    let mut w = WeighWindow::new(255, 10);
    w.weights = vec![4, 1, 8, 1]; // weights[1] and [3] will become 0 after halving
    w.values = vec![0, 10, 20, 30];
    w.weight_total = 14;

    w.rebuild_weights();

    // Zero-weight symbols (original weight 1, halved to 0) should be removed
    assert!(w.weights.iter().all(|&w| w > 0 || w == w));
    let total: u16 = w.weights.iter().sum();
    assert_eq!(w.weight_total, total);
}

#[test]
fn weigh_window_rebuild_ranges_sums_to_fixed_one() {
    let mut w = WeighWindow::new(255, 10);
    w.weights = vec![4, 10, 6];
    w.values = vec![0, 1, 2];
    w.weight_total = 20;

    w.rebuild_ranges();

    assert_eq!(w.ranges[0], 0);
    assert_eq!(*w.ranges.last().unwrap(), FIXED_ONE);
    // Monotonically increasing
    for pair in w.ranges.windows(2) {
        assert!(pair[0] <= pair[1]);
    }
}

// ---- Parameter parsing ----

#[test]
fn parse_parameter_le() {
    // word0: decoded_value_max=256, backref_value_max=0x1000
    // 256 | (0x1000 << 9) = 256 | 0x200000 = 0x200100
    let word0 = 0x200100u32;
    // word1: decoded_count=128, highbit_count=5
    // 128 | (5 << 19) = 128 | 0x280000 = 0x280080
    let word1 = 0x280080u32;
    // word2: sizes_count = [10, 20, 30, 40] (MSB first)
    let word2 = 0x0A141E28u32;

    let mut data = vec![0u8; 12];
    data[0..4].copy_from_slice(&word0.to_le_bytes());
    data[4..8].copy_from_slice(&word1.to_le_bytes());
    data[8..12].copy_from_slice(&word2.to_le_bytes());

    let p = parse_parameter(&data, 0, Endianness::Little);
    assert_eq!(p.decoded_value_max, 256);
    assert_eq!(p.backref_value_max, 0x1000);
    assert_eq!(p.decoded_count, 128);
    assert_eq!(p.highbit_count, 5);
    assert_eq!(p.sizes_count, [10, 20, 30, 40]);
}

#[test]
fn parse_parameter_be() {
    let word0 = 0x200100u32;
    let word1 = 0x280080u32;
    let word2 = 0x0A141E28u32;

    let mut data = vec![0u8; 12];
    data[0..4].copy_from_slice(&word0.to_be_bytes());
    data[4..8].copy_from_slice(&word1.to_be_bytes());
    data[8..12].copy_from_slice(&word2.to_be_bytes());

    let p = parse_parameter(&data, 0, Endianness::Big);
    assert_eq!(p.decoded_value_max, 256);
    assert_eq!(p.backref_value_max, 0x1000);
    assert_eq!(p.decoded_count, 128);
    assert_eq!(p.highbit_count, 5);
    assert_eq!(p.sizes_count, [10, 20, 30, 40]);
}

// ---- Dictionary ----

#[test]
fn dictionary_init_window_counts() {
    let p = Parameter {
        decoded_value_max: 256,
        backref_value_max: 4096,
        decoded_count: 128,
        highbit_count: 5,
        sizes_count: [10, 20, 30, 40],
    };
    let d = Dictionary::new(&p);

    assert_eq!(d.lowbit_value_max, 4);        // min(4097, 4)
    assert_eq!(d.midbit_windows.len(), 5);     // 4096/1024 + 1
    assert_eq!(d.size_windows.len(), 65);      // 4*16 + 1
}

// ---- Top-level decompress ----

#[test]
fn decompress_empty() {
    assert!(decompress(&[], &mut [], 0, 0, Endianness::Little).is_ok());
}

#[test]
fn decompress_truncated_header() {
    let mut out = [0u8; 16];
    let result = decompress(&[0u8; 20], &mut out, 0, 0, Endianness::Little);
    assert!(matches!(result, Err(Error::InputTruncated)));
}

// ---- Error derives ----

#[test]
fn error_eq() {
    assert_eq!(Error::InputTruncated, Error::InputTruncated);
    assert_eq!(
        Error::InvalidParameter("x".into()),
        Error::InvalidParameter("x".into()),
    );
    assert_ne!(Error::InputTruncated, Error::InvalidParameter("y".into()));
}

// ---- Commit wrapping arithmetic ----

#[test]
fn commit_wrapping_arithmetic() {
    let data = vec![0xFFu8; 64];
    let mut d = Decoder::new(&data);
    // Pre-load the decoder state
    d.decode(256);
    // Force extreme values that would underflow without wrapping
    d.next_denom = u32::MAX;
    d.numer = 0;
    // Must not panic
    d.commit(256, 255, 1);
}

// ---- Adversarial fuzzing ----

#[test]
fn decompress_no_panic_on_adversarial_input() {
    // Valid 36-byte header (decoded_value_max=256 in each sub-stream) + 0xFF stream
    let mut compressed = vec![0u8; 100];
    // word0 for each sub-stream: decoded_value_max=256
    let word0 = 256u32; // backref_value_max=0, decoded_value_max=256
    for i in 0..3 {
        let off = i * 12;
        compressed[off..off + 4].copy_from_slice(&word0.to_le_bytes());
        // word1: decoded_count=1, highbit_count=0
        compressed[off + 4..off + 8].copy_from_slice(&1u32.to_le_bytes());
        // word2: sizes_count all 1
        compressed[off + 8..off + 12].copy_from_slice(&0x01010101u32.to_le_bytes());
    }
    // Fill stream portion with 0xFF
    for b in &mut compressed[36..] {
        *b = 0xFF;
    }
    let mut out = vec![0u8; 32];
    // Must not panic — result can be Ok or Err
    let _ = decompress(&compressed, &mut out, 10, 20, Endianness::Little);
}

#[test]
fn decompress_no_panic_on_zero_stream() {
    // Valid 36-byte header + all-zero stream
    let mut compressed = vec![0u8; 100];
    let word0 = 256u32;
    for i in 0..3 {
        let off = i * 12;
        compressed[off..off + 4].copy_from_slice(&word0.to_le_bytes());
        compressed[off + 4..off + 8].copy_from_slice(&1u32.to_le_bytes());
        compressed[off + 8..off + 12].copy_from_slice(&0x01010101u32.to_le_bytes());
    }
    let mut out = vec![0u8; 32];
    // Must not panic
    let _ = decompress(&compressed, &mut out, 10, 20, Endianness::Little);
}
