use gr2_rs::bitknit::decoder::u16_slice_to_bytes;
use gr2_rs::bitknit::{self, cdf::AdaptiveModel, lru::LruCache};
use gr2_rs::format::Endianness;
use gr2_rs::lz::copy_match;
use gr2_rs::oodle1::coder::Decoder;
use gr2_rs::oodle1::dictionary::{parse_parameter, Dictionary};
use gr2_rs::oodle1::window::WeighWindow;
use gr2_rs::oodle1::{self, Error};
use gr2_rs::reader::crc::crc32;

/// Bytes of a linear congruential generator.
fn noise(seed: u32, n: usize) -> Vec<u8> {
    let mut x = seed;
    let mut out = Vec::new();
    for _ in 0..n {
        x = x.wrapping_mul(1103515245).wrapping_add(12345) & 0x7FFF_FFFF;
        out.push((x >> 16) as u8);
    }
    out
}

// ---- BitKnit ----

fn plain_stream(bytes: &[u8]) -> Vec<u8> {
    let mut data = vec![0xB1, 0x75, 0x00, 0x00];
    data.extend_from_slice(bytes);
    data
}

#[test]
fn bitknit_decodes_literals_and_matches() {
    let data = [
        0xB1, 0x75, 0x3B, 0x00, 0xE9, 0xA8, 0x67, 0x36, 0x6A, 0x05, 0xDE, 0x7F, 0x15, 0xA5, 0x97,
        0x01, 0x35, 0x16, 0x2A, 0xA3, 0x8E, 0x20, 0x38, 0x48, 0x87, 0xAB, 0x28, 0x87,
    ];
    let expected: &[u8] =
        b"gr2-gr2-gr2-gr2-!r2-!rz!rz!rz!rz!rz!rz!rz!rz!rz!rz!rz!rz!rz!rz!\x07\xc8\x00\x00\x07\xc8\x00";
    let mut out = vec![0u8; expected.len()];
    assert_eq!(bitknit::decompress(&data, &mut out), Ok(()));
    assert_eq!(out, expected);
}

#[test]
fn bitknit_match_crosses_quantum_boundary() {
    // A coded quantum of three literals and long matches, then a plain one.
    let data = [
        0xB1, 0x75, 0x0E, 0x00, 0x8A, 0x94, 0x21, 0x04, 0x82, 0x00, 0x8E, 0x80, 0x02, 0xA0, 0xAF,
        0x02, 0xFF, 0xFF, 0x54, 0x13, 0x01, 0x00, 0xFF, 0xFF, 0xFF, 0xFF, 0x1A, 0x80, 0x9A, 0x81,
        0xFF, 0x7F, 0xFF, 0xFF, 0x14, 0x80, 0x01, 0x80, 0xFF, 0x7F, 0xFF, 0x0F, 0x10, 0x00, 0x00,
        0x00, 0x0A, 0x0B, 0x0C, 0x0D, 0x0E, 0x0F, 0x10, 0x11,
    ];
    let mut out = vec![0u8; 65795];
    assert_eq!(bitknit::decompress(&data, &mut out), Ok(()));
    for i in 0..65787 {
        assert_eq!(out[i], [1, 2, 3][i % 3]);
    }
    assert_eq!(out[65787..], [10, 11, 12, 13, 14, 15, 16, 17]);
}

#[test]
fn bitknit_corrupted_quantum_keeps_decoded_bytes() {
    let mut data = vec![0xB1, 0x75];
    data.extend_from_slice(&noise(5, 118));
    let mut out = vec![0xEEu8; 40];
    assert_eq!(
        bitknit::decompress(&data, &mut out),
        Err(bitknit::Error::InvalidStream("rANS stream corrupted at quantum end"))
    );
    assert_eq!(
        out,
        [
            209, 191, 183, 85, 44, 135, 194, 16, 61, 246, 144, 2, 186, 132, 20, 24, 150, 236, 229,
            40, 67, 86, 54, 156, 191, 58, 236, 142, 143, 90, 3, 61, 62, 108, 28, 41, 113, 182, 174,
            180
        ]
    );
}

#[test]
fn bitknit_long_quantum_adapts_its_models() {
    let mut data = vec![0xB1, 0x75];
    data.extend_from_slice(&noise(5, 118));
    let mut out = vec![0xEEu8; 70000];
    assert!(bitknit::decompress(&data, &mut out).is_err());
    assert_eq!(crc32(&out), 0xAD403FA9);
}

#[test]
fn bitknit_plain_stream_round_trip() {
    for n in [0, 2, 100, 0x1_0000] {
        let bytes = noise(3, n);
        let mut out = vec![0u8; n];
        assert_eq!(bitknit::decompress(&plain_stream(&bytes), &mut out), Ok(()));
        assert_eq!(out, bytes);
    }
}

#[test]
fn bitknit_plain_stream_of_two_quantums() {
    let bytes = noise(4, 0x1_0000 + 6);
    let mut data = plain_stream(&bytes[..0x1_0000]);
    data.extend_from_slice(&[0, 0]);
    data.extend_from_slice(&bytes[0x1_0000..]);
    let mut out = vec![0u8; bytes.len()];
    assert_eq!(bitknit::decompress(&data, &mut out), Ok(()));
    assert_eq!(out, bytes);
}

#[test]
fn bitknit_plain_quantum_fills_odd_output() {
    let mut out = [0u8; 3];
    assert_eq!(bitknit::decompress(&plain_stream(&[1, 2, 3, 4]), &mut out), Ok(()));
    assert_eq!(out, [1, 2, 3]);
}

#[test]
fn bitknit_short_plain_stream_is_truncated() {
    let mut out = [9u8; 5];
    assert_eq!(
        bitknit::decompress(&plain_stream(&[1, 2]), &mut out),
        Err(bitknit::Error::InputTruncated)
    );
    assert_eq!(out, [1, 2, 9, 9, 9]);
}

#[test]
fn bitknit_magic_alone_is_truncated() {
    let mut out = [9u8; 2];
    assert_eq!(bitknit::decompress(&[0xB1, 0x75], &mut out), Err(bitknit::Error::InputTruncated));
    assert_eq!(out, [9, 9]);
}

#[test]
fn bitknit_error_messages() {
    assert_eq!(
        bitknit::Error::InvalidMagic.to_string(),
        "BitKnit: invalid magic (expected 0x75B1)"
    );
    assert_eq!(bitknit::Error::InvalidStream("x").to_string(), "BitKnit: invalid stream: x");
    assert_eq!(bitknit::Error::OutputTooSmall.to_string(), "BitKnit: output buffer too small");
    assert_eq!(bitknit::Error::InputTruncated.to_string(), "BitKnit: input truncated");
}

#[test]
fn words_become_bytes_low_byte_first() {
    assert_eq!(u16_slice_to_bytes(&[0x1234, 0xABCD]), [0x34, 0x12, 0xCD, 0xAB]);
    assert!(u16_slice_to_bytes(&[]).is_empty());
}

#[test]
fn model_stays_valid_over_many_cycles() {
    let mut m = AdaptiveModel::new(1024, 40, 0, 15, 10);
    for b in noise(11, 10_000) {
        m.observe_symbol((b % 40) as u16);
        assert_eq!(m.cdf.sums[0], 0);
        assert_eq!(m.cdf.sums[40] as u32, 1 << 15);
        for i in 0..40 {
            assert!(m.cdf.sums[i] < m.cdf.sums[i + 1]);
        }
    }
}

#[test]
fn model_ignores_unknown_symbols() {
    let mut m = AdaptiveModel::new(16, 4, 0, 8, 4);
    let before = m.freq_accum.clone();
    m.observe_symbol(4);
    assert_eq!(m.freq_accum, before);
    assert_eq!(m.counter, 0);
}

#[test]
fn lru_hit_moves_to_front() {
    let mut c = LruCache::new();
    c.insert(100);
    c.insert(200);
    // Recency: 1 1 1 1 1 1 200 100
    assert_eq!(c.hit(7), 100);
    assert_eq!(c.hit(0), 100);
    assert_eq!(c.hit(7), 200);
    assert_eq!(c.hit(1), 100);
    assert_eq!(c.hit(1), 200);
}

#[test]
fn lru_hit_rotates_the_lowest_nibbles() {
    for (index, order) in [
        (0, 0x7654_3210),
        (1, 0x7654_3201),
        (3, 0x7654_2103),
        (6, 0x7543_2106),
        (7, 0x6543_2107),
    ] {
        let mut c = LruCache::new();
        c.hit(index);
        assert_eq!(c.order, order);
    }
}

#[test]
fn bitknit_quantum_at_the_end_of_the_output() {
    let mut d = bitknit::decoder::Decoder::new();
    let mut dst = [1u8, 2];
    let (mut pos, mut offset) = (0usize, 2usize);
    assert_eq!(d.decode_quantum(&[0, 5], &mut pos, &mut dst, &mut offset), Ok(()));
    assert_eq!((pos, offset, dst), (1, 2, [1, 2]));
}

#[test]
fn bitknit_stored_quantum_without_output() {
    let mut d = bitknit::decoder::Decoder::new();
    let (mut pos, mut offset) = (1usize, 0usize);
    assert_eq!(d.decode_quantum(&[7, 0, 5], &mut pos, &mut [], &mut offset), Ok(()));
    assert_eq!((pos, offset), (2, 0));
}

#[test]
fn bitknit_quantum_past_the_end_of_the_stream() {
    let mut d = bitknit::decoder::Decoder::new();
    let mut dst = [7u8; 4];
    let (mut pos, mut offset) = (9usize, 0usize);
    let _ = d.decode_quantum(&[], &mut pos, &mut dst, &mut offset);
    assert_eq!(offset, 4);
}

// ---- Matches ----

#[test]
fn match_overlaps_what_it_produces() {
    let mut out = *b"ab......";
    let mut at = 2;
    copy_match(&mut out, &mut at, 2, 5);
    assert_eq!(&out, b"abababa.");
    assert_eq!(at, 7);
}

#[test]
fn match_from_before_the_start_is_zero() {
    let mut out = [7u8; 6];
    let mut at = 1;
    copy_match(&mut out, &mut at, 3, 4);
    assert_eq!(out, [7, 0, 0, 7, 0, 7]);
    assert_eq!(at, 5);
}

#[test]
fn match_stops_at_the_end() {
    let mut out = [1u8, 2, 0];
    let mut at = 2;
    copy_match(&mut out, &mut at, 1, 100);
    assert_eq!(out, [1, 2, 2]);
    assert_eq!(at, 3);
}

// ---- Oodle1 ----

/// Parameters of a sub-stream.
fn parameters(
    literal_max: u32,
    window: u32,
    literal_count: u32,
    high_count: u32,
    sizes: [u8; 4],
    endian: Endianness,
) -> Vec<u8> {
    let words = [
        literal_max | (window << 9),
        literal_count | (high_count << 19),
        u32::from_be_bytes(sizes),
    ];
    let mut out = Vec::new();
    for w in words {
        match endian {
            Endianness::Little => out.extend_from_slice(&w.to_le_bytes()),
            Endianness::Big => out.extend_from_slice(&w.to_be_bytes()),
        }
    }
    out
}

fn oodle_stream(header: &[u8], body: &[u8]) -> Vec<u8> {
    let mut data = Vec::new();
    for _ in 0..3 {
        data.extend_from_slice(header);
    }
    data.extend_from_slice(body);
    data
}

#[test]
fn oodle1_decodes_literals_and_matches() {
    let header = parameters(256, 4096, 40, 3, [10, 20, 30, 40], Endianness::Little);
    let data = oodle_stream(&header, &noise(528, 400));
    let mut out = vec![0xEEu8; 120];
    assert_eq!(oodle1::decompress(&data, &mut out, 40, 80, Endianness::Little), Ok(()));
    assert_eq!(
        out[..48],
        [
            0x4F, 0xA1, 0x66, 0xA7, 0xEE, 0xEC, 0x0F, 0xA7, 0xFD, 0xEC, 0x0F, 0xA7, 0xFD, 0xEC,
            0x0F, 0xA7, 0xFD, 0xEC, 0x0F, 0xA7, 0xFD, 0xEC, 0x0F, 0xA7, 0xFD, 0xEC, 0x0F, 0xA7,
            0xFD, 0xEC, 0x0F, 0xA7, 0xFD, 0xEC, 0x0F, 0xA7, 0xFD, 0xA7, 0xEE, 0xEC, 0x0F, 0xA7,
            0xFD, 0xEC, 0x0F, 0xA7, 0xFD, 0xEC,
        ]
    );
    assert_eq!(
        out[64..84],
        [
            0x0F, 0xA7, 0xFD, 0xEC, 0x0F, 0xA7, 0xFD, 0xA7, 0xEE, 0xEC, 0x0F, 0xA7, 0xFD, 0xEC,
            0x0F, 0xA7, 0xFD, 0xEC, 0x0F, 0xA7
        ]
    );
}

#[test]
fn oodle1_decodes_big_endian_parameters() {
    let header = parameters(60, 3000, 20, 2, [5, 5, 5, 5], Endianness::Big);
    let data = oodle_stream(&header, &noise(386, 3000));
    let mut out = vec![0xEEu8; 2000];
    assert_eq!(oodle1::decompress(&data, &mut out, 300, 1200, Endianness::Big), Ok(()));
    assert_eq!(crc32(&out), 0xAA2C1B50);
}

#[test]
fn oodle1_rebuilds_its_windows() {
    let header = parameters(256, 60000, 100, 50, [20, 20, 20, 20], Endianness::Little);
    let data = oodle_stream(&header, &noise(35, 60000));
    let mut out = vec![0xEEu8; 30000];
    assert_eq!(oodle1::decompress(&data, &mut out, 100, 29000, Endianness::Little), Ok(()));
    assert_eq!(crc32(&out), 0x2B189841);
}

#[test]
fn oodle1_stops_past_the_end_are_cut() {
    let header = parameters(256, 2, 0, 0, [0, 0, 0, 0], Endianness::Little);
    let data = oodle_stream(&header, &noise(35, 600));
    let mut out = vec![0xEEu8; 3000];
    assert_eq!(oodle1::decompress(&data, &mut out, 5000, 29000, Endianness::Little), Ok(()));
    assert_eq!(crc32(&out), 0xDA865B0D);
}

#[test]
fn oodle1_refuses_empty_alphabets() {
    let good = parameters(256, 0, 1, 0, [1, 1, 1, 1], Endianness::Little);
    let bad = parameters(0, 0, 1, 0, [1, 1, 1, 1], Endianness::Little);
    for i in 0..3 {
        let mut data = Vec::new();
        for k in 0..3 {
            data.extend_from_slice(if k >= i { &bad } else { &good });
        }
        let mut out = [5u8; 4];
        let err = oodle1::decompress(&data, &mut out, 0, 0, Endianness::Little).unwrap_err();
        let msg = format!("sub-stream {i}: decoded_value_max is 0");
        assert_eq!(err, Error::InvalidParameter(msg.clone()));
        assert_eq!(err.to_string(), format!("Oodle1: invalid parameter: {msg}"));
        assert_eq!(out, [5; 4]);
    }
}

#[test]
fn oodle1_truncated_input_leaves_output() {
    let mut out = [5u8; 4];
    let result = oodle1::decompress(&[], &mut out, 0, 0, Endianness::Little);
    assert_eq!(result, Err(Error::InputTruncated));
    assert_eq!(Error::InputTruncated.to_string(), "Oodle1: input truncated");
    assert_eq!(out, [5; 4]);
}

#[test]
fn oodle1_coder_keeps_its_point_in_the_interval() {
    let data = noise(21, 64);
    let mut d = Decoder::new(&data);
    for max in [2u16, 65, 256, 0x4000, 3, 1, 0xFFFF].iter().cycle().take(200) {
        let v = d.decode_commit(*max);
        assert!(v < *max);
        assert!(d.numer < d.denom);
        assert!(d.denom >= 1);
    }
}

#[test]
fn oodle1_window_keeps_its_total() {
    let data = noise(22, 20000);
    let mut d = Decoder::new(&data);
    let mut w = WeighWindow::new(100, 30);
    for _ in 0..5000 {
        let v = w.decode_value(&mut d, 101);
        assert!(v < 101);
        let sum: u32 = w.weights.iter().map(|x| *x as u32).sum();
        assert_eq!(sum, w.weight_total as u32);
        assert_eq!(w.values.len(), w.weights.len());
        assert_eq!(w.ranges[0], 0);
        assert_eq!(w.ranges[w.ranges.len() - 1], 0x4000);
    }
}

#[test]
fn oodle1_window_moves_heaviest_symbol_last() {
    let mut w = WeighWindow::new(255, 10);
    w.weights = vec![4, 1, 18, 6, 1];
    w.values = vec![0, 10, 20, 30, 40];
    w.weight_total = 30;
    w.rebuild_weights();
    assert_eq!(w.weights, vec![2, 3, 9]);
    assert_eq!(w.values, vec![0, 30, 20]);
    assert_eq!(w.weight_total, 14);
}

#[test]
fn oodle1_window_keeps_escape_alive() {
    let mut w = WeighWindow::new(255, 10);
    w.weights = vec![1, 9];
    w.values = vec![0, 10];
    w.weight_total = 10;
    w.rebuild_weights();
    assert_eq!(w.weights, vec![1, 4]);
    assert_eq!(w.weight_total, 5);
}

#[test]
fn oodle1_window_sets_shares_by_weight() {
    let mut w = WeighWindow::new(255, 10);
    w.weights = vec![4, 10, 6];
    w.values = vec![0, 1, 2];
    w.weight_total = 20;
    w.rebuild_ranges();
    // One unit of weight is worth 131072 / 20 = 6553 eighths.
    assert_eq!(w.ranges, vec![0, 3276, 11467, 0x4000]);
    assert_eq!(w.thresh_increase, 8);
    assert_eq!(w.thresh_range_rebuild, 28);
}

#[test]
fn oodle1_window_counts_its_total_anew() {
    let mut w = WeighWindow::new(255, 10);
    w.weights = vec![4, 10, 6];
    w.values = vec![0, 1, 2];
    w.weight_total = 0;
    w.rebuild_weights();
    assert_eq!(w.weights, vec![2, 3, 5]);
    assert_eq!(w.values, vec![0, 2, 1]);
    assert_eq!(w.weight_total, 10);
}

#[test]
fn oodle1_coder_reads_on_past_the_end() {
    let mut d = Decoder::new(&[]);
    assert_eq!(d.decode_commit(2), 0);
    assert_eq!(d.pos, 3);
}

#[test]
fn oodle1_blocks_write_what_fits() {
    let header = parameters(256, 4096, 40, 3, [10, 20, 30, 40], Endianness::Little);
    let param = parse_parameter(&header, 0, Endianness::Little);
    let body = noise(528, 400);
    let mut long = false;
    for size in 1..60usize {
        let mut dict = Dictionary::new(&param);
        let mut decoder = Decoder::new(&body);
        let mut out = vec![0xEEu8; size];
        let mut at = 0usize;
        while at < size {
            let before = out.clone();
            let decoded = dict.decoded_size;
            let n = dict.decompress_block(&mut decoder, &mut out, at) as usize;
            assert!(1 <= n && n <= size - at);
            assert_eq!(dict.decoded_size, decoded + n as u32);
            assert_eq!(out[..at], before[..at]);
            assert_eq!(out[at + n..], before[at + n..]);
            long = long || n > 1 && at + n < size;
            at += n;
        }
        assert_eq!(at, size);
        let full = out.clone();
        for past in [size, size + 1, usize::MAX] {
            assert_eq!(dict.decompress_block(&mut decoder, &mut out, past), 0);
            assert_eq!(out, full);
        }
    }
    assert!(long);
}
