use conclave::h264::BitReader;
use conclave::h264_cavlc::{
    decode_residual_4x4_nc0, inverse_zigzag, read_coeff_token_nc0, read_run_before,
    read_level, read_total_zeros, ZIGZAG_4X4,
};

/// Build a bit reader over a sequence of (value, bit_length) tuples
/// packed MSB-first.
fn br_from_parts(parts: &[(u32, u32)]) -> Vec<u8> {
    let mut buf = Vec::new();
    let mut acc: u64 = 0;
    let mut filled: u32 = 0;
    for &(bits, val) in parts {
        acc = (acc << bits) | (val as u64);
        filled += bits;
        while filled >= 8 {
            let shift = filled - 8;
            buf.push(((acc >> shift) & 0xFF) as u8);
            acc &= (1u64 << shift) - 1;
            filled -= 8;
        }
    }
    if filled > 0 {
        buf.push(((acc << (8 - filled)) & 0xFF) as u8);
    }
    buf
}

#[test]
fn zigzag_inverse_is_identity_on_raster() {
    // Place 0..15 into scan order then invert; raster-order result
    // should match what ZIGZAG_4X4 spells out per index.
    let scan: [i32; 16] = std::array::from_fn(|i| i as i32);
    let raster = inverse_zigzag(&scan);
    // Sanity: position [0] = first scan coeff; position [15] is last.
    assert_eq!(raster[ZIGZAG_4X4[0]], 0);
    assert_eq!(raster[ZIGZAG_4X4[15]], 15);
}

#[test]
fn coeff_token_zero_total_coeff() {
    // "1" = TotalCoeff=0, TrailingOnes=0
    let buf = br_from_parts(&[(1, 1)]);
    let mut br = BitReader::new(&buf);
    let (tc, t1) = read_coeff_token_nc0(&mut br).unwrap();
    assert_eq!(tc, 0);
    assert_eq!(t1, 0);
}

#[test]
fn coeff_token_tc1_t1_1() {
    // "000101" = TotalCoeff=1, TrailingOnes=1
    let buf = br_from_parts(&[(6, 0b000101)]);
    let mut br = BitReader::new(&buf);
    let (tc, t1) = read_coeff_token_nc0(&mut br).unwrap();
    assert_eq!(tc, 1);
    assert_eq!(t1, 1);
}

#[test]
fn total_zeros_tc1_examples() {
    // TC=1, zeros_left=0 → "1"
    let buf = br_from_parts(&[(1, 1)]);
    let mut br = BitReader::new(&buf);
    assert_eq!(read_total_zeros(&mut br, 1), Some(0));
    // TC=1, zeros_left=1 → "011"
    let buf = br_from_parts(&[(3, 0b011)]);
    let mut br = BitReader::new(&buf);
    assert_eq!(read_total_zeros(&mut br, 1), Some(1));
}

#[test]
fn run_before_zeros_left_2_examples() {
    // zl=2, run=0 → "1"
    let buf = br_from_parts(&[(1, 1)]);
    let mut br = BitReader::new(&buf);
    assert_eq!(read_run_before(&mut br, 2), Some(0));
    // zl=2, run=1 → "01"
    let buf = br_from_parts(&[(2, 0b01)]);
    let mut br = BitReader::new(&buf);
    assert_eq!(read_run_before(&mut br, 2), Some(1));
}

#[test]
fn decode_all_zero_block_yields_zeros() {
    // coeff_token "1" → TotalCoeff=0. Block is all zeros.
    let buf = br_from_parts(&[(1, 1)]);
    let mut br = BitReader::new(&buf);
    let block = decode_residual_4x4_nc0(&mut br).unwrap();
    assert_eq!(block, [0i32; 16]);
}

#[test]
fn decode_single_trailing_one_at_dc() {
    // Build minimum bits for: TotalCoeff=1, TrailingOnes=1, sign=+,
    // total_zeros=0 → puts a +1 at scan position 0 (DC of raster).
    // coeff_token "000101" (6 bits) + sign bit "0" (positive) +
    // total_zeros "1" (TC=1 zl=0).
    let buf = br_from_parts(&[(6, 0b000101), (1, 0), (1, 1)]);
    let mut br = BitReader::new(&buf);
    let block = decode_residual_4x4_nc0(&mut br).unwrap();
    // The single +1 lands at scan-pos 0 → raster pos ZIGZAG_4X4[0]=0.
    assert_eq!(block[0], 1);
    for i in 1..16 {
        assert_eq!(block[i], 0, "raster[{i}] should be 0");
    }
}

/// The bits of a text of zeros and ones, with a few zeros behind them.
fn bits(text: &str) -> Vec<u8> {
    let mut out = vec![0u8; text.len() / 8 + 4];
    for (i, c) in text.chars().enumerate() {
        if c == '1' {
            out[i / 8] |= 0x80 >> (i % 8);
        }
    }
    out
}

#[test]
fn every_token_has_its_code() {
    let codes = [
        ("1", 0, 0),
        ("01", 1, 1),
        ("000101", 1, 1),
        ("00000000000101", 1, 0),
        ("001", 2, 2),
        ("000100", 2, 1),
        ("00000111", 2, 0),
        ("00011", 3, 3),
        ("0000101", 3, 2),
        ("00000110", 3, 1),
        ("000000111", 3, 0),
        ("000011", 4, 3),
        ("00000101", 4, 2),
        ("000000110", 4, 1),
        ("0000000111", 4, 0),
    ];
    for (code, coefficients, ones) in codes {
        let buf = bits(code);
        let mut br = BitReader::new(&buf);
        assert_eq!(read_coeff_token_nc0(&mut br), Some((coefficients, ones)), "{code}");
    }
}

#[test]
fn every_number_of_zeros_has_its_code() {
    let codes = [
        "1", "011", "010", "0011", "0010", "00011", "00010", "000011", "000010", "0000011",
        "0000010", "00000011", "00000010", "000000011", "000000010", "000000001",
    ];
    for (zeros, code) in codes.iter().enumerate() {
        let buf = bits(code);
        let mut br = BitReader::new(&buf);
        assert_eq!(read_total_zeros(&mut br, 1), Some(zeros as u8), "{code}");
    }
}

#[test]
fn levels_follow_their_prefixes() {
    let level = |text: &str, suffix_length: u8| {
        let buf = bits(text);
        let mut br = BitReader::new(&buf);
        read_level(&mut br, suffix_length)
    };
    assert_eq!(level("1", 0), Some(1));
    assert_eq!(level("01", 0), Some(-1));
    // The last code of the short escape, and the first of the long one.
    assert_eq!(level("0000000000000011111", 0), Some(-15));
    assert_eq!(level("0000000000000001000000000000", 0), Some(16));
    assert_eq!(level("0000000000000001000000000001", 0), Some(-16));
    // With a suffix length, the long escape follows the largest plain code.
    assert_eq!(level("0000000000000011", 1), Some(-15));
    assert_eq!(level("0000000000000001000000000000", 1), Some(16));
    // A prefix of 16 goes on behind the codes of a prefix of 15.
    assert_eq!(level("0000000000000001111111111111", 0), Some(-2063));
    assert_eq!(level("000000000000000010000000000000", 0), Some(2064));
}

#[test]
fn a_lone_level_is_no_trailing_one() {
    // A single coefficient that is no trailing one, its level, and no zeros.
    for (code, level) in [("1", 2), ("01", -2), ("001", 3)] {
        let buf = bits(&format!("00000000000101{code}1"));
        let mut br = BitReader::new(&buf);
        let block = decode_residual_4x4_nc0(&mut br).unwrap();
        assert_eq!(block[0], level);
    }
}
