use bizclaw_brain::blocks::{plan_row, unpack_block, BlockCodes, RowLayout};
use bizclaw_brain::quant::{is_type_supported, GgmlType, QuantError};
use half::f16;

fn values(c: &BlockCodes) -> Vec<f32> {
    let d = f16::from_bits(c.d).to_f32();
    let dmin = f16::from_bits(c.dmin).to_f32();
    c.mul.iter().zip(c.sub.iter()).map(|(&m, &s)| d * m as f32 - dmin * s as f32).collect()
}

fn one() -> [u8; 2] {
    f16::from_f32(1.0).to_le_bytes()
}

#[test]
fn test_dequantize_q8_0() {
    let scale_bytes = one();
    let mut block = vec![0u8; 34];
    block[0] = scale_bytes[0];
    block[1] = scale_bytes[1];
    for i in 0..32 {
        block[2 + i] = (i + 1) as u8;
    }
    let output = values(&unpack_block(GgmlType::Q8_0, &block));
    assert_eq!(output.len(), 32);
    assert!((output[0] - 1.0).abs() < 0.01);
    assert!((output[1] - 2.0).abs() < 0.01);
}

#[test]
fn test_dequantize_q4_0() {
    let scale_bytes = one();
    let mut block = vec![0u8; 18];
    block[0] = scale_bytes[0];
    block[1] = scale_bytes[1];
    block[2] = 0x98;
    let output = values(&unpack_block(GgmlType::Q4_0, &block));
    assert!((output[0] - 0.0).abs() < 0.01, "expected 0.0, got {}", output[0]);
    assert!((output[1] - 1.0).abs() < 0.01, "expected 1.0, got {}", output[1]);
}

#[test]
fn test_dequantize_q6_k_basic() {
    let mut block = vec![0u8; 210];
    for i in 0..64 {
        block[128 + i] = 0x22;
    }
    for i in 0..16 {
        block[192 + i] = 1;
    }
    let d_bytes = one();
    block[208] = d_bytes[0];
    block[209] = d_bytes[1];
    let output = values(&unpack_block(GgmlType::Q6K, &block));
    assert_eq!(output.len(), 256);
    for v in &output {
        assert!(v.is_finite(), "Q6_K produced non-finite value");
    }
}

#[test]
fn test_dequantize_q4_k_basic() {
    let mut block = vec![0u8; 144];
    let d_bytes = one();
    block[0] = d_bytes[0];
    block[1] = d_bytes[1];
    block[4] = 1;
    let output = values(&unpack_block(GgmlType::Q4K, &block));
    assert!((output[0]).abs() < 0.01, "expected ~0.0, got {}", output[0]);
}

#[test]
fn test_unsupported_quant_errors() {
    let data = vec![0u8; 64];
    let result = plan_row(data.len(), 32, GgmlType::IQ2XXS);
    assert!(result.is_err(), "Unsupported quant type should error, not zero-fill");
    assert_eq!(result, Err(QuantError::UnsupportedQuant(GgmlType::IQ2XXS)));
}

#[test]
fn test_is_type_supported() {
    assert!(is_type_supported(GgmlType::F32));
    assert!(is_type_supported(GgmlType::Q4_0));
    assert!(is_type_supported(GgmlType::Q4K));
    assert!(is_type_supported(GgmlType::Q6K));
    assert!(!is_type_supported(GgmlType::IQ2XXS));
    assert!(!is_type_supported(GgmlType::IQ4NL));
}

#[test]
fn q8_0_ones_decode_to_ones() {
    let mut block = vec![1u8; 34];
    block[..2].copy_from_slice(&one());
    let out = values(&unpack_block(GgmlType::Q8_0, &block));
    assert!(out.iter().all(|v| (v - 1.0).abs() < 0.01));
}

#[test]
fn q8_0_negative_quants_are_signed() {
    let mut block = vec![0xFFu8; 34];
    block[..2].copy_from_slice(&one());
    let c = unpack_block(GgmlType::Q8_0, &block);
    assert!(c.mul.iter().all(|&m| m == -1));
}

#[test]
fn q8_0_zero_block_is_all_zero() {
    let mut block = vec![0u8; 34 * 4];
    let layout = plan_row(block.len(), 128, GgmlType::Q8_0).unwrap();
    assert_eq!(layout, RowLayout { n_blocks: 4, block_size: 32, type_size: 34 });
    let mut out = Vec::new();
    for b in 0..layout.n_blocks {
        block[b * 34..b * 34 + 2].copy_from_slice(&one());
        out.extend(values(&unpack_block(GgmlType::Q8_0, &block[b * 34..])));
    }
    assert_eq!(out.len(), 128);
    assert!(out.iter().all(|&v| v == 0.0));
}

#[test]
fn q4_0_neutral_block() {
    let mut block = vec![0x88u8; 18];
    block[..2].copy_from_slice(&one());
    let out = values(&unpack_block(GgmlType::Q4_0, &block));
    assert!(out.iter().all(|v| v.abs() < 0.01));
}

#[test]
fn q2_k_scale_and_min() {
    let mut block = vec![0u8; 84];
    block[0] = 0x21; // sub-block 0: scale 1, min 2
    block[16] = 0b11_10_01_00; // quants 0,1,2,3
    block[80..82].copy_from_slice(&one());
    block[82..84].copy_from_slice(&one());
    let c = unpack_block(GgmlType::Q2K, &block);
    assert_eq!(&c.mul[..4], &[0, 1, 2, 3]);
    assert_eq!(&c.sub[..4], &[2, 2, 2, 2]);
    let out = values(&c);
    assert!((out[3] - 1.0).abs() < 0.01);
    assert!((out[0] + 2.0).abs() < 0.01);
}

#[test]
fn q3_k_neutral_block() {
    let mut block = vec![0u8; 110];
    // hmask bits all set and low quants zero: q = 4, the centre.
    for b in block.iter_mut().take(32) {
        *b = 0xFF;
    }
    // Scales: low nibble 1, high bits 2 -> 1 + 32 - 32 = 1.
    for b in block.iter_mut().skip(96).take(8) {
        *b = 0x11;
    }
    for b in block.iter_mut().skip(104).take(4) {
        *b = 0xAA;
    }
    block[108..110].copy_from_slice(&one());
    let c = unpack_block(GgmlType::Q3K, &block);
    assert!(c.mul.iter().all(|&m| m == 0));
    block[0] = 0xFE; // element 0 loses its high bit: q = 0
    let c = unpack_block(GgmlType::Q3K, &block);
    assert_eq!(c.mul[0], -4);
}

#[test]
fn q4_k_scale_min_unpack() {
    let mut block = vec![0u8; 144];
    block[0..2].copy_from_slice(&one());
    block[2..4].copy_from_slice(&one());
    block[4] = 0x42; // scales[0] = 2, high bits 1 go to scales[4]
    block[5] = 0x03; // mins[0] = 3
    block[12] = 0x21; // scales[4] |= 1 << 2, mins[4] |= 2 << 2
    block[16] = 0x51; // quants 1 and 5
    let c = unpack_block(GgmlType::Q4K, &block);
    assert_eq!(c.mul[0], 2);
    assert_eq!(c.mul[1], 10);
    assert_eq!(c.sub[0], 3);
    assert_eq!(c.sub[4 * 32], 8);
    assert_eq!(c.mul[4 * 32], 0);
}

#[test]
fn q5_k_high_bit_plane() {
    let mut block = vec![0u8; 176];
    block[0..2].copy_from_slice(&one());
    block[4] = 1; // scales[0] = 1
    block[16] = 0x01; // high bit of element 0
    block[48] = 0x0F; // low nibble of element 0 = 15
    let c = unpack_block(GgmlType::Q5K, &block);
    assert_eq!(c.mul[0], 31);
    assert_eq!(c.mul[1], 0);
}

#[test]
fn q6_k_centre_is_zero() {
    let mut block = vec![0u8; 210];
    for i in 0..64 {
        block[128 + i] = 0xAA; // hi2 = 2 everywhere: q = 32
    }
    for i in 0..16 {
        block[192 + i] = 1;
    }
    block[208..210].copy_from_slice(&one());
    let c = unpack_block(GgmlType::Q6K, &block);
    assert!(c.mul.iter().all(|&m| m == 0));
    assert_eq!(c.d, 0x3C00);
}

#[test]
fn plan_row_checks_length() {
    assert_eq!(plan_row(143, 256, GgmlType::Q4K), Err(QuantError::ShapeMismatch));
    assert_eq!(
        plan_row(144, 256, GgmlType::Q4K),
        Ok(RowLayout { n_blocks: 1, block_size: 256, type_size: 144 })
    );
    assert_eq!(
        plan_row(12, 3, GgmlType::F32),
        Ok(RowLayout { n_blocks: 3, block_size: 1, type_size: 4 })
    );
}

#[test]
fn tags_round_trip() {
    assert_eq!(GgmlType::from_tag(20), Some(GgmlType::IQ4NL));
    assert_eq!(GgmlType::from_tag(4), None);
    assert_eq!(GgmlType::from_tag(99), None);
    assert_eq!(GgmlType::Q6K.tag(), 14);
    assert_eq!(GgmlType::Q5K.type_size(), 176);
    assert_eq!(GgmlType::Q2K.block_size(), 256);
}
