//! Bit-exact unpacking of the quantized block layouts.
//!
//! A block of format `t` stands for the values
//! `f16(d) * block_mul(t, b, i) - f16(dmin) * block_sub(t, b, i)`
//! for `i` in `[0, block_size)`, where `b` are the block's bytes.
use vstd::prelude::*;
use crate::quant::{GgmlType, QuantError, supported, is_type_supported, is_block_format, spec_block_size, spec_type_size};

verus! {

/// Little-endian 16-bit word at `off`.
pub open spec fn le_u16(b: Seq<u8>, off: int) -> u16 {
    (b[off] as int + 256 * (b[off + 1] as int)) as u16
}

/// Low nibble when `high` is false, high nibble otherwise.
pub open spec fn nibble(byte: u8, high: bool) -> u8 {
    if high { byte >> 4u8 } else { byte & 0x0Fu8 }
}

/// The 2-bit field of `byte` at bit `shift`.
pub open spec fn crumb(byte: u8, shift: u8) -> u8 {
    (byte >> shift) & 0x03u8
}

/// The single bit of `byte` at position `bit`.
pub open spec fn bit(byte: u8, bit: u8) -> u8 {
    (byte >> bit) & 0x01u8
}

// ── Q4_0: [scale: f16, qs: 16] ─────────────────────────────────

pub open spec fn q4_0_mul(b: Seq<u8>, i: int) -> int {
    nibble(b[2 + i / 2], i % 2 == 1) as int - 8
}

// ── Q8_0: [scale: f16, qs: 32 × i8] ────────────────────────────

pub open spec fn q8_0_mul(b: Seq<u8>, i: int) -> int {
    (b[2 + i] as i8) as int
}

// ── Q2_K: [scales: 16, qs: 64, d: f16, dmin: f16] ───────────────

pub open spec fn q2_k_quant(b: Seq<u8>, i: int) -> u8 {
    crumb(b[16 + (i / 16) * 4 + (i % 16) / 4], (((i % 16) % 4) * 2) as u8)
}

pub open spec fn q2_k_mul(b: Seq<u8>, i: int) -> int {
    (b[i / 16] & 0x0Fu8) as int * q2_k_quant(b, i) as int
}

pub open spec fn q2_k_sub(b: Seq<u8>, i: int) -> int {
    (b[i / 16] >> 4u8) as int
}

// ── Q3_K: [hmask: 32, qs: 64, scales: 12, d: f16] ───────────────

/// Sub-block scale `s` of a Q3_K block: low 4 bits from the first 8 scale bytes,
/// high 2 bits from the last 4, biased by 32.
pub open spec fn q3_k_scale(b: Seq<u8>, s: int) -> int {
    let low: u8 = if s < 8 { b[96 + s] & 0x0Fu8 } else { b[96 + s - 8] >> 4u8 };
    let high: u8 = crumb(b[104 + s % 4], (2 * (s / 4)) as u8);
    (low | (high << 4u8)) as int - 32
}

/// The 3-bit quant: two low bits from `qs`, the high bit from `hmask`.
pub open spec fn q3_k_quant(b: Seq<u8>, i: int) -> int {
    crumb(b[32 + i / 4], ((i % 4) * 2) as u8) as int + 4 * bit(b[i / 8], (i % 8) as u8) as int
}

pub open spec fn q3_k_mul(b: Seq<u8>, i: int) -> int {
    q3_k_scale(b, i / 16) * (q3_k_quant(b, i) - 4)
}

// ── Q4_K / Q5_K packed 6-bit scales and mins (12 bytes at offset 4) ──

pub open spec fn k_scale(b: Seq<u8>, s: int) -> u8 {
    if s < 4 {
        b[4 + 2 * s] & 0x3Fu8
    } else {
        (b[4 + 2 * (s - 4)] >> 6u8) | ((b[12 + (s - 4)] & 0x0Fu8) << 2u8)
    }
}

pub open spec fn k_min(b: Seq<u8>, s: int) -> u8 {
    if s < 4 {
        b[4 + 2 * s + 1] & 0x3Fu8
    } else {
        (b[4 + 2 * (s - 4) + 1] >> 6u8) | ((b[12 + (s - 4)] >> 4u8) << 2u8)
    }
}

// ── Q4_K: [d: f16, dmin: f16, scales: 12, qs: 128] ─────────────

pub open spec fn q4_k_quant(b: Seq<u8>, i: int) -> u8 {
    nibble(b[16 + (i / 32) * 16 + (i % 32) / 2], (i % 32) % 2 == 1)
}

pub open spec fn q4_k_mul(b: Seq<u8>, i: int) -> int {
    k_scale(b, i / 32) as int * q4_k_quant(b, i) as int
}

pub open spec fn k_sub(b: Seq<u8>, i: int) -> int {
    k_min(b, i / 32) as int
}

// ── Q5_K: [d: f16, dmin: f16, scales: 12, qh: 32, qs: 128] ─────

pub open spec fn q5_k_quant(b: Seq<u8>, i: int) -> int {
    nibble(b[48 + (i / 32) * 16 + (i % 32) / 2], (i % 32) % 2 == 1) as int
        + 16 * bit(b[16 + i / 8], (i % 8) as u8) as int
}

pub open spec fn q5_k_mul(b: Seq<u8>, i: int) -> int {
    k_scale(b, i / 32) as int * q5_k_quant(b, i)
}

// ── Q6_K: [ql: 128, qh: 64, scales: 16 × i8, d: f16] ───────────

pub open spec fn q6_k_quant(b: Seq<u8>, i: int) -> int {
    nibble(b[i / 2], i % 2 == 1) as int + 16 * crumb(b[128 + i / 4], ((i % 4) * 2) as u8) as int
}

pub open spec fn q6_k_mul(b: Seq<u8>, i: int) -> int {
    (b[192 + i / 16] as i8) as int * (q6_k_quant(b, i) - 32)
}

// ── All block formats ──────────────────────────────────────────

/// The integer multiplying `f16(d)` in element `i`.
pub open spec fn block_mul(t: GgmlType, b: Seq<u8>, i: int) -> int {
    match t {
        GgmlType::Q4_0 => q4_0_mul(b, i),
        GgmlType::Q8_0 => q8_0_mul(b, i),
        GgmlType::Q2K => q2_k_mul(b, i),
        GgmlType::Q3K => q3_k_mul(b, i),
        GgmlType::Q4K => q4_k_mul(b, i),
        GgmlType::Q5K => q5_k_mul(b, i),
        _ => q6_k_mul(b, i),
    }
}

/// The integer multiplying `f16(dmin)` in element `i` (zero where the format has no minimum).
pub open spec fn block_sub(t: GgmlType, b: Seq<u8>, i: int) -> int {
    match t {
        GgmlType::Q2K => q2_k_sub(b, i),
        GgmlType::Q4K | GgmlType::Q5K => k_sub(b, i),
        _ => 0,
    }
}

/// Byte offset of the half-precision scale `d`.
pub open spec fn d_offset(t: GgmlType) -> int {
    match t {
        GgmlType::Q2K => 80,
        GgmlType::Q3K => 108,
        GgmlType::Q6K => 208,
        _ => 0,
    }
}

/// The half-precision minimum `dmin`, or zero where the format has none.
pub open spec fn block_dmin(t: GgmlType, b: Seq<u8>) -> u16 {
    match t {
        GgmlType::Q2K => le_u16(b, 82),
        GgmlType::Q4K | GgmlType::Q5K => le_u16(b, 2),
        _ => 0,
    }
}

proof fn lemma_u8_fields(x: u8, y: u8, s: u8)
    ensures
        x & 0x0Fu8 <= 15,
        x >> 4u8 <= 15,
        (x >> s) & 0x03u8 <= 3,
        (x >> s) & 0x01u8 <= 1,
        x & 0x3Fu8 <= 63,
        (x >> 6u8) | ((y & 0x0Fu8) << 2u8) <= 63,
        (x >> 6u8) | ((y >> 4u8) << 2u8) <= 63,
{
    assert(x & 0x0Fu8 <= 15) by (bit_vector);
    assert(x >> 4u8 <= 15) by (bit_vector);
    assert((x >> s) & 0x03u8 <= 3) by (bit_vector);
    assert((x >> s) & 0x01u8 <= 1) by (bit_vector);
    assert(x & 0x3Fu8 <= 63) by (bit_vector);
    assert((x >> 6u8) | ((y & 0x0Fu8) << 2u8) <= 63) by (bit_vector);
    assert((x >> 6u8) | ((y >> 4u8) << 2u8) <= 63) by (bit_vector);
}

proof fn lemma_q3_scale_bits(low: u8, high: u8)
    requires
        low <= 15,
        high <= 3,
    ensures
        low | (high << 4u8) <= 63,
{
    assert(low <= 15 && high <= 3 ==> low | (high << 4u8) <= 63) by (bit_vector);
}

/// The integer codes of every block are small: each `mul` lies in
/// `[-4096, 4096]` and each `sub` in `[0, 63]`. A block with finite
/// half-precision factors therefore decodes to finite values.
pub proof fn lemma_codes_bounded(t: GgmlType, b: Seq<u8>, i: int)
    requires
        is_block_format(t),
        b.len() >= spec_type_size(t),
        0 <= i < spec_block_size(t),
    ensures
        -4096 <= block_mul(t, b, i) <= 4096,
        0 <= block_sub(t, b, i) <= 63,
{
    match t {
        GgmlType::Q4_0 => {
            lemma_u8_fields(b[2 + i / 2], 0, 0);
        },
        GgmlType::Q8_0 => {},
        GgmlType::Q2K => {
            let q = q2_k_quant(b, i);
            lemma_u8_fields(b[16 + (i / 16) * 4 + (i % 16) / 4], 0, (((i % 16) % 4) * 2) as u8);
            lemma_u8_fields(b[i / 16], 0, 0);
            let sc = (b[i / 16] & 0x0Fu8) as int;
            assert(0 <= sc * q <= 45) by (nonlinear_arith) requires 0 <= sc <= 15, 0 <= q <= 3;
        },
        GgmlType::Q3K => {
            let s = i / 16;
            let src = if s < 8 { b[96 + s] } else { b[96 + s - 8] };
            lemma_u8_fields(src, 0, 0);
            let low: u8 = if s < 8 { b[96 + s] & 0x0Fu8 } else { b[96 + s - 8] >> 4u8 };
            lemma_u8_fields(b[104 + s % 4], 0, (2 * (s / 4)) as u8);
            let high: u8 = crumb(b[104 + s % 4], (2 * (s / 4)) as u8);
            lemma_q3_scale_bits(low, high);
            lemma_u8_fields(b[32 + i / 4], 0, ((i % 4) * 2) as u8);
            lemma_u8_fields(b[i / 8], 0, (i % 8) as u8);
            let sc = q3_k_scale(b, s);
            let q = q3_k_quant(b, i) - 4;
            assert(-4096 <= sc * q <= 4096) by (nonlinear_arith) requires -32 <= sc <= 31, -4 <= q <= 3;
        },
        GgmlType::Q4K | GgmlType::Q5K => {
            let s = i / 32;
            if s < 4 {
                lemma_u8_fields(b[4 + 2 * s], 0, 0);
                lemma_u8_fields(b[4 + 2 * s + 1], 0, 0);
            } else {
                lemma_u8_fields(b[4 + 2 * (s - 4)], b[12 + (s - 4)], 0);
                lemma_u8_fields(b[4 + 2 * (s - 4) + 1], b[12 + (s - 4)], 0);
            }
            let sc = k_scale(b, s) as int;
            if t == GgmlType::Q4K {
                lemma_u8_fields(b[16 + (i / 32) * 16 + (i % 32) / 2], 0, 0);
                let q = q4_k_quant(b, i) as int;
                assert(0 <= sc * q <= 4096) by (nonlinear_arith) requires 0 <= sc <= 63, 0 <= q <= 15;
            } else {
                lemma_u8_fields(b[48 + (i / 32) * 16 + (i % 32) / 2], 0, 0);
                lemma_u8_fields(b[16 + i / 8], 0, (i % 8) as u8);
                let q = q5_k_quant(b, i);
                assert(0 <= sc * q <= 4096) by (nonlinear_arith) requires 0 <= sc <= 63, 0 <= q <= 31;
            }
        },
        _ => {
            lemma_u8_fields(b[i / 2], 0, 0);
            lemma_u8_fields(b[128 + i / 4], 0, ((i % 4) * 2) as u8);
            let sc = (b[192 + i / 16] as i8) as int;
            let q = q6_k_quant(b, i) - 32;
            assert(-4096 <= sc * q <= 4096) by (nonlinear_arith) requires -128 <= sc <= 127, -32 <= q <= 31;
        },
    }
}

/// The integer content of one decoded block.
pub struct BlockCodes {
    /// Bits of the half-precision scale.
    pub d: u16,
    /// Bits of the half-precision minimum (zero for formats without one).
    pub dmin: u16,
    /// Per-element multiplier of `d`.
    pub mul: Vec<i32>,
    /// Per-element multiplier of `dmin`.
    pub sub: Vec<i32>,
}

/// `c` holds exactly what block `b` of format `t` encodes.
pub open spec fn codes_of(t: GgmlType, b: Seq<u8>, c: BlockCodes) -> bool {
    &&& c.mul@.len() == spec_block_size(t)
    &&& c.sub@.len() == spec_block_size(t)
    &&& c.d == le_u16(b, d_offset(t))
    &&& c.dmin == block_dmin(t, b)
    &&& forall|i: int| 0 <= i < spec_block_size(t) ==> c.mul@[i] == block_mul(t, b, i)
    &&& forall|i: int| 0 <= i < spec_block_size(t) ==> c.sub@[i] == block_sub(t, b, i)
}

fn read_u16(b: &[u8], off: usize) -> (r: u16)
    requires
        off + 1 < b@.len(),
    ensures
        r == le_u16(b@, off as int),
{
    b[off] as u16 + 256 * (b[off + 1] as u16)
}

/// Product of two small integers.
fn small_mul(a: i32, b: i32) -> (r: i32)
    requires
        -256 <= a <= 256,
        -8192 <= b <= 8192,
    ensures
        r == a * b,
{
    proof {
        assert(-2097152 <= a * b <= 2097152) by (nonlinear_arith)
            requires -256 <= a <= 256, -8192 <= b <= 8192;
    }
    a * b
}

/// One element's `(mul, sub)` pair.
fn element(t: GgmlType, b: &[u8], i: usize) -> (r: (i32, i32))
    requires
        is_block_format(t),
        b@.len() >= spec_type_size(t),
        i < spec_block_size(t),
    ensures
        r.0 == block_mul(t, b@, i as int),
        r.1 == block_sub(t, b@, i as int),
{
    match t {
        GgmlType::Q4_0 => {
            let byte = b[2 + i / 2];
            let q = if i % 2 == 1 { byte >> 4u8 } else { byte & 0x0Fu8 };
            (q as i32 - 8, 0)
        },
        GgmlType::Q8_0 => ((#[verifier::truncate] (b[2 + i] as i8)) as i32, 0),
        GgmlType::Q2K => {
            let s = i / 16;
            let j = i % 16;
            let q = (b[16 + s * 4 + j / 4] >> ((j % 4) * 2) as u8) & 0x03u8;
            (small_mul((b[s] & 0x0Fu8) as i32, q as i32), (b[s] >> 4u8) as i32)
        },
        GgmlType::Q3K => {
            let s = i / 16;
            let low: u8 = if s < 8 { b[96 + s] & 0x0Fu8 } else { b[96 + s - 8] >> 4u8 };
            let high: u8 = (b[104 + s % 4] >> (2 * (s / 4)) as u8) & 0x03u8;
            let scale = (low | (high << 4u8)) as i32 - 32;
            let lo2 = (b[32 + i / 4] >> ((i % 4) * 2) as u8) & 0x03u8;
            let hi1 = (b[i / 8] >> (i % 8) as u8) & 0x01u8;
            let q = lo2 as i32 + 4 * hi1 as i32;
            (small_mul(scale, q - 4), 0)
        },
        GgmlType::Q4K | GgmlType::Q5K => {
            let s = i / 32;
            let j = i % 32;
            let (sc, mn) = scale_min_k(b, s);
            if t == GgmlType::Q4K {
                let byte = b[16 + s * 16 + j / 2];
                let q = if j % 2 == 1 { byte >> 4u8 } else { byte & 0x0Fu8 };
                (small_mul(sc as i32, q as i32), mn as i32)
            } else {
                let byte = b[48 + s * 16 + j / 2];
                let lo4 = if j % 2 == 1 { byte >> 4u8 } else { byte & 0x0Fu8 };
                let hi1 = (b[16 + i / 8] >> (i % 8) as u8) & 0x01u8;
                let q = lo4 as i32 + 16 * hi1 as i32;
                (small_mul(sc as i32, q), mn as i32)
            }
        },
        _ => {
            let byte = b[i / 2];
            let lo4 = if i % 2 == 1 { byte >> 4u8 } else { byte & 0x0Fu8 };
            let hi2 = (b[128 + i / 4] >> ((i % 4) * 2) as u8) & 0x03u8;
            let q = lo4 as i32 + 16 * hi2 as i32;
            let sc = (#[verifier::truncate] (b[192 + i / 16] as i8)) as i32;
            (small_mul(sc, q - 32), 0)
        },
    }
}

/// The 6-bit scale and min of sub-block `s` of a Q4_K / Q5_K block.
fn scale_min_k(b: &[u8], s: usize) -> (r: (u8, u8))
    requires
        b@.len() >= 16,
        s < 8,
    ensures
        r.0 == k_scale(b@, s as int),
        r.1 == k_min(b@, s as int),
{
    if s < 4 {
        (b[4 + 2 * s] & 0x3Fu8, b[4 + 2 * s + 1] & 0x3Fu8)
    } else {
        let k = s - 4;
        (
            (b[4 + 2 * k] >> 6u8) | ((b[12 + k] & 0x0Fu8) << 2u8),
            (b[4 + 2 * k + 1] >> 6u8) | ((b[12 + k] >> 4u8) << 2u8),
        )
    }
}

/// Decode one block of a quantized format into its integer codes.
pub fn unpack_block(t: GgmlType, block: &[u8]) -> (r: BlockCodes)
    requires
        is_block_format(t),
        block@.len() >= spec_type_size(t),
    ensures
        codes_of(t, block@, r),
{
    let n = t.block_size();
    let d = match t {
        GgmlType::Q2K => read_u16(block, 80),
        GgmlType::Q3K => read_u16(block, 108),
        GgmlType::Q6K => read_u16(block, 208),
        _ => read_u16(block, 0),
    };
    let dmin = match t {
        GgmlType::Q2K => read_u16(block, 82),
        GgmlType::Q4K | GgmlType::Q5K => read_u16(block, 2),
        _ => 0,
    };
    let mut mul: Vec<i32> = Vec::with_capacity(n);
    let mut sub: Vec<i32> = Vec::with_capacity(n);
    let mut i: usize = 0;
    while i < n
        invariant
            n == spec_block_size(t),
            is_block_format(t),
            block@.len() >= spec_type_size(t),
            i <= n,
            mul@.len() == i,
            sub@.len() == i,
            forall|k: int| 0 <= k < i ==> mul@[k] == block_mul(t, block@, k),
            forall|k: int| 0 <= k < i ==> sub@[k] == block_sub(t, block@, k),
        decreases n - i,
    {
        let (m, s) = element(t, block, i);
        mul.push(m);
        sub.push(s);
        i += 1;
    }
    BlockCodes { d, dmin, mul, sub }
}

/// How a row of `n_elements` values lies in its bytes.
#[derive(Debug, Clone, Copy, PartialEq, Eq, Structural)]
pub struct RowLayout {
    pub n_blocks: usize,
    pub block_size: usize,
    pub type_size: usize,
}

/// Plan the decoding of a row: `n_elements / block_size` whole blocks of the
/// format, which must all lie within `data_len` bytes. A format without a
/// kernel is refused, never zero-filled.
pub fn plan_row(data_len: usize, n_elements: usize, t: GgmlType) -> (r: Result<RowLayout, QuantError>)
    ensures
        !supported(t) ==> r == Err::<RowLayout, QuantError>(QuantError::UnsupportedQuant(t)),
        supported(t) ==> {
            let n_blocks = n_elements as int / spec_block_size(t) as int;
            if n_blocks * spec_type_size(t) <= data_len {
                r == Ok::<RowLayout, QuantError>(RowLayout {
                    n_blocks: n_blocks as usize,
                    block_size: spec_block_size(t) as usize,
                    type_size: spec_type_size(t) as usize,
                })
            } else {
                r == Err::<RowLayout, QuantError>(QuantError::ShapeMismatch)
            }
        },
{
    if !is_type_supported(t) {
        return Err(QuantError::UnsupportedQuant(t));
    }
    let bs = t.block_size();
    let ts = t.type_size();
    let n_blocks = n_elements / bs;
    if n_blocks <= data_len / ts {
        proof {
            assert(n_blocks * ts <= data_len) by (nonlinear_arith)
                requires n_blocks <= data_len as int / ts as int, ts > 0;
        }
        Ok(RowLayout { n_blocks, block_size: bs, type_size: ts })
    } else {
        proof {
            assert(n_blocks * ts > data_len) by (nonlinear_arith)
                requires n_blocks > data_len as int / ts as int, ts > 0;
        }
        Err(QuantError::ShapeMismatch)
    }
}

} // verus!
