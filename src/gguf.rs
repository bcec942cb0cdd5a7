//! GGUF container parser: header, metadata key/value store, tensor directory.
//!
//! The parser works on the file's bytes (in practice a read-only memory
//! mapping). Floating-point metadata values are kept as their IEEE-754 bit
//! patterns; strings are kept as the raw bytes of the file.
use vstd::prelude::*;
use vstd::slice::{slice_subrange, slice_to_vec};
use vstd::string::StringSliceAdditionalSpecFns;
use crate::quant::{GgmlType, type_tag, known_tag, supported, spec_block_size, spec_type_size, is_type_supported};
use crate::error::BrainError;

verus! {

/// Little-endian 32-bit word at `off`.
pub open spec fn le_u32(b: Seq<u8>, off: int) -> u32 {
    (b[off] as int + 256 * (b[off + 1] as int) + 65536 * (b[off + 2] as int)
        + 16777216 * (b[off + 3] as int)) as u32
}

/// Little-endian 64-bit word at `off`.
pub open spec fn le_u64(b: Seq<u8>, off: int) -> u64 {
    (le_u32(b, off) as int + 4294967296 * (le_u32(b, off + 4) as int)) as u64
}

/// The file starts with the magic bytes `G G U F`.
pub open spec fn magic_ok(b: Seq<u8>) -> bool {
    b.len() >= 4 && b[0] == 0x47u8 && b[1] == 0x47u8 && b[2] == 0x55u8 && b[3] == 0x46u8
}

/// The container versions this parser reads.
pub open spec fn version_ok(v: u32) -> bool {
    v == 2 || v == 3
}

/// A metadata value. `F32` and `F64` hold IEEE-754 bit patterns.
#[derive(Debug)]
pub enum GgufValue {
    U8(u8),
    I8(i8),
    U16(u16),
    I16(i16),
    U32(u32),
    I32(i32),
    F32(u32),
    Bool(bool),
    Str(Vec<u8>),
    /// Element type tag and elements.
    Array(u32, Vec<GgufValue>),
    U64(u64),
    I64(i64),
    F64(u64),
}

/// The wire tag of a value's type.
pub open spec fn value_tag(v: GgufValue) -> u32 {
    match v {
        GgufValue::U8(_) => 0,
        GgufValue::I8(_) => 1,
        GgufValue::U16(_) => 2,
        GgufValue::I16(_) => 3,
        GgufValue::U32(_) => 4,
        GgufValue::I32(_) => 5,
        GgufValue::F32(_) => 6,
        GgufValue::Bool(_) => 7,
        GgufValue::Str(_) => 8,
        GgufValue::Array(_, _) => 9,
        GgufValue::U64(_) => 10,
        GgufValue::I64(_) => 11,
        GgufValue::F64(_) => 12,
    }
}

/// Bytes taken by a fixed-size value of the given tag (0 for strings and arrays).
pub open spec fn fixed_width(tag: u32) -> int {
    if tag == 0 || tag == 1 || tag == 7 {
        1
    } else if tag == 2 || tag == 3 {
        2
    } else if tag == 4 || tag == 5 || tag == 6 {
        4
    } else if tag == 10 || tag == 11 || tag == 12 {
        8
    } else {
        0
    }
}

/// `v`, ending at `end`, is what the bytes at `pos` encode under a scalar or string tag.
pub open spec fn decodes_at(b: Seq<u8>, pos: int, tag: u32, v: GgufValue, end: int) -> bool {
    if tag == 8 {
        &&& end == pos + 8 + le_u64(b, pos)
        &&& v matches GgufValue::Str(s)
        &&& s@ == b.subrange(pos + 8, end)
    } else if tag == 9 {
        &&& v matches GgufValue::Array(et, items)
        &&& et == le_u32(b, pos)
        &&& items@.len() == le_u64(b, pos + 4)
        &&& forall|i: int| 0 <= i < items@.len() ==> value_tag(#[trigger] items@[i]) == et
    } else {
        &&& end == pos + fixed_width(tag)
        &&& v == match tag {
            0 => GgufValue::U8(b[pos]),
            1 => GgufValue::I8(b[pos] as i8),
            2 => GgufValue::U16(crate::blocks::le_u16(b, pos)),
            3 => GgufValue::I16(crate::blocks::le_u16(b, pos) as i16),
            4 => GgufValue::U32(le_u32(b, pos)),
            5 => GgufValue::I32(le_u32(b, pos) as i32),
            6 => GgufValue::F32(le_u32(b, pos)),
            7 => GgufValue::Bool(b[pos] != 0),
            10 => GgufValue::U64(le_u64(b, pos)),
            11 => GgufValue::I64(le_u64(b, pos) as i64),
            _ => GgufValue::F64(le_u64(b, pos)),
        }
    }
}

/// Where the length-prefixed string at `pos` ends, if it fits.
pub open spec fn str_end(b: Seq<u8>, pos: int) -> Option<int> {
    if 0 <= pos && pos + 8 <= b.len() && pos + 8 + le_u64(b, pos) <= b.len() {
        Some(pos + 8 + le_u64(b, pos))
    } else {
        None
    }
}

/// Where a value of type `tag` at `pos` ends, if the bytes hold one.
pub open spec fn value_end(b: Seq<u8>, pos: int, tag: u32) -> Option<int>
    decreases b.len() - pos, 1int, 0nat,
{
    if pos < 0 || pos > b.len() || tag > 12 {
        None
    } else if tag == 8 {
        str_end(b, pos)
    } else if tag == 9 {
        if pos + 12 <= b.len() {
            elements_end(b, pos + 12, le_u32(b, pos), le_u64(b, pos + 4) as nat)
        } else {
            None
        }
    } else if pos + fixed_width(tag) <= b.len() {
        Some(pos + fixed_width(tag))
    } else {
        None
    }
}

/// Where `n` consecutive values of type `et` starting at `pos` end.
pub open spec fn elements_end(b: Seq<u8>, pos: int, et: u32, n: nat) -> Option<int>
    decreases b.len() - pos, 2int, n,
{
    if pos < 0 || pos > b.len() {
        None
    } else if n == 0 {
        Some(pos)
    } else {
        match value_end(b, pos, et) {
            Some(q) => if pos < q <= b.len() {
                elements_end(b, q, et, (n - 1) as nat)
            } else {
                None
            },
            None => None,
        }
    }
}

/// A tensor descriptor of the directory.
#[derive(Debug, Clone)]
pub struct TensorInfo {
    pub name: Vec<u8>,
    pub dims: Vec<u64>,
    pub ggml_type: GgmlType,
    /// Offset of the tensor's bytes from the start of the data section.
    pub offset: u64,
}

/// A parsed container: metadata in file order, tensor directory, and where data starts.
#[derive(Debug)]
pub struct GgufFile {
    pub version: u32,
    pub metadata: Vec<(Vec<u8>, GgufValue)>,
    pub tensors: Vec<TensorInfo>,
    pub alignment: usize,
    /// Absolute offset of the data section in the file.
    pub data_offset: usize,
}

/// Alignment of the data section when `general.alignment` is absent.
pub const DEFAULT_ALIGNMENT: usize = 32;

/// Read a little-endian u32 at `pos`.
pub fn read_u32(b: &[u8], pos: usize) -> (r: Result<(u32, usize), BrainError>)
    ensures
        r is Ok <==> pos + 4 <= b@.len(),
        r matches Ok((v, e)) ==> v == le_u32(b@, pos as int) && e == pos + 4,
        r matches Err(e) ==> e == BrainError::BadContainer,
{
    if pos >= b.len() || b.len() - pos < 4 {
        return Err(BrainError::BadContainer);
    }
    let v = b[pos] as u32 + 256 * (b[pos + 1] as u32) + 65536 * (b[pos + 2] as u32)
        + 16777216 * (b[pos + 3] as u32);
    Ok((v, pos + 4))
}

/// Read a little-endian u64 at `pos`.
pub fn read_u64(b: &[u8], pos: usize) -> (r: Result<(u64, usize), BrainError>)
    ensures
        r is Ok <==> pos + 8 <= b@.len(),
        r matches Ok((v, e)) ==> v == le_u64(b@, pos as int) && e == pos + 8,
        r matches Err(e) ==> e == BrainError::BadContainer,
{
    if pos >= b.len() || b.len() - pos < 8 {
        return Err(BrainError::BadContainer);
    }
    let (lo, _) = read_u32(b, pos).unwrap();
    let (hi, _) = read_u32(b, pos + 4).unwrap();
    Ok((lo as u64 + 4294967296u64 * (hi as u64), pos + 8))
}

/// Read a u64-length-prefixed byte string at `pos`.
pub fn read_string(b: &[u8], pos: usize) -> (r: Result<(Vec<u8>, usize), BrainError>)
    ensures
        pos + 8 <= b@.len() && pos + 8 + le_u64(b@, pos as int) <= b@.len() ==> (r matches Ok((s, end))
            && end == pos + 8 + le_u64(b@, pos as int) && s@ == b@.subrange(pos + 8, end as int)),
        !(pos + 8 <= b@.len() && pos + 8 + le_u64(b@, pos as int) <= b@.len())
            ==> r == Err::<(Vec<u8>, usize), BrainError>(BrainError::BadContainer),
{
    let (n, start) = match read_u64(b, pos) {
            Ok(x) => x,
            Err(e) => return Err(e),
        };
    if n > (b.len() - start) as u64 {
        return Err(BrainError::BadContainer);
    }
    let end = start + n as usize;
    let s = slice_to_vec(slice_subrange(b, start, end));
    Ok((s, end))
}

/// Parse one metadata value of type `tag` at `pos`.
pub fn parse_value(b: &[u8], pos: usize, tag: u32) -> (r: Result<(GgufValue, usize), BrainError>)
    ensures
        r matches Ok((v, end)) ==> (pos < end <= b@.len() && value_tag(v) == tag
            && decodes_at(b@, pos as int, tag, v, end as int)),
        r matches Err(e) ==> e == BrainError::BadContainer,
        r is Ok <==> value_end(b@, pos as int, tag) is Some,
        r matches Ok((v, end)) ==> value_end(b@, pos as int, tag) == Some(end as int),
    decreases b@.len() - pos,
{
    if tag > 12 {
        return Err(BrainError::BadContainer);
    }
    if tag == 8 {
        let (s, end) = match read_string(b, pos) {
            Ok(x) => x,
            Err(e) => return Err(e),
        };
        return Ok((GgufValue::Str(s), end));
    }
    if tag == 9 {
        let (et, p1) = match read_u32(b, pos) {
            Ok(x) => x,
            Err(e) => return Err(e),
        };
        let (n, p2) = match read_u64(b, p1) {
            Ok(x) => x,
            Err(e) => return Err(e),
        };
        let mut items: Vec<GgufValue> = Vec::new();
        let mut p = p2;
        let mut k: u64 = 0;
        while k < n
            invariant
                tag == 9,
                pos + 12 == p2,
                p2 <= p <= b@.len(),
                k <= n,
                et == le_u32(b@, pos as int),
                n == le_u64(b@, pos + 4),
                value_end(b@, pos as int, tag) == elements_end(b@, p as int, et, (n - k) as nat),
                items@.len() == k,
                forall|i: int| 0 <= i < items@.len() ==> value_tag(#[trigger] items@[i]) == et,
            decreases n - k,
        {
            let (v, q) = match parse_value(b, p, et) {
            Ok(x) => x,
            Err(e) => return Err(e),
        };
            items.push(v);
            p = q;
            k += 1;
        }
        return Ok((GgufValue::Array(et, items), p));
    }
    if pos >= b.len() {
        return Err(BrainError::BadContainer);
    }
    let v = if tag == 0 {
        (GgufValue::U8(b[pos]), pos + 1)
    } else if tag == 1 {
        (GgufValue::I8(#[verifier::truncate] (b[pos] as i8)), pos + 1)
    } else if tag == 7 {
        (GgufValue::Bool(b[pos] != 0), pos + 1)
    } else if tag == 2 || tag == 3 {
        if b.len() - pos < 2 {
            return Err(BrainError::BadContainer);
        }
        let w = b[pos] as u16 + 256 * (b[pos + 1] as u16);
        if tag == 2 {
            (GgufValue::U16(w), pos + 2)
        } else {
            (GgufValue::I16(#[verifier::truncate] (w as i16)), pos + 2)
        }
    } else if tag == 4 || tag == 5 || tag == 6 {
        let (w, e) = match read_u32(b, pos) {
            Ok(x) => x,
            Err(e) => return Err(e),
        };
        if tag == 4 {
            (GgufValue::U32(w), e)
        } else if tag == 5 {
            (GgufValue::I32(#[verifier::truncate] (w as i32)), e)
        } else {
            (GgufValue::F32(w), e)
        }
    } else {
        let (w, e) = match read_u64(b, pos) {
            Ok(x) => x,
            Err(e) => return Err(e),
        };
        if tag == 10 {
            (GgufValue::U64(w), e)
        } else if tag == 11 {
            (GgufValue::I64(#[verifier::truncate] (w as i64)), e)
        } else {
            (GgufValue::F64(w), e)
        }
    };
    Ok(v)
}

/// Whether two byte strings are equal.
pub fn bytes_eq(a: &[u8], b: &[u8]) -> (r: bool)
    ensures
        r == (a@ == b@),
{
    if a.len() != b.len() {
        return false;
    }
    let mut i: usize = 0;
    while i < a.len()
        invariant
            a@.len() == b@.len(),
            i <= a@.len(),
            a@.subrange(0, i as int) == b@.subrange(0, i as int),
        decreases a@.len() - i,
    {
        if a[i] != b[i] {
            assert(a@[i as int] != b@[i as int]);
            return false;
        }
        assert(a@.subrange(0, i + 1) == a@.subrange(0, i as int).push(a@[i as int]));
        assert(b@.subrange(0, i + 1) == b@.subrange(0, i as int).push(b@[i as int]));
        i += 1;
    }
    assert(a@ == a@.subrange(0, a@.len() as int));
    assert(b@ == b@.subrange(0, b@.len() as int));
    true
}

/// Index of the first metadata entry whose key is `key`.
pub open spec fn first_key(md: Seq<(Vec<u8>, GgufValue)>, key: Seq<u8>, i: int) -> bool {
    &&& 0 <= i < md.len()
    &&& md[i].0@ == key
    &&& forall|j: int| 0 <= j < i ==> (#[trigger] md[j]).0@ != key
}

proof fn lemma_first_key_unique(md: Seq<(Vec<u8>, GgufValue)>, key: Seq<u8>, i: int, j: int)
    requires
        first_key(md, key, i),
        first_key(md, key, j),
    ensures
        i == j,
{
    if i < j {
        assert(md[i].0@ != key);
    } else if j < i {
        assert(md[j].0@ != key);
    }
}

/// The value of the first metadata entry with key `key`, if any.
pub open spec fn meta(md: Seq<(Vec<u8>, GgufValue)>, key: Seq<u8>) -> Option<GgufValue> {
    if exists|i: int| first_key(md, key, i) {
        Some(md[choose|i: int| first_key(md, key, i)].1)
    } else {
        None
    }
}

/// The value of the first metadata entry with key `key`, if any.
pub fn find_key<'a>(md: &'a Vec<(Vec<u8>, GgufValue)>, key: &[u8]) -> (r: Option<&'a GgufValue>)
    ensures
        r is None <==> meta(md@, key@) is None,
        r matches Some(v) ==> meta(md@, key@) == Some(*v),
{
    let mut i: usize = 0;
    while i < md.len()
        invariant
            i <= md@.len(),
            forall|j: int| 0 <= j < i ==> (#[trigger] md@[j]).0@ != key@,
        decreases md@.len() - i,
    {
        if bytes_eq(md[i].0.as_slice(), key) {
            assert(first_key(md@, key@, i as int));
            proof {
                let c = choose|c: int| first_key(md@, key@, c);
                lemma_first_key_unique(md@, key@, i as int, c);
            }
            return Some(&md[i].1);
        }
        i += 1;
    }
    proof {
        if exists|c: int| first_key(md@, key@, c) {
            let c = choose|c: int| first_key(md@, key@, c);
            assert(md@[c].0@ == key@);
        }
    }
    None
}

/// A value read as a u32, when it is a non-negative integer that fits.
pub open spec fn as_u32(v: GgufValue) -> Option<u32> {
    match v {
        GgufValue::U8(x) => Some(x as u32),
        GgufValue::U16(x) => Some(x as u32),
        GgufValue::U32(x) => Some(x),
        GgufValue::I32(x) => if x >= 0 { Some(x as u32) } else { None },
        GgufValue::U64(x) => if x <= u32::MAX { Some(x as u32) } else { None },
        GgufValue::I64(x) => if 0 <= x <= u32::MAX { Some(x as u32) } else { None },
        _ => None,
    }
}

impl GgufValue {
    /// This value as a u32, when it is a non-negative integer that fits.
    pub fn as_u32(&self) -> (r: Option<u32>)
        ensures
            r == as_u32(*self),
    {
        match self {
            GgufValue::U8(x) => Some(*x as u32),
            GgufValue::U16(x) => Some(*x as u32),
            GgufValue::U32(x) => Some(*x),
            GgufValue::I32(x) => if *x >= 0 { Some(*x as u32) } else { None },
            GgufValue::U64(x) => if *x <= u32::MAX as u64 { Some(*x as u32) } else { None },
            GgufValue::I64(x) => if 0 <= *x && *x <= u32::MAX as i64 { Some(*x as u32) } else { None },
            _ => None,
        }
    }
}

/// The alignment a metadata store asks for: `general.alignment` when it holds a
/// positive integer, else the default.
pub open spec fn alignment_of(md: Seq<(Vec<u8>, GgufValue)>) -> int {
    match meta(md, "general.alignment".spec_bytes()) {
        Some(v) => match as_u32(v) {
            Some(a) => if a > 0 { a as int } else { DEFAULT_ALIGNMENT as int },
            None => DEFAULT_ALIGNMENT as int,
        },
        None => DEFAULT_ALIGNMENT as int,
    }
}

/// Parse a tensor descriptor at `pos`.
fn parse_tensor_info(b: &[u8], pos: usize) -> (r: Result<(TensorInfo, usize), BrainError>)
    ensures
        r matches Ok((t, end)) ==> pos < end <= b@.len(),
        r matches Err(e) ==> e == BrainError::BadContainer,
        r is Ok <==> tensor_info_end(b@, pos as int) is Some,
        r matches Ok((t, end)) ==> tensor_info_end(b@, pos as int) == Some(end as int) && tensor_at(b@, pos as int, t),
{
    let (name, p1) = match read_string(b, pos) {
        Ok(x) => x,
        Err(e) => return Err(e),
    };
    let (n_dims, p2) = match read_u32(b, p1) {
        Ok(x) => x,
        Err(e) => return Err(e),
    };
    let mut dims: Vec<u64> = Vec::new();
    let mut p = p2;
    let mut k: u32 = 0;
    while k < n_dims
        invariant
            pos < p2 <= p <= b@.len(),
            k <= n_dims,
            p == p2 + 8 * k,
            p2 == str_end(b@, pos as int).unwrap() + 4,
            n_dims == le_u32(b@, p2 - 4),
            dims@.len() == k,
            forall|d: int| 0 <= d < k ==> dims@[d] == le_u64(b@, p2 + 8 * d),
        decreases n_dims - k,
    {
        let (d, q) = match read_u64(b, p) {
            Ok(x) => x,
            Err(e) => return Err(e),
        };
        dims.push(d);
        p = q;
        k += 1;
    }
    let (tag, p3) = match read_u32(b, p) {
        Ok(x) => x,
        Err(e) => return Err(e),
    };
    let ggml_type = match GgmlType::from_tag(tag) {
        Some(t) => t,
        None => return Err(BrainError::BadContainer),
    };
    let (offset, p4) = match read_u64(b, p3) {
        Ok(x) => x,
        Err(e) => return Err(e),
    };
    Ok((TensorInfo { name, dims, ggml_type, offset }, p4))
}

/// Where the tensor descriptor at `pos` ends: name, dimension count, that many
/// u64 extents, a known type tag, and a u64 offset.
pub open spec fn tensor_info_end(b: Seq<u8>, pos: int) -> Option<int> {
    match str_end(b, pos) {
        Some(p1) => if p1 + 4 <= b.len() {
            let dims_end = p1 + 4 + 8 * le_u32(b, p1);
            if dims_end + 12 <= b.len() && known_tag(le_u32(b, dims_end)) {
                Some(dims_end + 12)
            } else {
                None
            }
        } else {
            None
        },
        None => None,
    }
}

/// Where `n` tensor descriptors starting at `pos` end.
pub open spec fn tensors_end(b: Seq<u8>, pos: int, n: nat) -> Option<int>
    decreases n,
{
    if n == 0 {
        if 0 <= pos <= b.len() { Some(pos) } else { None }
    } else {
        match tensor_info_end(b, pos) {
            Some(q) => tensors_end(b, q, (n - 1) as nat),
            None => None,
        }
    }
}

/// Where the metadata entry at `pos` ends: a string key, a u32 type tag and a value.
pub open spec fn kv_end(b: Seq<u8>, pos: int) -> Option<int> {
    match str_end(b, pos) {
        Some(p1) => if p1 + 4 <= b.len() {
            value_end(b, p1 + 4, le_u32(b, p1))
        } else {
            None
        },
        None => None,
    }
}

/// Where `n` metadata entries starting at `pos` end.
pub open spec fn kvs_end(b: Seq<u8>, pos: int, n: nat) -> Option<int>
    decreases n,
{
    if n == 0 {
        if 0 <= pos <= b.len() { Some(pos) } else { None }
    } else {
        match kv_end(b, pos) {
            Some(q) => kvs_end(b, q, (n - 1) as nat),
            None => None,
        }
    }
}

/// Where the tensor directory ends, for a well-formed header, metadata and directory.
pub open spec fn directory_end(b: Seq<u8>) -> Option<int> {
    if magic_ok(b) && b.len() >= 24 && version_ok(le_u32(b, 4)) {
        match kvs_end(b, 24, le_u64(b, 16) as nat) {
            Some(p) => tensors_end(b, p, le_u64(b, 8) as nat),
            None => None,
        }
    } else {
        None
    }
}

/// Position of the `k`-th metadata entry.
pub open spec fn kv_pos(b: Seq<u8>, k: nat) -> int
    decreases k,
{
    if k == 0 {
        24
    } else {
        match kv_end(b, kv_pos(b, (k - 1) as nat)) {
            Some(q) => q,
            None => -1,
        }
    }
}

/// `e` is the metadata entry encoded at `pos`: its key's bytes, and a value of
/// the recorded type decoded from the bytes that follow.
pub open spec fn entry_at(b: Seq<u8>, pos: int, e: (Vec<u8>, GgufValue)) -> bool {
    let p1 = str_end(b, pos).unwrap();
    let tag = le_u32(b, p1);
    &&& e.0@ == b.subrange(pos + 8, p1)
    &&& value_tag(e.1) == tag
    &&& decodes_at(b, p1 + 4, tag, e.1, value_end(b, p1 + 4, tag).unwrap())
}

/// `t` is the tensor descriptor encoded at `pos`.
pub open spec fn tensor_at(b: Seq<u8>, pos: int, t: TensorInfo) -> bool {
    let p1 = str_end(b, pos).unwrap();
    let n = le_u32(b, p1);
    let dims_end = p1 + 4 + 8 * n;
    &&& t.name@ == b.subrange(pos + 8, p1)
    &&& t.dims@.len() == n
    &&& forall|d: int| 0 <= d < n ==> t.dims@[d] == le_u64(b, p1 + 4 + 8 * d)
    &&& type_tag(t.ggml_type) == le_u32(b, dims_end)
    &&& t.offset == le_u64(b, dims_end + 4)
}

/// Position of the `k`-th tensor descriptor, the first one being at `start`.
pub open spec fn tensor_pos(b: Seq<u8>, start: int, k: nat) -> int
    decreases k,
{
    if k == 0 {
        start
    } else {
        match tensor_info_end(b, tensor_pos(b, start, (k - 1) as nat)) {
            Some(q) => q,
            None => -1,
        }
    }
}

/// The header's version word.
pub open spec fn header_version(b: Seq<u8>) -> u32 {
    le_u32(b, 4)
}

impl GgufFile {
    /// Parse a GGUF container from its bytes.
    ///
    /// Fails with `BadContainer` on a wrong magic, an unknown version, a
    /// truncated stream or an unknown type tag. The data section starts at the
    /// end of the directory rounded up to the alignment.
    pub fn parse(b: &[u8]) -> (r: Result<GgufFile, BrainError>)
        ensures
            !magic_ok(b@) ==> r == Err::<GgufFile, BrainError>(BrainError::BadContainer),
            b@.len() >= 8 && !version_ok(header_version(b@)) ==> r == Err::<GgufFile, BrainError>(BrainError::BadContainer),
            directory_end(b@) is None ==> r == Err::<GgufFile, BrainError>(BrainError::BadContainer),
            directory_end(b@) matches Some(e) && e + u32::MAX <= usize::MAX ==> r is Ok,
            r matches Err(e) ==> e == BrainError::BadContainer,
            r matches Ok(f) ==> {
                &&& directory_end(b@) matches Some(e) && e <= f.data_offset < e + f.alignment
                &&& forall|k: int| 0 <= k < f.metadata@.len() ==> entry_at(b@, kv_pos(b@, k as nat), #[trigger] f.metadata@[k])
                &&& forall|k: int| 0 <= k < f.tensors@.len() ==> tensor_at(b@,
                    tensor_pos(b@, kv_pos(b@, f.metadata@.len()), k as nat), #[trigger] f.tensors@[k])
                &&& magic_ok(b@)
                &&& f.version == header_version(b@)
                &&& version_ok(f.version)
                &&& f.tensors@.len() == le_u64(b@, 8)
                &&& f.metadata@.len() == le_u64(b@, 16)
                &&& f.alignment == alignment_of(f.metadata@)
                &&& f.alignment > 0
                &&& f.data_offset % f.alignment == 0
                &&& 24 <= f.data_offset
            },
    {
        if b.len() < 4 || b[0] != 0x47u8 || b[1] != 0x47u8 || b[2] != 0x55u8 || b[3] != 0x46u8 {
            return Err(BrainError::BadContainer);
        }
        let (version, p0) = match read_u32(b, 4) {
            Ok(x) => x,
            Err(e) => return Err(e),
        };
        if version != 2 && version != 3 {
            return Err(BrainError::BadContainer);
        }
        let (n_tensors, p1) = match read_u64(b, p0) {
            Ok(x) => x,
            Err(e) => return Err(e),
        };
        let (n_kv, p2) = match read_u64(b, p1) {
            Ok(x) => x,
            Err(e) => return Err(e),
        };
        let mut metadata: Vec<(Vec<u8>, GgufValue)> = Vec::new();
        let mut p = p2;
        let mut k: u64 = 0;
        while k < n_kv
            invariant
                24 <= p <= b@.len(),
                k <= n_kv,
                metadata@.len() == k,
                magic_ok(b@) && b@.len() >= 24 && version_ok(le_u32(b@, 4)),
                n_kv == le_u64(b@, 16),
                n_tensors == le_u64(b@, 8),
                kvs_end(b@, 24, n_kv as nat) == kvs_end(b@, p as int, (n_kv - k) as nat),
                p == kv_pos(b@, k as nat),
                forall|j: int| 0 <= j < k ==> entry_at(b@, kv_pos(b@, j as nat), #[trigger] metadata@[j]),
            decreases n_kv - k,
        {
            let (key, q1) = match read_string(b, p) {
                Ok(x) => x,
                Err(e) => return Err(e),
            };
            let (tag, q2) = match read_u32(b, q1) {
                Ok(x) => x,
                Err(e) => return Err(e),
            };
            let (value, q3) = match parse_value(b, q2, tag) {
                Ok(x) => x,
                Err(e) => return Err(e),
            };
            assert(kv_end(b@, p as int) == Some(q3 as int));
            assert(entry_at(b@, p as int, (key, value)));
            let ghost prev = metadata@;
            metadata.push((key, value));
            assert(kv_pos(b@, (k + 1) as nat) == q3);
            assert forall|j: int| 0 <= j < k + 1 implies entry_at(b@, kv_pos(b@, j as nat), #[trigger] metadata@[j]) by {
                if j < k {
                    assert(metadata@[j] == prev[j]);
                }
            }
            p = q3;
            k += 1;
        }
        assert(kvs_end(b@, p as int, 0) == Some(p as int));
        assert(directory_end(b@) == tensors_end(b@, p as int, n_tensors as nat));
        let alignment: usize = match find_key(&metadata, "general.alignment".as_bytes()) {
            Some(v) => match v.as_u32() {
                Some(a) => if a > 0 { a as usize } else { DEFAULT_ALIGNMENT },
                None => DEFAULT_ALIGNMENT,
            },
            None => DEFAULT_ALIGNMENT,
        };
        let mut tensors: Vec<TensorInfo> = Vec::new();
        let start = p;
        let mut k: u64 = 0;
        while k < n_tensors
            invariant
                24 <= p <= b@.len(),
                k <= n_tensors,
                tensors@.len() == k,
                alignment > 0,
                alignment <= u32::MAX,
                directory_end(b@) == tensors_end(b@, p as int, (n_tensors - k) as nat),
                metadata@.len() == n_kv,
                forall|j: int| 0 <= j < n_kv ==> entry_at(b@, kv_pos(b@, j as nat), #[trigger] metadata@[j]),
                start == kv_pos(b@, n_kv as nat),
                p == tensor_pos(b@, start as int, k as nat),
                forall|j: int| 0 <= j < k ==> tensor_at(b@, tensor_pos(b@, start as int, j as nat), #[trigger] tensors@[j]),
            decreases n_tensors - k,
        {
            let (t, q) = match parse_tensor_info(b, p) {
                Ok(x) => x,
                Err(e) => return Err(e),
            };
            assert(tensors_end(b@, p as int, (n_tensors - k) as nat) == tensors_end(b@, q as int, (n_tensors - k - 1) as nat));
            let ghost prev = tensors@;
            tensors.push(t);
            assert(tensor_pos(b@, start as int, (k + 1) as nat) == q);
            assert forall|j: int| 0 <= j < k + 1 implies tensor_at(b@, tensor_pos(b@, start as int, j as nat), #[trigger] tensors@[j]) by {
                if j < k {
                    assert(tensors@[j] == prev[j]);
                }
            }
            p = q;
            k += 1;
        }
        assert(directory_end(b@) == Some(p as int));
        let rem = p % alignment;
        let data_offset = if rem == 0 {
            p
        } else {
            if p > usize::MAX - (alignment - rem) {
                return Err(BrainError::BadContainer);
            }
            proof {
                assert((p + (alignment - rem)) % (alignment as int) == 0) by (nonlinear_arith)
                    requires rem as int == p as int % (alignment as int), alignment > 0, rem != 0;
            }
            p + (alignment - rem)
        };
        Ok(GgufFile { version, metadata, tensors, alignment, data_offset })
    }
}

/// Number of elements of a tensor with the given extents.
pub open spec fn n_elements(dims: Seq<u64>) -> int
    decreases dims.len(),
{
    if dims.len() == 0 {
        1
    } else {
        n_elements(dims.drop_last()) * dims.last()
    }
}

/// Bytes of a tensor of a supported format: whole blocks only.
pub open spec fn tensor_bytes(t: TensorInfo) -> int {
    n_elements(t.dims@) / spec_block_size(t.ggml_type) as int * spec_type_size(t.ggml_type) as int
}

proof fn lemma_n_elements_nonneg(dims: Seq<u64>)
    ensures
        n_elements(dims) >= 0,
    decreases dims.len(),
{
    if dims.len() > 0 {
        lemma_n_elements_nonneg(dims.drop_last());
        let a = n_elements(dims.drop_last());
        let b = dims.last() as int;
        assert(a * b >= 0) by (nonlinear_arith) requires a >= 0, b >= 0;
    }
}

proof fn lemma_zero_dim(dims: Seq<u64>, i: int)
    requires
        0 <= i < dims.len(),
        dims[i] == 0,
    ensures
        n_elements(dims) == 0,
    decreases dims.len(),
{
    if i < dims.len() - 1 {
        lemma_zero_dim(dims.drop_last(), i);
    }
}

proof fn lemma_prefix_le(dims: Seq<u64>, i: int)
    requires
        0 <= i <= dims.len(),
        forall|j: int| 0 <= j < dims.len() ==> dims[j] >= 1,
    ensures
        n_elements(dims.take(i)) <= n_elements(dims),
    decreases dims.len(),
{
    if i < dims.len() {
        let d = dims.drop_last();
        assert(d.take(i) == dims.take(i));
        lemma_prefix_le(d, i);
        lemma_n_elements_nonneg(d);
        let a = n_elements(d);
        let b = dims.last() as int;
        assert(a <= a * b) by (nonlinear_arith) requires a >= 0, b >= 1;
    } else {
        assert(dims.take(i) == dims);
    }
}

/// Number of elements, when it fits in a u128.
fn count_elements(dims: &Vec<u64>) -> (r: Option<u128>)
    ensures
        r matches Some(n) ==> n == n_elements(dims@),
        r is None ==> n_elements(dims@) > u128::MAX,
{
    let mut i: usize = 0;
    while i < dims.len()
        invariant
            i <= dims@.len(),
            forall|j: int| 0 <= j < i ==> dims@[j] >= 1,
        decreases dims@.len() - i,
    {
        if dims[i] == 0 {
            proof { lemma_zero_dim(dims@, i as int); }
            return Some(0);
        }
        i += 1;
    }
    let mut n: u128 = 1;
    let mut i: usize = 0;
    while i < dims.len()
        invariant
            i <= dims@.len(),
            forall|j: int| 0 <= j < dims@.len() ==> dims@[j] >= 1,
            n == n_elements(dims@.take(i as int)),
        decreases dims@.len() - i,
    {
        assert(dims@.take(i + 1).drop_last() == dims@.take(i as int));
        match n.checked_mul(dims[i] as u128) {
            Some(m) => { n = m; },
            None => {
                proof { lemma_prefix_le(dims@, i + 1); }
                return None;
            },
        }
        i += 1;
    }
    assert(dims@.take(dims@.len() as int) == dims@);
    Some(n)
}

impl GgufFile {
    /// The byte range `[start, end)` of tensor `index` in a mapping of
    /// `map_len` bytes: `BadOffset` when it escapes the mapping.
    pub fn tensor_range(&self, index: usize, map_len: usize) -> (r: Result<(usize, usize), BrainError>)
        requires
            index < self.tensors@.len(),
        ensures
            ({
                let t = self.tensors@[index as int];
                let start = self.data_offset + t.offset;
                if !supported(t.ggml_type) {
                    r == Err::<(usize, usize), BrainError>(BrainError::UnsupportedQuant(t.ggml_type))
                } else if start + tensor_bytes(t) <= map_len {
                    r == Ok::<(usize, usize), BrainError>((start as usize, (start + tensor_bytes(t)) as usize))
                } else {
                    r == Err::<(usize, usize), BrainError>(BrainError::BadOffset)
                }
            }),
    {
        let t = &self.tensors[index];
        if !is_type_supported(t.ggml_type) {
            return Err(BrainError::UnsupportedQuant(t.ggml_type));
        }
        let bs = t.ggml_type.block_size();
        let ts = t.ggml_type.type_size();
        proof { lemma_n_elements_nonneg(t.dims@); }
        let n = match count_elements(&t.dims) {
            Some(n) => n,
            None => {
                proof {
                    let ne = n_elements(t.dims@);
                    let nb = ne / bs as int;
                    assert(nb * bs > ne - bs) by (nonlinear_arith)
                        requires nb == ne / bs as int, 1 <= bs <= 256;
                    assert(nb * ts > usize::MAX) by (nonlinear_arith)
                        requires nb * bs > ne - bs, ne > u128::MAX, 1 <= bs <= 256, ts >= 1, nb >= 0;
                }
                return Err(BrainError::BadOffset);
            },
        };
        let nb = n / bs as u128;
        if t.offset > map_len as u64 || self.data_offset > map_len - t.offset as usize {
            proof {
                assert(nb * ts >= 0) by (nonlinear_arith) requires nb >= 0, ts >= 1;
            }
            return Err(BrainError::BadOffset);
        }
        let start = self.data_offset + t.offset as usize;
        if nb > ((map_len - start) / ts) as u128 {
            proof {
                assert(nb * ts > map_len - start) by (nonlinear_arith)
                    requires nb > (map_len - start) as int / ts as int, ts >= 1, map_len >= start;
            }
            return Err(BrainError::BadOffset);
        }
        proof {
            assert(nb * ts <= map_len - start) by (nonlinear_arith)
                requires nb <= (map_len - start) as int / ts as int, ts >= 1, map_len >= start, nb >= 0;
        }
        let size = nb as usize * ts;
        Ok((start, start + size))
    }
}

} // verus!
