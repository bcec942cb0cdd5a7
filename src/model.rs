//! Model hyperparameters, the weight index and tensor byte ranges.
use vstd::prelude::*;
use vstd::string::StringSliceAdditionalSpecFns;
use vstd::slice::slice_to_vec;
use crate::error::BrainError;
use crate::gguf::{GgufFile, GgufValue, TensorInfo, meta, as_u32, find_key, bytes_eq};
use crate::quant::{GgmlType, supported, is_type_supported};

verus! {

/// Bits of the f32 value 10000.0, the default RoPE base.
pub const DEFAULT_ROPE_THETA_BITS: u32 = 0x461C_4000;

/// Bits of the f32 value 1e-5, the default RMSNorm epsilon.
pub const DEFAULT_RMS_EPS_BITS: u32 = 0x3727_C5AC;

/// Model hyperparameters extracted from GGUF metadata. The two real-valued
/// parameters are kept as f32 bit patterns.
#[derive(Debug, Clone, Copy, PartialEq, Eq, Structural)]
pub struct ModelParams {
    pub vocab_size: u32,
    pub dim: u32,
    pub hidden_dim: u32,
    pub n_layers: u32,
    pub n_heads: u32,
    pub n_kv_heads: u32,
    pub head_dim: u32,
    pub max_seq_len: u32,
    pub rope_theta_bits: u32,
    pub rms_norm_eps_bits: u32,
}

impl ModelParams {
    /// The architecture invariants.
    pub open spec fn wf(&self) -> bool {
        &&& self.n_heads > 0
        &&& self.n_kv_heads > 0
        &&& self.dim % self.n_heads == 0
        &&& self.head_dim == self.dim / self.n_heads
        &&& self.n_heads % self.n_kv_heads == 0
        &&& self.vocab_size > 0
        &&& self.max_seq_len > 0
    }

    /// `n_kv_heads * head_dim`.
    pub open spec fn spec_kv_dim(&self) -> int {
        self.n_kv_heads * self.head_dim
    }
}

impl Default for ModelParams {
    /// The TinyLlama 1.1B hyperparameters.
    fn default() -> (r: ModelParams)
        ensures
            r == (ModelParams {
                vocab_size: 32000,
                dim: 2048,
                hidden_dim: 5632,
                n_layers: 22,
                n_heads: 32,
                n_kv_heads: 4,
                head_dim: 64,
                max_seq_len: 2048,
                rope_theta_bits: DEFAULT_ROPE_THETA_BITS,
                rms_norm_eps_bits: DEFAULT_RMS_EPS_BITS,
            }),
            r.wf(),
    {
        ModelParams {
            vocab_size: 32000,
            dim: 2048,
            hidden_dim: 5632,
            n_layers: 22,
            n_heads: 32,
            n_kv_heads: 4,
            head_dim: 64,
            max_seq_len: 2048,
            rope_theta_bits: DEFAULT_ROPE_THETA_BITS,
            rms_norm_eps_bits: DEFAULT_RMS_EPS_BITS,
        }
    }
}

/// A metadata value as a u32.
pub open spec fn meta_u32(md: Seq<(Vec<u8>, GgufValue)>, key: Seq<u8>) -> Option<u32> {
    match meta(md, key) {
        Some(v) => as_u32(v),
        None => None,
    }
}

/// A metadata f32 value's bits, or `default` when unset or not an f32.
pub open spec fn meta_f32_bits(md: Seq<(Vec<u8>, GgufValue)>, key: Seq<u8>, default: u32) -> u32 {
    match meta(md, key) {
        Some(GgufValue::F32(b)) => b,
        _ => default,
    }
}

/// The vocabulary size: `llama.vocab_size`, else the number of tokenizer tokens.
pub open spec fn meta_vocab(md: Seq<(Vec<u8>, GgufValue)>) -> Option<u32> {
    match meta_u32(md, "llama.vocab_size".spec_bytes()) {
        Some(v) => Some(v),
        None => match meta(md, "tokenizer.ggml.tokens".spec_bytes()) {
            Some(GgufValue::Array(_, items)) => if items@.len() <= u32::MAX {
                Some(items@.len() as u32)
            } else {
                None
            },
            _ => None,
        },
    }
}

/// The architecture string names the LLaMA family.
pub open spec fn arch_is_llama(md: Seq<(Vec<u8>, GgufValue)>) -> bool {
    meta(md, "general.architecture".spec_bytes()) matches Some(GgufValue::Str(s))
        && s@ == "llama".spec_bytes()
}

/// Every required hyperparameter is present.
pub open spec fn params_present(md: Seq<(Vec<u8>, GgufValue)>) -> bool {
    &&& meta_u32(md, "llama.embedding_length".spec_bytes()) is Some
    &&& meta_u32(md, "llama.feed_forward_length".spec_bytes()) is Some
    &&& meta_u32(md, "llama.block_count".spec_bytes()) is Some
    &&& meta_u32(md, "llama.attention.head_count".spec_bytes()) is Some
    &&& meta_u32(md, "llama.attention.head_count_kv".spec_bytes()) is Some
    &&& meta_u32(md, "llama.context_length".spec_bytes()) is Some
    &&& meta_vocab(md) is Some
}

/// The parameters the metadata states (meaningful when they are present).
pub open spec fn params_of(md: Seq<(Vec<u8>, GgufValue)>) -> ModelParams {
    let dim = meta_u32(md, "llama.embedding_length".spec_bytes()).unwrap();
    let n_heads = meta_u32(md, "llama.attention.head_count".spec_bytes()).unwrap();
    ModelParams {
        vocab_size: meta_vocab(md).unwrap(),
        dim,
        hidden_dim: meta_u32(md, "llama.feed_forward_length".spec_bytes()).unwrap(),
        n_layers: meta_u32(md, "llama.block_count".spec_bytes()).unwrap(),
        n_heads,
        n_kv_heads: meta_u32(md, "llama.attention.head_count_kv".spec_bytes()).unwrap(),
        head_dim: if n_heads > 0 { (dim / n_heads) as u32 } else { 0 },
        max_seq_len: meta_u32(md, "llama.context_length".spec_bytes()).unwrap(),
        rope_theta_bits: meta_f32_bits(md, "llama.rope.freq_base".spec_bytes(), DEFAULT_ROPE_THETA_BITS),
        rms_norm_eps_bits: meta_f32_bits(
            md,
            "llama.attention.layer_norm_rms_epsilon".spec_bytes(),
            DEFAULT_RMS_EPS_BITS,
        ),
    }
}

fn get_u32(f: &GgufFile, key: &[u8]) -> (r: Option<u32>)
    ensures
        r == meta_u32(f.metadata@, key@),
{
    match find_key(&f.metadata, key) {
        Some(v) => v.as_u32(),
        None => None,
    }
}

fn get_f32_bits(f: &GgufFile, key: &[u8], default: u32) -> (r: u32)
    ensures
        r == meta_f32_bits(f.metadata@, key@, default),
{
    match find_key(&f.metadata, key) {
        Some(GgufValue::F32(b)) => *b,
        _ => default,
    }
}

impl ModelParams {
    /// Extract the hyperparameters of a LLaMA-family model.
    ///
    /// `UnsupportedArch` unless `general.architecture` is `llama`; `BadContainer`
    /// when a required key is missing; `ShapeMismatch` when the values break
    /// the architecture invariants. Only the RoPE base and the RMSNorm epsilon
    /// have defaults.
    pub fn from_gguf(f: &GgufFile) -> (r: Result<ModelParams, BrainError>)
        ensures
            !arch_is_llama(f.metadata@) ==> r == Err::<ModelParams, BrainError>(BrainError::UnsupportedArch),
            arch_is_llama(f.metadata@) && !params_present(f.metadata@)
                ==> r == Err::<ModelParams, BrainError>(BrainError::BadContainer),
            arch_is_llama(f.metadata@) && params_present(f.metadata@) ==> if params_of(f.metadata@).wf() {
                r == Ok::<ModelParams, BrainError>(params_of(f.metadata@))
            } else {
                r == Err::<ModelParams, BrainError>(BrainError::ShapeMismatch)
            },
    {
        let arch_ok = match find_key(&f.metadata, "general.architecture".as_bytes()) {
            Some(GgufValue::Str(s)) => bytes_eq(s.as_slice(), "llama".as_bytes()),
            _ => false,
        };
        if !arch_ok {
            return Err(BrainError::UnsupportedArch);
        }
        let dim = get_u32(f, "llama.embedding_length".as_bytes());
        let hidden_dim = get_u32(f, "llama.feed_forward_length".as_bytes());
        let n_layers = get_u32(f, "llama.block_count".as_bytes());
        let n_heads = get_u32(f, "llama.attention.head_count".as_bytes());
        let n_kv_heads = get_u32(f, "llama.attention.head_count_kv".as_bytes());
        let max_seq_len = get_u32(f, "llama.context_length".as_bytes());
        let vocab_size = match get_u32(f, "llama.vocab_size".as_bytes()) {
            Some(v) => Some(v),
            None => match find_key(&f.metadata, "tokenizer.ggml.tokens".as_bytes()) {
                Some(GgufValue::Array(_, items)) => if items.len() <= u32::MAX as usize {
                    Some(items.len() as u32)
                } else {
                    None
                },
                _ => None,
            },
        };
        let rope_theta_bits = get_f32_bits(f, "llama.rope.freq_base".as_bytes(), DEFAULT_ROPE_THETA_BITS);
        let rms_norm_eps_bits = get_f32_bits(
            f,
            "llama.attention.layer_norm_rms_epsilon".as_bytes(),
            DEFAULT_RMS_EPS_BITS,
        );
        match (dim, hidden_dim, n_layers, n_heads, n_kv_heads, max_seq_len, vocab_size) {
            (Some(dim), Some(hidden_dim), Some(n_layers), Some(n_heads), Some(n_kv_heads), Some(max_seq_len), Some(vocab_size)) => {
                let head_dim = if n_heads > 0 { dim / n_heads } else { 0 };
                let p = ModelParams {
                    vocab_size,
                    dim,
                    hidden_dim,
                    n_layers,
                    n_heads,
                    n_kv_heads,
                    head_dim,
                    max_seq_len,
                    rope_theta_bits,
                    rms_norm_eps_bits,
                };
                if n_heads == 0 || n_kv_heads == 0 || dim % n_heads != 0 || n_heads % n_kv_heads != 0
                    || vocab_size == 0 || max_seq_len == 0 {
                    return Err(BrainError::ShapeMismatch);
                }
                Ok(p)
            },
            _ => Err(BrainError::BadContainer),
        }
    }
}

/// Decimal digits of `n`, most significant first.
pub open spec fn decimal(n: nat) -> Seq<u8>
    decreases n,
{
    if n < 10 {
        seq![(48 + n) as u8]
    } else {
        decimal(n / 10).push((48 + n % 10) as u8)
    }
}

fn push_decimal(out: &mut Vec<u8>, n: u32)
    ensures
        final(out)@ == old(out)@ + decimal(n as nat),
    decreases n,
{
    if n >= 10 {
        push_decimal(out, n / 10);
    }
    out.push((48 + n % 10) as u8);
    proof {
        if n >= 10 {
            assert(old(out)@ + decimal(n as nat) == (old(out)@ + decimal((n / 10) as nat)).push((48 + n % 10) as u8));
        }
    }
}

fn push_bytes(out: &mut Vec<u8>, b: &[u8])
    ensures
        final(out)@ == old(out)@ + b@,
{
    let mut i: usize = 0;
    while i < b.len()
        invariant
            i <= b@.len(),
            out@ == old(out)@ + b@.subrange(0, i as int),
        decreases b@.len() - i,
    {
        out.push(b[i]);
        i += 1;
        assert(b@.subrange(0, i as int) == b@.subrange(0, i - 1).push(b@[i - 1]));
    }
    assert(b@.subrange(0, b@.len() as int) == b@);
}

/// The tensor name `blk.<layer><suffix>`.
pub open spec fn layer_tensor_name(layer: nat, suffix: Seq<u8>) -> Seq<u8> {
    "blk.".spec_bytes() + decimal(layer) + suffix
}

fn layer_name(layer: u32, suffix: &[u8]) -> (r: Vec<u8>)
    ensures
        r@ == layer_tensor_name(layer as nat, suffix@),
{
    let mut v: Vec<u8> = Vec::new();
    push_bytes(&mut v, "blk.".as_bytes());
    push_decimal(&mut v, layer);
    push_bytes(&mut v, suffix);
    v
}

/// The first tensor named `name`.
pub open spec fn first_tensor(ts: Seq<TensorInfo>, name: Seq<u8>, i: int) -> bool {
    &&& 0 <= i < ts.len()
    &&& ts[i].name@ == name
    &&& forall|j: int| 0 <= j < i ==> (#[trigger] ts[j]).name@ != name
}

/// The position of the first tensor called `name`, if any.
pub open spec fn position(ts: Seq<TensorInfo>, name: Seq<u8>) -> Option<usize> {
    if exists|i: int| first_tensor(ts, name, i) {
        Some((choose|i: int| first_tensor(ts, name, i)) as usize)
    } else {
        None
    }
}

/// The tensor called `name` may stand in the weight index: present with a
/// supported format, or absent and optional.
pub open spec fn resolve_ok(ts: Seq<TensorInfo>, name: Seq<u8>, required: bool) -> bool {
    match position(ts, name) {
        Some(i) => supported(ts[i as int].ggml_type),
        None => !required,
    }
}

/// The error that the tensor called `name` raises: `UnsupportedQuant` of its
/// format, or `MissingWeight` with its name when absent and required.
pub open spec fn resolve_err(ts: Seq<TensorInfo>, name: Seq<u8>, required: bool, e: BrainError) -> bool {
    match position(ts, name) {
        Some(i) => !supported(ts[i as int].ggml_type) && e == BrainError::UnsupportedQuant(ts[i as int].ggml_type),
        None => required && (e matches BrainError::MissingWeight(n) && n@ == name),
    }
}

proof fn lemma_first_tensor_unique(ts: Seq<TensorInfo>, name: Seq<u8>, i: int, j: int)
    requires
        first_tensor(ts, name, i),
        first_tensor(ts, name, j),
    ensures
        i == j,
{
    if i < j {
        assert(ts[i].name@ != name);
    } else if j < i {
        assert(ts[j].name@ != name);
    }
}

fn resolve_tensor(ts: &[TensorInfo], name: Vec<u8>, required: bool) -> (r: Result<Option<usize>, BrainError>)
    ensures
        r is Ok <==> resolve_ok(ts@, name@, required),
        r matches Ok(x) ==> x == position(ts@, name@),
        r matches Err(e) ==> resolve_err(ts@, name@, required, e),
{
    let mut i: usize = 0;
    while i < ts.len()
        invariant
            i <= ts@.len(),
            forall|j: int| 0 <= j < i ==> (#[trigger] ts@[j]).name@ != name@,
        decreases ts@.len() - i,
    {
        if bytes_eq(ts[i].name.as_slice(), name.as_slice()) {
            proof {
                assert(first_tensor(ts@, name@, i as int));
                let c = choose|c: int| first_tensor(ts@, name@, c);
                lemma_first_tensor_unique(ts@, name@, i as int, c);
            }
            if is_type_supported(ts[i].ggml_type) {
                return Ok(Some(i));
            } else {
                return Err(BrainError::UnsupportedQuant(ts[i].ggml_type));
            }
        }
        i += 1;
    }
    proof {
        if exists|c: int| first_tensor(ts@, name@, c) {
            let c = choose|c: int| first_tensor(ts@, name@, c);
            assert(ts@[c].name@ == name@);
        }
    }
    if required {
        Err(BrainError::MissingWeight(name))
    } else {
        Ok(None)
    }
}

/// Weights for a single transformer layer: positions in the tensor directory.
#[derive(Debug, Clone, Copy, PartialEq, Eq, Structural)]
pub struct LayerWeights {
    pub attn_norm: Option<usize>,
    pub attn_q: Option<usize>,
    pub attn_k: Option<usize>,
    pub attn_v: Option<usize>,
    pub attn_output: Option<usize>,
    pub ffn_norm: Option<usize>,
    pub ffn_gate: Option<usize>,
    pub ffn_up: Option<usize>,
    pub ffn_down: Option<usize>,
}

/// Transformer weights — positions in the GGUF tensor directory.
#[derive(Debug, Clone)]
pub struct TransformerWeights {
    pub token_embd: Option<usize>,
    pub output_norm: Option<usize>,
    pub output: Option<usize>,
    pub layers: Vec<LayerWeights>,
}

/// Name suffix of layer tensor slot `k` (in the order of `LayerWeights`'s fields).
pub open spec fn slot_suffix(k: int) -> Seq<u8> {
    if k == 0 {
        ".attn_norm.weight".spec_bytes()
    } else if k == 1 {
        ".attn_q.weight".spec_bytes()
    } else if k == 2 {
        ".attn_k.weight".spec_bytes()
    } else if k == 3 {
        ".attn_v.weight".spec_bytes()
    } else if k == 4 {
        ".attn_output.weight".spec_bytes()
    } else if k == 5 {
        ".ffn_norm.weight".spec_bytes()
    } else if k == 6 {
        ".ffn_gate.weight".spec_bytes()
    } else if k == 7 {
        ".ffn_up.weight".spec_bytes()
    } else {
        ".ffn_down.weight".spec_bytes()
    }
}

/// The norms may be missing (identity); the projections may not.
pub open spec fn slot_required(k: int) -> bool {
    k != 0 && k != 5
}

/// Slot `k` of a layer's weights.
pub open spec fn slot(w: LayerWeights, k: int) -> Option<usize> {
    if k == 0 {
        w.attn_norm
    } else if k == 1 {
        w.attn_q
    } else if k == 2 {
        w.attn_k
    } else if k == 3 {
        w.attn_v
    } else if k == 4 {
        w.attn_output
    } else if k == 5 {
        w.ffn_norm
    } else if k == 6 {
        w.ffn_gate
    } else if k == 7 {
        w.ffn_up
    } else {
        w.ffn_down
    }
}

/// Name of slot `k` of layer `l`.
pub open spec fn slot_name(l: nat, k: int) -> Seq<u8> {
    layer_tensor_name(l, slot_suffix(k))
}

/// Name of the global tensor `k`: token embedding, output norm, LM head.
pub open spec fn global_name(k: int) -> Seq<u8> {
    if k == 0 {
        "token_embd.weight".spec_bytes()
    } else if k == 1 {
        "output_norm.weight".spec_bytes()
    } else {
        "output.weight".spec_bytes()
    }
}

/// Only the output norm among the global tensors is optional.
pub open spec fn global_required(k: int) -> bool {
    k != 1
}

/// Every slot of the model resolves without error.
pub open spec fn all_resolve(ts: Seq<TensorInfo>, n_layers: nat) -> bool {
    &&& forall|k: int| 0 <= k < 3 ==> #[trigger] resolve_ok(ts, global_name(k), global_required(k))
    &&& forall|l: nat, k: int| l < n_layers && 0 <= k < 9 ==> #[trigger] resolve_ok(ts, slot_name(l, k), slot_required(k))
}

fn build_layer(ts: &[TensorInfo], l: u32) -> (r: Result<LayerWeights, BrainError>)
    ensures
        r is Ok <==> forall|k: int| 0 <= k < 9 ==> #[trigger] resolve_ok(ts@, slot_name(l as nat, k), slot_required(k)),
        r matches Ok(w) ==> forall|k: int| 0 <= k < 9 ==> #[trigger] slot(w, k) == position(ts@, slot_name(l as nat, k)),
        r matches Err(e) ==> exists|k: int| 0 <= k < 9 && #[trigger] resolve_err(ts@, slot_name(l as nat, k), slot_required(k), e),
{
    let attn_norm = match resolve_tensor(ts, layer_name(l, ".attn_norm.weight".as_bytes()), false) {
        Ok(x) => x,
        Err(e) => {
            assert(resolve_err(ts@, slot_name(l as nat, 0), slot_required(0), e));
            assert(!resolve_ok(ts@, slot_name(l as nat, 0), slot_required(0)));
            return Err(e);
        },
    };
    assert(resolve_ok(ts@, slot_name(l as nat, 0), slot_required(0)));
    let attn_q = match resolve_tensor(ts, layer_name(l, ".attn_q.weight".as_bytes()), true) {
        Ok(x) => x,
        Err(e) => {
            assert(resolve_err(ts@, slot_name(l as nat, 1), slot_required(1), e));
            assert(!resolve_ok(ts@, slot_name(l as nat, 1), slot_required(1)));
            return Err(e);
        },
    };
    assert(resolve_ok(ts@, slot_name(l as nat, 1), slot_required(1)));
    let attn_k = match resolve_tensor(ts, layer_name(l, ".attn_k.weight".as_bytes()), true) {
        Ok(x) => x,
        Err(e) => {
            assert(resolve_err(ts@, slot_name(l as nat, 2), slot_required(2), e));
            assert(!resolve_ok(ts@, slot_name(l as nat, 2), slot_required(2)));
            return Err(e);
        },
    };
    assert(resolve_ok(ts@, slot_name(l as nat, 2), slot_required(2)));
    let attn_v = match resolve_tensor(ts, layer_name(l, ".attn_v.weight".as_bytes()), true) {
        Ok(x) => x,
        Err(e) => {
            assert(resolve_err(ts@, slot_name(l as nat, 3), slot_required(3), e));
            assert(!resolve_ok(ts@, slot_name(l as nat, 3), slot_required(3)));
            return Err(e);
        },
    };
    assert(resolve_ok(ts@, slot_name(l as nat, 3), slot_required(3)));
    let attn_output = match resolve_tensor(ts, layer_name(l, ".attn_output.weight".as_bytes()), true) {
        Ok(x) => x,
        Err(e) => {
            assert(resolve_err(ts@, slot_name(l as nat, 4), slot_required(4), e));
            assert(!resolve_ok(ts@, slot_name(l as nat, 4), slot_required(4)));
            return Err(e);
        },
    };
    assert(resolve_ok(ts@, slot_name(l as nat, 4), slot_required(4)));
    let ffn_norm = match resolve_tensor(ts, layer_name(l, ".ffn_norm.weight".as_bytes()), false) {
        Ok(x) => x,
        Err(e) => {
            assert(resolve_err(ts@, slot_name(l as nat, 5), slot_required(5), e));
            assert(!resolve_ok(ts@, slot_name(l as nat, 5), slot_required(5)));
            return Err(e);
        },
    };
    assert(resolve_ok(ts@, slot_name(l as nat, 5), slot_required(5)));
    let ffn_gate = match resolve_tensor(ts, layer_name(l, ".ffn_gate.weight".as_bytes()), true) {
        Ok(x) => x,
        Err(e) => {
            assert(resolve_err(ts@, slot_name(l as nat, 6), slot_required(6), e));
            assert(!resolve_ok(ts@, slot_name(l as nat, 6), slot_required(6)));
            return Err(e);
        },
    };
    assert(resolve_ok(ts@, slot_name(l as nat, 6), slot_required(6)));
    let ffn_up = match resolve_tensor(ts, layer_name(l, ".ffn_up.weight".as_bytes()), true) {
        Ok(x) => x,
        Err(e) => {
            assert(resolve_err(ts@, slot_name(l as nat, 7), slot_required(7), e));
            assert(!resolve_ok(ts@, slot_name(l as nat, 7), slot_required(7)));
            return Err(e);
        },
    };
    assert(resolve_ok(ts@, slot_name(l as nat, 7), slot_required(7)));
    let ffn_down = match resolve_tensor(ts, layer_name(l, ".ffn_down.weight".as_bytes()), true) {
        Ok(x) => x,
        Err(e) => {
            assert(resolve_err(ts@, slot_name(l as nat, 8), slot_required(8), e));
            assert(!resolve_ok(ts@, slot_name(l as nat, 8), slot_required(8)));
            return Err(e);
        },
    };
    assert(resolve_ok(ts@, slot_name(l as nat, 8), slot_required(8)));
    let w = LayerWeights { attn_norm, attn_q, attn_k, attn_v, attn_output, ffn_norm, ffn_gate, ffn_up, ffn_down };
    assert forall|k: int| 0 <= k < 9 implies #[trigger] slot(w, k) == position(ts@, slot_name(l as nat, k))
        && resolve_ok(ts@, slot_name(l as nat, k), slot_required(k)) by {
        if k == 0 {} else if k == 1 {} else if k == 2 {} else if k == 3 {} else if k == 4 {}
        else if k == 5 {} else if k == 6 {} else if k == 7 {} else {}
    }
    Ok(w)
}

impl TransformerWeights {
    /// Build the weight index from the tensor directory by name, for `n_layers`
    /// layers. A missing projection, token embedding or LM head is
    /// `MissingWeight`; a present tensor in a format without a kernel is
    /// `UnsupportedQuant`.
    pub fn from_gguf(tensors: &[TensorInfo], n_layers: u32) -> (r: Result<TransformerWeights, BrainError>)
        ensures
            r is Ok <==> all_resolve(tensors@, n_layers as nat),
            r matches Ok(w) ==> {
                &&& w.layers@.len() == n_layers
                &&& w.token_embd == position(tensors@, global_name(0))
                &&& w.output_norm == position(tensors@, global_name(1))
                &&& w.output == position(tensors@, global_name(2))
                &&& forall|l: int, k: int| 0 <= l < n_layers && 0 <= k < 9
                    ==> #[trigger] slot(w.layers@[l], k) == position(tensors@, slot_name(l as nat, k))
            },
            r matches Err(e) ==> (exists|k: int| 0 <= k < 3 && #[trigger] resolve_err(tensors@, global_name(k), global_required(k), e))
                || (exists|l: nat, k: int| l < n_layers && 0 <= k < 9 && #[trigger] resolve_err(tensors@, slot_name(l, k), slot_required(k), e)),
    {
        let token_embd = match resolve_tensor(tensors, slice_to_vec("token_embd.weight".as_bytes()), true) {
            Ok(x) => x,
            Err(e) => {
                assert(resolve_err(tensors@, global_name(0), global_required(0), e));
                assert(!resolve_ok(tensors@, global_name(0), global_required(0)));
                return Err(e);
            },
        };
        let output_norm = match resolve_tensor(tensors, slice_to_vec("output_norm.weight".as_bytes()), false) {
            Ok(x) => x,
            Err(e) => {
                assert(resolve_err(tensors@, global_name(1), global_required(1), e));
                assert(!resolve_ok(tensors@, global_name(1), global_required(1)));
                return Err(e);
            },
        };
        let output = match resolve_tensor(tensors, slice_to_vec("output.weight".as_bytes()), true) {
            Ok(x) => x,
            Err(e) => {
                assert(resolve_err(tensors@, global_name(2), global_required(2), e));
                assert(!resolve_ok(tensors@, global_name(2), global_required(2)));
                return Err(e);
            },
        };
        assert(resolve_ok(tensors@, global_name(0), global_required(0)));
        assert(resolve_ok(tensors@, global_name(1), global_required(1)));
        assert(resolve_ok(tensors@, global_name(2), global_required(2)));
        let mut layers: Vec<LayerWeights> = Vec::new();
        let mut l: u32 = 0;
        while l < n_layers
            invariant
                l <= n_layers,
                layers@.len() == l,
                forall|i: int, k: int| 0 <= i < l && 0 <= k < 9
                    ==> #[trigger] slot(layers@[i], k) == position(tensors@, slot_name(i as nat, k))
                        && resolve_ok(tensors@, slot_name(i as nat, k), slot_required(k)),
            decreases n_layers - l,
        {
            let w = match build_layer(tensors, l) {
                Ok(w) => w,
                Err(e) => {
                    proof {
                        let k = choose|k: int| 0 <= k < 9 && #[trigger] resolve_err(tensors@, slot_name(l as nat, k), slot_required(k), e);
                        assert(resolve_err(tensors@, slot_name(l as nat, k), slot_required(k), e));
                        assert(!all_resolve(tensors@, n_layers as nat));
                    }
                    return Err(e);
                },
            };
            assert(forall|k: int| 0 <= k < 9 ==> #[trigger] resolve_ok(tensors@, slot_name(l as nat, k), slot_required(k)));
            layers.push(w);
            l += 1;
        }
        let r = TransformerWeights { token_embd, output_norm, output, layers };
        proof {
            assert forall|li: nat, k: int| li < n_layers && 0 <= k < 9 implies #[trigger] resolve_ok(tensors@, slot_name(li, k), slot_required(k)) by {
                assert(slot(layers@[li as int], k) == position(tensors@, slot_name(li as int as nat, k)));
            }
            assert forall|k: int| 0 <= k < 3 implies #[trigger] resolve_ok(tensors@, global_name(k), global_required(k)) by {
                if k == 0 {} else if k == 1 {} else {}
            }
        }
        Ok(r)
    }
}

/// Names and formats of the tensors that no kernel decodes, in directory order.
pub open spec fn unsupported_of(ts: Seq<TensorInfo>) -> Seq<(Seq<u8>, GgmlType)>
    decreases ts.len(),
{
    if ts.len() == 0 {
        Seq::empty()
    } else if supported(ts.last().ggml_type) {
        unsupported_of(ts.drop_last())
    } else {
        unsupported_of(ts.drop_last()).push((ts.last().name@, ts.last().ggml_type))
    }
}

/// List the tensors whose format has no kernel, with their names.
pub fn validate_model_quants(tensors: &[TensorInfo]) -> (r: Vec<(Vec<u8>, GgmlType)>)
    ensures
        r@.map_values(|e: (Vec<u8>, GgmlType)| (e.0@, e.1)) == unsupported_of(tensors@),
{
    let mut out: Vec<(Vec<u8>, GgmlType)> = Vec::new();
    let mut i: usize = 0;
    while i < tensors.len()
        invariant
            i <= tensors@.len(),
            out@.map_values(|e: (Vec<u8>, GgmlType)| (e.0@, e.1)) == unsupported_of(tensors@.subrange(0, i as int)),
        decreases tensors@.len() - i,
    {
        let ghost prev = out@;
        assert(tensors@.subrange(0, i + 1).drop_last() == tensors@.subrange(0, i as int));
        if !is_type_supported(tensors[i].ggml_type) {
            out.push((tensors[i].name.clone(), tensors[i].ggml_type));
            assert(out@.map_values(|e: (Vec<u8>, GgmlType)| (e.0@, e.1))
                == prev.map_values(|e: (Vec<u8>, GgmlType)| (e.0@, e.1)).push((tensors@[i as int].name@, tensors@[i as int].ggml_type)));
        }
        i += 1;
    }
    assert(tensors@.subrange(0, tensors@.len() as int) == tensors@);
    out
}

} // verus!
