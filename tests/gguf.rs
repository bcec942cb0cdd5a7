use bizclaw_brain::error::BrainError;
use bizclaw_brain::gguf::{GgufFile, GgufValue};
use bizclaw_brain::model::{validate_model_quants, ModelParams, TransformerWeights, DEFAULT_ROPE_THETA_BITS};
use bizclaw_brain::quant::GgmlType;
use bizclaw_brain::tokenizer::BpeTokenizer;

fn put_str(b: &mut Vec<u8>, s: &str) {
    b.extend_from_slice(&(s.len() as u64).to_le_bytes());
    b.extend_from_slice(s.as_bytes());
}

fn kv_u32(b: &mut Vec<u8>, k: &str, v: u32) {
    put_str(b, k);
    b.extend_from_slice(&4u32.to_le_bytes());
    b.extend_from_slice(&v.to_le_bytes());
}

fn kv_str(b: &mut Vec<u8>, k: &str, v: &str) {
    put_str(b, k);
    b.extend_from_slice(&8u32.to_le_bytes());
    put_str(b, v);
}

fn tensor(b: &mut Vec<u8>, name: &str, dims: &[u64], tag: u32, offset: u64) {
    put_str(b, name);
    b.extend_from_slice(&(dims.len() as u32).to_le_bytes());
    for d in dims {
        b.extend_from_slice(&d.to_le_bytes());
    }
    b.extend_from_slice(&tag.to_le_bytes());
    b.extend_from_slice(&offset.to_le_bytes());
}

fn header(b: &mut Vec<u8>, n_tensors: u64, n_kv: u64) {
    b.extend_from_slice(b"GGUF");
    b.extend_from_slice(&3u32.to_le_bytes());
    b.extend_from_slice(&n_tensors.to_le_bytes());
    b.extend_from_slice(&n_kv.to_le_bytes());
}

fn llama_params(b: &mut Vec<u8>) {
    kv_str(b, "general.architecture", "llama");
    kv_u32(b, "llama.embedding_length", 64);
    kv_u32(b, "llama.feed_forward_length", 128);
    kv_u32(b, "llama.block_count", 1);
    kv_u32(b, "llama.attention.head_count", 4);
    kv_u32(b, "llama.attention.head_count_kv", 2);
    kv_u32(b, "llama.context_length", 16);
    kv_u32(b, "llama.vocab_size", 10);
}

const LAYER: [&str; 9] = [
    "attn_norm", "attn_q", "attn_k", "attn_v", "attn_output", "ffn_norm", "ffn_gate", "ffn_up", "ffn_down",
];

fn model_bytes(attn_q_tag: u32) -> Vec<u8> {
    let mut b = Vec::new();
    header(&mut b, 12, 8);
    llama_params(&mut b);
    tensor(&mut b, "token_embd.weight", &[64, 10], 0, 0);
    tensor(&mut b, "output_norm.weight", &[64], 0, 0);
    tensor(&mut b, "output.weight", &[64, 10], 0, 0);
    for s in LAYER {
        let tag = if s == "attn_q" { attn_q_tag } else { 0 };
        tensor(&mut b, &format!("blk.0.{s}.weight"), &[64], tag, 0);
    }
    b
}

#[test]
fn wrong_magic_is_bad_container() {
    let mut b = model_bytes(0);
    b[3] = b'I';
    assert_eq!(GgufFile::parse(&b).unwrap_err(), BrainError::BadContainer);
}

#[test]
fn truncated_and_unknown_version_are_bad_container() {
    let b = model_bytes(0);
    assert_eq!(GgufFile::parse(&b[..b.len() - 3]).unwrap_err(), BrainError::BadContainer);
    let mut v = b.clone();
    v[4] = 1;
    assert_eq!(GgufFile::parse(&v).unwrap_err(), BrainError::BadContainer);
    assert_eq!(GgufFile::parse(b"GGUF").unwrap_err(), BrainError::BadContainer);
}

#[test]
fn unknown_value_tag_is_bad_container() {
    let mut b = Vec::new();
    header(&mut b, 0, 1);
    put_str(&mut b, "x");
    b.extend_from_slice(&13u32.to_le_bytes());
    b.extend_from_slice(&[0u8; 8]);
    assert_eq!(GgufFile::parse(&b).unwrap_err(), BrainError::BadContainer);
}

#[test]
fn parses_header_metadata_and_directory() {
    let b = model_bytes(0);
    let f = GgufFile::parse(&b).unwrap();
    assert_eq!(f.version, 3);
    assert_eq!(f.metadata.len(), 8);
    assert_eq!(f.tensors.len(), 12);
    assert_eq!(f.alignment, 32);
    assert_eq!(f.data_offset % 32, 0);
    assert!(f.data_offset >= b.len());
    assert_eq!(f.tensors[0].name, b"token_embd.weight".to_vec());
    assert_eq!(f.tensors[0].dims, vec![64, 10]);
    match &f.metadata[0].1 {
        GgufValue::Str(s) => assert_eq!(s, b"llama"),
        other => panic!("unexpected {:?}", other),
    }
}

#[test]
fn arrays_and_alignment_are_read() {
    let mut b = Vec::new();
    header(&mut b, 0, 2);
    kv_u32(&mut b, "general.alignment", 64);
    put_str(&mut b, "tokenizer.ggml.tokens");
    b.extend_from_slice(&9u32.to_le_bytes());
    b.extend_from_slice(&8u32.to_le_bytes());
    b.extend_from_slice(&2u64.to_le_bytes());
    put_str(&mut b, "a");
    put_str(&mut b, "b");
    let f = GgufFile::parse(&b).unwrap();
    assert_eq!(f.alignment, 64);
    assert_eq!(f.data_offset, 128);
    match &f.metadata[1].1 {
        GgufValue::Array(8, items) => assert_eq!(items.len(), 2),
        other => panic!("unexpected {:?}", other),
    }
}

#[test]
fn model_params_from_metadata() {
    let f = GgufFile::parse(&model_bytes(0)).unwrap();
    let p = ModelParams::from_gguf(&f).unwrap();
    assert_eq!(p.dim, 64);
    assert_eq!(p.head_dim, 16);
    assert_eq!(p.n_kv_heads, 2);
    assert_eq!(p.vocab_size, 10);
    assert_eq!(p.max_seq_len, 16);
    assert_eq!(p.rope_theta_bits, DEFAULT_ROPE_THETA_BITS);
    assert_eq!(f32::from_bits(p.rope_theta_bits), 10000.0);
    assert_eq!(f32::from_bits(p.rms_norm_eps_bits), 1e-5);
}

#[test]
fn model_params_errors() {
    let mut b = Vec::new();
    header(&mut b, 0, 1);
    kv_str(&mut b, "general.architecture", "gpt2");
    let f = GgufFile::parse(&b).unwrap();
    assert_eq!(ModelParams::from_gguf(&f).unwrap_err(), BrainError::UnsupportedArch);

    let mut b = Vec::new();
    header(&mut b, 0, 2);
    kv_str(&mut b, "general.architecture", "llama");
    kv_u32(&mut b, "llama.embedding_length", 64);
    let f = GgufFile::parse(&b).unwrap();
    assert_eq!(ModelParams::from_gguf(&f).unwrap_err(), BrainError::BadContainer);

    let mut b = Vec::new();
    header(&mut b, 0, 8);
    kv_str(&mut b, "general.architecture", "llama");
    kv_u32(&mut b, "llama.embedding_length", 65);
    kv_u32(&mut b, "llama.feed_forward_length", 128);
    kv_u32(&mut b, "llama.block_count", 1);
    kv_u32(&mut b, "llama.attention.head_count", 4);
    kv_u32(&mut b, "llama.attention.head_count_kv", 2);
    kv_u32(&mut b, "llama.context_length", 16);
    kv_u32(&mut b, "llama.vocab_size", 10);
    let f = GgufFile::parse(&b).unwrap();
    assert_eq!(ModelParams::from_gguf(&f).unwrap_err(), BrainError::ShapeMismatch);
}

#[test]
fn weight_index_resolves_names() {
    let f = GgufFile::parse(&model_bytes(0)).unwrap();
    let w = TransformerWeights::from_gguf(&f.tensors, 1).unwrap();
    assert_eq!(w.token_embd, Some(0));
    assert_eq!(w.output_norm, Some(1));
    assert_eq!(w.output, Some(2));
    assert_eq!(w.layers.len(), 1);
    assert_eq!(w.layers[0].attn_q, Some(4));
    assert_eq!(w.layers[0].ffn_down, Some(11));
}

#[test]
fn iq4_nl_attention_weight_is_unsupported() {
    let f = GgufFile::parse(&model_bytes(20)).unwrap();
    let r = TransformerWeights::from_gguf(&f.tensors, 1);
    assert_eq!(r.unwrap_err(), BrainError::UnsupportedQuant(GgmlType::IQ4NL));
    let bad = validate_model_quants(&f.tensors);
    assert_eq!(bad, vec![(b"blk.0.attn_q.weight".to_vec(), GgmlType::IQ4NL)]);
}

#[test]
fn missing_projection_is_named() {
    let f = GgufFile::parse(&model_bytes(0)).unwrap();
    let r = TransformerWeights::from_gguf(&f.tensors, 2);
    assert_eq!(r.unwrap_err(), BrainError::MissingWeight(b"blk.1.attn_q.weight".to_vec()));
}

#[test]
fn tensor_ranges_are_bounds_checked() {
    let f = GgufFile::parse(&model_bytes(0)).unwrap();
    let start = f.data_offset;
    assert_eq!(f.tensor_range(0, start + 2560), Ok((start, start + 2560)));
    assert_eq!(f.tensor_range(0, start + 2559), Err(BrainError::BadOffset));
    let g = GgufFile::parse(&model_bytes(20)).unwrap();
    assert_eq!(g.tensor_range(4, 1 << 20), Err(BrainError::UnsupportedQuant(GgmlType::IQ4NL)));
}

#[test]
fn tokenizer_from_metadata() {
    let mut b = Vec::new();
    header(&mut b, 0, 3);
    put_str(&mut b, "tokenizer.ggml.tokens");
    b.extend_from_slice(&9u32.to_le_bytes());
    b.extend_from_slice(&8u32.to_le_bytes());
    b.extend_from_slice(&3u64.to_le_bytes());
    put_str(&mut b, "a");
    put_str(&mut b, "b");
    put_str(&mut b, "ab");
    put_str(&mut b, "tokenizer.ggml.scores");
    b.extend_from_slice(&9u32.to_le_bytes());
    b.extend_from_slice(&6u32.to_le_bytes());
    b.extend_from_slice(&3u64.to_le_bytes());
    for x in [0.0f32, 0.0, 5.0] {
        b.extend_from_slice(&x.to_le_bytes());
    }
    kv_u32(&mut b, "tokenizer.ggml.eos_token_id", 9);
    let f = GgufFile::parse(&b).unwrap();
    let t = BpeTokenizer::from_gguf(&f).unwrap();
    assert_eq!(t.vocab_size(), 3);
    assert_eq!(t.bos_id, 1);
    assert_eq!(t.eos_id, 9);
    assert_eq!(t.encode("ab"), vec![2]);
    assert_eq!(t.encode("ba"), vec![1, 0]);

    let mut e = Vec::new();
    header(&mut e, 0, 0);
    let f = GgufFile::parse(&e).unwrap();
    assert!(matches!(BpeTokenizer::from_gguf(&f), Err(BrainError::BadContainer)));
}

#[test]
fn zero_alignment_falls_back_to_default() {
    let mut b = Vec::new();
    header(&mut b, 0, 1);
    kv_u32(&mut b, "general.alignment", 0);
    let f = GgufFile::parse(&b).unwrap();
    assert_eq!(f.alignment, 32);
    assert_eq!(f.data_offset, 64);
}

#[test]
fn default_params_are_tiny_llama() {
    let p = ModelParams::default();
    assert_eq!(p.vocab_size, 32000);
    assert_eq!(p.dim / p.n_heads, p.head_dim);
    assert_eq!(p.n_kv_heads, 4);
    assert_eq!(f32::from_bits(p.rope_theta_bits), 10000.0);
}
