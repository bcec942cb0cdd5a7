//! Byte-level BPE tokenizer driven by the vocabulary and merge scores of a GGUF file.
//!
//! Token strings are kept as bytes. Merge scores are f32 bit patterns and are
//! compared in the IEEE-754 total order (`f32::total_cmp`); a pair whose merged
//! token scores −∞ (or a negative NaN) is never merged.
use vstd::prelude::*;
use vstd::string::StringSliceAdditionalSpecFns;
use vstd::slice::slice_to_vec;
use vstd::utf8::{valid_utf8, decode_utf8, encode_utf8_decode_utf8, encode_utf8_valid_utf8};
use crate::error::BrainError;
use crate::gguf::{GgufFile, GgufValue, find_key, meta, bytes_eq};
use std::collections::HashMap;

verus! {

/// A position in the IEEE-754 total order of f32 values, from their bits.
pub open spec fn score_key(bits: u32) -> int {
    if bits >= 0x8000_0000 {
        u32::MAX - bits
    } else {
        bits + 0x8000_0000
    }
}

/// The total-order position of −∞ (bits `0xFF80_0000`).
pub open spec fn neg_inf_key() -> int {
    score_key(0xFF80_0000u32)
}

fn order_key(bits: u32) -> (r: u32)
    ensures
        r == score_key(bits),
{
    if bits >= 0x8000_0000 {
        u32::MAX - bits
    } else {
        bits + 0x8000_0000
    }
}

/// Uppercase hexadecimal digit of `d < 16`.
pub open spec fn hex_digit(d: int) -> u8 {
    if d < 10 {
        (48 + d) as u8
    } else {
        (55 + d) as u8
    }
}

/// The byte-escape token string `<0xNN>` of byte `b`.
pub open spec fn hex_escape(b: u8) -> Seq<u8> {
    seq![60u8, 48u8, 120u8, hex_digit(b as int / 16), hex_digit(b as int % 16), 62u8]
}

/// Value of an ASCII hexadecimal digit, if it is one.
pub open spec fn hex_value(c: u8) -> Option<int> {
    if 48 <= c <= 57 {
        Some(c - 48)
    } else if 65 <= c <= 70 {
        Some(c - 55)
    } else if 97 <= c <= 102 {
        Some(c - 87)
    } else {
        None
    }
}

/// `s` is a byte-escape token `<0xNN>`.
pub open spec fn is_hex_escape(s: Seq<u8>) -> bool {
    &&& s.len() == 6
    &&& s[0] == 60u8 && s[1] == 48u8 && s[2] == 120u8 && s[5] == 62u8
    &&& hex_value(s[3]) is Some && hex_value(s[4]) is Some
}

/// The bytes a token string stands for: the escaped byte for `<0xNN>`, else the string itself.
pub open spec fn piece_of(s: Seq<u8>) -> Seq<u8> {
    if is_hex_escape(s) {
        seq![(16 * hex_value(s[3]).unwrap() + hex_value(s[4]).unwrap()) as u8]
    } else {
        s
    }
}

/// The string shown for an id outside the vocabulary.
pub open spec fn unk() -> Seq<u8> {
    "<unk>".spec_bytes()
}

/// BPE tokenizer for LLaMA-family models.
pub struct BpeTokenizer {
    /// Token id → token string (bytes).
    vocab: Vec<Vec<u8>>,
    /// Token string hash → ids of the strings with that hash.
    index: HashMap<u64, Vec<u32>>,
    /// Merge scores as f32 bits, by token id.
    scores: Vec<u32>,
    pub bos_id: u32,
    pub eos_id: u32,
    pub pad_id: u32,
}

/// A tokenizer's vocabulary and scores as sequences.
pub struct VocabModel {
    pub tokens: Seq<Seq<u8>>,
    pub scores: Seq<u32>,
    pub bos: u32,
    pub eos: u32,
    pub pad: u32,
}

impl BpeTokenizer {
    /// The vocabulary, scores and padding id as mathematical values.
    pub closed spec fn model(&self) -> VocabModel {
        VocabModel {
            tokens: self.vocab@.map_values(|t: Vec<u8>| t@),
            scores: self.scores@,
            bos: self.bos_id,
            eos: self.eos_id,
            pad: self.pad_id,
        }
    }

    /// The vocabulary is non-empty and its ids fit in a u32.
    pub open spec fn wf(&self) -> bool {
        &&& 0 < self.model().tokens.len() <= u32::MAX
        &&& self.index_ok()
    }

    /// Every id sits in the bucket of its string's hash, and buckets hold only ids.
    pub closed spec fn index_ok(&self) -> bool {
        index_covers(self.index@, self.vocab@, self.vocab@.len() as int)
    }
}

/// The first `n` ids sit in the buckets of their strings' hashes, and the
/// buckets hold only those ids.
pub open spec fn index_covers(index: Map<u64, Vec<u32>>, vocab: Seq<Vec<u8>>, n: int) -> bool {
    &&& forall|i: int| 0 <= i < n ==> index.contains_key(text_hash(#[trigger] vocab[i]@))
        && index[text_hash(vocab[i]@)]@.contains(i as u32)
    &&& forall|k: u64, j: int| index.contains_key(k) && 0 <= j < index[k]@.len() ==> (#[trigger] index[k]@[j] as int) < n
}

/// FNV-style multiplicative hash of a byte string.
pub open spec fn text_hash(s: Seq<u8>) -> u64
    decreases s.len(),
{
    if s.len() == 0 {
        0xcbf2_9ce4_8422_2325
    } else {
        ((text_hash(s.drop_last()) as int * 0x100_0000_01b3 + s.last() as int) % 0x1_0000_0000_0000_0000) as u64
    }
}

fn hash_bytes(s: &[u8]) -> (r: u64)
    ensures
        r == text_hash(s@),
{
    let mut h: u64 = 0xcbf2_9ce4_8422_2325;
    let mut i: usize = 0;
    while i < s.len()
        invariant
            i <= s@.len(),
            h == text_hash(s@.subrange(0, i as int)),
        decreases s@.len() - i,
    {
        assert(s@.subrange(0, i + 1).drop_last() == s@.subrange(0, i as int));
        proof {
            assert(h as int * 0x100_0000_01b3 + 255 < 0x1_0000_0000_0000_0000_0000_0000_0000_0000) by (nonlinear_arith)
                requires h < 0x1_0000_0000_0000_0000u128;
        }
        h = ((h as u128 * 0x100_0000_01b3u128 + s[i] as u128) % 0x1_0000_0000_0000_0000u128) as u64;
        i += 1;
    }
    assert(s@.subrange(0, s@.len() as int) == s@);
    h
}

/// Build the hash index of a vocabulary.
fn build_index(vocab: &Vec<Vec<u8>>) -> (r: HashMap<u64, Vec<u32>>)
    requires
        vocab@.len() <= u32::MAX,
    ensures
        index_covers(r@, vocab@, vocab@.len() as int),
{
    broadcast use vstd::std_specs::hash::group_hash_axioms;
    let mut index: HashMap<u64, Vec<u32>> = HashMap::new();
    let mut i: usize = 0;
    while i < vocab.len()
        invariant
            vocab@.len() <= u32::MAX,
            i <= vocab@.len(),
            index_covers(index@, vocab@, i as int),
        decreases vocab@.len() - i,
    {
        let h = hash_bytes(vocab[i].as_slice());
        let mut bucket: Vec<u32> = match index.get(&h) {
            Some(b) => b.clone(),
            None => Vec::new(),
        };
        let ghost old_index = index@;
        let ghost old_bucket = bucket@;
        bucket.push(i as u32);
        index.insert(h, bucket);
        proof {
            assert(index@[h]@.contains(i as u32)) by {
                assert(index@[h]@[old_bucket.len() as int] == i as u32);
            }
            assert forall|k: int| 0 <= k < i + 1 implies index@.contains_key(text_hash(#[trigger] vocab@[k]@))
                && index@[text_hash(vocab@[k]@)]@.contains(k as u32) by {
                if k < i {
                    let hk = text_hash(vocab@[k]@);
                    assert(old_index.contains_key(hk) && old_index[hk]@.contains(k as u32));
                    if hk == h {
                        let w = choose|w: int| 0 <= w < old_index[hk]@.len() && old_index[hk]@[w] == k as u32;
                        assert(old_bucket == old_index[hk]@);
                        assert(index@[h]@[w] == k as u32);
                    }
                }
            }
            assert forall|key: u64, j: int| index@.contains_key(key) && 0 <= j < index@[key]@.len() implies
                (#[trigger] index@[key]@[j] as int) < i + 1 by {
                if key == h {
                    if j < old_bucket.len() {
                        assert(old_index.contains_key(h));
                        assert(old_bucket == old_index[h]@);
                        assert(index@[key]@[j] == old_index[h]@[j]);
                    }
                } else {
                    assert(index@[key] == old_index[key]);
                }
            }
        }
        i += 1;
    }
    index
}

/// The string of token `id`, or `<unk>` outside the vocabulary.
pub open spec fn token_str(m: VocabModel, id: u32) -> Seq<u8> {
    if id < m.tokens.len() {
        m.tokens[id as int]
    } else {
        unk()
    }
}

/// Entry `i` is the last one that carries `s`.
pub open spec fn last_with(m: VocabModel, s: Seq<u8>, i: int) -> bool {
    &&& 0 <= i < m.tokens.len()
    &&& m.tokens[i] == s
    &&& forall|j: int| i < j < m.tokens.len() ==> m.tokens[j] != s
}

/// The id of token string `s`: the last entry that carries it.
#[verifier::opaque]
pub open spec fn lookup(m: VocabModel, s: Seq<u8>) -> Option<u32> {
    if exists|i: int| last_with(m, s, i) {
        Some((choose|i: int| last_with(m, s, i)) as u32)
    } else {
        None
    }
}

/// The merge score bits of token `id` (0.0 when it has none).
pub open spec fn score_of(m: VocabModel, id: u32) -> u32 {
    if id < m.scores.len() {
        m.scores[id as int]
    } else {
        0
    }
}

/// The seed token of one input byte: its one-byte token, else its `<0xNN>`
/// token, else the padding id.
pub open spec fn seed_token(m: VocabModel, b: u8) -> u32 {
    match lookup(m, seq![b]) {
        Some(id) => id,
        None => match lookup(m, hex_escape(b)) {
            Some(id) => id,
            None => m.pad,
        },
    }
}

/// The seed sequence of a text's bytes.
pub open spec fn seed(m: VocabModel, text: Seq<u8>) -> Seq<u32> {
    text.map_values(|b: u8| seed_token(m, b))
}

/// The token that merges the pair at `i`, if the vocabulary has one.
pub open spec fn pair_token(m: VocabModel, ids: Seq<u32>, i: int) -> Option<u32> {
    lookup(m, token_str(m, ids[i]) + token_str(m, ids[i + 1]))
}

/// The pair at `i` can merge, with a score above −∞.
pub open spec fn mergeable(m: VocabModel, ids: Seq<u32>, i: int) -> bool {
    &&& 0 <= i < ids.len() - 1
    &&& pair_token(m, ids, i) is Some
    &&& score_key(score_of(m, pair_token(m, ids, i).unwrap())) > neg_inf_key()
}

/// Score position of the merge at `i`.
pub open spec fn pair_key(m: VocabModel, ids: Seq<u32>, i: int) -> int {
    score_key(score_of(m, pair_token(m, ids, i).unwrap()))
}

/// The pair at `i` is the first one with the highest score.
pub open spec fn best_pair(m: VocabModel, ids: Seq<u32>, i: int) -> bool {
    &&& mergeable(m, ids, i)
    &&& forall|j: int| 0 <= j < i && #[trigger] mergeable(m, ids, j) ==> pair_key(m, ids, j) < pair_key(m, ids, i)
    &&& forall|j: int| i < j && #[trigger] mergeable(m, ids, j) ==> pair_key(m, ids, j) <= pair_key(m, ids, i)
}

/// The sequence after merging the pair at `i`.
pub open spec fn merge_at(m: VocabModel, ids: Seq<u32>, i: int) -> Seq<u32> {
    ids.take(i).push(pair_token(m, ids, i).unwrap()) + ids.skip(i + 2)
}

/// Greedy BPE: merge the best pair until none can merge.
#[verifier::opaque]
pub open spec fn bpe(m: VocabModel, ids: Seq<u32>) -> Seq<u32>
    decreases ids.len(),
{
    if exists|i: int| best_pair(m, ids, i) {
        let i = choose|i: int| best_pair(m, ids, i);
        if 0 <= i < ids.len() - 1 {
            bpe(m, merge_at(m, ids, i))
        } else {
            ids
        }
    } else {
        ids
    }
}

/// What `encode` returns for a text's bytes.
pub open spec fn encoding(m: VocabModel, text: Seq<u8>) -> Seq<u32> {
    bpe(m, seed(m, text))
}

/// Bytes a sequence of ids decodes to.
pub open spec fn pieces(m: VocabModel, ids: Seq<u32>) -> Seq<u8>
    decreases ids.len(),
{
    if ids.len() == 0 {
        Seq::empty()
    } else {
        pieces(m, ids.drop_last()) + piece_of(token_str(m, ids.last()))
    }
}

proof fn lemma_best_pair_unique(m: VocabModel, ids: Seq<u32>, i: int, j: int)
    requires
        best_pair(m, ids, i),
        best_pair(m, ids, j),
    ensures
        i == j,
{
    if i < j {
        assert(mergeable(m, ids, i));
        assert(mergeable(m, ids, j));
    } else if j < i {
        assert(mergeable(m, ids, i));
        assert(mergeable(m, ids, j));
    }
}

proof fn lemma_bpe_step(m: VocabModel, ids: Seq<u32>, i: int)
    requires
        best_pair(m, ids, i),
    ensures
        bpe(m, ids) == bpe(m, merge_at(m, ids, i)),
{
    reveal(bpe);
    let c = choose|c: int| best_pair(m, ids, c);
    lemma_best_pair_unique(m, ids, i, c);
}

proof fn lemma_bpe_done(m: VocabModel, ids: Seq<u32>)
    requires
        !exists|i: int| best_pair(m, ids, i),
    ensures
        bpe(m, ids) == ids,
{
    reveal(bpe);
}

impl BpeTokenizer {
    /// Create a tokenizer from a vocabulary and its merge scores (f32 bits).
    pub fn new(vocab: Vec<Vec<u8>>, scores: Vec<u32>, bos_id: u32, eos_id: u32, pad_id: u32) -> (r: Option<BpeTokenizer>)
        ensures
            r is Some <==> 0 < vocab@.len() <= u32::MAX,
            r matches Some(t) ==> t.wf() && t.model().tokens == vocab@.map_values(|v: Vec<u8>| v@)
                && t.model().scores == scores@ && t.model().bos == bos_id
                && t.model().eos == eos_id && t.model().pad == pad_id,
    {
        if vocab.len() == 0 || vocab.len() > u32::MAX as usize {
            return None;
        }
        let index = build_index(&vocab);
        Some(BpeTokenizer { vocab, index, scores, bos_id, eos_id, pad_id })
    }

    /// The vocabulary size.
    pub fn vocab_size(&self) -> (r: usize)
        ensures
            r == self.model().tokens.len(),
    {
        self.vocab.len()
    }

    /// Check if a token is a special token.
    pub fn is_special(&self, id: u32) -> (r: bool)
        ensures
            r == (id == self.model().bos || id == self.model().eos || id == self.model().pad),
    {
        id == self.bos_id || id == self.eos_id || id == self.pad_id
    }

    /// Decode a single token id to its string (`<unk>` outside the vocabulary).
    pub fn decode_token(&self, id: u32) -> (r: &[u8])
        ensures
            r@ == token_str(self.model(), id),
    {
        if (id as usize) < self.vocab.len() {
            self.vocab[id as usize].as_slice()
        } else {
            "<unk>".as_bytes()
        }
    }

    /// The id of a token string: the last vocabulary entry that carries it.
    pub fn token_id(&self, s: &[u8]) -> (r: Option<u32>)
        requires
            self.wf(),
        ensures
            r == lookup(self.model(), s@),
    {
        broadcast use vstd::std_specs::hash::group_hash_axioms;
        let ghost m = self.model();
        let h = hash_bytes(s);
        let bucket = match self.index.get(&h) {
            Some(b) => b,
            None => {
                proof {
                    reveal(lookup);
                    if exists|i: int| last_with(m, s@, i) {
                        let i = choose|i: int| last_with(m, s@, i);
                        assert(self.vocab@[i]@ == s@);
                    }
                }
                return None;
            },
        };
        let mut best: Option<u32> = None;
        let mut j: usize = 0;
        while j < bucket.len()
            invariant
                self.wf(),
                m == self.model(),
                self.index@.contains_key(h),
                *bucket == self.index@[h],
                h == text_hash(s@),
                j <= bucket@.len(),
                best is None ==> forall|k: int| 0 <= k < j ==> m.tokens[bucket@[k] as int] != s@,
                best matches Some(b) ==> (b as int) < m.tokens.len() && m.tokens[b as int] == s@
                    && forall|k: int| 0 <= k < j && #[trigger] m.tokens[bucket@[k] as int] == s@ ==> bucket@[k] <= b,
            decreases bucket@.len() - j,
        {
            let id = bucket[j];
            assert((id as int) < m.tokens.len());
            if bytes_eq(self.vocab[id as usize].as_slice(), s) {
                best = match best {
                    Some(b) => if id > b { Some(id) } else { Some(b) },
                    None => Some(id),
                };
            }
            j += 1;
        }
        proof {
            reveal(lookup);
            match best {
                Some(b) => {
                    assert forall|x: int| b < x < m.tokens.len() implies m.tokens[x] != s@ by {
                        if m.tokens[x] == s@ {
                            assert(self.vocab@[x]@ == s@);
                            assert(self.index@[h]@.contains(x as u32));
                            let w = choose|w: int| 0 <= w < bucket@.len() && bucket@[w] == x as u32;
                            assert(m.tokens[bucket@[w] as int] == s@);
                        }
                    }
                    assert(last_with(m, s@, b as int));
                    let c = choose|c: int| last_with(m, s@, c);
                    if c < b {
                        assert(m.tokens[b as int] != s@);
                    } else if c > b {
                        assert(m.tokens[c] != s@);
                    }
                    assert(lookup(m, s@) == Some(b));
                },
                None => {
                    if exists|i: int| last_with(m, s@, i) {
                        let i = choose|i: int| last_with(m, s@, i);
                        assert(self.vocab@[i]@ == s@);
                        assert(self.index@[h]@.contains(i as u32));
                        let w = choose|w: int| 0 <= w < bucket@.len() && bucket@[w] == i as u32;
                        assert(m.tokens[bucket@[w] as int] != s@);
                    }
                },
            }
        }
        best
    }
}

/// Value of a hexadecimal digit byte (either case), for bytes that are one.
fn hex_value_of(c: u8) -> (r: u8)
    requires
        hex_value(c) is Some,
    ensures
        r == hex_value(c).unwrap(),
{
    if c <= 57 {
        c - 48
    } else if c <= 70 {
        c - 55
    } else {
        c - 87
    }
}

fn is_hex_digit(c: u8) -> (r: bool)
    ensures
        r == (hex_value(c) is Some),
{
    (48 <= c && c <= 57) || (65 <= c && c <= 70) || (97 <= c && c <= 102)
}

/// The bytes a token string stands for.
fn piece(s: &[u8]) -> (r: Vec<u8>)
    ensures
        r@ == piece_of(s@),
{
    if s.len() == 6 && s[0] == 60u8 && s[1] == 48u8 && s[2] == 120u8 && s[5] == 62u8
        && is_hex_digit(s[3]) && is_hex_digit(s[4]) {
        let hi = hex_value_of(s[3]);
        let lo = hex_value_of(s[4]);
        let mut v: Vec<u8> = Vec::new();
        v.push(16 * hi + lo);
        assert(v@ == piece_of(s@));
        v
    } else {
        slice_to_vec(s)
    }
}

fn hex_digit_of(d: u8) -> (r: u8)
    requires
        d < 16,
    ensures
        r == hex_digit(d as int),
{
    if d < 10 {
        48 + d
    } else {
        55 + d
    }
}

fn concat_bytes(a: &[u8], b: &[u8]) -> (r: Vec<u8>)
    ensures
        r@ == a@ + b@,
{
    let mut v = slice_to_vec(a);
    let mut i: usize = 0;
    while i < b.len()
        invariant
            i <= b@.len(),
            v@ == a@ + b@.subrange(0, i as int),
        decreases b@.len() - i,
    {
        v.push(b[i]);
        i += 1;
        assert(b@.subrange(0, i as int) == b@.subrange(0, i - 1).push(b@[i - 1]));
    }
    assert(b@.subrange(0, b@.len() as int) == b@);
    v
}

proof fn lemma_pieces_append(m: VocabModel, a: Seq<u32>, b: Seq<u32>)
    ensures
        pieces(m, a + b) == pieces(m, a) + pieces(m, b),
    decreases b.len(),
{
    if b.len() == 0 {
        assert(a + b == a);
    } else {
        assert((a + b).drop_last() == a + b.drop_last());
        lemma_pieces_append(m, a, b.drop_last());
    }
}

impl BpeTokenizer {
    fn score_bits(&self, id: u32) -> (r: u32)
        ensures
            r == score_of(self.model(), id),
    {
        if (id as usize) < self.scores.len() {
            self.scores[id as usize]
        } else {
            0
        }
    }

    fn seed_id(&self, b: u8) -> (r: u32)
        requires
            self.wf(),
        ensures
            r == seed_token(self.model(), b),
    {
        let one: Vec<u8> = vec![b];
        assert(one@ == seq![b]);
        match self.token_id(one.as_slice()) {
            Some(id) => id,
            None => {
                let esc: Vec<u8> = vec![60u8, 48u8, 120u8, hex_digit_of(b / 16), hex_digit_of(b % 16), 62u8];
                assert(esc@ == hex_escape(b));
                match self.token_id(esc.as_slice()) {
                    Some(id) => id,
                    None => self.pad_id,
                }
            },
        }
    }

    /// The merge of the pair at `i`, with its score position, when it can merge.
    fn pair_merge(&self, tokens: &Vec<u32>, i: usize) -> (r: Option<(u32, u32)>)
        requires
            self.wf(),
            i + 1 < tokens@.len(),
        ensures
            r is Some <==> mergeable(self.model(), tokens@, i as int),
            r matches Some((id, key)) ==> id == pair_token(self.model(), tokens@, i as int).unwrap()
                && key == pair_key(self.model(), tokens@, i as int),
    {
        let n = tokens.len();
        let merged = concat_bytes(self.decode_token(tokens[i]), self.decode_token(tokens[i + 1]));
        match self.token_id(merged.as_slice()) {
            Some(id) => {
                let key = order_key(self.score_bits(id));
                if key > 0x007F_FFFFu32 {
                    Some((id, key))
                } else {
                    None
                }
            },
            None => None,
        }
    }

    /// The first pair with the highest merge score, with the token it merges into.
    fn best_merge(&self, tokens: &Vec<u32>) -> (r: Option<(usize, u32)>)
        requires
            self.wf(),
            tokens@.len() >= 2,
        ensures
            r is None ==> !exists|j: int| best_pair(self.model(), tokens@, j),
            r matches Some((bi, bid)) ==> best_pair(self.model(), tokens@, bi as int)
                && pair_token(self.model(), tokens@, bi as int) == Some(bid) && bi + 1 < tokens@.len(),
    {
        let ghost m = self.model();
        let mut best: Option<(usize, u32, u32)> = None;
        let mut i: usize = 0;
        while i < tokens.len() - 1
            invariant
                self.wf(),
                m == self.model(),
                tokens@.len() >= 2,
                i + 1 <= tokens@.len(),
                best is None ==> forall|j: int| 0 <= j < i ==> !#[trigger] mergeable(m, tokens@, j),
                best matches Some((bi, bid, bk)) ==> {
                    &&& bi < i
                    &&& mergeable(m, tokens@, bi as int)
                    &&& pair_token(m, tokens@, bi as int) == Some(bid)
                    &&& pair_key(m, tokens@, bi as int) == bk
                    &&& forall|j: int| 0 <= j < bi && #[trigger] mergeable(m, tokens@, j) ==> pair_key(m, tokens@, j) < bk
                    &&& forall|j: int| bi < j < i && #[trigger] mergeable(m, tokens@, j) ==> pair_key(m, tokens@, j) <= bk
                },
            decreases tokens@.len() - i,
        {
            match self.pair_merge(tokens, i) {
                Some((id, key)) => {
                    let better = match best {
                        Some((_, _, bk)) => key > bk,
                        None => true,
                    };
                    if better {
                        best = Some((i, id, key));
                    }
                },
                None => {},
            }
            i += 1;
        }
        match best {
            None => {
                assert(!exists|j: int| best_pair(m, tokens@, j));
                None
            },
            Some((bi, bid, _)) => Some((bi, bid)),
        }
    }

    /// Encode text into token ids: one seed token per byte, then greedy merges
    /// of the best-scoring adjacent pair. No BOS is prepended.
    pub fn encode(&self, text: &str) -> (r: Vec<u32>)
        requires
            self.wf(),
        ensures
            r@ == encoding(self.model(), text.spec_bytes()),
    {
        let ghost m = self.model();
        let bytes = text.as_bytes();
        let mut tokens: Vec<u32> = Vec::new();
        let mut k: usize = 0;
        while k < bytes.len()
            invariant
                self.wf(),
                m == self.model(),
                bytes@ == text.spec_bytes(),
                k <= bytes@.len(),
                tokens@ == seed(m, bytes@.subrange(0, k as int)),
            decreases bytes@.len() - k,
        {
            let id = self.seed_id(bytes[k]);
            tokens.push(id);
            k += 1;
            assert(seed(m, bytes@.subrange(0, k as int)) == seed(m, bytes@.subrange(0, k - 1)).push(id));
        }
        assert(bytes@.subrange(0, bytes@.len() as int) == bytes@);
        loop
            invariant
                self.wf(),
                m == self.model(),
                bpe(m, tokens@) == encoding(m, text.spec_bytes()),
            decreases tokens@.len(),
        {
            if tokens.len() < 2 {
                assert(!exists|i: int| best_pair(m, tokens@, i));
                proof { lemma_bpe_done(m, tokens@); }
                return tokens;
            }
            let best = self.best_merge(&tokens);
            match best {
                None => {
                    proof { lemma_bpe_done(m, tokens@); }
                    return tokens;
                },
                Some((bi, bid)) => {
                    assert(best_pair(m, tokens@, bi as int));
                    proof { lemma_bpe_step(m, tokens@, bi as int); }
                    let ghost before = tokens@;
                    tokens.set(bi, bid);
                    tokens.remove(bi + 1);
                    assert(tokens@ == merge_at(m, before, bi as int));
                },
            }
        }
    }

    /// The bytes a sequence of ids decodes to: each token's string, with
    /// `<0xNN>` tokens standing for the byte `0xNN`.
    pub fn decode_bytes(&self, tokens: &[u32]) -> (r: Vec<u8>)
        ensures
            r@ == pieces(self.model(), tokens@),
    {
        let mut out: Vec<u8> = Vec::new();
        let mut i: usize = 0;
        while i < tokens.len()
            invariant
                i <= tokens@.len(),
                out@ == pieces(self.model(), tokens@.subrange(0, i as int)),
            decreases tokens@.len() - i,
        {
            let p = piece(self.decode_token(tokens[i]));
            let mut j: usize = 0;
            let ghost start = out@;
            while j < p.len()
                invariant
                    j <= p@.len(),
                    out@ == start + p@.subrange(0, j as int),
                decreases p@.len() - j,
            {
                out.push(p[j]);
                j += 1;
                assert(p@.subrange(0, j as int) == p@.subrange(0, j - 1).push(p@[j - 1]));
            }
            assert(p@.subrange(0, p@.len() as int) == p@);
            assert(tokens@.subrange(0, i + 1).drop_last() == tokens@.subrange(0, i as int));
            i += 1;
        }
        assert(tokens@.subrange(0, tokens@.len() as int) == tokens@);
        out
    }
}

/// What `String::from_utf8_lossy` makes of a byte string.
pub uninterp spec fn lossy_utf8(b: Seq<u8>) -> Seq<char>;

/// Relies on `String::from_utf8_lossy`: the result depends on the bytes alone,
/// and valid UTF-8 comes back as the characters it encodes.
#[verifier::external_body]
fn utf8_lossy(b: &[u8]) -> (r: String)
    ensures
        r@ == lossy_utf8(b@),
        valid_utf8(b@) ==> r@ == decode_utf8(b@),
{
    String::from_utf8_lossy(b).into_owned()
}

impl BpeTokenizer {
    /// Decode a sequence of ids to text; bytes that do not form UTF-8 become
    /// replacement characters.
    pub fn decode(&self, tokens: &[u32]) -> (r: String)
        ensures
            r@ == lossy_utf8(pieces(self.model(), tokens@)),
            valid_utf8(pieces(self.model(), tokens@)) ==> r@ == decode_utf8(pieces(self.model(), tokens@)),
    {
        let bytes = self.decode_bytes(tokens);
        utf8_lossy(bytes.as_slice())
    }
}

/// Every byte has a token standing for it alone: its one-byte string or its `<0xNN>` escape.
pub open spec fn byte_complete(m: VocabModel) -> bool {
    forall|b: u8| #[trigger] lookup(m, seq![b]) is Some || lookup(m, hex_escape(b)) is Some
}

/// Merging two tokens never changes the bytes they stand for.
pub open spec fn merge_safe(m: VocabModel) -> bool {
    forall|x: u32, y: u32| #[trigger] lookup(m, token_str(m, x) + token_str(m, y)) matches Some(z)
        ==> piece_of(token_str(m, z)) == piece_of(token_str(m, x)) + piece_of(token_str(m, y))
}

proof fn lemma_lookup_found(m: VocabModel, s: Seq<u8>)
    requires
        m.tokens.len() <= u32::MAX,
        lookup(m, s) is Some,
    ensures
        token_str(m, lookup(m, s).unwrap()) == s,
{
    reveal(lookup);
    let i = choose|i: int| last_with(m, s, i);
    assert(last_with(m, s, i));
}

proof fn lemma_seed_piece(m: VocabModel, b: u8)
    requires
        m.tokens.len() <= u32::MAX,
        byte_complete(m),
    ensures
        piece_of(token_str(m, seed_token(m, b))) == seq![b],
{
    assert(lookup(m, seq![b]) is Some || lookup(m, hex_escape(b)) is Some);
    if lookup(m, seq![b]) is Some {
        lemma_lookup_found(m, seq![b]);
    } else {
        lemma_lookup_found(m, hex_escape(b));
        let e = hex_escape(b);
        let hi = b as int / 16;
        let lo = b as int % 16;
        assert(hex_value(hex_digit(hi)) == Some(hi));
        assert(hex_value(hex_digit(lo)) == Some(lo));
        assert(is_hex_escape(e));
        assert(piece_of(e) == seq![b]);
    }
}

proof fn lemma_seed_pieces(m: VocabModel, text: Seq<u8>)
    requires
        m.tokens.len() <= u32::MAX,
        byte_complete(m),
    ensures
        pieces(m, seed(m, text)) == text,
    decreases text.len(),
{
    if text.len() > 0 {
        let t = text.drop_last();
        assert(seed(m, text).drop_last() == seed(m, t));
        lemma_seed_pieces(m, t);
        lemma_seed_piece(m, text.last());
        assert(text == t.push(text.last()));
    } else {
        assert(seed(m, text).len() == 0);
    }
}

proof fn lemma_bpe_pieces(m: VocabModel, ids: Seq<u32>)
    requires
        merge_safe(m),
    ensures
        pieces(m, bpe(m, ids)) == pieces(m, ids),
    decreases ids.len(),
{
    if exists|i: int| best_pair(m, ids, i) {
        let i = choose|i: int| best_pair(m, ids, i);
        lemma_bpe_step(m, ids, i);
        let z = pair_token(m, ids, i).unwrap();
        let merged = merge_at(m, ids, i);
        assert(lookup(m, token_str(m, ids[i]) + token_str(m, ids[i + 1])) == Some(z));
        let a = ids.take(i);
        let c = ids.skip(i + 2);
        assert(ids == a + seq![ids[i], ids[i + 1]] + c);
        assert(merged == a + seq![z] + c);
        lemma_pieces_append(m, a + seq![ids[i], ids[i + 1]], c);
        lemma_pieces_append(m, a, seq![ids[i], ids[i + 1]]);
        lemma_pieces_append(m, a + seq![z], c);
        lemma_pieces_append(m, a, seq![z]);
        assert(seq![ids[i], ids[i + 1]].drop_last() == seq![ids[i]]);
        assert(seq![ids[i]].drop_last() == Seq::<u32>::empty());
        assert(seq![z].drop_last() == Seq::<u32>::empty());
        assert(pieces(m, Seq::<u32>::empty()) == Seq::<u8>::empty());
        assert(pieces(m, seq![ids[i]]) == piece_of(token_str(m, ids[i])));
        assert(pieces(m, seq![ids[i], ids[i + 1]]) == piece_of(token_str(m, ids[i])) + piece_of(token_str(m, ids[i + 1])));
        assert(pieces(m, seq![z]) == piece_of(token_str(m, z)));
        lemma_bpe_pieces(m, merged);
    } else {
        lemma_bpe_done(m, ids);
    }
}

/// Decoding an encoding gives the text back, for a vocabulary with a token for
/// every byte whose merges keep the bytes they join.
pub proof fn lemma_decode_encode(m: VocabModel, text: Seq<u8>)
    requires
        m.tokens.len() <= u32::MAX,
        byte_complete(m),
        merge_safe(m),
    ensures
        pieces(m, encoding(m, text)) == text,
{
    lemma_seed_pieces(m, text);
    lemma_bpe_pieces(m, seed(m, text));
}

/// `decode(encode(s)) == s` for every string `s`, for a vocabulary with a
/// token for every byte whose merges keep the bytes they join.
pub proof fn lemma_text_round_trip(t: &BpeTokenizer, s: &str)
    requires
        t.wf(),
        byte_complete(t.model()),
        merge_safe(t.model()),
    ensures
        valid_utf8(pieces(t.model(), encoding(t.model(), s.spec_bytes()))),
        decode_utf8(pieces(t.model(), encoding(t.model(), s.spec_bytes()))) == s@,
{
    lemma_decode_encode(t.model(), s.spec_bytes());
    encode_utf8_valid_utf8(s@);
    encode_utf8_decode_utf8(s@);
}

/// The strings among array items, in order.
pub open spec fn str_items(items: Seq<GgufValue>) -> Seq<Seq<u8>>
    decreases items.len(),
{
    if items.len() == 0 {
        Seq::empty()
    } else {
        match items.last() {
            GgufValue::Str(s) => str_items(items.drop_last()).push(s@),
            _ => str_items(items.drop_last()),
        }
    }
}

/// The f32 bit patterns among array items, in order.
pub open spec fn f32_items(items: Seq<GgufValue>) -> Seq<u32>
    decreases items.len(),
{
    if items.len() == 0 {
        Seq::empty()
    } else {
        match items.last() {
            GgufValue::F32(b) => f32_items(items.drop_last()).push(b),
            _ => f32_items(items.drop_last()),
        }
    }
}

/// The token strings a file's metadata lists.
pub open spec fn meta_tokens(md: Seq<(Vec<u8>, GgufValue)>) -> Option<Seq<Seq<u8>>> {
    match meta(md, "tokenizer.ggml.tokens".spec_bytes()) {
        Some(GgufValue::Array(_, items)) => Some(str_items(items@)),
        _ => None,
    }
}

/// The merge scores a file's metadata lists (none when absent).
pub open spec fn meta_scores(md: Seq<(Vec<u8>, GgufValue)>) -> Option<Seq<u32>> {
    match meta(md, "tokenizer.ggml.scores".spec_bytes()) {
        Some(GgufValue::Array(_, items)) => Some(f32_items(items@)),
        _ => None,
    }
}

/// A special token id from the metadata, or its default.
pub open spec fn meta_id(md: Seq<(Vec<u8>, GgufValue)>, key: Seq<u8>, default: u32) -> u32 {
    match meta(md, key) {
        Some(v) => match crate::gguf::as_u32(v) {
            Some(x) => x,
            None => default,
        },
        None => default,
    }
}

fn collect_strings(items: &Vec<GgufValue>) -> (r: Vec<Vec<u8>>)
    ensures
        r@.map_values(|v: Vec<u8>| v@) == str_items(items@),
{
    let mut out: Vec<Vec<u8>> = Vec::new();
    let mut i: usize = 0;
    while i < items.len()
        invariant
            i <= items@.len(),
            out@.map_values(|v: Vec<u8>| v@) == str_items(items@.subrange(0, i as int)),
        decreases items@.len() - i,
    {
        let ghost prev = out@;
        match &items[i] {
            GgufValue::Str(s) => {
                out.push(s.clone());
                assert(out@.map_values(|v: Vec<u8>| v@) == prev.map_values(|v: Vec<u8>| v@).push(s@));
            },
            _ => {},
        }
        assert(items@.subrange(0, i + 1).drop_last() == items@.subrange(0, i as int));
        i += 1;
    }
    assert(items@.subrange(0, items@.len() as int) == items@);
    out
}

fn collect_f32_bits(items: &Vec<GgufValue>) -> (r: Vec<u32>)
    ensures
        r@ == f32_items(items@),
{
    let mut out: Vec<u32> = Vec::new();
    let mut i: usize = 0;
    while i < items.len()
        invariant
            i <= items@.len(),
            out@ == f32_items(items@.subrange(0, i as int)),
        decreases items@.len() - i,
    {
        match &items[i] {
            GgufValue::F32(b) => out.push(*b),
            _ => {},
        }
        assert(items@.subrange(0, i + 1).drop_last() == items@.subrange(0, i as int));
        i += 1;
    }
    assert(items@.subrange(0, items@.len() as int) == items@);
    out
}

fn special_id(f: &GgufFile, key: &[u8], default: u32) -> (r: u32)
    ensures
        r == meta_id(f.metadata@, key@, default),
{
    match find_key(&f.metadata, key) {
        Some(v) => match v.as_u32() {
            Some(x) => x,
            None => default,
        },
        None => default,
    }
}

impl BpeTokenizer {
    /// Create a tokenizer from GGUF metadata: tokens from `tokenizer.ggml.tokens`
    /// (its string items), scores from `tokenizer.ggml.scores` (zero when
    /// absent), special ids from `tokenizer.ggml.{bos,eos,padding}_token_id`
    /// (defaults 1, 2, 0). `BadContainer` when no token list is there, or it holds no string.
    pub fn from_gguf(f: &GgufFile) -> (r: Result<BpeTokenizer, BrainError>)
        ensures
            r is Ok <==> (meta_tokens(f.metadata@) matches Some(ts) && 0 < ts.len() <= u32::MAX),
            r matches Err(e) ==> e == BrainError::BadContainer,
            r matches Ok(t) ==> {
                &&& t.wf()
                &&& Some(t.model().tokens) == meta_tokens(f.metadata@)
                &&& t.model().scores == match meta_scores(f.metadata@) {
                    Some(sc) => sc,
                    None => Seq::new(t.model().tokens.len(), |i: int| 0u32),
                }
                &&& t.model().bos == meta_id(f.metadata@, "tokenizer.ggml.bos_token_id".spec_bytes(), 1)
                &&& t.model().eos == meta_id(f.metadata@, "tokenizer.ggml.eos_token_id".spec_bytes(), 2)
                &&& t.model().pad == meta_id(f.metadata@, "tokenizer.ggml.padding_token_id".spec_bytes(), 0)
            },
    {
        let vocab = match find_key(&f.metadata, "tokenizer.ggml.tokens".as_bytes()) {
            Some(GgufValue::Array(_, items)) => collect_strings(items),
            _ => return Err(BrainError::BadContainer),
        };
        if vocab.len() == 0 || vocab.len() > u32::MAX as usize {
            return Err(BrainError::BadContainer);
        }
        let scores = match find_key(&f.metadata, "tokenizer.ggml.scores".as_bytes()) {
            Some(GgufValue::Array(_, items)) => collect_f32_bits(items),
            _ => {
                let mut z: Vec<u32> = Vec::new();
                let mut i: usize = 0;
                while i < vocab.len()
                    invariant
                        i <= vocab@.len(),
                        z@ == Seq::new(i as nat, |k: int| 0u32),
                    decreases vocab@.len() - i,
                {
                    z.push(0);
                    i += 1;
                }
                z
            },
        };
        let bos_id = special_id(f, "tokenizer.ggml.bos_token_id".as_bytes(), 1);
        let eos_id = special_id(f, "tokenizer.ggml.eos_token_id".as_bytes(), 2);
        let pad_id = special_id(f, "tokenizer.ggml.padding_token_id".as_bytes(), 0);
        let index = build_index(&vocab);
        Ok(BpeTokenizer { vocab, index, scores, bos_id, eos_id, pad_id })
    }

    /// Whether byte `b` has a token of its own (its one-byte string or its
    /// `<0xNN>` escape); `encode` stands the padding id for a byte without one.
    pub fn byte_has_token(&self, b: u8) -> (r: bool)
        requires
            self.wf(),
        ensures
            r == (lookup(self.model(), seq![b]) is Some || lookup(self.model(), hex_escape(b)) is Some),
    {
        let one: Vec<u8> = vec![b];
        assert(one@ == seq![b]);
        if self.token_id(one.as_slice()).is_some() {
            return true;
        }
        let esc: Vec<u8> = vec![60u8, 48u8, 120u8, hex_digit_of(b / 16), hex_digit_of(b % 16), 62u8];
        assert(esc@ == hex_escape(b));
        self.token_id(esc.as_slice()).is_some()
    }

    /// A small tokenizer for use without a model: `<pad>`, `<bos>`, `<eos>` and a space.
    pub fn fallback() -> (r: BpeTokenizer)
        ensures
            r.wf(),
            r.model().tokens == seq!["<pad>".spec_bytes(), "<bos>".spec_bytes(), "<eos>".spec_bytes(), " ".spec_bytes()],
            r.model().scores == seq![0u32, 0u32, 0u32, 0u32],
            r.model().bos == 1 && r.model().eos == 2 && r.model().pad == 0,
    {
        let vocab: Vec<Vec<u8>> = vec![
            slice_to_vec("<pad>".as_bytes()),
            slice_to_vec("<bos>".as_bytes()),
            slice_to_vec("<eos>".as_bytes()),
            slice_to_vec(" ".as_bytes()),
        ];
        let index = build_index(&vocab);
        let r = BpeTokenizer { vocab, index, scores: vec![0u32, 0u32, 0u32, 0u32], bos_id: 1, eos_id: 2, pad_id: 0 };
        assert(r.model().tokens =~= seq!["<pad>".spec_bytes(), "<bos>".spec_bytes(), "<eos>".spec_bytes(), " ".spec_bytes()]);
        r
    }
}

} // verus!
