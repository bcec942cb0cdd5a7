//! Key/value cache across attention layers.
//!
//! Two dense arenas of shape `[n_layers × max_seq_len × kv_dim]`, addressed as
//! `key[layer, pos, d] = keys[((layer · max_seq_len) + pos) · kv_dim + d]`, plus
//! the count of positions filled so far. The element type is left open; the
//! engine stores `f32`.
use vstd::prelude::*;
use vstd::slice::slice_subrange;
use crate::error::BrainError;

verus! {

/// KV cache for transformer inference.
pub struct KvCache<T> {
    key_cache: Vec<T>,
    value_cache: Vec<T>,
    n_layers: usize,
    max_seq_len: usize,
    kv_dim: usize,
    pos: usize,
}

/// Start of the vector at `(layer, pos)`.
pub open spec fn slot_offset(max_seq_len: int, kv_dim: int, layer: int, pos: int) -> int {
    (layer * max_seq_len + pos) * kv_dim
}

/// `s` with `v` written at `off`.
pub open spec fn write_at<T>(s: Seq<T>, off: int, v: Seq<T>) -> Seq<T> {
    s.subrange(0, off) + v + s.subrange(off + v.len(), s.len() as int)
}

proof fn lemma_slot_in_range(m: int, d: int, n: int, layer: int, pos: int)
    requires
        0 <= layer < n,
        0 <= pos < m,
        d >= 0,
    ensures
        0 <= slot_offset(m, d, layer, pos),
        slot_offset(m, d, layer, pos) + d <= n * m * d,
{
    assert(0 <= (layer * m + pos) * d) by (nonlinear_arith)
        requires 0 <= layer, 0 <= pos, 0 <= m, d >= 0;
    assert((layer * m + pos) * d + d <= n * m * d) by (nonlinear_arith)
        requires 0 <= layer < n, 0 <= pos < m, d >= 0;
}

impl<T: Copy> KvCache<T> {
    pub closed spec fn spec_keys(&self) -> Seq<T> {
        self.key_cache@
    }

    pub closed spec fn spec_values(&self) -> Seq<T> {
        self.value_cache@
    }

    pub closed spec fn spec_n_layers(&self) -> nat {
        self.n_layers as nat
    }

    pub closed spec fn spec_max_seq_len(&self) -> nat {
        self.max_seq_len as nat
    }

    pub closed spec fn spec_kv_dim(&self) -> nat {
        self.kv_dim as nat
    }

    pub closed spec fn spec_pos(&self) -> nat {
        self.pos as nat
    }

    /// Both arenas have the full shape and the position stays within the context.
    pub open spec fn wf(&self) -> bool {
        &&& self.spec_keys().len() == self.spec_n_layers() * self.spec_max_seq_len() * self.spec_kv_dim()
        &&& self.spec_values().len() == self.spec_keys().len()
        &&& self.spec_pos() <= self.spec_max_seq_len()
    }

    /// Create a cache filled with `zero`.
    pub fn new(n_layers: usize, max_seq_len: usize, n_kv_heads: usize, head_dim: usize, zero: T) -> (r: KvCache<T>)
        requires
            n_kv_heads * head_dim <= usize::MAX,
            n_layers * max_seq_len * (n_kv_heads * head_dim) <= usize::MAX,
        ensures
            r.wf(),
            r.spec_n_layers() == n_layers,
            r.spec_max_seq_len() == max_seq_len,
            r.spec_kv_dim() == n_kv_heads * head_dim,
            r.spec_pos() == 0,
            r.spec_keys() == Seq::new(r.spec_keys().len(), |i: int| zero),
            r.spec_values() == Seq::new(r.spec_keys().len(), |i: int| zero),
    {
        let kv_dim = n_kv_heads * head_dim;
        proof {
            let l = n_layers as int;
            let m = max_seq_len as int;
            assert(l * m <= usize::MAX || kv_dim == 0) by (nonlinear_arith)
                requires l * m * kv_dim <= usize::MAX, kv_dim >= 0, l >= 0, m >= 0;
        }
        let total: usize = if kv_dim == 0 { 0 } else { n_layers * max_seq_len * kv_dim };
        proof {
            assert(n_layers * max_seq_len * kv_dim == 0 || kv_dim != 0) by (nonlinear_arith);
        }
        let mut key_cache: Vec<T> = Vec::new();
        let mut value_cache: Vec<T> = Vec::new();
        let mut i: usize = 0;
        while i < total
            invariant
                i <= total,
                key_cache@ == Seq::new(i as nat, |k: int| zero),
                value_cache@ == Seq::new(i as nat, |k: int| zero),
            decreases total - i,
        {
            key_cache.push(zero);
            value_cache.push(zero);
            i += 1;
        }
        KvCache { key_cache, value_cache, n_layers, max_seq_len, kv_dim, pos: 0 }
    }

    /// Write the key vector of `(layer, pos)`.
    pub fn write_key(&mut self, layer: usize, pos: usize, k: &[T])
        requires
            old(self).wf(),
            layer < old(self).spec_n_layers(),
            pos < old(self).spec_max_seq_len(),
            k@.len() == old(self).spec_kv_dim(),
        ensures
            final(self).wf(),
            final(self).spec_keys() == write_at(old(self).spec_keys(),
                slot_offset(old(self).spec_max_seq_len() as int, old(self).spec_kv_dim() as int, layer as int, pos as int), k@),
            final(self).spec_values() == old(self).spec_values(),
            final(self).spec_n_layers() == old(self).spec_n_layers(),
            final(self).spec_max_seq_len() == old(self).spec_max_seq_len(),
            final(self).spec_kv_dim() == old(self).spec_kv_dim(),
            final(self).spec_pos() == old(self).spec_pos(),
    {
        let off = self.offset(layer, pos);
        write_into(&mut self.key_cache, off, k);
    }

    /// Write the value vector of `(layer, pos)`.
    pub fn write_value(&mut self, layer: usize, pos: usize, v: &[T])
        requires
            old(self).wf(),
            layer < old(self).spec_n_layers(),
            pos < old(self).spec_max_seq_len(),
            v@.len() == old(self).spec_kv_dim(),
        ensures
            final(self).wf(),
            final(self).spec_values() == write_at(old(self).spec_values(),
                slot_offset(old(self).spec_max_seq_len() as int, old(self).spec_kv_dim() as int, layer as int, pos as int), v@),
            final(self).spec_keys() == old(self).spec_keys(),
            final(self).spec_n_layers() == old(self).spec_n_layers(),
            final(self).spec_max_seq_len() == old(self).spec_max_seq_len(),
            final(self).spec_kv_dim() == old(self).spec_kv_dim(),
            final(self).spec_pos() == old(self).spec_pos(),
    {
        let off = self.offset(layer, pos);
        write_into(&mut self.value_cache, off, v);
    }

    fn offset(&self, layer: usize, pos: usize) -> (r: usize)
        requires
            self.wf(),
            layer < self.spec_n_layers(),
            pos < self.spec_max_seq_len(),
        ensures
            r == slot_offset(self.spec_max_seq_len() as int, self.spec_kv_dim() as int, layer as int, pos as int),
            r + self.spec_kv_dim() <= self.spec_keys().len(),
    {
        // The arena length is a usize, which bounds the offsets below.
        let _arena_len = self.key_cache.len();
        proof {
            lemma_slot_in_range(self.max_seq_len as int, self.kv_dim as int, self.n_layers as int, layer as int, pos as int);
            let m = self.max_seq_len as int;
            let l = layer as int;
            assert(l * m + pos <= (l * m + pos) * self.kv_dim || self.kv_dim == 0) by (nonlinear_arith)
                requires l >= 0, m >= 0, pos >= 0, self.kv_dim >= 0;
            assert(l * m <= self.n_layers * m) by (nonlinear_arith)
                requires 0 <= l < self.n_layers, m >= 0;
            assert(self.n_layers * m * self.kv_dim <= usize::MAX);
        }
        if self.kv_dim == 0 {
            proof {
                assert(slot_offset(self.max_seq_len as int, 0, layer as int, pos as int) == 0) by (nonlinear_arith);
            }
            return 0;
        }
        proof {
            let m = self.max_seq_len as int;
            let l = layer as int;
            assert(l * m + pos < self.n_layers * m) by (nonlinear_arith)
                requires 0 <= l < self.n_layers, 0 <= pos < m;
            assert(self.n_layers * m <= self.n_layers * m * self.kv_dim) by (nonlinear_arith)
                requires self.kv_dim >= 1, self.n_layers >= 0, m >= 0;
        }
        (layer * self.max_seq_len + pos) * self.kv_dim
    }

    /// Key vectors of `layer` for positions `[0, seq_len)`.
    pub fn keys(&self, layer: usize, seq_len: usize) -> (r: &[T])
        requires
            self.wf(),
            layer < self.spec_n_layers(),
            seq_len <= self.spec_max_seq_len(),
        ensures
            ({
                let off = slot_offset(self.spec_max_seq_len() as int, self.spec_kv_dim() as int, layer as int, 0);
                r@ == self.spec_keys().subrange(off, off + seq_len * self.spec_kv_dim())
            }),
    {
        let (a, b) = self.prefix_range(layer, seq_len);
        slice_subrange(self.key_cache.as_slice(), a, b)
    }

    /// Value vectors of `layer` for positions `[0, seq_len)`.
    pub fn values(&self, layer: usize, seq_len: usize) -> (r: &[T])
        requires
            self.wf(),
            layer < self.spec_n_layers(),
            seq_len <= self.spec_max_seq_len(),
        ensures
            ({
                let off = slot_offset(self.spec_max_seq_len() as int, self.spec_kv_dim() as int, layer as int, 0);
                r@ == self.spec_values().subrange(off, off + seq_len * self.spec_kv_dim())
            }),
    {
        let (a, b) = self.prefix_range(layer, seq_len);
        slice_subrange(self.value_cache.as_slice(), a, b)
    }

    fn prefix_range(&self, layer: usize, seq_len: usize) -> (r: (usize, usize))
        requires
            self.wf(),
            layer < self.spec_n_layers(),
            seq_len <= self.spec_max_seq_len(),
        ensures
            r.0 == slot_offset(self.spec_max_seq_len() as int, self.spec_kv_dim() as int, layer as int, 0),
            r.1 == r.0 + seq_len * self.spec_kv_dim(),
            r.1 <= self.spec_keys().len(),
    {
        // The arena length is a usize, which bounds the offsets below.
        let _arena_len = self.key_cache.len();
        if self.kv_dim == 0 {
            proof {
                assert(slot_offset(self.max_seq_len as int, 0, layer as int, 0) == 0) by (nonlinear_arith);
                assert(seq_len * 0 == 0);
            }
            return (0, 0);
        }
        let ghost m = self.max_seq_len as int;
        let ghost d = self.kv_dim as int;
        let ghost l = layer as int;
        proof {
            assert((l * m + seq_len) * d <= self.n_layers * m * d) by (nonlinear_arith)
                requires 0 <= l < self.n_layers, 0 <= seq_len <= m, d >= 0;
            assert(0 <= l * m * d) by (nonlinear_arith)
                requires 0 <= l, 0 <= m, d >= 0;
            assert(0 <= seq_len * d) by (nonlinear_arith)
                requires 0 <= seq_len, d >= 0;
            assert((l * m + seq_len) * d == (l * m + 0) * d + seq_len * d) by (nonlinear_arith);
            assert(l * m * d == (l * m + 0) * d) by (nonlinear_arith);
            assert(l * m <= self.n_layers * m) by (nonlinear_arith)
                requires 0 <= l < self.n_layers, m >= 0;
            assert(l * m * d <= self.n_layers * m * d) by (nonlinear_arith)
                requires l * m <= self.n_layers * m, d >= 0;
            assert(l * m <= l * m * d) by (nonlinear_arith)
                requires l * m >= 0, d >= 1;
        }
        let start = layer * self.max_seq_len * self.kv_dim;
        let len = seq_len * self.kv_dim;
        (start, start + len)
    }

    /// Count one more position as filled; `GenerationOverflow` once all
    /// `max_seq_len` positions are.
    pub fn advance(&mut self) -> (r: Result<(), BrainError>)
        requires
            old(self).wf(),
        ensures
            final(self).wf(),
            old(self).spec_pos() < old(self).spec_max_seq_len() ==> r is Ok && final(self).spec_pos() == old(self).spec_pos() + 1,
            old(self).spec_pos() >= old(self).spec_max_seq_len() ==> r == Err::<(), BrainError>(BrainError::GenerationOverflow)
                && final(self).spec_pos() == old(self).spec_pos(),
            final(self).spec_keys() == old(self).spec_keys(),
            final(self).spec_values() == old(self).spec_values(),
            final(self).spec_n_layers() == old(self).spec_n_layers(),
            final(self).spec_max_seq_len() == old(self).spec_max_seq_len(),
            final(self).spec_kv_dim() == old(self).spec_kv_dim(),
    {
        if self.pos >= self.max_seq_len {
            return Err(BrainError::GenerationOverflow);
        }
        self.pos = self.pos + 1;
        Ok(())
    }

    /// Number of positions filled.
    pub fn pos(&self) -> (r: usize)
        ensures
            r == self.spec_pos(),
    {
        self.pos
    }

    /// Number of layers.
    pub fn n_layers(&self) -> (r: usize)
        ensures
            r == self.spec_n_layers(),
    {
        self.n_layers
    }

    /// Number of positions per layer.
    pub fn max_seq_len(&self) -> (r: usize)
        ensures
            r == self.spec_max_seq_len(),
    {
        self.max_seq_len
    }

    /// Length of one key (or value) vector.
    pub fn kv_dim(&self) -> (r: usize)
        ensures
            r == self.spec_kv_dim(),
    {
        self.kv_dim
    }

    /// Number of stored elements in both arenas together.
    pub fn n_entries(&self) -> (r: usize)
        requires
            self.wf(),
            self.spec_keys().len() * 2 <= usize::MAX,
        ensures
            r == self.spec_keys().len() * 2,
    {
        self.key_cache.len() + self.value_cache.len()
    }

    /// Bytes taken by both arenas (saturating at `usize::MAX`).
    pub fn memory_usage(&self) -> (r: usize)
        requires
            self.wf(),
        ensures
            r == if 2 * self.spec_keys().len() * vstd::layout::size_of::<T>() > usize::MAX {
                usize::MAX as int
            } else {
                (2 * self.spec_keys().len() * vstd::layout::size_of::<T>()) as int
            },
    {
        let n = self.key_cache.len() as u128;
        let size = core::mem::size_of::<T>() as u128;
        proof {
            assert(n * size < 0x1_0000_0000_0000_0000u128 * 0x1_0000_0000_0000_0000u128) by (nonlinear_arith)
                requires n < 0x1_0000_0000_0000_0000u128, size < 0x1_0000_0000_0000_0000u128;
            assert(2 * n * size == 2 * (n * size)) by (nonlinear_arith);
        }
        let per_arena = n * size;
        if per_arena > (usize::MAX / 2) as u128 {
            usize::MAX
        } else {
            (2 * per_arena) as usize
        }
    }

    /// Reset the cache: both arenas back to `zero`, no position filled.
    pub fn reset(&mut self, zero: T)
        requires
            old(self).wf(),
        ensures
            final(self).wf(),
            final(self).spec_pos() == 0,
            final(self).spec_keys() == Seq::new(old(self).spec_keys().len(), |i: int| zero),
            final(self).spec_values() == Seq::new(old(self).spec_values().len(), |i: int| zero),
            final(self).spec_n_layers() == old(self).spec_n_layers(),
            final(self).spec_max_seq_len() == old(self).spec_max_seq_len(),
            final(self).spec_kv_dim() == old(self).spec_kv_dim(),
    {
        fill(&mut self.key_cache, zero);
        fill(&mut self.value_cache, zero);
        self.pos = 0;
    }
}

fn fill<T: Copy>(v: &mut Vec<T>, x: T)
    ensures
        final(v)@ == Seq::new(old(v)@.len(), |i: int| x),
{
    let mut i: usize = 0;
    while i < v.len()
        invariant
            i <= v@.len(),
            v@.len() == old(v)@.len(),
            forall|k: int| 0 <= k < i ==> v@[k] == x,
        decreases v@.len() - i,
    {
        v.set(i, x);
        i += 1;
    }
    assert(v@ == Seq::new(old(v)@.len(), |i: int| x));
}

fn write_into<T: Copy>(dst: &mut Vec<T>, off: usize, src: &[T])
    requires
        off + src@.len() <= old(dst)@.len(),
    ensures
        final(dst)@ == write_at(old(dst)@, off as int, src@),
{
    let len = dst.len();
    let mut i: usize = 0;
    while i < src.len()
        invariant
            len == dst@.len(),
            off + src@.len() <= dst@.len(),
            dst@.len() == old(dst)@.len(),
            i <= src@.len(),
            forall|k: int| 0 <= k < off ==> dst@[k] == old(dst)@[k],
            forall|k: int| off + src@.len() <= k < dst@.len() ==> dst@[k] == old(dst)@[k],
            forall|k: int| 0 <= k < i ==> dst@[off + k] == src@[k],
            forall|k: int| off + i <= k < off + src@.len() ==> dst@[k] == old(dst)@[k],
        decreases src@.len() - i,
    {
        dst.set(off + i, src[i]);
        i += 1;
    }
    assert(dst@ =~= write_at(old(dst)@, off as int, src@));
}

} // verus!
