//! The discrete side of token sampling: greedy choice, top-k candidates, the
//! repeat-penalty window and the final pick.
//!
//! Logits are compared through order keys: `total_order_key(x.to_bits())` is
//! monotone in the IEEE-754 total order of f32 values, so comparing keys is
//! comparing logits. Ties go to the lower token id.
use vstd::prelude::*;

verus! {

/// A position in the IEEE-754 total order of f32 values, from their bits.
pub open spec fn order_of(bits: u32) -> u32 {
    if bits >= 0x8000_0000 {
        (u32::MAX - bits) as u32
    } else {
        (bits + 0x8000_0000) as u32
    }
}

/// The order key of an f32 given by its bits.
pub fn total_order_key(bits: u32) -> (r: u32)
    ensures
        r == order_of(bits),
{
    if bits >= 0x8000_0000 {
        u32::MAX - bits
    } else {
        bits + 0x8000_0000
    }
}

/// Token `a` ranks before token `b`: a higher key, or an equal key and a lower id.
pub open spec fn ranks_before(keys: Seq<u32>, a: int, b: int) -> bool {
    keys[a] > keys[b] || (keys[a] == keys[b] && a < b)
}

/// `i` is the greedy choice: the first position holding the largest key.
pub open spec fn is_argmax(keys: Seq<u32>, i: int) -> bool {
    &&& 0 <= i < keys.len()
    &&& forall|j: int| 0 <= j < keys.len() ==> keys[j] <= keys[i]
    &&& forall|j: int| 0 <= j < i ==> keys[j] < keys[i]
}

/// Return the index of the maximum key (greedy decoding); 0 for no keys.
pub fn argmax(keys: &[u32]) -> (r: u32)
    requires
        keys@.len() <= u32::MAX,
    ensures
        keys@.len() > 0 ==> is_argmax(keys@, r as int),
        keys@.len() == 0 ==> r == 0,
{
    if keys.len() == 0 {
        return 0;
    }
    let mut best: usize = 0;
    let mut i: usize = 1;
    while i < keys.len()
        invariant
            0 < keys@.len() <= u32::MAX,
            1 <= i <= keys@.len(),
            best < i,
            forall|j: int| 0 <= j < i ==> keys@[j] <= keys@[best as int],
            forall|j: int| 0 <= j < best ==> keys@[j] < keys@[best as int],
        decreases keys@.len() - i,
    {
        if keys[i] > keys[best] {
            best = i;
        }
        i += 1;
    }
    best as u32
}

/// The f32 with these bits is at most zero (±0 or negative, not NaN): sampling
/// is then greedy.
pub open spec fn at_most_zero(bits: u32) -> bool {
    bits == 0 || (bits >= 0x8000_0000 && bits - 0x8000_0000 <= 0x7F80_0000)
}

/// The greedy choice when the temperature (given by its bits) is at most zero;
/// `None` when sampling must draw.
pub fn greedy_choice(keys: &[u32], temperature_bits: u32) -> (r: Option<u32>)
    requires
        0 < keys@.len() <= u32::MAX,
    ensures
        at_most_zero(temperature_bits) ==> (r matches Some(i) && is_argmax(keys@, i as int)),
        !at_most_zero(temperature_bits) ==> r is None,
{
    if temperature_bits == 0 || (temperature_bits >= 0x8000_0000 && temperature_bits - 0x8000_0000 <= 0x7F80_0000) {
        Some(argmax(keys))
    } else {
        None
    }
}

/// How many candidates top-k keeps out of `n`: all when `k` is 0 or at least `n`.
pub open spec fn kept(n: int, k: int) -> int {
    if k == 0 || k > n {
        n
    } else {
        k
    }
}

/// `c` lists the `kept(n, k)` best-ranked positions of `keys`, best first.
pub open spec fn is_top_k(keys: Seq<u32>, k: int, c: Seq<usize>) -> bool {
    &&& c.len() == kept(keys.len() as int, k)
    &&& forall|i: int| 0 <= i < c.len() ==> (c[i] as int) < keys.len()
    &&& forall|i: int, j: int| 0 <= i < j < c.len() ==> ranks_before(keys, c[i] as int, c[j] as int)
    &&& forall|x: int, i: int| 0 <= x < keys.len() && !c.contains(x as usize) && 0 <= i < c.len()
        ==> #[trigger] ranks_before(keys, c[i] as int, x)
}

/// `v` lists positions in rank order, best first.
pub open spec fn rank_sorted(keys: Seq<u32>, v: Seq<usize>) -> bool {
    forall|i: int, j: int| 0 <= i < j < v.len() ==> #[trigger] ranks_before(keys, v[i] as int, v[j] as int)
}

fn ranks_first(keys: &[u32], a: usize, b: usize) -> (r: bool)
    requires
        a < keys@.len(),
        b < keys@.len(),
    ensures
        r == ranks_before(keys@, a as int, b as int),
{
    keys[a] > keys[b] || (keys[a] == keys[b] && a < b)
}

proof fn lemma_push_contains(s: Seq<usize>, e: usize, x: usize)
    ensures
        s.push(e).contains(x) <==> (s.contains(x) || x == e),
{
    if s.contains(x) {
        let w = choose|w: int| 0 <= w < s.len() && s[w] == x;
        assert(s.push(e)[w] == x);
    }
    if x == e {
        assert(s.push(e)[s.len() as int] == e);
    }
    if s.push(e).contains(x) && x != e {
        let w = choose|w: int| 0 <= w < s.push(e).len() && s.push(e)[w] == x;
        assert(s[w] == x);
    }
}

/// Merge two rank-sorted, disjoint runs.
fn merge_runs(keys: &[u32], a: &Vec<usize>, b: &Vec<usize>) -> (c: Vec<usize>)
    requires
        rank_sorted(keys@, a@),
        rank_sorted(keys@, b@),
        forall|i: int| 0 <= i < a@.len() ==> (a@[i] as int) < keys@.len(),
        forall|i: int| 0 <= i < b@.len() ==> (b@[i] as int) < keys@.len(),
        forall|i: int, j: int| 0 <= i < a@.len() && 0 <= j < b@.len() ==> a@[i] != b@[j],
    ensures
        rank_sorted(keys@, c@),
        c@.len() == a@.len() + b@.len(),
        forall|i: int| 0 <= i < c@.len() ==> (c@[i] as int) < keys@.len(),
        forall|x: usize| c@.contains(x) <==> (a@.contains(x) || b@.contains(x)),
{
    let mut c: Vec<usize> = Vec::new();
    let mut i: usize = 0;
    let mut j: usize = 0;
    while i < a.len() || j < b.len()
        invariant
            rank_sorted(keys@, a@),
            rank_sorted(keys@, b@),
            forall|k: int| 0 <= k < a@.len() ==> (a@[k] as int) < keys@.len(),
            forall|k: int| 0 <= k < b@.len() ==> (b@[k] as int) < keys@.len(),
            forall|k: int, l: int| 0 <= k < a@.len() && 0 <= l < b@.len() ==> a@[k] != b@[l],
            i <= a@.len(),
            j <= b@.len(),
            c@.len() == i + j,
            rank_sorted(keys@, c@),
            forall|k: int| 0 <= k < c@.len() ==> (c@[k] as int) < keys@.len(),
            forall|k: int, l: int| 0 <= k < c@.len() && i <= l < a@.len() ==> ranks_before(keys@, c@[k] as int, a@[l] as int),
            forall|k: int, l: int| 0 <= k < c@.len() && j <= l < b@.len() ==> ranks_before(keys@, c@[k] as int, b@[l] as int),
            forall|x: usize| c@.contains(x) <==> (a@.subrange(0, i as int).contains(x) || b@.subrange(0, j as int).contains(x)),
        decreases a@.len() + b@.len() - i - j,
    {
        let take_a = j >= b.len() || (i < a.len() && ranks_first(keys, a[i], b[j]));
        let ghost before = c@;
        if take_a {
            let e = a[i];
            proof {
                if j < b@.len() {
                    assert forall|l: int| j <= l < b@.len() implies ranks_before(keys@, e as int, b@[l] as int) by {
                        if l > j {
                            assert(ranks_before(keys@, b@[j as int] as int, b@[l] as int));
                        }
                    }
                }
                assert forall|l: int| i < l < a@.len() implies ranks_before(keys@, e as int, a@[l] as int) by {
                    assert(ranks_before(keys@, a@[i as int] as int, a@[l] as int));
                }
            }
            c.push(e);
            i += 1;
            proof {
                assert(a@.subrange(0, i as int) == a@.subrange(0, i - 1).push(e));
                assert forall|x: usize| c@.contains(x) <==> (a@.subrange(0, i as int).contains(x) || b@.subrange(0, j as int).contains(x)) by {
                    lemma_push_contains(before, e, x);
                    lemma_push_contains(a@.subrange(0, i - 1), e, x);
                }
            }
        } else {
            let e = b[j];
            proof {
                if i < a@.len() {
                    assert(a@[i as int] != b@[j as int]);
                    assert(ranks_before(keys@, e as int, a@[i as int] as int));
                    assert forall|l: int| i <= l < a@.len() implies ranks_before(keys@, e as int, a@[l] as int) by {
                        if l > i {
                            assert(ranks_before(keys@, a@[i as int] as int, a@[l] as int));
                        }
                    }
                }
                assert forall|l: int| j < l < b@.len() implies ranks_before(keys@, e as int, b@[l] as int) by {
                    assert(ranks_before(keys@, b@[j as int] as int, b@[l] as int));
                }
            }
            c.push(e);
            j += 1;
            proof {
                assert(b@.subrange(0, j as int) == b@.subrange(0, j - 1).push(e));
                assert forall|x: usize| c@.contains(x) <==> (a@.subrange(0, i as int).contains(x) || b@.subrange(0, j as int).contains(x)) by {
                    lemma_push_contains(before, e, x);
                    lemma_push_contains(b@.subrange(0, j - 1), e, x);
                }
            }
        }
    }
    assert(a@.subrange(0, a@.len() as int) == a@);
    assert(b@.subrange(0, b@.len() as int) == b@);
    c
}

/// The positions `[lo, hi)` in rank order.
fn sort_range(keys: &[u32], lo: usize, hi: usize) -> (r: Vec<usize>)
    requires
        lo <= hi <= keys@.len(),
    ensures
        rank_sorted(keys@, r@),
        r@.len() == hi - lo,
        forall|i: int| 0 <= i < r@.len() ==> lo <= #[trigger] r@[i] < hi,
        forall|x: usize| r@.contains(x) <==> lo <= x < hi,
    decreases hi - lo,
{
    if hi - lo <= 1 {
        let mut r: Vec<usize> = Vec::new();
        if hi > lo {
            r.push(lo);
            assert(r@[0] == lo);
        }
        return r;
    }
    let mid = lo + (hi - lo) / 2;
    let left = sort_range(keys, lo, mid);
    let right = sort_range(keys, mid, hi);
    let r = merge_runs(keys, &left, &right);
    proof {
        assert forall|i: int| 0 <= i < r@.len() implies lo <= #[trigger] r@[i] < hi by {
            assert(r@.contains(r@[i]));
            if left@.contains(r@[i]) {
                let w = choose|w: int| 0 <= w < left@.len() && left@[w] == r@[i];
            } else {
                let w = choose|w: int| 0 <= w < right@.len() && right@[w] == r@[i];
            }
        }
    }
    r
}

/// The top-k candidates by key, best first: `k = 0` keeps every position.
pub fn top_k(keys: &[u32], k: usize) -> (r: Vec<usize>)
    ensures
        is_top_k(keys@, k as int, r@),
{
    let n = keys.len();
    let m = if k == 0 || k > n { n } else { k };
    let mut all = sort_range(keys, 0, n);
    let ghost full = all@;
    all.truncate(m);
    proof {
        assert(all@ == full.subrange(0, m as int));
        assert forall|x: int, i: int| 0 <= x < keys@.len() && !all@.contains(x as usize) && 0 <= i < all@.len()
            implies #[trigger] ranks_before(keys@, all@[i] as int, x) by {
            assert(full.contains(x as usize));
            let p = choose|p: int| 0 <= p < full.len() && full[p] == x as usize;
            if p < m {
                assert(all@[p] == x as usize);
            }
            assert(ranks_before(keys@, full[i] as int, full[p] as int));
        }
        assert forall|i: int, j: int| 0 <= i < j < all@.len() implies ranks_before(keys@, all@[i] as int, all@[j] as int) by {
            assert(ranks_before(keys@, full[i] as int, full[j] as int));
        }
    }
    all
}

/// First position of the repeat-penalty window over `n_last` recent tokens:
/// the last `repeat_last_n` of them.
pub fn repeat_window_start(n_last: usize, repeat_last_n: usize) -> (r: usize)
    ensures
        r == if repeat_last_n >= n_last { 0 } else { n_last - repeat_last_n },
{
    if repeat_last_n >= n_last {
        0
    } else {
        n_last - repeat_last_n
    }
}

/// The candidate a draw selects: the one at `hit`, or the last when the draw
/// fell past every cumulative probability.
pub open spec fn picked(c: Seq<usize>, hit: Option<usize>) -> usize {
    match hit {
        Some(h) => if h < c.len() { c[h as int] } else { c.last() },
        None => c.last(),
    }
}

/// Pick the drawn candidate as a token id.
pub fn pick(candidates: &[usize], hit: Option<usize>) -> (r: u32)
    requires
        candidates@.len() > 0,
        forall|i: int| 0 <= i < candidates@.len() ==> candidates@[i] <= u32::MAX,
    ensures
        r == picked(candidates@, hit),
{
    let c = match hit {
        Some(h) => if h < candidates.len() { candidates[h] } else { candidates[candidates.len() - 1] },
        None => candidates[candidates.len() - 1],
    };
    c as u32
}

/// Whatever the draw, the sampled id lies in the vocabulary: top-k keeps at
/// least one candidate of a non-empty logit vector, and only real positions.
pub proof fn lemma_sample_in_vocab(keys: Seq<u32>, k: int, c: Seq<usize>, hit: Option<usize>)
    requires
        keys.len() > 0,
        k >= 0,
        is_top_k(keys, k, c),
    ensures
        c.len() > 0,
        (picked(c, hit) as int) < keys.len(),
{
}

/// With `top_k = 1` the only candidate is the greedy choice, so every draw
/// returns the argmax.
pub proof fn lemma_top1_is_argmax(keys: Seq<u32>, c: Seq<usize>, hit: Option<usize>)
    requires
        0 < keys.len() <= usize::MAX,
        is_top_k(keys, 1, c),
    ensures
        c.len() == 1,
        is_argmax(keys, picked(c, hit) as int),
{
    let b = c[0] as int;
    assert forall|j: int| 0 <= j < keys.len() implies keys[j] <= keys[b] by {
        if j != b {
            assert(!c.contains(j as usize)) by {
                if c.contains(j as usize) {
                    let w = choose|w: int| 0 <= w < c.len() && c[w] == j as usize;
                    assert(w == 0);
                }
            }
            assert(ranks_before(keys, c[0] as int, j));
        }
    }
    assert forall|j: int| 0 <= j < b implies keys[j] < keys[b] by {
        assert(!c.contains(j as usize)) by {
            if c.contains(j as usize) {
                let w = choose|w: int| 0 <= w < c.len() && c[w] == j as usize;
                assert(w == 0);
            }
        }
        assert(ranks_before(keys, c[0] as int, j));
    }
}

} // verus!
