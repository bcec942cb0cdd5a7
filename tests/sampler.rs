use bizclaw_brain::error::BrainError;
use bizclaw_brain::generation::{check_prompt, next_step, Step};
use bizclaw_brain::kv_cache::KvCache;
use bizclaw_brain::sampler::{argmax, greedy_choice, pick, repeat_window_start, top_k, total_order_key};

fn keys(v: &[f32]) -> Vec<u32> {
    v.iter().map(|x| total_order_key(x.to_bits())).collect()
}

#[test]
fn order_keys_follow_float_order() {
    let xs = [f32::NEG_INFINITY, -3.5, -1.0, -0.0, 0.0, 1e-30, 2.0, f32::INFINITY];
    let k = keys(&xs);
    for w in k.windows(2) {
        assert!(w[0] < w[1]);
    }
}

#[test]
fn argmax_takes_first_maximum() {
    assert_eq!(argmax(&keys(&[0.1, 3.0, -2.0, 3.0])), 1);
    assert_eq!(argmax(&keys(&[-5.0, -1.0, -7.0])), 1);
    assert_eq!(argmax(&[]), 0);
}

#[test]
fn top_k_orders_and_truncates() {
    let k = keys(&[0.5, 2.0, -1.0, 2.0, 1.0]);
    assert_eq!(top_k(&k, 3), vec![1, 3, 4]);
    assert_eq!(top_k(&k, 0), vec![1, 3, 4, 0, 2]);
    assert_eq!(top_k(&k, 10).len(), 5);
    assert_eq!(top_k(&k, 1), vec![argmax(&k) as usize]);
}

#[test]
fn pick_selects_hit_or_last() {
    let c = vec![4usize, 1, 7];
    assert_eq!(pick(&c, Some(1)), 1);
    assert_eq!(pick(&c, None), 7);
    assert_eq!(pick(&c, Some(9)), 7);
}

#[test]
fn repeat_window() {
    assert_eq!(repeat_window_start(10, 64), 0);
    assert_eq!(repeat_window_start(100, 64), 36);
}

#[test]
fn prompt_longer_than_context_overflows() {
    assert_eq!(check_prompt(10, 8), Err(BrainError::GenerationOverflow));
    assert_eq!(check_prompt(8, 8), Ok(()));
}

#[test]
fn generation_steps() {
    assert_eq!(next_step(2, 2, 0, 20, 3, 8), Step::StopEos);
    assert_eq!(next_step(5, 2, 19, 20, 3, 8), Step::StopMaxTokens);
    assert_eq!(next_step(5, 2, 3, 20, 8, 8), Step::StopContextFull);
    assert_eq!(next_step(5, 2, 3, 20, 4, 8), Step::Continue);
}

#[test]
fn kv_cache_addressing() {
    let mut c: KvCache<f32> = KvCache::new(2, 3, 1, 2, 0.0);
    assert_eq!(c.kv_dim(), 2);
    c.write_key(1, 1, &[1.0, 2.0]);
    c.write_value(1, 0, &[5.0, 6.0]);
    assert_eq!(c.keys(1, 2), &[0.0, 0.0, 1.0, 2.0]);
    assert_eq!(c.values(1, 1), &[5.0, 6.0]);
    assert_eq!(c.keys(0, 3), &[0.0; 6]);
    assert_eq!(c.n_entries(), 24);
    for _ in 0..3 {
        assert_eq!(c.advance(), Ok(()));
    }
    assert_eq!(c.pos(), 3);
    assert_eq!(c.advance(), Err(BrainError::GenerationOverflow));
    c.reset(0.0);
    assert_eq!(c.pos(), 0);
    assert_eq!(c.keys(1, 3), &[0.0; 6]);
}

#[test]
fn kv_cache_memory_usage() {
    let c: KvCache<f32> = KvCache::new(2, 3, 1, 2, 0.0);
    assert_eq!(c.memory_usage(), 2 * 12 * 4);
    assert_eq!(c.n_layers(), 2);
    assert_eq!(c.max_seq_len(), 3);
}

#[test]
fn zero_temperature_is_greedy() {
    let k = keys(&[0.3, 0.9, 0.9, -4.0]);
    for t in [0.0f32, -0.0, -1.0] {
        assert_eq!(greedy_choice(&k, t.to_bits()), Some(1));
    }
    assert_eq!(greedy_choice(&k, 0.7f32.to_bits()), None);
    assert_eq!(greedy_choice(&k, f32::NAN.to_bits()), None);
}

#[test]
fn sampled_ids_stay_in_vocabulary() {
    let k = keys(&[0.1, 0.5, 0.2]);
    for top in 0..5 {
        let c = top_k(&k, top);
        assert!(!c.is_empty());
        for hit in [None, Some(0), Some(7)] {
            assert!((pick(&c, hit) as usize) < k.len());
        }
    }
}
