use chatloop::error::ChatLoopError;
use chatloop::kv_cache::KVCache;

#[test]
fn kv_cache_appends_advance_position() {
    let mut cache: KVCache<f32> = KVCache::new(2, 2, 2, 3);
    assert_eq!(cache.seq_len(), 0);
    cache.append(0, &[0.1; 4], &[0.2; 4]).unwrap();
    assert_eq!(cache.seq_len(), 0);
    assert_eq!(cache.get_keys(0, 0), Some(&[0.1f32; 4][..]));
    assert!(cache.get_keys(1, 0).is_none());
    cache.append(1, &[1.0; 4], &[2.0; 4]).unwrap();
    assert_eq!(cache.seq_len(), 1);
    assert_eq!(cache.get_values(1, 0), Some(&[2.0f32; 4][..]));
}

#[test]
fn kv_cache_positions_strictly_increase() {
    let mut cache: KVCache<i32> = KVCache::new(1, 1, 2, 4);
    for p in 0..3 {
        cache.append(0, &[p, p], &[-p, -p]).unwrap();
        assert_eq!(cache.seq_len(), (p + 1) as usize);
    }
    for p in 0..3 {
        assert_eq!(cache.get_keys(0, p as usize), Some(&[p, p][..]));
    }
    assert!(cache.get_keys(0, 3).is_none());
}

#[test]
fn kv_cache_errors() {
    let mut cache: KVCache<i32> = KVCache::new(2, 1, 2, 1);
    assert!(matches!(cache.append(2, &[1, 1], &[1, 1]), Err(ChatLoopError::Tensor(_))));
    assert!(matches!(cache.append(0, &[1], &[1, 1]), Err(ChatLoopError::Tensor(_))));
    assert!(matches!(cache.append(0, &[1, 1], &[1, 1, 1]), Err(ChatLoopError::Tensor(_))));
    cache.append(0, &[1, 1], &[1, 1]).unwrap();
    assert!(matches!(cache.append(0, &[1, 1], &[1, 1]), Err(ChatLoopError::Tensor(_))));
    assert_eq!(cache.seq_len(), 0);
    cache.append(1, &[1, 1], &[1, 1]).unwrap();
    assert_eq!(cache.seq_len(), 1);
    assert!(matches!(cache.append(1, &[2, 2], &[2, 2]), Err(ChatLoopError::Tensor(_))));
}

#[test]
fn kv_cache_layers_fill_independently() {
    let mut cache: KVCache<i32> = KVCache::new(2, 1, 1, 4);
    for p in 0..3 {
        cache.append(0, &[p], &[p]).unwrap();
    }
    assert_eq!(cache.seq_len(), 0);
    assert_eq!(cache.get_keys(0, 2), Some(&[2][..]));
    cache.append(1, &[10], &[10]).unwrap();
    cache.append(1, &[11], &[11]).unwrap();
    assert_eq!(cache.seq_len(), 2);
}

#[test]
fn kv_cache_reset_and_resize() {
    let mut cache: KVCache<i32> = KVCache::new(1, 1, 1, 1);
    cache.append(0, &[7], &[8]).unwrap();
    cache.reset();
    assert_eq!(cache.seq_len(), 0);
    assert!(cache.get_keys(0, 0).is_none());
    cache.resize(3);
    assert_eq!(cache.max_len(), 3);
    for v in 0..3 {
        cache.append(0, &[v], &[v]).unwrap();
    }
    assert_eq!(cache.seq_len(), 3);
}
