use titanf::cache::Cache;
use titanf::fastmap::FastMap;
use titanf::render::Metrics;

fn metrics(w: usize) -> Metrics {
    Metrics { width: w, height: w + 1, left_side_bearing: -1, advance_width: 7, base_line: -3 }
}

#[test]
fn fastmap_insert_get_replace() {
    let mut m: FastMap<u32> = FastMap::new();
    assert_eq!(m.len(), 0);
    assert!(m.get(5).is_none());
    m.insert(5, 50);
    m.insert(6, 60);
    assert_eq!(m.get(5), Some(&50));
    assert_eq!(m.get(6), Some(&60));
    assert_eq!(m.len(), 2);
    m.insert(5, 55);
    assert_eq!(m.get(5), Some(&55));
    assert_eq!(m.len(), 2);
}

#[test]
fn fastmap_grows_and_keeps_everything() {
    let mut m: FastMap<u64> = FastMap::new();
    for k in 0..5000u64 {
        m.insert(k * 7919, k);
    }
    assert_eq!(m.len(), 5000);
    for k in 0..5000u64 {
        assert_eq!(m.get(k * 7919), Some(&k));
    }
    assert!(m.get(1).is_none());
}

#[test]
fn fastmap_clear_empties() {
    let mut m: FastMap<u8> = FastMap::new();
    for k in 0..100u64 {
        m.insert(k, 1);
    }
    m.clear();
    assert_eq!(m.len(), 0);
    assert!(m.get(3).is_none());
    m.insert(3, 9);
    assert_eq!(m.get(3), Some(&9));
}

#[test]
fn cache_read_after_write() {
    let mut c = Cache::new();
    assert!(c.is_empty());
    let bits = 16.2f32.to_bits();
    c.set(65, bits, metrics(3), vec![1, 2, 3]);
    let (m, d) = c.get(65, bits).unwrap();
    assert_eq!(m.width, 3);
    assert_eq!(m.height, 4);
    assert_eq!(d, &vec![1, 2, 3]);
    assert_eq!(c.len(), 1);
}

#[test]
fn cache_distinguishes_sizes_and_glyphs() {
    let mut c = Cache::new();
    c.set(65, 16.2f32.to_bits(), metrics(1), vec![1]);
    c.set(65, 17.0f32.to_bits(), metrics(2), vec![2]);
    c.set(66, 16.2f32.to_bits(), metrics(3), vec![3]);
    assert_eq!(c.len(), 3);
    assert_eq!(c.get(65, 16.2f32.to_bits()).unwrap().1, vec![1]);
    assert_eq!(c.get(65, 17.0f32.to_bits()).unwrap().1, vec![2]);
    assert_eq!(c.get(66, 16.2f32.to_bits()).unwrap().1, vec![3]);
    assert!(c.get(66, 17.0f32.to_bits()).is_none());
}

#[test]
fn cache_flush_forgets() {
    let mut c = Cache::default();
    c.set(1, 2, metrics(1), vec![9]);
    c.flush();
    assert!(c.is_empty());
    assert!(c.get(1, 2).is_none());
}

#[test]
fn full_cache_is_flushed_before_insert() {
    let mut c = Cache::new();
    for id in 0..4096u32 {
        c.set(id, 0, metrics(0), Vec::new());
    }
    assert_eq!(c.len(), 4096);
    c.set(5000, 0, metrics(0), vec![4]);
    assert_eq!(c.len(), 1);
    assert!(c.get(0, 0).is_none());
    assert_eq!(c.get(5000, 0).unwrap().1, vec![4]);
}

#[test]
fn reserved_key_is_never_cached() {
    let mut c = Cache::new();
    c.set(u32::MAX, u32::MAX, metrics(0), vec![1]);
    assert!(c.is_empty());
    assert!(c.get(u32::MAX, u32::MAX).is_none());
}

#[test]
fn cache_counts_distinct_keys() {
    let mut c = Cache::new();
    let sets = [(1u32, 10u32), (2, 10), (1, 10), (1, 11), (2, 10), (3, 12)];
    for (i, (id, bits)) in sets.iter().enumerate() {
        c.set(*id, *bits, metrics(i), vec![i as u8]);
    }
    assert_eq!(c.len(), 4);
    assert_eq!(c.get(1, 10).unwrap().1, vec![2]);
    assert_eq!(c.get(2, 10).unwrap().1, vec![4]);
    c.flush();
    c.set(7, 7, metrics(0), Vec::new());
    c.set(7, 7, metrics(1), Vec::new());
    assert_eq!(c.len(), 1);
}
