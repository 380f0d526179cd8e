use agent_memory::memory::cache::{eviction_score, CacheStats, MemoryCache, MemoryCacheBuilder};
use agent_memory::memory::{Confidence, MemoryEntry, MemoryKind};
use agent_memory::storage::Storage;
use agent_memory::vector_store::InMemoryDB;

fn entry(id: &str, importance: u32, access_count: u32, last_accessed: i64) -> MemoryEntry {
    MemoryEntry {
        id: id.to_string(),
        content: format!("content of {id}"),
        kind: MemoryKind::Episodic,
        importance,
        created_at: last_accessed,
        last_accessed,
        access_count,
        source_context: "test".to_string(),
        confidence: Confidence::High,
        metadata: Vec::new(),
    }
}

#[test]
fn eviction_score_formula_is_exact() {
    let now = 1000;
    let e1 = entry("1", 90, 5, 900);
    let e2 = entry("2", 10, 0, 900);
    assert_eq!(eviction_score(&e1, now), 5 * 1000 + 90 * 100 - 100);
    assert_eq!(eviction_score(&e2, now), 0 + 10 * 100 - 100);
    assert!(eviction_score(&e2, now) < eviction_score(&e1, now));
}

#[test]
fn eviction_removes_the_lowest_scoring_entry() {
    let mut db = InMemoryDB::new(2);
    db.insert(vec![1, 0], entry("1", 90, 5, 900)).unwrap();
    db.insert(vec![0, 1], entry("2", 10, 0, 900)).unwrap();
    let mut cache = MemoryCache::new(db);
    cache.evict_from_cache(1).unwrap();
    // With both entries last accessed together, entry "2" scores far lower
    // and must go first.
    assert_eq!(cache.store_ref().count().unwrap(), 1);
    assert!(cache.store_ref().search_by_id("1".to_string()).is_ok());
    assert!(cache.store_ref().search_by_id("2".to_string()).is_err());
}

#[test]
fn eviction_never_removes_more_than_requested() {
    let mut db = InMemoryDB::new(2);
    db.insert(vec![1, 0], entry("1", 90, 5, 900)).unwrap();
    db.insert(vec![0, 1], entry("2", 10, 0, 900)).unwrap();
    db.insert(vec![1, 1], entry("3", 50, 1, 900)).unwrap();
    let mut cache = MemoryCache::new(db);
    cache.evict_from_cache(1).unwrap();
    assert_eq!(cache.store_ref().count().unwrap(), 2);
    cache.evict_from_cache(1).unwrap();
    assert_eq!(cache.store_ref().count().unwrap(), 1);
}

#[test]
fn eviction_with_excess_count_empties_the_store() {
    let mut db = InMemoryDB::new(2);
    db.insert(vec![1, 0], entry("1", 90, 5, 900)).unwrap();
    db.insert(vec![0, 1], entry("2", 10, 0, 900)).unwrap();
    let mut cache = MemoryCache::new(db);
    cache.evict_from_cache(10).unwrap();
    assert_eq!(cache.store_ref().count().unwrap(), 0);
}

#[test]
fn cache_stats_count_and_reset() {
    let mut stats = CacheStats::new();
    assert_eq!(stats.hits(), 0);
    assert_eq!(stats.misses(), 0);
    stats.add_hit();
    stats.add_hit();
    stats.add_miss();
    assert_eq!(stats.hits(), 2);
    assert_eq!(stats.misses(), 1);
    stats.reset();
    assert_eq!(stats.hits(), 0);
    assert_eq!(stats.misses(), 0);
}

#[test]
fn cache_new_has_default_limit() {
    let cache = MemoryCache::new(InMemoryDB::new(2));
    assert_eq!(cache.memory_limit(), 500);
    assert_eq!(cache.stats().hits(), 0);
    assert_eq!(cache.stats().misses(), 0);
}

#[test]
fn cache_builder_requires_a_store() {
    assert!(MemoryCacheBuilder::new().build().is_err());
    let cache = MemoryCache::builder()
        .store(InMemoryDB::new(2))
        .max_memory_limit(7)
        .build()
        .unwrap();
    assert_eq!(cache.memory_limit(), 7);
}
