use agent_memory::embed::CharFrequencyEmbedder;
use agent_memory::error::{BuildError, Error, StorageError};
use agent_memory::memory::manager::{MemoryConfig, MemoryManager};
use agent_memory::memory::{Confidence, MemoryEntry, MemoryKind};
use agent_memory::storage::Storage;
use agent_memory::vector_store::InMemoryDB;

fn entry(id: &str, importance: u32, access_count: u32) -> MemoryEntry {
    MemoryEntry {
        id: id.to_string(),
        content: format!("content of {id}"),
        kind: MemoryKind::Working,
        importance,
        created_at: 100,
        last_accessed: 100,
        access_count,
        source_context: "test".to_string(),
        confidence: Confidence::Low,
        metadata: Vec::new(),
    }
}

#[test]
fn builder_reports_each_missing_dependency() {
    let r = MemoryManager::builder().build();
    assert!(matches!(r, Err(Error::Build(BuildError::StorageNotFound))));
    let r = MemoryManager::builder().storage(InMemoryDB::new(4)).build();
    assert!(matches!(r, Err(Error::Build(BuildError::EmbedderNotFound))));
    let r = MemoryManager::builder()
        .storage(InMemoryDB::new(4))
        .embedder(CharFrequencyEmbedder::new(4))
        .build();
    assert!(r.is_ok());
}

#[test]
fn store_writes_durably_and_caches_qualifying_entries() {
    let mut mgr = MemoryManager::builder()
        .storage(InMemoryDB::new(4))
        .embedder(CharFrequencyEmbedder::new(4))
        .hot_cache(InMemoryDB::new(4))
        .build()
        .unwrap();
    // Importance above the threshold: cached.
    mgr.store("an important fact", entry("hot", 90, 0)).unwrap();
    // Importance at the floor, never accessed: not cached.
    mgr.store("a minor note", entry("cold", 10, 0)).unwrap();
    let cache = mgr.hot_cache().as_ref().unwrap();
    assert!(cache.store_ref().search_by_id("hot".to_string()).is_ok());
    assert!(cache.store_ref().search_by_id("cold".to_string()).is_err());
    assert_eq!(cache.store_ref().count().unwrap(), 1);
}

#[test]
fn cache_miss_falls_through_to_durable_storage() {
    let mut mgr = MemoryManager::builder()
        .storage(InMemoryDB::new(4))
        .embedder(CharFrequencyEmbedder::new(4))
        .hot_cache(InMemoryDB::new(4))
        .build()
        .unwrap();
    mgr.store("alpha", entry("a", 10, 0)).unwrap();
    mgr.store("beta", entry("b", 10, 0)).unwrap();
    let results = mgr.retrieve("alpha", 3).unwrap();
    assert_eq!(results.len(), 2);
    let cache = mgr.hot_cache().as_ref().unwrap();
    assert_eq!(cache.stats().misses(), 1);
    assert_eq!(cache.stats().hits(), 0);
}

#[test]
fn cache_hit_is_recorded() {
    let mut mgr = MemoryManager::builder()
        .storage(InMemoryDB::new(4))
        .embedder(CharFrequencyEmbedder::new(4))
        .hot_cache(InMemoryDB::new(4))
        .build()
        .unwrap();
    mgr.store("alpha", entry("a", 90, 0)).unwrap();
    let results = mgr.retrieve("alpha", 3).unwrap();
    assert!(!results.is_empty());
    let cache = mgr.hot_cache().as_ref().unwrap();
    assert_eq!(cache.stats().hits(), 1);
    assert_eq!(cache.stats().misses(), 0);
}

#[test]
fn retrieve_without_cache_uses_storage_alone() {
    let mut mgr = MemoryManager::builder()
        .storage(InMemoryDB::new(4))
        .embedder(CharFrequencyEmbedder::new(4))
        .build()
        .unwrap();
    mgr.store("alpha", entry("a", 90, 0)).unwrap();
    mgr.store("beta", entry("b", 90, 0)).unwrap();
    let results = mgr.retrieve("alpha", 1).unwrap();
    assert_eq!(results.len(), 1);
    assert!(mgr.hot_cache().is_none());
}

#[test]
fn update_memory_access_promotes_cached_payload() {
    let mut mgr = MemoryManager::builder()
        .storage(InMemoryDB::new(4))
        .embedder(CharFrequencyEmbedder::new(4))
        .hot_cache(InMemoryDB::new(4))
        .build()
        .unwrap();
    mgr.store("alpha", entry("a", 90, 5)).unwrap();
    mgr.update_memory_access(entry("a", 90, 5)).unwrap();
    let cache = mgr.hot_cache().as_ref().unwrap();
    let (_, ent) = cache.store_ref().search_by_id("a".to_string()).unwrap();
    assert_eq!(ent.access_count, 6);
    assert!(ent.last_accessed >= 100);
}

#[test]
fn update_memory_access_of_uncached_entry_fails() {
    let mut mgr = MemoryManager::builder()
        .storage(InMemoryDB::new(4))
        .embedder(CharFrequencyEmbedder::new(4))
        .hot_cache(InMemoryDB::new(4))
        .build()
        .unwrap();
    let r = mgr.update_memory_access(entry("ghost", 90, 0));
    assert!(matches!(r, Err(Error::Storage(StorageError::EmbeddingNotExists(_)))));
}

#[test]
fn config_default_policy_thresholds() {
    let cfg = MemoryConfig::new();
    assert!(cfg.should_cache(&entry("x", 51, 0)));
    assert!(!cfg.should_cache(&entry("x", 50, 0)));
    assert!(cfg.should_cache(&entry("x", 0, 1)));
    assert!(cfg.should_retain_in_cache(&entry("x", 61, 2)));
    assert!(!cfg.should_retain_in_cache(&entry("x", 61, 1)));
    assert!(!cfg.should_retain_in_cache(&entry("x", 60, 2)));
    assert_eq!(cfg.eviction_batch_size, 1);
}

#[test]
fn qualifying_stores_accumulate_under_capacity() {
    // The builder's cache has a soft capacity of 500, so a handful of
    // qualifying stores all land in the hot tier without eviction.
    let mut mgr = MemoryManager::builder()
        .storage(InMemoryDB::new(4))
        .embedder(CharFrequencyEmbedder::new(4))
        .hot_cache(InMemoryDB::new(4))
        .build()
        .unwrap();
    mgr.store("alpha", entry("a", 90, 0)).unwrap();
    mgr.store("beta", entry("b", 90, 0)).unwrap();
    mgr.store("gamma", entry("c", 90, 0)).unwrap();
    let cache = mgr.hot_cache().as_ref().unwrap();
    assert_eq!(cache.memory_limit(), 500);
    assert_eq!(cache.store_ref().count().unwrap(), 3);
}
