use agent_memory::error::{Error, StorageError};
use agent_memory::memory::{Confidence, MemoryEntry, MemoryKind, MetadataEntry};
use agent_memory::storage::Storage;
use agent_memory::vector_store::InMemoryDB;

fn entry(id: &str, created_at: i64) -> MemoryEntry {
    MemoryEntry {
        id: id.to_string(),
        content: format!("content of {id}"),
        kind: MemoryKind::Semantic,
        importance: 50,
        created_at,
        last_accessed: created_at,
        access_count: 0,
        source_context: "test".to_string(),
        confidence: Confidence::Medium,
        metadata: vec![MetadataEntry { key: "k".to_string(), value: "v".to_string() }],
    }
}

#[test]
fn dimension_mismatch_is_rejected_and_count_unchanged() {
    let mut db = InMemoryDB::new(3);
    let r = db.insert(vec![1, 2], entry("a", 10));
    match r {
        Err(Error::Storage(StorageError::MismatchedDimensions(want, got))) => {
            assert_eq!(want, 3);
            assert_eq!(got, 2);
        },
        _ => panic!("expected a dimension mismatch"),
    }
    assert_eq!(db.count().unwrap(), 0);
    let r = db.insert(vec![1, 2, 3, 4], entry("a", 10));
    assert!(r.is_err());
    assert_eq!(db.count().unwrap(), 0);
}

#[test]
fn slot_reuse_keeps_buffer_size() {
    let mut db = InMemoryDB::new(2);
    db.insert(vec![1, 2], entry("a", 1)).unwrap();
    db.insert(vec![3, 4], entry("b", 2)).unwrap();
    db.insert(vec![5, 6], entry("c", 3)).unwrap();
    assert_eq!(db.embedding_buffer_len(), 6);
    db.delete("b".to_string()).unwrap();
    assert_eq!(db.embedding_buffer_len(), 6);
    db.insert(vec![7, 8], entry("d", 4)).unwrap();
    assert_eq!(db.embedding_buffer_len(), 6);
    assert_eq!(db.count().unwrap(), 3);
}

#[test]
fn insert_then_search_by_id_round_trips() {
    let mut db = InMemoryDB::new(4);
    let e = vec![7, -3, 0, 32767];
    let ent = entry("roundtrip", 99);
    db.insert(e.clone(), ent.clone()).unwrap();
    let (got_e, got_ent) = db.search_by_id("roundtrip".to_string()).unwrap();
    assert_eq!(got_e, e);
    assert_eq!(got_ent.id, ent.id);
    assert_eq!(got_ent.content, ent.content);
    assert!(matches!(got_ent.kind, MemoryKind::Semantic));
    assert_eq!(got_ent.importance, ent.importance);
    assert_eq!(got_ent.created_at, ent.created_at);
    assert_eq!(got_ent.last_accessed, ent.last_accessed);
    assert_eq!(got_ent.access_count, ent.access_count);
    assert_eq!(got_ent.source_context, ent.source_context);
    assert!(matches!(got_ent.confidence, Confidence::Medium));
    assert_eq!(got_ent.metadata.len(), 1);
    assert_eq!(got_ent.metadata[0].key, "k");
    assert_eq!(got_ent.metadata[0].value, "v");
}

#[test]
fn search_by_id_absent_is_not_found() {
    let db = InMemoryDB::new(2);
    match db.search_by_id("nope".to_string()) {
        Err(Error::Storage(StorageError::EmbeddingNotExists(id))) => assert_eq!(id, "nope"),
        _ => panic!("expected EmbeddingNotExists"),
    }
}

#[test]
fn search_ranks_by_cosine_similarity() {
    let mut db = InMemoryDB::new(2);
    // Against the query (10, 0): a is parallel, b at 45 degrees, c
    // orthogonal.
    db.insert(vec![0, 10], entry("c", 1)).unwrap();
    db.insert(vec![10, 10], entry("b", 2)).unwrap();
    db.insert(vec![10, 0], entry("a", 3)).unwrap();
    let results = db.search(vec![10, 0], 2).unwrap();
    assert_eq!(results.len(), 2);
    assert_eq!(results[0].1.id, "a");
    assert_eq!(results[1].1.id, "b");
    assert_eq!(results[0].0, vec![10, 0]);
    assert_eq!(results[1].0, vec![10, 10]);
}

#[test]
fn search_with_zero_limit_or_empty_store() {
    let mut db = InMemoryDB::new(2);
    assert!(db.search(vec![1, 1], 5).unwrap().is_empty());
    db.insert(vec![1, 1], entry("a", 1)).unwrap();
    assert!(db.search(vec![1, 1], 0).unwrap().is_empty());
    let all = db.search(vec![1, 1], 10).unwrap();
    assert_eq!(all.len(), 1);
}

#[test]
fn search_rejects_mismatched_query() {
    let mut db = InMemoryDB::new(2);
    db.insert(vec![1, 1], entry("a", 1)).unwrap();
    assert!(matches!(
        db.search(vec![1, 1, 1], 1),
        Err(Error::Storage(StorageError::MismatchedDimensions(2, 3)))
    ));
}

#[test]
fn reinsert_replaces_in_place() {
    let mut db = InMemoryDB::new(2);
    db.insert(vec![1, 2], entry("a", 1)).unwrap();
    let mut changed = entry("a", 1);
    changed.content = "new content".to_string();
    db.insert(vec![9, 9], changed).unwrap();
    assert_eq!(db.count().unwrap(), 1);
    assert_eq!(db.embedding_buffer_len(), 2);
    let (e, ent) = db.search_by_id("a".to_string()).unwrap();
    assert_eq!(e, vec![9, 9]);
    assert_eq!(ent.content, "new content");
}

#[test]
fn delete_then_delete_again() {
    let mut db = InMemoryDB::new(2);
    db.insert(vec![1, 2], entry("a", 1)).unwrap();
    db.insert(vec![3, 4], entry("b", 2)).unwrap();
    assert!(db.delete("a".to_string()).is_ok());
    let after_first = db.count().unwrap();
    match db.delete("a".to_string()) {
        Err(Error::Storage(StorageError::EmbeddingNotExists(id))) => assert_eq!(id, "a"),
        _ => panic!("expected EmbeddingNotExists"),
    }
    assert_eq!(db.count().unwrap(), after_first);
    assert_eq!(after_first, 1);
}

#[test]
fn delete_batch_removes_all() {
    let mut db = InMemoryDB::new(2);
    db.insert(vec![1, 2], entry("a", 1)).unwrap();
    db.insert(vec![3, 4], entry("b", 2)).unwrap();
    db.insert(vec![5, 6], entry("c", 3)).unwrap();
    db.delete_batch(vec!["a".to_string(), "c".to_string()]).unwrap();
    assert_eq!(db.count().unwrap(), 1);
    assert!(db.search_by_id("b".to_string()).is_ok());
    assert!(db.search_by_id("a".to_string()).is_err());
    assert!(db.search_by_id("c".to_string()).is_err());
}

#[test]
fn delete_batch_short_circuits_and_keeps_prior_deletions() {
    let mut db = InMemoryDB::new(2);
    db.insert(vec![1, 2], entry("a", 1)).unwrap();
    db.insert(vec![3, 4], entry("b", 2)).unwrap();
    let r = db.delete_batch(vec!["a".to_string(), "missing".to_string(), "b".to_string()]);
    assert!(matches!(r, Err(Error::Storage(StorageError::EmbeddingNotExists(_)))));
    // "a" went through before the failure; "b" was never reached.
    assert!(db.search_by_id("a".to_string()).is_err());
    assert!(db.search_by_id("b".to_string()).is_ok());
}

#[test]
fn delete_batch_rejects_duplicates() {
    let mut db = InMemoryDB::new(2);
    db.insert(vec![1, 2], entry("a", 1)).unwrap();
    let r = db.delete_batch(vec!["a".to_string(), "a".to_string()]);
    assert!(r.is_err());
    assert_eq!(db.count().unwrap(), 0);
}

#[test]
fn update_payload_keeps_embedding() {
    let mut db = InMemoryDB::new(2);
    db.insert(vec![1, 2], entry("a", 1)).unwrap();
    let mut changed = entry("a", 1);
    changed.importance = 99;
    db.update_payload_by_id("a".to_string(), changed).unwrap();
    let (e, ent) = db.search_by_id("a".to_string()).unwrap();
    assert_eq!(e, vec![1, 2]);
    assert_eq!(ent.importance, 99);
}

#[test]
fn update_payload_absent_is_not_found_not_an_insert() {
    let mut db = InMemoryDB::new(2);
    let r = db.update_payload_by_id("ghost".to_string(), entry("ghost", 1));
    assert!(matches!(r, Err(Error::Storage(StorageError::EmbeddingNotExists(_)))));
    assert_eq!(db.count().unwrap(), 0);
}

#[test]
fn get_oldest_and_get_recent_order_by_creation() {
    let mut db = InMemoryDB::new(2);
    db.insert(vec![1, 0], entry("mid", 20)).unwrap();
    db.insert(vec![0, 1], entry("old", 10)).unwrap();
    db.insert(vec![1, 1], entry("new", 30)).unwrap();
    let oldest = db.get_oldest(2).unwrap();
    assert_eq!(oldest.len(), 2);
    assert_eq!(oldest[0].1.id, "old");
    assert_eq!(oldest[1].1.id, "mid");
    let recent = db.get_recent(2).unwrap();
    assert_eq!(recent.len(), 2);
    assert_eq!(recent[0].1.id, "new");
    assert_eq!(recent[1].1.id, "mid");
    let all = db.get_oldest(10).unwrap();
    assert_eq!(all.len(), 3);
}
