use agent_memory::embed::{CharFrequencyEmbedder, Embedder};
use agent_memory::id_gen::MemoryIdGenerator;
use agent_memory::memory::generation::assemble_entries;
use agent_memory::memory::{Confidence, MemoryDraft, MemoryKind, MetadataEntry};

fn draft(content: &str, importance: u32) -> MemoryDraft {
    MemoryDraft {
        content: content.to_string(),
        kind: MemoryKind::Semantic,
        source_context: "a conversation".to_string(),
        importance,
        confidence: Confidence::Medium,
        metadata: vec![MetadataEntry { key: "topic".to_string(), value: "work".to_string() }],
    }
}

#[test]
fn assemble_attaches_ids_and_timestamps() {
    let mut id_generator = MemoryIdGenerator::new();
    let drafts = vec![draft("first fact", 80), draft("second fact", 20)];
    let entries = assemble_entries(&mut id_generator, drafts, 1234);
    assert_eq!(entries.len(), 2);
    assert_eq!(entries[0].id, "mem-000000001");
    assert_eq!(entries[1].id, "mem-000000002");
    for e in &entries {
        assert_eq!(e.created_at, 1234);
        assert_eq!(e.last_accessed, 1234);
        assert_eq!(e.access_count, 0);
        assert_eq!(e.source_context, "a conversation");
        assert_eq!(e.metadata.len(), 1);
        assert_eq!(e.metadata[0].key, "topic");
    }
    assert_eq!(entries[0].content, "first fact");
    assert_eq!(entries[0].importance, 80);
    assert_eq!(entries[1].content, "second fact");
    assert_eq!(entries[1].importance, 20);
}

#[test]
fn char_frequency_embedder_is_deterministic() {
    let embedder = CharFrequencyEmbedder::new(8);
    let a = embedder.embed_text("hello world").unwrap();
    let b = embedder.embed_text("hello world").unwrap();
    let c = embedder.embed_text("something else").unwrap();
    assert_eq!(a.len(), 8);
    assert_eq!(a, b);
    assert_ne!(a, c);
    // The vector really reflects the input: eleven bytes counted in total.
    let total: i32 = a.iter().map(|x| *x as i32).sum();
    assert_eq!(total, 11);
}
