//! The memory data model: entries, drafts, and their enumerations.
//!
//! Importance is carried as an integer number of hundredths (0 to 100
//! standing for 0.0 to 1.0), and embedding components as fixed-point `i16`
//! values, so that every rule over them is exact.

pub mod cache;
pub mod generation;
pub mod manager;

use vstd::prelude::*;

verus! {

/// The type of memory.
#[derive(Clone, Copy, Debug, PartialEq, Eq, Structural)]
pub enum MemoryKind {
    /// Working memory: what is in the current context window.
    Working,
    /// Past conversations and events.
    Episodic,
    /// Facts and ground truths.
    Semantic,
}

/// A confidence grade for a fact or an observation about conversation
/// history. Can either be low, medium or high.
#[derive(Clone, Copy, Debug, PartialEq, Eq, Structural)]
pub enum Confidence {
    Low,
    Medium,
    High,
}

/// One key/value pair of additional metadata.
#[derive(Debug)]
pub struct MetadataEntry {
    pub key: String,
    pub value: String,
}

impl Clone for MetadataEntry {
    /// Cloning keeps both fields.
    fn clone(&self) -> (r: Self)
        ensures
            r == *self,
    {
        MetadataEntry { key: self.key.clone(), value: self.value.clone() }
    }
}

/// A memory entry: a stored unit of agent memory, such as a fact or a
/// summarized version of a conversation.
#[derive(Debug)]
pub struct MemoryEntry {
    /// The unique, stable memory identifier.
    pub id: String,
    /// The content of the memory.
    pub content: String,
    pub kind: MemoryKind,
    /// How important the memory is, in hundredths: 0 to 100 stands for
    /// 0.0 to 1.0.
    pub importance: u32,
    /// When the memory was created, as a Unix timestamp.
    pub created_at: i64,
    /// When the memory was last accessed, as a Unix timestamp.
    pub last_accessed: i64,
    /// How many times the memory has been accessed.
    pub access_count: u32,
    /// The context in which this memory has been created.
    pub source_context: String,
    pub confidence: Confidence,
    /// Any additional metadata.
    pub metadata: Vec<MetadataEntry>,
}

impl MemoryEntry {
    /// Field-for-field equality; the metadata vectors are compared by their
    /// contents.
    pub open spec fn eqv(self, other: Self) -> bool {
        &&& self.id == other.id
        &&& self.content == other.content
        &&& self.kind == other.kind
        &&& self.importance == other.importance
        &&& self.created_at == other.created_at
        &&& self.last_accessed == other.last_accessed
        &&& self.access_count == other.access_count
        &&& self.source_context == other.source_context
        &&& self.confidence == other.confidence
        &&& self.metadata@ == other.metadata@
    }
}

impl Clone for MemoryEntry {
    /// Cloning keeps every field.
    fn clone(&self) -> (r: Self)
        ensures
            r.eqv(*self),
    {
        MemoryEntry {
            id: self.id.clone(),
            content: self.content.clone(),
            kind: self.kind,
            importance: self.importance,
            created_at: self.created_at,
            last_accessed: self.last_accessed,
            access_count: self.access_count,
            source_context: self.source_context.clone(),
            confidence: self.confidence,
            metadata: clone_metadata(&self.metadata),
        }
    }
}

/// A memory entry draft, as produced by an external extraction pipeline:
/// an entry without an identifier or timestamps, which the id-generation
/// and manager layers attach before storage.
#[derive(Debug)]
pub struct MemoryDraft {
    /// The content of the memory.
    pub content: String,
    pub kind: MemoryKind,
    /// The context in which this memory has been created.
    pub source_context: String,
    /// How important the memory is, in hundredths: 0 to 100 stands for
    /// 0.0 to 1.0.
    pub importance: u32,
    pub confidence: Confidence,
    /// Any additional metadata.
    pub metadata: Vec<MetadataEntry>,
}

impl Clone for MemoryDraft {
    /// Cloning keeps every field.
    fn clone(&self) -> (r: Self)
        ensures
            r.content == self.content,
            r.kind == self.kind,
            r.source_context == self.source_context,
            r.importance == self.importance,
            r.confidence == self.confidence,
            r.metadata@ == self.metadata@,
    {
        MemoryDraft {
            content: self.content.clone(),
            kind: self.kind,
            source_context: self.source_context.clone(),
            importance: self.importance,
            confidence: self.confidence,
            metadata: clone_metadata(&self.metadata),
        }
    }
}

/// Clones a metadata list element by element.
fn clone_metadata(metadata: &Vec<MetadataEntry>) -> (r: Vec<MetadataEntry>)
    ensures
        r@ == metadata@,
{
    let mut out: Vec<MetadataEntry> = Vec::new();
    let mut i: usize = 0;
    while i < metadata.len()
        invariant
            i <= metadata.len(),
            out@ == metadata@.take(i as int),
        decreases metadata.len() - i,
    {
        out.push(metadata[i].clone());
        i = i + 1;
        proof {
            assert(out@ =~= metadata@.take(i as int));
        }
    }
    proof {
        assert(metadata@.take(metadata@.len() as int) =~= metadata@);
    }
    out
}

} // verus!
