//! Turning memory drafts into storable entries.
//!
//! An external extraction pipeline produces [`MemoryDraft`]s: entries
//! without identifiers or timestamps. This module attaches both, using any
//! identifier-generation strategy; running the pipeline itself is I/O and
//! stays outside the library.

use vstd::prelude::*;

use crate::id_gen::IdGenerationStrategy;
use crate::memory::{MemoryDraft, MemoryEntry};

verus! {

/// Turns drafts into full entries created at `created_at`: every field of
/// each draft is kept, a fresh identifier is attached, the creation and
/// last-access times are both set to `created_at`, and the access count
/// starts at zero.
pub fn assemble_entries<G: IdGenerationStrategy>(
    id_generator: &mut G,
    drafts: Vec<MemoryDraft>,
    created_at: i64,
) -> (r: Vec<MemoryEntry>)
    requires
        old(id_generator).ids_left() >= drafts@.len(),
    ensures
        r@.len() == drafts@.len(),
        forall|k: int|
            0 <= k < r@.len() ==> {
                let e = #[trigger] r@[k];
                &&& e.content == drafts@[k].content
                &&& e.kind == drafts@[k].kind
                &&& e.importance == drafts@[k].importance
                &&& e.source_context == drafts@[k].source_context
                &&& e.confidence == drafts@[k].confidence
                &&& e.metadata@ == drafts@[k].metadata@
                &&& e.created_at == created_at
                &&& e.last_accessed == created_at
                &&& e.access_count == 0
            },
{
    let ghost dv = drafts@;
    let mut src = drafts;
    let mut out: Vec<MemoryEntry> = Vec::new();
    while src.len() > 0
        invariant
            out@.len() + src@.len() == dv.len(),
            src@ == dv.skip(out@.len() as int),
            id_generator.ids_left() >= src@.len(),
            forall|k: int|
                0 <= k < out@.len() ==> {
                    let e = #[trigger] out@[k];
                    &&& e.content == dv[k].content
                    &&& e.kind == dv[k].kind
                    &&& e.importance == dv[k].importance
                    &&& e.source_context == dv[k].source_context
                    &&& e.confidence == dv[k].confidence
                    &&& e.metadata@ == dv[k].metadata@
                    &&& e.created_at == created_at
                    &&& e.last_accessed == created_at
                    &&& e.access_count == 0
                },
        decreases src@.len(),
    {
        let draft = src.remove(0);
        let id = id_generator.generate_id();
        out.push(
            MemoryEntry {
                id,
                content: draft.content,
                kind: draft.kind,
                importance: draft.importance,
                created_at,
                last_accessed: created_at,
                access_count: 0,
                source_context: draft.source_context,
                confidence: draft.confidence,
                metadata: draft.metadata,
            },
        );
        proof {
            assert(src@ =~= dv.skip(out@.len() as int));
        }
    }
    out
}

} // verus!
