//! The durable-storage capability.

use vstd::prelude::*;

use crate::error::Error;
use crate::memory::MemoryEntry;

verus! {

/// Handle storage of embeddings and their payloads.
///
/// This is implemented by vector stores as well as by any database with
/// vector functionality; the in-memory store of this crate is the
/// reference implementation, not a privileged special case. The search
/// methods return `(embedding, entry)` pairs ranked most similar first.
pub trait Storage: Sized {
    /// The backend's internal invariant: established by its constructors,
    /// preserved by every operation.
    spec fn inv(&self) -> bool;

    /// Insert a document.
    fn insert(&mut self, embedding: Vec<i16>, entry: MemoryEntry) -> (r: Result<(), Error>)
        requires
            old(self).inv(),
        ensures
            final(self).inv(),
    ;

    /// Search, typically by semantic similarity; returns at most `limit`
    /// results.
    fn search(&self, embedding: Vec<i16>, limit: usize) -> (r: Result<
        Vec<(Vec<i16>, MemoryEntry)>,
        Error,
    >)
        requires
            self.inv(),
        ensures
            r matches Ok(v) ==> v@.len() <= limit,
    ;

    /// Search the storage by identifier and get the embedding as well as
    /// the memory entry.
    fn search_by_id(&self, id: String) -> (r: Result<(Vec<i16>, MemoryEntry), Error>)
        requires
            self.inv(),
    ;

    /// The most recently created entries, at most `limit` of them.
    fn get_recent(&self, limit: usize) -> (r: Result<Vec<(Vec<i16>, MemoryEntry)>, Error>)
        requires
            self.inv(),
        ensures
            r matches Ok(v) ==> v@.len() <= limit,
    ;

    /// The oldest entries, at most `limit` of them.
    fn get_oldest(&self, limit: usize) -> (r: Result<Vec<(Vec<i16>, MemoryEntry)>, Error>)
        requires
            self.inv(),
        ensures
            r matches Ok(v) ==> v@.len() <= limit,
    ;

    /// Delete a document by identifier.
    fn delete(&mut self, id: String) -> (r: Result<(), Error>)
        requires
            old(self).inv(),
        ensures
            final(self).inv(),
    ;

    /// Delete multiple documents by identifier: best-effort and sequential,
    /// the first error short-circuits the remainder, and deletions already
    /// applied are not rolled back.
    fn delete_batch(&mut self, ids: Vec<String>) -> (r: Result<(), Error>)
        requires
            old(self).inv(),
        ensures
            final(self).inv(),
    ;

    /// Replace the payload stored under `id`, leaving the embedding
    /// untouched. The payload must carry the same identifier; an absent
    /// identifier is an error, never an insert.
    fn update_payload_by_id(&mut self, id: String, payload: MemoryEntry) -> (r: Result<
        (),
        Error,
    >)
        requires
            old(self).inv(),
            payload.id@ == id@,
        ensures
            final(self).inv(),
    ;

    /// The number of live documents.
    fn count(&self) -> (r: Result<usize, Error>)
        requires
            self.inv(),
    ;
}

/// A placeholder for the storage type when none has been configured.
/// Attempted usage results in a `NoOp` error; the type exists to assist
/// with generic builder typing.
pub struct StorageNotSet;

impl Storage for StorageNotSet {
    /// The placeholder has no state to keep well-formed.
    open spec fn inv(&self) -> bool {
        true
    }

    fn insert(&mut self, embedding: Vec<i16>, entry: MemoryEntry) -> (r: Result<(), Error>)
        ensures
            r matches Err(e) && e is NoOp,
    {
        Err(Error::NoOp)
    }

    fn search(&self, embedding: Vec<i16>, limit: usize) -> (r: Result<
        Vec<(Vec<i16>, MemoryEntry)>,
        Error,
    >)
        ensures
            r matches Err(e) && e is NoOp,
    {
        Err(Error::NoOp)
    }

    fn search_by_id(&self, id: String) -> (r: Result<(Vec<i16>, MemoryEntry), Error>)
        ensures
            r matches Err(e) && e is NoOp,
    {
        Err(Error::NoOp)
    }

    fn get_recent(&self, limit: usize) -> (r: Result<Vec<(Vec<i16>, MemoryEntry)>, Error>)
        ensures
            r matches Err(e) && e is NoOp,
    {
        Err(Error::NoOp)
    }

    fn get_oldest(&self, limit: usize) -> (r: Result<Vec<(Vec<i16>, MemoryEntry)>, Error>)
        ensures
            r matches Err(e) && e is NoOp,
    {
        Err(Error::NoOp)
    }

    fn delete(&mut self, id: String) -> (r: Result<(), Error>)
        ensures
            r matches Err(e) && e is NoOp,
    {
        Err(Error::NoOp)
    }

    fn delete_batch(&mut self, ids: Vec<String>) -> (r: Result<(), Error>)
        ensures
            r matches Err(e) && e is NoOp,
    {
        Err(Error::NoOp)
    }

    fn update_payload_by_id(&mut self, id: String, payload: MemoryEntry) -> (r: Result<
        (),
        Error,
    >)
        ensures
            r matches Err(e) && e is NoOp,
    {
        Err(Error::NoOp)
    }

    fn count(&self) -> (r: Result<usize, Error>)
        ensures
            r matches Err(e) && e is NoOp,
    {
        Err(Error::NoOp)
    }
}

} // verus!
