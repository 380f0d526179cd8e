//! The agentic memory management frontend: it coordinates embedding
//! generation, the dual-tier write to durable storage and the hot cache,
//! the dual-tier read with fallback, and access-driven promotion.
//!
//! The dual-tier read never reconciles a cache hit against the durable
//! store's current state: a deletion that reached only one tier can make a
//! caller see an entry twice or see a vanished entry. That is an accepted
//! tradeoff of the design, not a bug.

use vstd::prelude::*;

use crate::clock::now_timestamp;
use crate::embed::{Embedder, EmbedderNotSet};
use crate::error::{BuildError, Error};
use crate::memory::MemoryEntry;
use crate::memory::cache::{evict_rel, MemoryCache};
use crate::storage::{Storage, StorageNotSet};
use crate::vector_store::InMemoryDB;

verus! {

/// Whether an entry qualifies for the hot cache under the default policy:
/// important enough, or accessed at least once.
pub open spec fn should_cache_spec(entry: MemoryEntry) -> bool {
    entry.importance > 50 || entry.access_count > 0
}

/// Whether an entry qualifies to stay in the hot cache under the default
/// retention policy.
pub open spec fn should_retain_spec(entry: MemoryEntry) -> bool {
    entry.importance > 60 && entry.access_count >= 2
}

/// The configuration the manager falls back to when none was supplied:
/// no bounds, eviction batches of one.
pub open spec fn default_config() -> MemoryConfig {
    MemoryConfig {
        max_total_memories: None,
        max_age_days: None,
        min_retention_score: None,
        eviction_batch_size: 1,
    }
}

/// The entry as the access-update path rewrites it: last accessed `now`,
/// accessed once more.
pub open spec fn bumped(entry: MemoryEntry, now: i64) -> MemoryEntry {
    MemoryEntry { last_accessed: now, access_count: (entry.access_count + 1) as u32, ..entry }
}

/// Memory manager configuration. Importance thresholds are in hundredths,
/// like [`MemoryEntry::importance`].
///
/// The caching policy itself is the fixed default predicate
/// ([`MemoryConfig::should_cache`]); a user-supplied predicate is not
/// configurable, since Verus refuses boxed function values, and the
/// default is what an unconfigured policy falls back to anyway.
pub struct MemoryConfig {
    /// The maximum number of total memories; no more are stored after the
    /// maximum has been reached.
    pub max_total_memories: Option<usize>,
    /// Delete memories after this many days.
    pub max_age_days: Option<i64>,
    /// The minimum score required to keep a given memory, in hundredths.
    pub min_retention_score: Option<u32>,
    /// How many entries to evict during one eviction.
    pub eviction_batch_size: usize,
}

impl MemoryConfig {
    /// The default configuration: no bounds, eviction batches of one.
    pub fn new() -> (r: Self)
        ensures
            r == default_config(),
            r.max_total_memories is None,
            r.max_age_days is None,
            r.min_retention_score is None,
            r.eviction_batch_size == 1,
    {
        MemoryConfig {
            max_total_memories: None,
            max_age_days: None,
            min_retention_score: None,
            eviction_batch_size: 1,
        }
    }

    /// Whether an entry should enter the hot cache: important enough, or
    /// accessed at least once.
    pub fn should_cache(&self, entry: &MemoryEntry) -> (r: bool)
        ensures
            r == should_cache_spec(*entry),
    {
        entry.importance > 50 || entry.access_count > 0
    }

    /// Whether an entry should stay in the hot cache: very important and
    /// accessed at least twice.
    pub fn should_retain_in_cache(&self, entry: &MemoryEntry) -> (r: bool)
        ensures
            r == should_retain_spec(*entry),
    {
        entry.importance > 60 && entry.access_count >= 2
    }
}

impl Default for MemoryConfig {
    /// The default configuration: no bounds, eviction batches of one.
    fn default() -> (r: Self)
        ensures
            r == default_config(),
    {
        MemoryConfig::new()
    }
}

/// An agentic memory management frontend. Handles storing and retrieving
/// memories across a durable backend and an optional hot cache.
pub struct MemoryManager<E, S> where E: Embedder, S: Storage {
    storage: S,
    embedder: E,
    cfg: MemoryConfig,
    hot_cache: Option<MemoryCache>,
}

impl MemoryManager<EmbedderNotSet, StorageNotSet> {
    /// Creates a new builder with neither collaborator configured.
    pub fn builder() -> (r: MemoryManagerBuilder<EmbedderNotSet, StorageNotSet>)
        ensures
            r.wf(),
            r.storage_opt() is None,
            r.embedder_opt() is None,
            r.cfg_opt() is None,
            r.cache_opt() is None,
    {
        MemoryManagerBuilder::new()
    }
}

impl<E, S> MemoryManager<E, S> where E: Embedder, S: Storage {
    /// The manager's invariant: the backend's and the cache's own.
    pub closed spec fn wf(&self) -> bool {
        &&& self.storage.inv()
        &&& match self.hot_cache {
            Some(c) => c.wf(),
            None => true,
        }
    }

    /// Whether a hot cache is configured.
    pub closed spec fn has_cache(&self) -> bool {
        self.hot_cache is Some
    }

    /// The hot cache; meaningful only when one is configured.
    pub closed spec fn cache_spec(&self) -> MemoryCache {
        self.hot_cache->Some_0
    }

    /// The durable backend.
    pub closed spec fn storage_spec(&self) -> S {
        self.storage
    }

    /// The embedder.
    pub closed spec fn embedder_spec(&self) -> E {
        self.embedder
    }

    /// The caching configuration.
    pub closed spec fn cfg_spec(&self) -> MemoryConfig {
        self.cfg
    }

    /// The dimensionality the embedder produces.
    pub closed spec fn embedder_dim(&self) -> nat {
        self.embedder.dim_spec()
    }

    /// The hot cache, if one is configured.
    pub fn hot_cache(&self) -> (r: &Option<MemoryCache>)
        ensures
            r is Some <==> self.has_cache(),
            r matches Some(c) ==> *c == self.cache_spec(),
    {
        &self.hot_cache
    }

    /// Store a single memory: embeds the text, writes to durable storage
    /// unconditionally, and, if a cache is configured and the entry
    /// qualifies, writes into the cache too — evicting one entry first when
    /// the cache is over its soft capacity. The cache write is best-effort:
    /// its failure never undoes the durable write.
    pub fn store(&mut self, memory: &str, entry: MemoryEntry) -> (r: Result<(), Error>)
        requires
            old(self).wf(),
        ensures
            final(self).wf(),
            final(self).has_cache() == old(self).has_cache(),
            final(self).embedder_spec() == old(self).embedder_spec(),
            final(self).embedder_dim() == old(self).embedder_dim(),
            final(self).cfg_spec() == old(self).cfg_spec(),
            r is Err && old(self).has_cache() ==> final(self).cache_spec() == old(
                self,
            ).cache_spec(),
            old(self).has_cache() && !should_cache_spec(entry) ==> final(self).cache_spec() == old(self).cache_spec(),
            r is Ok && old(self).has_cache() && should_cache_spec(entry) && old(self).embedder_dim()
                == old(self).cache_spec().store_spec().dim_spec() ==> final(self).cache_spec().store_spec().has_id(entry.id@) && final(self).cache_spec().store_spec().entry_of(entry.id@) == entry,
            r is Ok && old(self).has_cache() && should_cache_spec(entry) ==> final(self).cache_spec().store_spec().count_spec() <= (
            if old(self).cache_spec().store_spec().count_spec() > old(self).cache_spec().limit_spec() {
                old(self).cache_spec().store_spec().count_spec()
            } else {
                old(self).cache_spec().store_spec().count_spec() + 1
            }),
            r is Ok && old(self).has_cache() ==> final(self).cache_spec().limit_spec() == old(self).cache_spec().limit_spec(),
    {
        let embedding = match self.embedder.embed_text(memory) {
            Ok(e) => e,
            Err(e) => {
                return Err(e);
            },
        };
        let emb_copy = copy_embedding(&embedding);
        let entry_copy = entry.clone();
        match self.storage.insert(emb_copy, entry_copy) {
            Ok(u) => {},
            Err(e) => {
                return Err(e);
            },
        }
        let qualifies = self.cfg.should_cache(&entry);
        if qualifies {
            let hc = self.hot_cache.take();
            match hc {
                Some(mut cache) => {
                    let cur = match cache.store_ref().count() {
                        Ok(c) => c,
                        Err(e) => {
                            proof {
                                assert(false);
                            }
                            self.hot_cache = Some(cache);
                            return Err(e);
                        },
                    };
                    let ghost pre_evict = cache;
                    if cur > cache.memory_limit() as usize {
                        match cache.evict_from_cache(1) {
                            Ok(u) => {},
                            Err(e) => {
                                proof {
                                    assert(false);
                                }
                                self.hot_cache = Some(cache);
                                return Err(e);
                            },
                        }
                        proof {
                            let (now, sample, victims) = choose|
                                now: int,
                                sample: Seq<int>,
                                victims: Seq<int>,
                            |
                                evict_rel(
                                    pre_evict.store_spec(),
                                    cache.store_spec(),
                                    1,
                                    now,
                                    sample,
                                    victims,
                                );
                            assert(cache.store_spec().count_spec() == pre_evict.store_spec().count_spec() - 1);
                        }
                    }
                    match cache.store_mut().insert(embedding, entry) {
                        Ok(u) => {},
                        Err(e2) => {},
                    }
                    self.hot_cache = Some(cache);
                },
                None => {
                    self.hot_cache = None;
                },
            }
        }
        Ok(())
    }

    /// Retrieve memories for a query: embeds the query once, asks the
    /// cache first when one is configured — recording a hit only when it
    /// returned results, a miss otherwise — and fills up to `limit` from
    /// durable storage. An empty cache answer is a fall-through, never
    /// "nothing exists".
    pub fn retrieve(&mut self, query: &str, limit: usize) -> (r: Result<Vec<MemoryEntry>, Error>)
        requires
            old(self).wf(),
        ensures
            final(self).wf(),
            final(self).has_cache() == old(self).has_cache(),
            final(self).storage_spec() == old(self).storage_spec(),
            final(self).embedder_spec() == old(self).embedder_spec(),
            final(self).cfg_spec() == old(self).cfg_spec(),
            r matches Ok(v) ==> v@.len() <= limit,
            !old(self).has_cache() ==> *final(self) == *old(self),
            old(self).has_cache() ==> final(self).cache_spec().store_spec() == old(self).cache_spec().store_spec() && final(self).cache_spec().limit_spec() == old(self).cache_spec().limit_spec(),
            r is Ok && old(self).has_cache() && (limit == 0 || old(self).cache_spec().store_spec().count_spec() == 0) ==> final(self).cache_spec().stats_of().misses_spec() == (
            if old(self).cache_spec().stats_of().misses_spec() < u32::MAX {
                old(self).cache_spec().stats_of().misses_spec() + 1
            } else {
                u32::MAX as int
            }) && final(self).cache_spec().stats_of().hits_spec() == old(self).cache_spec().stats_of().hits_spec(),
            r is Ok && old(self).has_cache() && limit > 0 && old(self).cache_spec().store_spec().count_spec() > 0 && old(self).embedder_dim() == old(self).cache_spec().store_spec().dim_spec() ==> final(self).cache_spec().stats_of().hits_spec() == (
            if old(self).cache_spec().stats_of().hits_spec() < u32::MAX {
                old(self).cache_spec().stats_of().hits_spec() + 1
            } else {
                u32::MAX as int
            }) && final(self).cache_spec().stats_of().misses_spec() == old(self).cache_spec().stats_of().misses_spec(),
            old(self).has_cache() ==> (r matches Ok(v) ==> exists|
                q: Seq<i16>,
                cpairs: Seq<(Seq<i16>, MemoryEntry)>,
            |
                {
                    &&& q.len() == old(self).cache_spec().store_spec().dim_spec()
                    &&& InMemoryDB::search_post(
                        old(self).cache_spec().store_spec(),
                        q,
                        limit as int,
                        cpairs,
                    )
                    &&& cpairs.len() <= v@.len()
                    &&& forall|k: int| 0 <= k < cpairs.len() ==> v@[k] == cpairs[k].1
                }),
    {
        let embedding = match self.embedder.embed_text(query) {
            Ok(e) => e,
            Err(e) => {
                return Err(e);
            },
        };
        let mut results: Vec<MemoryEntry> = Vec::new();
        let ghost mut cache_q: Seq<i16> = Seq::empty();
        let ghost mut cache_pairs: Seq<(Seq<i16>, MemoryEntry)> = Seq::empty();
        let hc = self.hot_cache.take();
        match hc {
            Some(mut cache) => {
                let res = cache.store_ref().search(copy_embedding(&embedding), limit);
                match res {
                    Ok(pairs) => {
                        proof {
                            cache_q = embedding@;
                            cache_pairs = crate::vector_store::pairs_view(pairs@);
                        }
                        if pairs.len() > 0 {
                            cache.stats_mut().add_hit();
                        } else {
                            cache.stats_mut().add_miss();
                        }
                        results = entries_of_pairs(pairs);
                        self.hot_cache = Some(cache);
                    },
                    Err(e) => {
                        self.hot_cache = Some(cache);
                        return Err(e);
                    },
                }
            },
            None => {
                self.hot_cache = None;
            },
        }
        let ghost cache_part: Seq<MemoryEntry> = results@;
        if results.len() < limit {
            let deep = match self.storage.search(embedding, limit - results.len()) {
                Ok(d) => d,
                Err(e) => {
                    return Err(e);
                },
            };
            let mut deep_entries = entries_of_pairs(deep);
            results.append(&mut deep_entries);
        }
        proof {
            if old(self).has_cache() {
                assert(results@.len() >= cache_part.len());
                assert(forall|k: int| 0 <= k < cache_part.len() ==> results@[k] == cache_part[k]);
                assert(cache_pairs.len() == cache_part.len());
                assert(forall|k: int|
                    0 <= k < cache_pairs.len() ==> results@[k] == cache_pairs[k].1);
                assert(InMemoryDB::search_post(
                    old(self).cache_spec().store_spec(),
                    cache_q,
                    limit as int,
                    cache_pairs,
                ));
            }
        }
        Ok(results)
    }

    /// Updates a memory's access metadata — last accessed now, accessed
    /// once more — and, since an accessed entry always qualifies for the
    /// hot tier, writes the updated payload into the cache when one is
    /// configured. The entry's embedding is untouched; an entry the cache
    /// does not hold is reported as `EmbeddingNotExists`, never inserted.
    pub fn update_memory_access(&mut self, memory: MemoryEntry) -> (r: Result<(), Error>)
        requires
            old(self).wf(),
            memory.access_count < u32::MAX,
        ensures
            final(self).wf(),
            final(self).has_cache() == old(self).has_cache(),
            final(self).storage_spec() == old(self).storage_spec(),
            final(self).embedder_spec() == old(self).embedder_spec(),
            final(self).cfg_spec() == old(self).cfg_spec(),
            !old(self).has_cache() ==> r is Ok && *final(self) == *old(self),
            old(self).has_cache() ==> (r is Ok <==> old(self).cache_spec().store_spec().has_id(
                memory.id@,
            )),
            old(self).has_cache() && old(self).cache_spec().store_spec().has_id(memory.id@)
                ==> exists|now: i64|
                {
                    &&& final(self).cache_spec().store_spec().entry_of(memory.id@) == bumped(
                        memory,
                        now,
                    )
                    &&& final(self).cache_spec().store_spec().embedding_of(memory.id@) == old(self).cache_spec().store_spec().embedding_of(memory.id@)
                    &&& final(self).cache_spec().store_spec().count_spec() == old(self).cache_spec().store_spec().count_spec()
                },
            old(self).has_cache() && !old(self).cache_spec().store_spec().has_id(memory.id@) ==> (
            r matches Err(Error::Storage(crate::error::StorageError::EmbeddingNotExists(m)))
                && m@ == memory.id@ && final(self).cache_spec().store_spec() == old(self).cache_spec().store_spec()),
    {
        let now = now_timestamp();
        let mut updated = memory;
        updated.last_accessed = now;
        updated.access_count = updated.access_count + 1;
        let qualifies = self.cfg.should_cache(&updated);
        let hc = self.hot_cache.take();
        match hc {
            Some(mut cache) => {
                if qualifies {
                    let id = updated.id.clone();
                    let ghost bumped_val = updated;
                    let res = cache.store_mut().update_payload_by_id(id, updated);
                    self.hot_cache = Some(cache);
                    match res {
                        Ok(u) => {
                            proof {
                                assert(bumped_val == bumped(memory, now));
                                assert(self.cache_spec().store_spec().entry_of(memory.id@)
                                    == bumped_val);
                            }
                            Ok(())
                        },
                        Err(e) => Err(e),
                    }
                } else {
                    proof {
                        assert(false);
                    }
                    self.hot_cache = Some(cache);
                    Ok(())
                }
            },
            None => {
                self.hot_cache = None;
                Ok(())
            },
        }
    }
}

/// Copies an embedding vector.
fn copy_embedding(v: &Vec<i16>) -> (r: Vec<i16>)
    ensures
        r@ == v@,
{
    let mut out: Vec<i16> = Vec::new();
    let mut i: usize = 0;
    while i < v.len()
        invariant
            i <= v@.len(),
            out@ == v@.take(i as int),
        decreases v@.len() - i,
    {
        let x: i16 = v[i];
        out.push(x);
        i = i + 1;
        proof {
            assert(out@ =~= v@.take(i as int));
        }
    }
    proof {
        assert(v@.take(v@.len() as int) =~= v@);
    }
    out
}

/// Keeps only the payloads of a result vector.
fn entries_of_pairs(pairs: Vec<(Vec<i16>, MemoryEntry)>) -> (r: Vec<MemoryEntry>)
    ensures
        r@.len() == pairs@.len(),
        forall|k: int| 0 <= k < r@.len() ==> r@[k] == pairs@[k].1,
{
    let ghost pv = pairs@;
    let mut src = pairs;
    let mut out: Vec<MemoryEntry> = Vec::new();
    while src.len() > 0
        invariant
            out@.len() + src@.len() == pv.len(),
            src@ == pv.skip(out@.len() as int),
            forall|k: int| 0 <= k < out@.len() ==> out@[k] == pv[k].1,
        decreases src@.len(),
    {
        let item = src.remove(0);
        out.push(item.1);
        proof {
            assert(src@ =~= pv.skip(out@.len() as int));
        }
    }
    out
}

/// A builder for [`MemoryManager`]: configure collaborators one by one and
/// validate them at a single `build` call, which returns a distinct error
/// per missing mandatory dependency.
pub struct MemoryManagerBuilder<E, S> where E: Embedder, S: Storage {
    storage: Option<S>,
    embedder: Option<E>,
    cfg: Option<MemoryConfig>,
    hot_cache: Option<MemoryCache>,
}

impl MemoryManagerBuilder<EmbedderNotSet, StorageNotSet> {
    /// A builder with nothing configured.
    pub fn new() -> (r: Self)
        ensures
            r.wf(),
            r.storage_opt() is None,
            r.embedder_opt() is None,
            r.cfg_opt() is None,
            r.cache_opt() is None,
    {
        MemoryManagerBuilder { storage: None, embedder: None, cfg: None, hot_cache: None }
    }
}

impl<E, S> MemoryManagerBuilder<E, S> where E: Embedder, S: Storage {
    /// The builder's invariant: whatever is configured is well-formed.
    pub closed spec fn wf(&self) -> bool {
        &&& match self.storage {
            Some(s) => s.inv(),
            None => true,
        }
        &&& match self.hot_cache {
            Some(c) => c.wf(),
            None => true,
        }
    }

    /// The storage backend configured so far, if any.
    pub closed spec fn storage_opt(&self) -> Option<S> {
        self.storage
    }

    /// The embedder configured so far, if any.
    pub closed spec fn embedder_opt(&self) -> Option<E> {
        self.embedder
    }

    /// The configuration supplied so far, if any.
    pub closed spec fn cfg_opt(&self) -> Option<MemoryConfig> {
        self.cfg
    }

    /// The hot cache configured so far, if any.
    pub closed spec fn cache_opt(&self) -> Option<MemoryCache> {
        self.hot_cache
    }

    /// Whether a storage backend has been configured.
    pub open spec fn has_storage(&self) -> bool {
        self.storage_opt() is Some
    }

    /// Whether an embedder has been configured.
    pub open spec fn has_embedder(&self) -> bool {
        self.embedder_opt() is Some
    }

    /// Whether a hot cache has been configured.
    pub open spec fn has_hot_cache(&self) -> bool {
        self.cache_opt() is Some
    }

    /// Configures the durable storage backend.
    pub fn storage<S2: Storage>(self, storage: S2) -> (r: MemoryManagerBuilder<E, S2>)
        requires
            self.wf(),
            storage.inv(),
        ensures
            r.wf(),
            r.storage_opt() == Some(storage),
            r.embedder_opt() == self.embedder_opt(),
            r.cfg_opt() == self.cfg_opt(),
            r.cache_opt() == self.cache_opt(),
    {
        MemoryManagerBuilder {
            storage: Some(storage),
            embedder: self.embedder,
            cfg: self.cfg,
            hot_cache: self.hot_cache,
        }
    }

    /// Configures the embedder.
    pub fn embedder<E2: Embedder>(self, embedder: E2) -> (r: MemoryManagerBuilder<E2, S>)
        requires
            self.wf(),
        ensures
            r.wf(),
            r.embedder_opt() == Some(embedder),
            r.storage_opt() == self.storage_opt(),
            r.cfg_opt() == self.cfg_opt(),
            r.cache_opt() == self.cache_opt(),
    {
        MemoryManagerBuilder {
            storage: self.storage,
            embedder: Some(embedder),
            cfg: self.cfg,
            hot_cache: self.hot_cache,
        }
    }

    /// Configures the caching policy parameters.
    pub fn config(self, cfg: MemoryConfig) -> (r: Self)
        requires
            self.wf(),
        ensures
            r.wf(),
            r.cfg_opt() == Some(cfg),
            r.storage_opt() == self.storage_opt(),
            r.embedder_opt() == self.embedder_opt(),
            r.cache_opt() == self.cache_opt(),
    {
        MemoryManagerBuilder {
            storage: self.storage,
            embedder: self.embedder,
            cfg: Some(cfg),
            hot_cache: self.hot_cache,
        }
    }

    /// Configures a hot cache over the given in-memory store, with the
    /// default soft capacity of 500 and fresh statistics.
    pub fn hot_cache(self, cache: InMemoryDB) -> (r: Self)
        requires
            self.wf(),
            cache.wf(),
        ensures
            r.wf(),
            r.cache_opt() matches Some(c) && c.store_spec() == cache && c.limit_spec() == 500
                && c.stats_of().hits_spec() == 0 && c.stats_of().misses_spec() == 0,
            r.storage_opt() == self.storage_opt(),
            r.embedder_opt() == self.embedder_opt(),
            r.cfg_opt() == self.cfg_opt(),
    {
        MemoryManagerBuilder {
            storage: self.storage,
            embedder: self.embedder,
            cfg: self.cfg,
            hot_cache: Some(MemoryCache::new(cache)),
        }
    }

    /// Build the manager. Storage and embedder are mandatory, each missing
    /// one reported by its own error; cache and config are optional, the
    /// config falling back to the default policy. The manager holds exactly
    /// what was configured.
    pub fn build(self) -> (r: Result<MemoryManager<E, S>, Error>)
        requires
            self.wf(),
        ensures
            !self.has_storage() ==> r matches Err(Error::Build(BuildError::StorageNotFound)),
            self.has_storage() && !self.has_embedder() ==> r matches Err(Error::Build(
                BuildError::EmbedderNotFound,
            )),
            self.has_storage() && self.has_embedder() ==> (r matches Ok(m) && m.wf()
                && m.storage_spec() == self.storage_opt()->Some_0 && m.embedder_spec()
                == self.embedder_opt()->Some_0 && m.embedder_dim()
                == self.embedder_opt()->Some_0.dim_spec() && m.cfg_spec() == (
            match self.cfg_opt() {
                Some(c) => c,
                None => default_config(),
            }) && m.has_cache() == self.has_hot_cache() && (self.has_hot_cache()
                ==> m.cache_spec() == self.cache_opt()->Some_0)),
    {
        let storage = match self.storage {
            Some(s) => s,
            None => {
                return Err(Error::Build(BuildError::StorageNotFound));
            },
        };
        let embedder = match self.embedder {
            Some(e) => e,
            None => {
                return Err(Error::Build(BuildError::EmbedderNotFound));
            },
        };
        let cfg = match self.cfg {
            Some(c) => c,
            None => MemoryConfig::new(),
        };
        Ok(MemoryManager { storage, embedder, cfg, hot_cache: self.hot_cache })
    }
}

} // verus!
