//! The eviction-scored memory cache: a hot tier over the in-memory vector
//! store, with hit/miss statistics and random-sample eviction.

use vstd::prelude::*;

use crate::clock::now_timestamp;
use crate::error::Error;
use crate::memory::MemoryEntry;
use crate::storage::Storage;
use crate::vector_store::InMemoryDB;

verus! {

/// The eviction score of an entry at time `now`: the lower, the more
/// evictable. Frequency dominates, importance is a secondary boost, and
/// staleness pulls the score down.
pub open spec fn eviction_score_spec(entry: MemoryEntry, now: int) -> int {
    entry.access_count * 1000 + entry.importance * 100 - (now - entry.last_accessed)
}

/// Generates an eviction score — the lower, the better a victim. This is
/// used when the maximum cache size is reached and room needs to be made
/// for new memories. The score is `frequency * 1000 + importance * 100 -
/// recency_seconds`, computed wide enough that it cannot overflow.
pub fn eviction_score(entry: &MemoryEntry, now: i64) -> (r: i128)
    ensures
        r == eviction_score_spec(*entry, now as int),
{
    let frequency: i128 = entry.access_count as i128;
    let importance: i128 = entry.importance as i128;
    let recency: i128 = (now as i128) - (entry.last_accessed as i128);
    frequency * 1000 + importance * 100 - recency
}

/// Draws `count` distinct indices from `0..n`, uniformly at random.
///
/// Relies on `rand::seq::index::sample`: it returns exactly `count`
/// distinct indices below `n` and panics when `count > n`, which the
/// precondition rules out. Which indices come back is left entirely open.
#[verifier::external_body]
fn sample_indices(n: usize, count: usize) -> (r: Vec<usize>)
    requires
        count <= n,
    ensures
        r@.len() == count,
        forall|j: int| 0 <= j < r@.len() ==> #[trigger] r@[j] < n,
        forall|j: int, l: int| 0 <= j < l < r@.len() ==> r@[j] != r@[l],
{
    let mut rng = rand::rng();
    rand::seq::index::sample(&mut rng, n, count).into_vec()
}

/// Cache hit/miss counters: process-lifetime, reset on demand, purely
/// observational. The counters saturate instead of wrapping.
#[derive(Debug)]
pub struct CacheStats {
    hits: u32,
    misses: u32,
}

impl CacheStats {
    /// The number of hits recorded.
    pub closed spec fn hits_spec(&self) -> u32 {
        self.hits
    }

    /// The number of misses recorded.
    pub closed spec fn misses_spec(&self) -> u32 {
        self.misses
    }

    /// Fresh counters at zero.
    pub fn new() -> (r: Self)
        ensures
            r.hits_spec() == 0,
            r.misses_spec() == 0,
    {
        CacheStats { hits: 0, misses: 0 }
    }

    /// Records one hit, saturating at the counter's maximum.
    pub fn add_hit(&mut self)
        ensures
            final(self).hits_spec() == if old(self).hits_spec() < u32::MAX {
                old(self).hits_spec() + 1
            } else {
                u32::MAX as int
            },
            final(self).misses_spec() == old(self).misses_spec(),
    {
        if self.hits < u32::MAX {
            self.hits = self.hits + 1;
        }
    }

    /// Records one miss, saturating at the counter's maximum.
    pub fn add_miss(&mut self)
        ensures
            final(self).misses_spec() == if old(self).misses_spec() < u32::MAX {
                old(self).misses_spec() + 1
            } else {
                u32::MAX as int
            },
            final(self).hits_spec() == old(self).hits_spec(),
    {
        if self.misses < u32::MAX {
            self.misses = self.misses + 1;
        }
    }

    /// Resets both counters to zero.
    pub fn reset(&mut self)
        ensures
            final(self).hits_spec() == 0,
            final(self).misses_spec() == 0,
    {
        self.hits = 0;
        self.misses = 0;
    }

    /// The number of hits recorded.
    pub fn hits(&self) -> (r: u32)
        ensures
            r == self.hits_spec(),
    {
        self.hits
    }

    /// The number of misses recorded.
    pub fn misses(&self) -> (r: u32)
        ensures
            r == self.misses_spec(),
    {
        self.misses
    }
}

impl Default for CacheStats {
    /// Fresh counters at zero.
    fn default() -> (r: Self)
        ensures
            r.hits_spec() == 0,
            r.misses_spec() == 0,
    {
        CacheStats::new()
    }
}

/// A memory cache: an [`InMemoryDB`] hot tier plus statistics and a soft
/// capacity.
pub struct MemoryCache {
    pub store: InMemoryDB,
    cache_stats: CacheStats,
    max_memory_limit: u32,
}

/// What one round of eviction did, for a sample drawn at time `now`:
/// `sample` are the positions sampled in the old store, `victims` the
/// sampled positions whose entries were deleted — as many as requested, up
/// to the sample's size, and scoring no higher than any sampled survivor.
pub open spec fn evict_rel(
    pre: InMemoryDB,
    post: InMemoryDB,
    count: int,
    now: int,
    sample: Seq<int>,
    victims: Seq<int>,
) -> bool {
    let k = if pre.count_spec() <= 100 {
        pre.count_spec()
    } else {
        100int
    };
    let m = if count <= k {
        count
    } else {
        k
    };
    &&& sample.len() == k
    &&& forall|j: int| 0 <= j < sample.len() ==> 0 <= #[trigger] sample[j] < pre.count_spec()
    &&& forall|j: int, l: int| 0 <= j < l < sample.len() ==> sample[j] != sample[l]
    &&& victims.len() == m
    &&& forall|v: int| 0 <= v < victims.len() ==> sample.contains(#[trigger] victims[v])
    &&& forall|v: int, l: int| 0 <= v < l < victims.len() ==> victims[v] != victims[l]
    &&& forall|v: int, j: int|
        0 <= v < victims.len() && 0 <= j < sample.len() && !victims.contains(sample[j])
            ==> eviction_score_spec(pre.entry_at(victims[v]), now) <= eviction_score_spec(
            pre.entry_at(sample[j]),
            now,
        )
    &&& forall|id: Seq<char>| #[trigger]
        post.has_id(id) <==> (pre.has_id(id) && !victim_ids(pre, victims).contains(id))
    &&& forall|id: Seq<char>|
        pre.has_id(id) && !victim_ids(pre, victims).contains(id) ==> #[trigger] post.entry_of(id)
            == pre.entry_of(id) && post.embedding_of(id) == pre.embedding_of(id)
    &&& post.count_spec() == pre.count_spec() - m
    &&& post.free_len() == pre.free_len() + m
    &&& post.buffer_len() == pre.buffer_len()
    &&& post.dim_spec() == pre.dim_spec()
}

/// The identifiers of the entries at the given positions.
pub open spec fn victim_ids(pre: InMemoryDB, victims: Seq<int>) -> Seq<Seq<char>> {
    victims.map_values(|v: int| pre.entry_at(v).id@)
}

/// Eviction order on a two-entry store: when the whole store is the
/// sample, a single eviction removes exactly the entry with the strictly
/// lower eviction score and keeps the other.
pub proof fn lemma_eviction_order(
    pre: InMemoryDB,
    post: InMemoryDB,
    now: int,
    sample: Seq<int>,
    victims: Seq<int>,
    hot: Seq<char>,
    cold: Seq<char>,
)
    requires
        pre.wf(),
        pre.count_spec() == 2,
        pre.has_id(hot),
        pre.has_id(cold),
        hot != cold,
        eviction_score_spec(pre.entry_of(cold), now) < eviction_score_spec(
            pre.entry_of(hot),
            now,
        ),
        evict_rel(pre, post, 1, now, sample, victims),
    ensures
        post.has_id(hot),
        !post.has_id(cold),
        post.count_spec() == 1,
{
    pre.lemma_has_id_index(hot);
    pre.lemma_has_id_index(cold);
    let hot_i = pre.index_of(hot);
    let cold_i = pre.index_of(cold);
    assert(hot_i != cold_i);
    assert(sample.len() == 2 && victims.len() == 1);
    let v = victims[0];
    assert(sample.contains(v));
    assert(sample[0] != sample[1]);
    assert(v == hot_i || v == cold_i);
    if v == hot_i {
        let j: int = if sample[0] == cold_i {
            0
        } else {
            1
        };
        assert(sample[j] == cold_i) by {
            if sample[0] != cold_i && sample[1] != cold_i {
                assert(sample[0] == hot_i && sample[1] == hot_i);
            }
        }
        assert(!victims.contains(sample[j])) by {
            if victims.contains(sample[j]) {
                assert(victims[0] == cold_i);
            }
        }
        assert(eviction_score_spec(pre.entry_at(v), now) <= eviction_score_spec(
            pre.entry_at(sample[j]),
            now,
        ));
        assert(false);
    }
    assert(v == cold_i);
    assert(victim_ids(pre, victims)[0] == cold);
    assert(victim_ids(pre, victims).contains(cold));
    assert(!victim_ids(pre, victims).contains(hot)) by {
        if victim_ids(pre, victims).contains(hot) {
            assert(victim_ids(pre, victims)[0] == hot);
        }
    }
    assert(post.has_id(hot) <==> (pre.has_id(hot) && !victim_ids(pre, victims).contains(hot)));
    assert(post.has_id(cold) <==> (pre.has_id(cold) && !victim_ids(pre, victims).contains(cold)));
}

impl MemoryCache {
    /// The wrapped store.
    pub closed spec fn store_spec(&self) -> InMemoryDB {
        self.store
    }

    /// The cache's internal invariant: its store is well-formed.
    pub open spec fn wf(&self) -> bool {
        self.store_spec().wf()
    }

    /// The recorded statistics.
    pub closed spec fn stats_of(&self) -> CacheStats {
        self.cache_stats
    }

    /// The configured soft capacity.
    pub closed spec fn limit_spec(&self) -> u32 {
        self.max_memory_limit
    }

    /// Creates a new instance of [`MemoryCache`] with the soft capacity set
    /// to 500; use the builder to pick another limit.
    pub fn new(store: InMemoryDB) -> (r: Self)
        requires
            store.wf(),
        ensures
            r.wf(),
            r.store_spec() == store,
            r.limit_spec() == 500,
            r.stats_of().hits_spec() == 0,
            r.stats_of().misses_spec() == 0,
    {
        MemoryCache { store, cache_stats: CacheStats::new(), max_memory_limit: 500 }
    }

    /// Creates an empty builder instance for this struct.
    pub fn builder() -> (r: MemoryCacheBuilder)
        ensures
            r.store_opt() is None,
            r.limit_opt() is None,
    {
        MemoryCacheBuilder::new()
    }

    /// Read access to the wrapped store.
    pub fn store_ref(&self) -> (r: &InMemoryDB)
        ensures
            *r == self.store_spec(),
    {
        &self.store
    }

    /// Mutable access to the wrapped store.
    pub fn store_mut(&mut self) -> (r: &mut InMemoryDB)
        ensures
            *r == old(self).store_spec(),
            final(self).store_spec() == *final(r),
            final(self).stats_of() == old(self).stats_of(),
            final(self).limit_spec() == old(self).limit_spec(),
    {
        &mut self.store
    }

    /// Get the cache stats.
    pub fn stats(&self) -> (r: &CacheStats)
        ensures
            *r == self.stats_of(),
    {
        &self.cache_stats
    }

    /// The soft capacity before eviction makes way for new cached memories.
    pub fn memory_limit(&self) -> (r: u32)
        ensures
            r == self.limit_spec(),
    {
        self.max_memory_limit
    }

    /// Mutable access to the cache stats.
    pub fn stats_mut(&mut self) -> (r: &mut CacheStats)
        ensures
            *r == old(self).stats_of(),
            final(self).stats_of() == *final(r),
            final(self).store_spec() == old(self).store_spec(),
            final(self).limit_spec() == old(self).limit_spec(),
    {
        &mut self.cache_stats
    }

    /// Evicts up to `count` entries: samples up to 100 live entries
    /// uniformly at random, scores them with the eviction policy, and
    /// deletes the lowest-scoring `count` of them. A store smaller than the
    /// sample size is sampled whole. Never removes more than requested.
    pub fn evict_from_cache(&mut self, count: usize) -> (r: Result<(), Error>)
        requires
            old(self).wf(),
        ensures
            final(self).wf(),
            r is Ok,
            final(self).limit_spec() == old(self).limit_spec(),
            final(self).stats_of() == old(self).stats_of(),
            exists|now: int, sample: Seq<int>, victims: Seq<int>|
                evict_rel(
                    old(self).store_spec(),
                    final(self).store_spec(),
                    count as int,
                    now,
                    sample,
                    victims,
                ),
    {
        let store_len = match self.store.count() {
            Ok(c) => c,
            Err(e) => {
                return Err(e);
            },
        };
        let sample_size = if store_len < 100 {
            store_len
        } else {
            100
        };
        let idxs = sample_indices(store_len, sample_size);
        let now = now_timestamp();
        let mut cands: Vec<(i128, usize, String)> = Vec::new();
        let mut j: usize = 0;
        while j < idxs.len()
            invariant
                self.wf(),
                self == old(self),
                j <= idxs@.len(),
                cands@.len() == j,
                idxs@.len() == sample_size,
                sample_size <= self.store.count_spec(),
                forall|t: int| 0 <= t < idxs@.len() ==> #[trigger] idxs@[t] < self.store.count_spec(),
                forall|t: int, l: int| 0 <= t < l < idxs@.len() ==> idxs@[t] != idxs@[l],
                forall|t: int|
                    0 <= t < j ==> (#[trigger] cands@[t]).1 == idxs@[t] && cands@[t].0
                        == eviction_score_spec(self.store.entry_at(idxs@[t] as int), now as int)
                        && cands@[t].2@ == self.store.entry_at(idxs@[t] as int).id@,
            decreases idxs@.len() - j,
        {
            let slot = idxs[j];
            let ent = self.store.entry_ref(slot);
            let score = eviction_score(ent, now);
            let id = ent.id.clone();
            cands.push((score, slot, id));
            j = j + 1;
        }
        proof {
            assert forall|t: int, l: int| 0 <= t < l < cands@.len() implies cands@[t].1
                != cands@[l].1 by {
                assert(idxs@[t] != idxs@[l]);
            }
        }
        let ghost cv = cands@;
        let ranked = crate::rank::rank_take(cands, count);
        let ghost rv = ranked@;
        let ghost pre_store = self.store;
        let ghost m = rv.len() as int;
        proof {
            assert forall|v: int| 0 <= v < m implies 0 <= (#[trigger] rv[v]).1
                < pre_store.count_spec() && rv[v].0 == eviction_score_spec(
                pre_store.entry_at(rv[v].1 as int),
                now as int,
            ) && rv[v].2@ == pre_store.entry_at(rv[v].1 as int).id@ by {
                assert(cv.contains(rv[v]));
                let t = choose|t: int| 0 <= t < cv.len() && #[trigger] cv[t] == rv[v];
                assert(cv[t].1 == idxs@[t]);
            }
        }
        let mut victims = ranked;
        let ghost deleted: Seq<int> = rv.map_values(|c: (i128, usize, String)| c.1 as int);
        let ghost mut d: int = 0;
        while victims.len() > 0
            invariant
                self.wf(),
                0 <= d,
                d + victims@.len() == rv.len(),
                victims@ == rv.skip(d),
                self.store.dim_spec() == pre_store.dim_spec(),
                self.store.buffer_len() == pre_store.buffer_len(),
                self.store.count_spec() == pre_store.count_spec() - d,
                self.store.free_len() == pre_store.free_len() + d,
                forall|v: int, l: int| 0 <= v < l < rv.len() ==> rv[v].1 != rv[l].1,
                forall|v: int|
                    0 <= v < rv.len() ==> 0 <= (#[trigger] rv[v]).1 < pre_store.count_spec()
                        && rv[v].2@ == pre_store.entry_at(rv[v].1 as int).id@,
                forall|id: Seq<char>| #[trigger]
                    self.store.has_id(id) <==> (pre_store.has_id(id) && !victim_ids(
                        pre_store,
                        deleted.take(d),
                    ).contains(id)),
                forall|id: Seq<char>|
                    pre_store.has_id(id) && !victim_ids(pre_store, deleted.take(d)).contains(
                        id,
                    ) ==> #[trigger] self.store.entry_of(id) == pre_store.entry_of(id)
                        && self.store.embedding_of(id) == pre_store.embedding_of(id),
                deleted == rv.map_values(|c: (i128, usize, String)| c.1 as int),
                pre_store.wf(),
                self.stats_of() == old(self).stats_of(),
                self.limit_spec() == old(self).limit_spec(),
            decreases victims@.len(),
        {
            let item = victims.remove(0);
            let ghost vid: Seq<char> = item.2@;
            proof {
                assert(item == rv[d]);
                assert(vid == pre_store.entry_at(rv[d].1 as int).id@);
                assert(pre_store.has_id(vid)) by {
                    pre_store.lemma_index_of_at(rv[d].1 as int);
                }
                assert(!victim_ids(pre_store, deleted.take(d)).contains(vid)) by {
                    if victim_ids(pre_store, deleted.take(d)).contains(vid) {
                        let l = choose|l: int|
                            0 <= l < d && #[trigger] victim_ids(pre_store, deleted.take(d))[l]
                                == vid;
                        assert(pre_store.entry_at(deleted[l]).id@ == vid);
                        assert(deleted[l] == rv[l].1 as int);
                        pre_store.lemma_same_id_same_index(rv[l].1 as int, rv[d].1 as int);
                    }
                }
                assert(self.store.has_id(vid));
            }
            let ghost mid_store = self.store;
            match self.store.delete(item.2) {
                Ok(_) => {},
                Err(e) => {
                    proof {
                        assert(false);
                    }
                    return Err(e);
                },
            }
            proof {
                d = d + 1;
                let dd: int = d;
                assert(victims@ =~= rv.skip(dd));
                assert(deleted.take(dd) == deleted.take(dd - 1).push(deleted[dd - 1]));
                assert(victim_ids(pre_store, deleted.take(dd)) =~= victim_ids(
                    pre_store,
                    deleted.take(dd - 1),
                ).push(vid));
                assert forall|id: Seq<char>| #[trigger]
                    self.store.has_id(id) <==> (pre_store.has_id(id) && !victim_ids(
                        pre_store,
                        deleted.take(dd),
                    ).contains(id)) by {
                    assert(mid_store.has_id(id) <==> (pre_store.has_id(id) && !victim_ids(
                        pre_store,
                        deleted.take(dd - 1),
                    ).contains(id)));
                    if id == vid {
                        assert(!self.store.has_id(id));
                        assert(victim_ids(pre_store, deleted.take(dd))[dd - 1] == vid);
                        assert(victim_ids(pre_store, deleted.take(dd)).contains(id));
                    } else {
                        assert(self.store.has_id(id) <==> mid_store.has_id(id));
                        assert(victim_ids(pre_store, deleted.take(dd)).contains(id) <==> victim_ids(
                            pre_store,
                            deleted.take(dd - 1),
                        ).contains(id)) by {
                            if victim_ids(pre_store, deleted.take(dd)).contains(id) {
                                let l = choose|l: int|
                                    0 <= l < dd && #[trigger] victim_ids(
                                        pre_store,
                                        deleted.take(dd),
                                    )[l] == id;
                                assert(l != dd - 1);
                                assert(victim_ids(pre_store, deleted.take(dd - 1))[l] == id);
                            }
                            if victim_ids(pre_store, deleted.take(dd - 1)).contains(id) {
                                let l = choose|l: int|
                                    0 <= l < dd - 1 && #[trigger] victim_ids(
                                        pre_store,
                                        deleted.take(dd - 1),
                                    )[l] == id;
                                assert(victim_ids(pre_store, deleted.take(dd))[l] == id);
                            }
                        }
                    }
                }
                assert forall|id: Seq<char>|
                    pre_store.has_id(id) && !victim_ids(pre_store, deleted.take(dd)).contains(
                        id,
                    ) implies #[trigger] self.store.entry_of(id) == pre_store.entry_of(id)
                    && self.store.embedding_of(id) == pre_store.embedding_of(id) by {
                    assert(!victim_ids(pre_store, deleted.take(dd - 1)).contains(id)) by {
                        if victim_ids(pre_store, deleted.take(dd - 1)).contains(id) {
                            let l = choose|l: int|
                                0 <= l < dd - 1 && #[trigger] victim_ids(
                                    pre_store,
                                    deleted.take(dd - 1),
                                )[l] == id;
                            assert(victim_ids(pre_store, deleted.take(dd))[l] == id);
                        }
                    }
                    assert(id != vid) by {
                        assert(victim_ids(pre_store, deleted.take(dd))[dd - 1] == vid);
                    }
                    assert(mid_store.has_id(id));
                    assert(self.store.entry_of(id) == mid_store.entry_of(id)
                        && self.store.embedding_of(id) == mid_store.embedding_of(id));
                }
            }
        }
        proof {
            let k: int = sample_size as int;
            let sample: Seq<int> = idxs@.map_values(|u: usize| u as int);
            assert(deleted.take(m) =~= deleted);
            assert forall|v: int| 0 <= v < deleted.len() implies sample.contains(
                #[trigger] deleted[v],
            ) by {
                assert(cv.contains(rv[v]));
                let t = choose|t: int| 0 <= t < cv.len() && #[trigger] cv[t] == rv[v];
                assert(cv[t].1 == idxs@[t]);
                assert(sample[t] == idxs@[t] as int);
            }
            assert forall|v: int, jj: int|
                0 <= v < deleted.len() && 0 <= jj < sample.len() && !deleted.contains(
                    sample[jj],
                ) implies eviction_score_spec(pre_store.entry_at(deleted[v]), now as int)
                <= eviction_score_spec(pre_store.entry_at(sample[jj]), now as int) by {
                assert(!crate::rank::tags_of(rv).contains(idxs@[jj])) by {
                    if crate::rank::tags_of(rv).contains(idxs@[jj]) {
                        let l = choose|l: int|
                            0 <= l < rv.len() && #[trigger] crate::rank::tags_of(rv)[l] == idxs@[jj];
                        assert(deleted[l] == rv[l].1 as int);
                        assert(deleted.contains(sample[jj]));
                    }
                }
                assert(cv[jj].1 == idxs@[jj]);
                assert(rv[v].0 <= cv[jj].0);
            }
            assert(evict_rel(
                pre_store,
                self.store,
                count as int,
                now as int,
                sample,
                deleted,
            ));
            assert(pre_store == old(self).store_spec());
            assert(self.store == self.store_spec());
            assert(exists|now_w: int, sample_w: Seq<int>, victims_w: Seq<int>|
                evict_rel(
                    old(self).store_spec(),
                    self.store_spec(),
                    count as int,
                    now_w,
                    sample_w,
                    victims_w,
                ));
        }
        Ok(())
    }
}

/// A builder for [`MemoryCache`].
pub struct MemoryCacheBuilder {
    pub store: Option<InMemoryDB>,
    max_memory_limit: Option<u32>,
}

impl MemoryCacheBuilder {
    /// The store configured so far, if any.
    pub closed spec fn store_opt(&self) -> Option<InMemoryDB> {
        self.store
    }

    /// The soft capacity configured so far, if any.
    pub closed spec fn limit_opt(&self) -> Option<u32> {
        self.max_memory_limit
    }

    /// An empty builder.
    pub fn new() -> (r: Self)
        ensures
            r.store_opt() is None,
            r.limit_opt() is None,
    {
        MemoryCacheBuilder { store: None, max_memory_limit: None }
    }

    /// Configures the cache builder to use a pre-existing in-memory
    /// database.
    pub fn store(self, store: InMemoryDB) -> (r: Self)
        ensures
            r.store_opt() == Some(store),
            r.limit_opt() == self.limit_opt(),
    {
        MemoryCacheBuilder { store: Some(store), max_memory_limit: self.max_memory_limit }
    }

    /// Configures a manual soft capacity.
    pub fn max_memory_limit(self, limit: u32) -> (r: Self)
        ensures
            r.limit_opt() == Some(limit),
            r.store_opt() == self.store_opt(),
    {
        MemoryCacheBuilder { store: self.store, max_memory_limit: Some(limit) }
    }

    /// Build the [`MemoryCache`]. Returns an error if no store was
    /// provided; a missing capacity falls back to zero, so that every
    /// insert through the manager evicts first.
    pub fn build(self) -> (r: Result<MemoryCache, Error>)
        requires
            self.store_opt() matches Some(s) ==> s.wf(),
        ensures
            self.store_opt() is None ==> r is Err,
            self.store_opt() matches Some(s) ==> (r matches Ok(c) && c.wf() && c.store_spec() == s
                && c.limit_spec() == match self.limit_opt() {
                Some(l) => l,
                None => 0u32,
            } && c.stats_of().hits_spec() == 0 && c.stats_of().misses_spec() == 0),
    {
        let store = match self.store {
            Some(s) => s,
            None => {
                return Err(
                    Error::custom(
                        "Expected `store` to be present. You need to add an InMemoryDB to your memory cache builder.",
                    ),
                );
            },
        };
        let max_memory_limit = match self.max_memory_limit {
            Some(l) => l,
            None => 0,
        };
        Ok(MemoryCache { store, max_memory_limit, cache_stats: CacheStats::new() })
    }
}

impl Default for MemoryCacheBuilder {
    /// An empty builder.
    fn default() -> (r: Self)
        ensures
            r.store_opt() is None,
            r.limit_opt() is None,
    {
        MemoryCacheBuilder::new()
    }
}

} // verus!
