//! An in-memory vector store.
//!
//! Embeddings live in one long contiguous buffer, carved into `dim`-sized
//! slots. Each live entry owns exactly one slot; deleting an entry pushes
//! its slot onto a free list for reuse instead of compacting the buffer,
//! since shifting everything along would be prohibitively expensive at
//! scale. The store is exact and brute-force by design: similarity search
//! scans every live embedding.

use vstd::prelude::*;

use crate::error::{Error, StorageError};
use crate::memory::MemoryEntry;
use crate::storage::Storage;

verus! {

/// An in-memory vector store database, used to store embeddings.
///
/// `slots` pairs each live entry with the number of the buffer slot it
/// owns; `free_list` holds the slot numbers freed by deletion, available
/// for reuse. Slot `k` is the region `[k * dim, (k + 1) * dim)` of `data`.
pub struct InMemoryDB {
    /// The dimensionality of the contained embeddings.
    dim: usize,
    /// The embedding buffer.
    data: Vec<i16>,
    /// The live entries, each with the slot number it owns. Identifiers
    /// are unique across the vector.
    slots: Vec<(usize, MemoryEntry)>,
    /// Slot numbers freed by deletion: the bytes stay in the buffer,
    /// logically dead, until a future insert reuses the slot.
    free_list: Vec<usize>,
}

impl InMemoryDB {
    /// The configured dimensionality.
    pub closed spec fn dim_spec(&self) -> int {
        self.dim as int
    }

    /// The number of live entries.
    pub closed spec fn count_spec(&self) -> int {
        self.slots@.len() as int
    }

    /// The length of the embedding buffer.
    pub closed spec fn buffer_len(&self) -> int {
        self.data@.len() as int
    }

    /// The number of freed slots awaiting reuse.
    pub closed spec fn free_len(&self) -> int {
        self.free_list@.len() as int
    }

    /// The total number of slots the buffer is carved into.
    pub closed spec fn total_slots(&self) -> int {
        self.slots@.len() as int + self.free_list@.len() as int
    }

    /// The payload of the live entry at position `i`.
    pub closed spec fn entry_at(&self, i: int) -> MemoryEntry {
        self.slots@[i].1
    }

    /// The embedding owned by the live entry at position `i`.
    pub closed spec fn embedding_at(&self, i: int) -> Seq<i16> {
        self.data@.subrange(
            self.slots@[i].0 * self.dim_spec(),
            self.slots@[i].0 * self.dim_spec() + self.dim_spec(),
        )
    }

    /// Whether some live entry carries the identifier `id`.
    pub closed spec fn has_id(&self, id: Seq<char>) -> bool {
        exists|i: int| 0 <= i < self.count_spec() && self.entry_at(i).id@ == id
    }

    /// The position of the live entry carrying `id`; meaningful only when
    /// `has_id(id)` holds, since identifiers are unique.
    pub closed spec fn index_of(&self, id: Seq<char>) -> int {
        choose|i: int| 0 <= i < self.count_spec() && self.entry_at(i).id@ == id
    }

    /// The payload stored under `id`.
    pub open spec fn entry_of(&self, id: Seq<char>) -> MemoryEntry {
        self.entry_at(self.index_of(id))
    }

    /// The embedding stored under `id`.
    pub open spec fn embedding_of(&self, id: Seq<char>) -> Seq<i16> {
        self.embedding_at(self.index_of(id))
    }

    /// The store's internal invariant: a positive, bounded dimensionality;
    /// unique identifiers; every owned or freed slot number within the
    /// buffer, no slot owned twice or both owned and free; and the buffer
    /// exactly tiled by the slots.
    pub closed spec fn wf(&self) -> bool {
        &&& 1 <= self.dim <= 0x1_0000_0000
        &&& forall|i: int, j: int|
            0 <= i < j < self.slots@.len() ==> self.slots@[i].1.id@ != self.slots@[j].1.id@
        &&& forall|i: int| 0 <= i < self.slots@.len() ==> #[trigger] self.slots@[i].0 < self.total_slots()
        &&& forall|i: int|
            0 <= i < self.free_list@.len() ==> #[trigger] self.free_list@[i] < self.total_slots()
        &&& forall|i: int, j: int|
            0 <= i < j < self.slots@.len() ==> self.slots@[i].0 != self.slots@[j].0
        &&& forall|i: int, j: int|
            0 <= i < j < self.free_list@.len() ==> self.free_list@[i] != self.free_list@[j]
        &&& forall|i: int, j: int|
            0 <= i < self.slots@.len() && 0 <= j < self.free_list@.len() ==> self.slots@[i].0
                != self.free_list@[j]
        &&& self.data@.len() == self.dim_spec() * self.total_slots()
    }

    /// A live entry's embedding has the store's dimensionality.
    proof fn lemma_embedding_len(&self, i: int)
        requires
            self.wf(),
            0 <= i < self.count_spec(),
        ensures
            self.embedding_at(i).len() == self.dim_spec(),
    {
        lemma_slot_mul_bounds(self.dim_spec(), self.slots@[i].0 as int, self.total_slots());
    }

    /// The position of a live identifier is unique: a live position's
    /// identifier is found back at exactly that position.
    pub proof fn lemma_index_of_at(&self, i: int)
        requires
            self.wf(),
            0 <= i < self.count_spec(),
        ensures
            self.has_id(self.entry_at(i).id@),
            self.index_of(self.entry_at(i).id@) == i,
    {
        let id: Seq<char> = self.entry_at(i).id@;
        assert(self.has_id(id));
        let j: int = self.index_of(id);
        if j != i {
            assert(self.slots@[i].1.id@ != self.slots@[j].1.id@);
        }
    }

    /// A live identifier names a position: `index_of` lands inside the
    /// store, on an entry carrying exactly that identifier.
    pub proof fn lemma_has_id_index(&self, id: Seq<char>)
        requires
            self.wf(),
            self.has_id(id),
        ensures
            0 <= self.index_of(id) < self.count_spec(),
            self.entry_at(self.index_of(id)).id@ == id,
    {
    }

    /// Two live positions carrying the same identifier are the same
    /// position.
    pub(crate) proof fn lemma_same_id_same_index(&self, i: int, j: int)
        requires
            self.wf(),
            0 <= i < self.count_spec(),
            0 <= j < self.count_spec(),
            self.entry_at(i).id@ == self.entry_at(j).id@,
        ensures
            i == j,
    {
        if i != j {
            assert(self.slots@[i].1.id@ != self.slots@[j].1.id@ || self.slots@[j].1.id@
                != self.slots@[i].1.id@);
        }
    }

    /// Creates a store for embeddings of dimensionality `dim`.
    ///
    /// The dimensionality must be positive (the buffer is tiled by
    /// `dim`-sized slots) and small enough that exact similarity
    /// comparisons cannot overflow.
    pub fn new(dim: usize) -> (r: Self)
        requires
            1 <= dim <= 0x1_0000_0000,
        ensures
            r.wf(),
            r.dim_spec() == dim,
            r.count_spec() == 0,
            r.buffer_len() == 0,
            r.free_len() == 0,
            forall|id: Seq<char>| !r.has_id(id),
    {
        let r = InMemoryDB { dim, data: Vec::new(), slots: Vec::new(), free_list: Vec::new() };
        proof {
            assert(r.dim_spec() * r.total_slots() == 0) by (nonlinear_arith)
                requires
                    r.total_slots() == 0,
            {
            }
        }
        r
    }

    /// The position of the live entry carrying `id`, if any.
    fn find_index(&self, id: &String) -> (r: Option<usize>)
        requires
            self.wf(),
        ensures
            match r {
                Some(i) => i < self.count_spec() && self.entry_at(i as int).id@ == id@
                    && self.has_id(id@) && self.index_of(id@) == i,
                None => !self.has_id(id@),
            },
    {
        let mut i: usize = 0;
        while i < self.slots.len()
            invariant
                self.wf(),
                i <= self.slots@.len(),
                forall|j: int| 0 <= j < i ==> self.entry_at(j).id@ != id@,
            decreases self.slots@.len() - i,
        {
            if self.slots[i].1.id == *id {
                proof {
                    self.lemma_index_of_at(i as int);
                }
                return Some(i);
            }
            i = i + 1;
        }
        None
    }

    /// The length of the embedding buffer, in components. Deletions never
    /// shrink it; inserts grow it only when no freed slot can be reused.
    pub fn embedding_buffer_len(&self) -> (r: usize)
        ensures
            r == self.buffer_len(),
    {
        self.data.len()
    }

    /// The payload of the live entry at position `i`, for internal scans.
    pub(crate) fn entry_ref(&self, i: usize) -> (r: &MemoryEntry)
        requires
            self.wf(),
            i < self.count_spec(),
        ensures
            *r == self.entry_at(i as int),
    {
        &self.slots[i].1
    }

    /// Whether `p` is a stored pair: some live entry equals its payload
    /// field for field and owns exactly its embedding.
    pub open spec fn is_live_pair(&self, p: (Seq<i16>, MemoryEntry)) -> bool {
        exists|i: int|
            0 <= i < self.count_spec() && p.1.eqv(#[trigger] self.entry_at(i)) && p.0
                == self.embedding_at(i)
    }

    /// What a ranked similarity search guarantees: as many results as there
    /// are entries, up to `limit`; every result a stored pair; no identifier
    /// twice; results ordered from most to least similar; and no stored
    /// entry left out that ranks above any returned one.
    pub open spec fn search_post(
        pre: Self,
        q: Seq<i16>,
        limit: int,
        res: Seq<(Seq<i16>, MemoryEntry)>,
    ) -> bool {
        &&& res.len() == if limit <= pre.count_spec() {
            limit
        } else {
            pre.count_spec()
        }
        &&& forall|k: int| 0 <= k < res.len() ==> pre.is_live_pair(#[trigger] res[k])
        &&& forall|k: int, l: int| 0 <= k < l < res.len() ==> res[k].1.id@ != res[l].1.id@
        &&& forall|k: int, l: int|
            0 <= k < l < res.len() ==> crate::sim::sim_le_v(q, res[l].0, res[k].0)
        &&& forall|i: int, k: int|
            0 <= i < pre.count_spec() && 0 <= k < res.len() && !res_has_id(
                res,
                pre.entry_at(i).id@,
            ) ==> crate::sim::sim_le_v(q, pre.embedding_at(i), res[k].0)
    }

    /// What an oldest-first scan guarantees: stored pairs, distinct
    /// identifiers, creation times ascending, and nothing older left out.
    pub open spec fn oldest_post(pre: Self, limit: int, res: Seq<(Seq<i16>, MemoryEntry)>) -> bool {
        &&& res.len() == if limit <= pre.count_spec() {
            limit
        } else {
            pre.count_spec()
        }
        &&& forall|k: int| 0 <= k < res.len() ==> pre.is_live_pair(#[trigger] res[k])
        &&& forall|k: int, l: int| 0 <= k < l < res.len() ==> res[k].1.id@ != res[l].1.id@
        &&& forall|k: int, l: int|
            0 <= k < l < res.len() ==> res[k].1.created_at <= res[l].1.created_at
        &&& forall|i: int, k: int|
            0 <= i < pre.count_spec() && 0 <= k < res.len() && !res_has_id(
                res,
                pre.entry_at(i).id@,
            ) ==> pre.entry_at(i).created_at >= res[k].1.created_at
    }

    /// What a most-recent-first scan guarantees: stored pairs, distinct
    /// identifiers, creation times descending, and nothing newer left out.
    pub open spec fn recent_post(pre: Self, limit: int, res: Seq<(Seq<i16>, MemoryEntry)>) -> bool {
        &&& res.len() == if limit <= pre.count_spec() {
            limit
        } else {
            pre.count_spec()
        }
        &&& forall|k: int| 0 <= k < res.len() ==> pre.is_live_pair(#[trigger] res[k])
        &&& forall|k: int, l: int| 0 <= k < l < res.len() ==> res[k].1.id@ != res[l].1.id@
        &&& forall|k: int, l: int|
            0 <= k < l < res.len() ==> res[k].1.created_at >= res[l].1.created_at
        &&& forall|i: int, k: int|
            0 <= i < pre.count_spec() && 0 <= k < res.len() && !res_has_id(
                res,
                pre.entry_at(i).id@,
            ) ==> pre.entry_at(i).created_at <= res[k].1.created_at
    }

    /// What insertion guarantees when the embedding has the right length:
    /// the pair is stored under the entry's identifier, every other entry
    /// is untouched, and the buffer grows only when no freed slot could be
    /// reused.
    pub open spec fn insert_ok_post(pre: Self, post: Self, emb: Seq<i16>, entry: MemoryEntry) -> bool {
        &&& post.wf()
        &&& post.dim_spec() == pre.dim_spec()
        &&& post.has_id(entry.id@)
        &&& post.entry_of(entry.id@) == entry
        &&& post.embedding_of(entry.id@) == emb
        &&& forall|id2: Seq<char>|
            id2 != entry.id@ ==> (#[trigger] post.has_id(id2) <==> pre.has_id(id2))
        &&& forall|id2: Seq<char>|
            id2 != entry.id@ && pre.has_id(id2) ==> #[trigger] post.entry_of(id2) == pre.entry_of(
                id2,
            ) && post.embedding_of(id2) == pre.embedding_of(id2)
        &&& post.count_spec() == pre.count_spec() + (if pre.has_id(entry.id@) {
            0int
        } else {
            1int
        })
        &&& post.buffer_len() == pre.buffer_len() + (
        if pre.has_id(entry.id@) || pre.free_len() > 0 {
            0int
        } else {
            pre.dim_spec()
        })
        &&& post.free_len() == (if pre.has_id(entry.id@) {
            pre.free_len()
        } else if pre.free_len() > 0 {
            pre.free_len() - 1
        } else {
            0int
        })
    }

    /// What a successful deletion guarantees: the identifier is gone, its
    /// slot joined the free list, the buffer kept its length, and every
    /// other entry is untouched.
    pub open spec fn delete_ok_post(pre: Self, post: Self, id: Seq<char>) -> bool {
        &&& post.wf()
        &&& post.dim_spec() == pre.dim_spec()
        &&& !post.has_id(id)
        &&& forall|id2: Seq<char>| id2 != id ==> (#[trigger] post.has_id(id2) <==> pre.has_id(id2))
        &&& forall|id2: Seq<char>|
            id2 != id && pre.has_id(id2) ==> #[trigger] post.entry_of(id2) == pre.entry_of(id2)
                && post.embedding_of(id2) == pre.embedding_of(id2)
        &&& post.count_spec() == pre.count_spec() - 1
        &&& post.buffer_len() == pre.buffer_len()
        &&& post.free_len() == pre.free_len() + 1
    }
}


/// A slot number below the total owns a region inside the buffer.
proof fn lemma_slot_mul_bounds(d: int, s: int, total: int)
    requires
        1 <= d,
        0 <= s < total,
    ensures
        0 <= s * d,
        s * d + d <= d * total,
{
    assert(0 <= s * d && s * d + d <= total * d) by (nonlinear_arith)
        requires
            1 <= d,
            0 <= s < total,
    {
    }
    assert(total * d == d * total) by (nonlinear_arith) {
    }
}

/// Distinct slot numbers own disjoint regions of the buffer.
proof fn lemma_regions_disjoint(d: int, s: int, t: int)
    requires
        1 <= d,
        0 <= s,
        0 <= t,
        s != t,
    ensures
        s * d + d <= t * d || t * d + d <= s * d,
{
    assert((s < t ==> s * d + d <= t * d) && (t < s ==> t * d + d <= s * d)) by (nonlinear_arith)
        requires
            d >= 1,
    {
    }
}

/// Copies `src` over the region of `data` that starts at `off`.
fn copy_region(data: &mut Vec<i16>, off: usize, src: &Vec<i16>)
    requires
        off + src.len() <= old(data).len(),
    ensures
        final(data)@.len() == old(data)@.len(),
        final(data)@.subrange(off as int, off + src@.len()) == src@,
        forall|k: int|
            0 <= k < old(data)@.len() && !(off <= k < off + src@.len()) ==> final(data)@[k] == old(
                data,
            )@[k],
{
    let mut j: usize = 0;
    while j < src.len()
        invariant
            off + src@.len() <= data@.len(),
            data@.len() <= usize::MAX,
            data@.len() == old(data)@.len(),
            j <= src@.len(),
            forall|k: int| off <= k < off + j ==> data@[k] == src@[k - off],
            forall|k: int|
                0 <= k < data@.len() && !(off <= k < off + src@.len()) ==> data@[k] == old(
                    data,
                )@[k],
        decreases src@.len() - j,
    {
        let v: i16 = src[j];
        data[off + j] = v;
        j = j + 1;
    }
    proof {
        assert(data@.subrange(off as int, off + src@.len()) =~= src@);
    }
}

/// Copies the `len`-sized region of `data` that starts at `off` into a
/// fresh vector.
fn region_vec(data: &Vec<i16>, off: usize, len: usize) -> (r: Vec<i16>)
    requires
        off + len <= data.len(),
    ensures
        r@ == data@.subrange(off as int, off + len),
{
    let mut out: Vec<i16> = Vec::new();
    let mut j: usize = 0;
    while j < len
        invariant
            off + len <= data@.len(),
            data@.len() <= usize::MAX,
            j <= len,
            out@.len() == j,
            forall|k: int| 0 <= k < j ==> out@[k] == data@[off + k],
        decreases len - j,
    {
        let v: i16 = data[off + j];
        out.push(v);
        j = j + 1;
    }
    proof {
        assert(out@ =~= data@.subrange(off as int, off + len));
    }
    out
}


/// The identifier views of a sequence of identifier strings.
pub open spec fn id_views(ids: Seq<String>) -> Seq<Seq<char>> {
    ids.map_values(|s: String| s@)
}

/// The view of a result vector: each embedding by its contents.
pub open spec fn pairs_view(v: Seq<(Vec<i16>, MemoryEntry)>) -> Seq<(Seq<i16>, MemoryEntry)> {
    v.map_values(|p: (Vec<i16>, MemoryEntry)| (p.0@, p.1))
}

/// Whether some result pair carries the identifier `id`.
pub open spec fn res_has_id(res: Seq<(Seq<i16>, MemoryEntry)>, id: Seq<char>) -> bool {
    exists|k: int| 0 <= k < res.len() && (#[trigger] res[k]).1.id@ == id
}

impl InMemoryDB {
    /// Whether a batch of identifiers can be deleted in order: each one is
    /// present and none repeats another.
    pub open spec fn batch_ok(pre: Self, ids: Seq<Seq<char>>) -> bool {
        &&& forall|j: int| 0 <= j < ids.len() ==> #[trigger] pre.has_id(ids[j])
        &&& forall|l: int, j: int| 0 <= l < j < ids.len() ==> ids[l] != ids[j]
    }

    /// How a batch deletion that failed stopped: the identifiers before
    /// position `k` were deletable and are exactly the ones now gone, the
    /// identifier at `k` was not deletable at its turn — absent, or a
    /// repeat of an earlier one — and is the one the error names.
    pub open spec fn batch_stopped_at(
        pre: Self,
        post: Self,
        ids: Seq<Seq<char>>,
        reported: Seq<char>,
        k: int,
    ) -> bool {
        &&& 0 <= k < ids.len()
        &&& Self::batch_ok(pre, ids.take(k))
        &&& !(pre.has_id(ids[k]) && !ids.take(k).contains(ids[k]))
        &&& reported == ids[k]
        &&& forall|id2: Seq<char>| #[trigger]
            post.has_id(id2) <==> (pre.has_id(id2) && !ids.take(k).contains(id2))
        &&& forall|id2: Seq<char>|
            pre.has_id(id2) && !ids.take(k).contains(id2) ==> #[trigger] post.entry_of(id2)
                == pre.entry_of(id2) && post.embedding_of(id2) == pre.embedding_of(id2)
        &&& post.count_spec() == pre.count_spec() - k
        &&& post.free_len() == pre.free_len() + k
    }
}

impl Storage for InMemoryDB {
    /// The backend invariant is the store's well-formedness.
    open spec fn inv(&self) -> bool {
        self.wf()
    }

    /// Rejects an embedding of the wrong length with `MismatchedDimensions`
    /// and leaves the store untouched; otherwise stores the pair under the
    /// entry's identifier, reusing a freed slot when one exists and growing
    /// the buffer only when none does. Re-inserting an existing identifier
    /// replaces that entry's embedding and payload in place, keeping its
    /// slot: an upsert, never a leaked slot.
    fn insert(&mut self, embedding: Vec<i16>, entry: MemoryEntry) -> (r: Result<(), Error>)
        ensures
            final(self).dim_spec() == old(self).dim_spec(),
            embedding@.len() != old(self).dim_spec() ==> (r matches Err(Error::Storage(
                StorageError::MismatchedDimensions(want, got),
            )) && want == old(self).dim_spec() && got == embedding@.len() && *final(self) == *old(self)),
            embedding@.len() == old(self).dim_spec() ==> r is Ok && Self::insert_ok_post(
                *old(self),
                *final(self),
                embedding@,
                entry,
            ),
    {
        if embedding.len() != self.dim {
            return Err(
                Error::Storage(StorageError::mismatched_dimensions(self.dim, embedding.len())),
            );
        }
        let idx_opt = self.find_index(&entry.id);
        let ghost entry_id: Seq<char> = entry.id@;
        match idx_opt {
            Some(i) => {
                let s_no = self.slots[i].0;
                proof {
                    lemma_slot_mul_bounds(
                        old(self).dim_spec(),
                        s_no as int,
                        old(self).total_slots(),
                    );
                    assert(self.data.len() == self.data@.len());
                }
                let off = s_no * self.dim;
                copy_region(&mut self.data, off, &embedding);
                self.slots[i] = (s_no, entry);
                proof {
                    let pre = *old(self);
                    let post = *self;
                    let d: int = pre.dim_spec();
                    let ii: int = i as int;
                    assert forall|a: int, b: int|
                        0 <= a < b < post.slots@.len() implies post.slots@[a].1.id@
                        != post.slots@[b].1.id@ by {
                        assert(post.slots@[a].1.id@ == pre.slots@[a].1.id@);
                        assert(post.slots@[b].1.id@ == pre.slots@[b].1.id@);
                    }
                    assert(post.wf());
                    assert forall|j: int|
                        0 <= j < post.slots@.len() && j != ii implies #[trigger] post.embedding_at(
                        j,
                    ) == pre.embedding_at(j) by {
                        lemma_regions_disjoint(d, pre.slots@[j].0 as int, s_no as int);
                        lemma_slot_mul_bounds(d, pre.slots@[j].0 as int, pre.total_slots());
                        assert(post.embedding_at(j) =~= pre.embedding_at(j));
                    }
                    assert(post.embedding_at(ii) =~= embedding@);
                    post.lemma_index_of_at(ii);
                    assert(post.has_id(entry_id));
                    assert(post.entry_of(entry_id) == entry);
                    assert(post.embedding_of(entry_id) == embedding@);
                    assert forall|id2: Seq<char>|
                        id2 != entry_id implies (#[trigger] post.has_id(id2) <==> pre.has_id(
                        id2,
                    )) by {
                        if pre.has_id(id2) {
                            let j = pre.index_of(id2);
                            assert(post.entry_at(j).id@ == id2);
                            assert(post.has_id(id2));
                        }
                        if post.has_id(id2) {
                            let j = post.index_of(id2);
                            assert(pre.entry_at(j).id@ == id2);
                            assert(pre.has_id(id2));
                        }
                    }
                    assert forall|id2: Seq<char>|
                        id2 != entry_id && pre.has_id(id2) implies #[trigger] post.entry_of(id2)
                        == pre.entry_of(id2) && post.embedding_of(id2) == pre.embedding_of(
                        id2,
                    ) by {
                        let j = pre.index_of(id2);
                        pre.lemma_index_of_at(j);
                        assert(j != ii);
                        post.lemma_index_of_at(j);
                    }
                    assert(Self::insert_ok_post(pre, post, embedding@, entry));
                }
                Ok(())
            },
            None => {
                let popped = self.free_list.pop();
                match popped {
                    Some(s_no) => {
                        proof {
                            assert(old(self).free_list@[old(self).free_list@.len() - 1] == s_no);
                            lemma_slot_mul_bounds(
                                old(self).dim_spec(),
                                s_no as int,
                                old(self).total_slots(),
                            );
                            assert(self.data.len() == self.data@.len());
                        }
                        let off = s_no * self.dim;
                        copy_region(&mut self.data, off, &embedding);
                        self.slots.push((s_no, entry));
                        proof {
                            let pre = *old(self);
                            let post = *self;
                            let d: int = pre.dim_spec();
                            let c: int = pre.slots@.len() as int;
                            assert(post.slots@ == pre.slots@.push((s_no, entry)));
                            assert(post.free_list@ == pre.free_list@.subrange(
                                0,
                                pre.free_list@.len() - 1,
                            ));
                            assert(post.total_slots() == pre.total_slots());
                            assert forall|a: int, b: int|
                                0 <= a < b < post.slots@.len() implies post.slots@[a].1.id@
                                != post.slots@[b].1.id@ by {
                                if b < c {
                                } else {
                                    assert(post.slots@[b].1.id@ == entry_id);
                                    assert(pre.entry_at(a).id@ != entry_id);
                                }
                            }
                            assert(post.wf());
                            assert forall|j: int|
                                0 <= j < c implies #[trigger] post.embedding_at(j)
                                == pre.embedding_at(j) by {
                                lemma_regions_disjoint(d, pre.slots@[j].0 as int, s_no as int);
                                lemma_slot_mul_bounds(d, pre.slots@[j].0 as int, pre.total_slots());
                                assert(post.embedding_at(j) =~= pre.embedding_at(j));
                            }
                            assert(post.embedding_at(c) =~= embedding@);
                            post.lemma_index_of_at(c);
                            assert forall|id2: Seq<char>|
                                id2 != entry_id implies (#[trigger] post.has_id(id2)
                                <==> pre.has_id(id2)) by {
                                if pre.has_id(id2) {
                                    let j = pre.index_of(id2);
                                    assert(post.entry_at(j).id@ == id2);
                                }
                                if post.has_id(id2) {
                                    let j = post.index_of(id2);
                                    assert(j != c);
                                    assert(pre.entry_at(j).id@ == id2);
                                }
                            }
                            assert forall|id2: Seq<char>|
                                id2 != entry_id && pre.has_id(id2) implies #[trigger] post.entry_of(
                                id2,
                            ) == pre.entry_of(id2) && post.embedding_of(id2) == pre.embedding_of(
                                id2,
                            ) by {
                                let j = pre.index_of(id2);
                                pre.lemma_index_of_at(j);
                                post.lemma_index_of_at(j);
                            }
                            assert(Self::insert_ok_post(pre, post, embedding@, entry));
                        }
                        Ok(())
                    },
                    None => {
                        let s_no = self.slots.len();
                        append_copy(&mut self.data, &embedding);
                        self.slots.push((s_no, entry));
                        proof {
                            let pre = *old(self);
                            let post = *self;
                            let d: int = pre.dim_spec();
                            let c: int = pre.slots@.len() as int;
                            assert(pre.free_list@.len() == 0);
                            assert(post.total_slots() == pre.total_slots() + 1);
                            assert(d * post.total_slots() == d * pre.total_slots() + d)
                                by (nonlinear_arith)
                                requires
                                    post.total_slots() == pre.total_slots() + 1,
                            {
                            }
                            assert(pre.data@.len() == d * pre.total_slots());
                            assert(c * d == d * c) by (nonlinear_arith) {
                            }
                            assert(pre.total_slots() == c);
                            assert forall|a: int, b: int|
                                0 <= a < b < post.slots@.len() implies post.slots@[a].1.id@
                                != post.slots@[b].1.id@ by {
                                if b < c {
                                } else {
                                    assert(post.slots@[b].1.id@ == entry_id);
                                    assert(pre.entry_at(a).id@ != entry_id);
                                }
                            }
                            assert(post.wf());
                            assert forall|j: int|
                                0 <= j < c implies #[trigger] post.embedding_at(j)
                                == pre.embedding_at(j) by {
                                lemma_slot_mul_bounds(d, pre.slots@[j].0 as int, pre.total_slots());
                                assert(post.embedding_at(j) =~= pre.embedding_at(j));
                            }
                            assert(post.embedding_at(c) =~= embedding@);
                            post.lemma_index_of_at(c);
                            assert forall|id2: Seq<char>|
                                id2 != entry_id implies (#[trigger] post.has_id(id2)
                                <==> pre.has_id(id2)) by {
                                if pre.has_id(id2) {
                                    let j = pre.index_of(id2);
                                    assert(post.entry_at(j).id@ == id2);
                                }
                                if post.has_id(id2) {
                                    let j = post.index_of(id2);
                                    assert(j != c);
                                    assert(pre.entry_at(j).id@ == id2);
                                }
                            }
                            assert forall|id2: Seq<char>|
                                id2 != entry_id && pre.has_id(id2) implies #[trigger] post.entry_of(
                                id2,
                            ) == pre.entry_of(id2) && post.embedding_of(id2) == pre.embedding_of(
                                id2,
                            ) by {
                                let j = pre.index_of(id2);
                                pre.lemma_index_of_at(j);
                                post.lemma_index_of_at(j);
                            }
                            assert(Self::insert_ok_post(pre, post, embedding@, entry));
                        }
                        Ok(())
                    },
                }
            },
        }
    }

    /// Ranks every live entry by exact cosine-order similarity to the
    /// query and returns the best `limit` pairs, most similar first; ties
    /// fall in an arbitrary order. The query must have the store's
    /// dimensionality, else `MismatchedDimensions`.
    fn search(&self, embedding: Vec<i16>, limit: usize) -> (r: Result<
        Vec<(Vec<i16>, MemoryEntry)>,
        Error,
    >)
        ensures
            embedding@.len() != self.dim_spec() ==> (r matches Err(Error::Storage(
                StorageError::MismatchedDimensions(want, got),
            )) && want == self.dim_spec() && got == embedding@.len()),
            embedding@.len() == self.dim_spec() ==> (r matches Ok(v) && Self::search_post(
                *self,
                embedding@,
                limit as int,
                pairs_view(v@),
            )),
    {
        if embedding.len() != self.dim {
            return Err(
                Error::Storage(StorageError::mismatched_dimensions(self.dim, embedding.len())),
            );
        }
        let mut cands: Vec<(i128, u128, usize, (Vec<i16>, MemoryEntry))> = Vec::new();
        let mut i: usize = 0;
        while i < self.slots.len()
            invariant
                self.wf(),
                embedding@.len() == self.dim_spec(),
                i <= self.count_spec(),
                cands@.len() == i,
                forall|k: int|
                    0 <= k < i ==> (#[trigger] cands@[k]).2 == k && cands@[k].0 == crate::sim::dot(
                        embedding@,
                        self.embedding_at(k),
                    ) && cands@[k].1 == crate::sim::dot(
                        self.embedding_at(k),
                        self.embedding_at(k),
                    ) && cands@[k].3.0@ == self.embedding_at(k) && cands@[k].3.1.eqv(
                        self.entry_at(k),
                    ) && crate::sim::rank_inv(cands@[k].0 as int, cands@[k].1 as int)
                        && -0x7fff_ffff_ffff_ffff <= cands@[k].0 <= 0x7fff_ffff_ffff_ffff,
            decreases self.count_spec() - i,
        {
            let s_no = self.slots[i].0;
            proof {
                lemma_slot_mul_bounds(self.dim_spec(), s_no as int, self.total_slots());
                assert(self.data.len() == self.data@.len());
            }
            let off = s_no * self.dim;
            let emb = region_vec(&self.data, off, self.dim);
            let d = crate::sim::dot_vv(&embedding, &emb);
            let n_signed = crate::sim::dot_vv(&emb, &emb);
            proof {
                crate::sim::lemma_dot_self_nonneg(emb@);
                crate::sim::lemma_rank_inv(embedding@, emb@);
            }
            let n = n_signed as u128;
            let ent = self.slots[i].1.clone();
            cands.push((d, n, i, (emb, ent)));
            i = i + 1;
        }
        let ghost cv = cands@;
        let ranked = crate::rank::rank_take_sim(cands, limit);
        let ghost rv = ranked@;
        let out = extract_pairs_sim(ranked);
        proof {
            let pre = *self;
            let q = embedding@;
            let res = pairs_view(out@);
            assert(res.len() == rv.len());
            assert forall|k: int| 0 <= k < res.len() implies pre.is_live_pair(#[trigger] res[k])
                && rv[k].2 < pre.count_spec() && res[k].1.id@ == pre.entry_at(rv[k].2 as int).id@
                && res[k].0 == pre.embedding_at(rv[k].2 as int) && rv[k].0 == crate::sim::dot(
                q,
                pre.embedding_at(rv[k].2 as int),
            ) && rv[k].1 == crate::sim::dot(
                pre.embedding_at(rv[k].2 as int),
                pre.embedding_at(rv[k].2 as int),
            ) by {
                assert(cv.contains(rv[k]));
                let j = choose|j: int| 0 <= j < cv.len() && #[trigger] cv[j] == rv[k];
                assert(cv[j].2 == j);
                assert(res[k] == (rv[k].3.0@, rv[k].3.1));
                assert(pre.is_live_pair(res[k]));
            }
            assert forall|k: int, l: int| 0 <= k < l < res.len() implies res[k].1.id@
                != res[l].1.id@ by {
                assert(rv[k].2 != rv[l].2);
            }
            assert forall|k: int, l: int| 0 <= k < l < res.len() implies crate::sim::sim_le_v(
                q,
                res[l].0,
                res[k].0,
            ) by {
                assert(crate::sim::sim_le(
                    rv[l].0 as int,
                    rv[l].1 as int,
                    rv[k].0 as int,
                    rv[k].1 as int,
                ));
            }
            assert forall|i2: int, k: int|
                0 <= i2 < pre.count_spec() && 0 <= k < res.len() && !res_has_id(
                    res,
                    pre.entry_at(i2).id@,
                ) implies crate::sim::sim_le_v(q, pre.embedding_at(i2), res[k].0) by {
                assert(!crate::rank::sim_tags_of(rv).contains(i2 as usize)) by {
                    if crate::rank::sim_tags_of(rv).contains(i2 as usize) {
                        let m = choose|m: int|
                            0 <= m < rv.len() && #[trigger] crate::rank::sim_tags_of(rv)[m] == i2 as usize;
                        assert(rv[m].2 == i2 as usize);
                        assert(res[m].1.id@ == pre.entry_at(i2).id@);
                        assert(res_has_id(res, pre.entry_at(i2).id@));
                    }
                }
                assert(cv[i2].2 == i2 as usize);
                assert(crate::sim::sim_le(
                    cv[i2].0 as int,
                    cv[i2].1 as int,
                    rv[k].0 as int,
                    rv[k].1 as int,
                ));
            }
            assert(Self::search_post(pre, q, limit as int, res));
        }
        Ok(out)
    }

    /// Returns the stored `(embedding, entry)` pair for `id`, exactly as
    /// inserted, or `EmbeddingNotExists` if the identifier is not live.
    fn search_by_id(&self, id: String) -> (r: Result<(Vec<i16>, MemoryEntry), Error>)
        ensures
            !self.has_id(id@) ==> (r matches Err(Error::Storage(
                StorageError::EmbeddingNotExists(m),
            )) && m@ == id@),
            self.has_id(id@) ==> (r matches Ok(p) && p.0@ == self.embedding_of(id@) && p.1.eqv(
                self.entry_of(id@),
            )),
    {
        match self.find_index(&id) {
            None => Err(Error::Storage(StorageError::EmbeddingNotExists(id))),
            Some(i) => {
                let s_no = self.slots[i].0;
                proof {
                    lemma_slot_mul_bounds(self.dim_spec(), s_no as int, self.total_slots());
                    assert(self.data.len() == self.data@.len());
                }
                let off = s_no * self.dim;
                let emb = region_vec(&self.data, off, self.dim);
                let ent = self.slots[i].1.clone();
                Ok((emb, ent))
            },
        }
    }

    /// Scans every payload and returns up to `limit` pairs with the
    /// latest creation times, most recent first.
    fn get_recent(&self, limit: usize) -> (r: Result<Vec<(Vec<i16>, MemoryEntry)>, Error>)
        ensures
            r matches Ok(v) && Self::recent_post(*self, limit as int, pairs_view(v@)),
    {
        let mut cands: Vec<(i128, usize, (Vec<i16>, MemoryEntry))> = Vec::new();
        let mut i: usize = 0;
        while i < self.slots.len()
            invariant
                self.wf(),
                i <= self.count_spec(),
                cands@.len() == i,
                forall|k: int|
                    0 <= k < i ==> (#[trigger] cands@[k]).1 == k && cands@[k].0 == -(self.entry_at(k).created_at as int)
                        && cands@[k].2.0@ == self.embedding_at(k) && cands@[k].2.1.eqv(
                        self.entry_at(k),
                    ),
            decreases self.count_spec() - i,
        {
            let s_no = self.slots[i].0;
            proof {
                lemma_slot_mul_bounds(self.dim_spec(), s_no as int, self.total_slots());
                assert(self.data.len() == self.data@.len());
            }
            let off = s_no * self.dim;
            let emb = region_vec(&self.data, off, self.dim);
            let ent = self.slots[i].1.clone();
            let key: i128 = -(ent.created_at as i128);
            cands.push((key, i, (emb, ent)));
            i = i + 1;
        }
        let ghost cv = cands@;
        let ranked = crate::rank::rank_take(cands, limit);
        let ghost rv = ranked@;
        let out = extract_pairs(ranked);
        proof {
            let pre = *self;
            let res = pairs_view(out@);
            assert(res.len() == rv.len());
            assert forall|k: int| 0 <= k < res.len() implies pre.is_live_pair(#[trigger] res[k])
                && rv[k].1 < pre.count_spec() && res[k].1.id@ == pre.entry_at(rv[k].1 as int).id@
                && res[k].1.created_at == pre.entry_at(rv[k].1 as int).created_at && rv[k].0
                == -(pre.entry_at(rv[k].1 as int).created_at as int) by {
                assert(cv.contains(rv[k]));
                let j = choose|j: int| 0 <= j < cv.len() && #[trigger] cv[j] == rv[k];
                assert(cv[j].1 == j);
                assert(res[k] == (rv[k].2.0@, rv[k].2.1));
                assert(pre.is_live_pair(res[k]));
            }
            assert forall|k: int, l: int| 0 <= k < l < res.len() implies res[k].1.id@
                != res[l].1.id@ by {
                assert(rv[k].1 != rv[l].1);
            }
            assert forall|i2: int, k: int|
                0 <= i2 < pre.count_spec() && 0 <= k < res.len() && !res_has_id(
                    res,
                    pre.entry_at(i2).id@,
                ) implies pre.entry_at(i2).created_at <= res[k].1.created_at by {
                assert(!crate::rank::tags_of(rv).contains(i2 as usize)) by {
                    if crate::rank::tags_of(rv).contains(i2 as usize) {
                        let m = choose|m: int|
                            0 <= m < rv.len() && #[trigger] crate::rank::tags_of(rv)[m] == i2 as usize;
                        assert(rv[m].1 == i2 as usize);
                        assert(res[m].1.id@ == pre.entry_at(i2).id@);
                        assert(res_has_id(res, pre.entry_at(i2).id@));
                    }
                }
                assert(cv[i2].1 == i2 as usize);
                assert(rv[k].0 <= cv[i2].0);
            }
            assert(Self::recent_post(pre, limit as int, res));
        }
        Ok(out)
    }

    /// Scans every payload and returns up to `limit` pairs with the
    /// earliest creation times, oldest first.
    fn get_oldest(&self, limit: usize) -> (r: Result<Vec<(Vec<i16>, MemoryEntry)>, Error>)
        ensures
            r matches Ok(v) && Self::oldest_post(*self, limit as int, pairs_view(v@)),
    {
        let mut cands: Vec<(i128, usize, (Vec<i16>, MemoryEntry))> = Vec::new();
        let mut i: usize = 0;
        while i < self.slots.len()
            invariant
                self.wf(),
                i <= self.count_spec(),
                cands@.len() == i,
                forall|k: int|
                    0 <= k < i ==> (#[trigger] cands@[k]).1 == k && cands@[k].0 == self.entry_at(k).created_at as int
                        && cands@[k].2.0@ == self.embedding_at(k) && cands@[k].2.1.eqv(
                        self.entry_at(k),
                    ),
            decreases self.count_spec() - i,
        {
            let s_no = self.slots[i].0;
            proof {
                lemma_slot_mul_bounds(self.dim_spec(), s_no as int, self.total_slots());
                assert(self.data.len() == self.data@.len());
            }
            let off = s_no * self.dim;
            let emb = region_vec(&self.data, off, self.dim);
            let ent = self.slots[i].1.clone();
            let key: i128 = ent.created_at as i128;
            cands.push((key, i, (emb, ent)));
            i = i + 1;
        }
        let ghost cv = cands@;
        let ranked = crate::rank::rank_take(cands, limit);
        let ghost rv = ranked@;
        let out = extract_pairs(ranked);
        proof {
            let pre = *self;
            let res = pairs_view(out@);
            assert(res.len() == rv.len());
            assert forall|k: int| 0 <= k < res.len() implies pre.is_live_pair(#[trigger] res[k])
                && rv[k].1 < pre.count_spec() && res[k].1.id@ == pre.entry_at(rv[k].1 as int).id@
                && res[k].1.created_at == pre.entry_at(rv[k].1 as int).created_at && rv[k].0
                == pre.entry_at(rv[k].1 as int).created_at as int by {
                assert(cv.contains(rv[k]));
                let j = choose|j: int| 0 <= j < cv.len() && #[trigger] cv[j] == rv[k];
                assert(cv[j].1 == j);
                assert(res[k] == (rv[k].2.0@, rv[k].2.1));
                assert(pre.is_live_pair(res[k]));
            }
            assert forall|k: int, l: int| 0 <= k < l < res.len() implies res[k].1.id@
                != res[l].1.id@ by {
                assert(rv[k].1 != rv[l].1);
            }
            assert forall|i2: int, k: int|
                0 <= i2 < pre.count_spec() && 0 <= k < res.len() && !res_has_id(
                    res,
                    pre.entry_at(i2).id@,
                ) implies pre.entry_at(i2).created_at >= res[k].1.created_at by {
                assert(!crate::rank::tags_of(rv).contains(i2 as usize)) by {
                    if crate::rank::tags_of(rv).contains(i2 as usize) {
                        let m = choose|m: int|
                            0 <= m < rv.len() && #[trigger] crate::rank::tags_of(rv)[m] == i2 as usize;
                        assert(rv[m].1 == i2 as usize);
                        assert(res[m].1.id@ == pre.entry_at(i2).id@);
                        assert(res_has_id(res, pre.entry_at(i2).id@));
                    }
                }
                assert(cv[i2].1 == i2 as usize);
                assert(rv[k].0 <= cv[i2].0);
            }
            assert(Self::oldest_post(pre, limit as int, res));
        }
        Ok(out)
    }

    /// Removes the entry and returns its slot to the free list; the
    /// embedding bytes are left in place, logically dead, until a future
    /// insert reuses the slot. An absent identifier is `EmbeddingNotExists`.
    fn delete(&mut self, id: String) -> (r: Result<(), Error>)
        ensures
            !old(self).has_id(id@) ==> (r matches Err(Error::Storage(
                StorageError::EmbeddingNotExists(m),
            )) && m@ == id@ && *final(self) == *old(self)),
            old(self).has_id(id@) ==> r is Ok && Self::delete_ok_post(*old(self), *final(self), id@),
    {
        let idx_opt = self.find_index(&id);
        match idx_opt {
            None => Err(Error::Storage(StorageError::EmbeddingNotExists(id))),
            Some(i) => {
                let s_no = self.slots[i].0;
                let removed = self.slots.remove(i);
                self.free_list.push(s_no);
                proof {
                    let pre = *old(self);
                    let post = *self;
                    let d: int = pre.dim_spec();
                    let ii: int = i as int;
                    let c: int = pre.slots@.len() as int;
                    assert(post.slots@ == pre.slots@.remove(ii));
                    assert(post.total_slots() == pre.total_slots());
                    assert forall|j: int| 0 <= j < c - 1 implies post.slots@[j] == pre.slots@[
                        if j < ii {
                            j
                        } else {
                            j + 1
                        }
                    ] by {}
                    assert(post.wf());
                    assert forall|j: int|
                        0 <= j < c - 1 implies #[trigger] post.embedding_at(j) == pre.embedding_at(
                        if j < ii {
                            j
                        } else {
                            j + 1
                        },
                    ) by {
                        assert(post.embedding_at(j) =~= pre.embedding_at(
                            if j < ii {
                                j
                            } else {
                                j + 1
                            },
                        ));
                    }
                    assert(!post.has_id(id@)) by {
                        if post.has_id(id@) {
                            let j = post.index_of(id@);
                            let jp: int = if j < ii {
                                j
                            } else {
                                j + 1
                            };
                            assert(pre.entry_at(jp).id@ == id@);
                            pre.lemma_index_of_at(jp);
                            pre.lemma_index_of_at(ii);
                        }
                    }
                    assert forall|id2: Seq<char>|
                        id2 != id@ implies (#[trigger] post.has_id(id2) <==> pre.has_id(id2)) by {
                        if pre.has_id(id2) {
                            let j = pre.index_of(id2);
                            assert(j != ii);
                            let jn: int = if j < ii {
                                j
                            } else {
                                j - 1
                            };
                            assert(post.entry_at(jn).id@ == id2);
                        }
                        if post.has_id(id2) {
                            let j = post.index_of(id2);
                            let jp: int = if j < ii {
                                j
                            } else {
                                j + 1
                            };
                            assert(pre.entry_at(jp).id@ == id2);
                        }
                    }
                    assert forall|id2: Seq<char>|
                        id2 != id@ && pre.has_id(id2) implies #[trigger] post.entry_of(id2)
                        == pre.entry_of(id2) && post.embedding_of(id2) == pre.embedding_of(
                        id2,
                    ) by {
                        let j = pre.index_of(id2);
                        pre.lemma_index_of_at(j);
                        assert(j != ii);
                        let jn: int = if j < ii {
                            j
                        } else {
                            j - 1
                        };
                        assert(post.entry_at(jn).id@ == id2);
                        post.lemma_index_of_at(jn);
                    }
                    assert(Self::delete_ok_post(pre, post, id@));
                }
                Ok(())
            },
        }
    }

    /// Deletes the identifiers in order; best-effort, the first error
    /// short-circuits the remainder and prior deletions stay applied.
    /// It succeeds exactly when the identifiers are pairwise distinct and
    /// all present.
    fn delete_batch(&mut self, ids: Vec<String>) -> (r: Result<(), Error>)
        ensures
            final(self).dim_spec() == old(self).dim_spec(),
            final(self).buffer_len() == old(self).buffer_len(),
            r is Ok <==> Self::batch_ok(*old(self), id_views(ids@)),
            r is Ok ==> final(self).count_spec() == old(self).count_spec() - ids@.len() && final(self).free_len() == old(self).free_len() + ids@.len(),
            forall|id2: Seq<char>|
                !id_views(ids@).contains(id2) ==> (#[trigger] final(self).has_id(id2) <==> old(self).has_id(id2)),
            forall|id2: Seq<char>|
                !id_views(ids@).contains(id2) && old(self).has_id(id2) ==> #[trigger] final(self).entry_of(id2) == old(self).entry_of(id2) && final(self).embedding_of(id2) == old(self).embedding_of(id2),
            r is Ok ==> forall|id2: Seq<char>|
                id_views(ids@).contains(id2) ==> !final(self).has_id(id2),
            r matches Err(e) ==> (e matches Error::Storage(StorageError::EmbeddingNotExists(m))
                && exists|k: int| Self::batch_stopped_at(*old(self), *final(self), id_views(ids@), m@, k)),
    {
        let ghost pre = *old(self);
        let ghost views: Seq<Seq<char>> = id_views(ids@);
        let mut k: usize = 0;
        while k < ids.len()
            invariant
                self.wf(),
                k <= ids@.len(),
                pre == *old(self),
                views == id_views(ids@),
                self.dim_spec() == pre.dim_spec(),
                self.buffer_len() == pre.buffer_len(),
                self.count_spec() == pre.count_spec() - k,
                self.free_len() == pre.free_len() + k,
                Self::batch_ok(pre, views.take(k as int)),
                forall|id2: Seq<char>| #[trigger]
                    self.has_id(id2) <==> (pre.has_id(id2) && !views.take(k as int).contains(id2)),
                forall|id2: Seq<char>|
                    pre.has_id(id2) && !views.take(k as int).contains(id2) ==> #[trigger] self.entry_of(
                        id2,
                    ) == pre.entry_of(id2) && self.embedding_of(id2) == pre.embedding_of(id2),
            decreases ids@.len() - k,
        {
            let id_k = ids[k].clone();
            proof {
                assert(views[k as int] == ids@[k as int]@);
                if views.take(k as int).contains(views[k as int]) {
                    let ghost l = choose|l: int|
                        0 <= l < k && views.take(k as int)[l] == views[k as int];
                    assert(views[l] == views[k as int]);
                }
            }
            let ghost mid = *self;
            match self.delete(id_k) {
                Ok(_) => {},
                Err(e) => {
                    proof {
                        assert(!mid.has_id(views[k as int]));
                        if Self::batch_ok(pre, views) {
                            assert(pre.has_id(views[k as int]));
                            assert(!views.take(k as int).contains(views[k as int])) by {
                                if views.take(k as int).contains(views[k as int]) {
                                    let l = choose|l: int|
                                        0 <= l < k && #[trigger] views.take(k as int)[l] == views[k as int];
                                    assert(views[l] == views[k as int]);
                                }
                            }
                            assert(mid.has_id(views[k as int]));
                        }
                        assert forall|id2: Seq<char>|
                            !views.contains(id2) implies (#[trigger] self.has_id(id2) <==> pre.has_id(
                            id2,
                        )) by {
                            assert(!views.take(k as int).contains(id2)) by {
                                if views.take(k as int).contains(id2) {
                                    let l = choose|l: int|
                                        0 <= l < k && views.take(k as int)[l] == id2;
                                    assert(views[l] == id2);
                                }
                            }
                        }
                        assert forall|id2: Seq<char>|
                            !views.contains(id2) && pre.has_id(id2) implies #[trigger] self.entry_of(
                            id2,
                        ) == pre.entry_of(id2) && self.embedding_of(id2) == pre.embedding_of(
                            id2,
                        ) by {
                            assert(!views.take(k as int).contains(id2)) by {
                                if views.take(k as int).contains(id2) {
                                    let l = choose|l: int|
                                        0 <= l < k && views.take(k as int)[l] == id2;
                                    assert(views[l] == id2);
                                }
                            }
                        }
                        assert(Self::batch_stopped_at(pre, *self, views, views[k as int], k as int));
                        assert(exists|kk: int|
                            Self::batch_stopped_at(pre, *self, views, views[k as int], kk));
                    }
                    return Err(e);
                },
            }
            k = k + 1;
            proof {
                let km: int = k as int - 1;
                assert(views.take(k as int) == views.take(km).push(views[km]));
                assert(mid.has_id(views[km]));
                assert(pre.has_id(views[km]));
                assert forall|l: int, j: int|
                    0 <= l < j < k implies views.take(k as int)[l] != views.take(k as int)[j] by {
                    if j < km {
                        assert(views.take(km)[l] != views.take(km)[j]);
                    } else {
                        assert(!views.take(km).contains(views[km]));
                        assert(views.take(km)[l] == views[l]);
                    }
                }
                assert(Self::batch_ok(pre, views.take(k as int)));
                assert forall|id2: Seq<char>| #[trigger]
                    self.has_id(id2) <==> (pre.has_id(id2) && !views.take(k as int).contains(
                    id2,
                )) by {
                    assert(mid.has_id(id2) <==> (pre.has_id(id2) && !views.take(km).contains(id2)));
                    if id2 == views[km] {
                        assert(!self.has_id(id2));
                        assert(views.take(k as int)[km] == id2);
                        assert(views.take(k as int).contains(id2));
                    } else {
                        assert(self.has_id(id2) <==> mid.has_id(id2));
                        assert(views.take(k as int).contains(id2) <==> views.take(km).contains(
                            id2,
                        )) by {
                            if views.take(k as int).contains(id2) {
                                let l = choose|l: int|
                                    0 <= l < k && #[trigger] views.take(k as int)[l] == id2;
                                assert(l != km);
                                assert(views.take(km)[l] == id2);
                            }
                            if views.take(km).contains(id2) {
                                let l = choose|l: int|
                                    0 <= l < km && #[trigger] views.take(km)[l] == id2;
                                assert(views.take(k as int)[l] == id2);
                            }
                        }
                    }
                }
                assert forall|id2: Seq<char>|
                    pre.has_id(id2) && !views.take(k as int).contains(id2) implies #[trigger] self.entry_of(
                    id2,
                ) == pre.entry_of(id2) && self.embedding_of(id2) == pre.embedding_of(id2) by {
                    assert(!views.take(km).contains(id2)) by {
                        if views.take(km).contains(id2) {
                            let l = choose|l: int| 0 <= l < km && #[trigger] views.take(km)[l] == id2;
                            assert(views.take(k as int)[l] == id2);
                        }
                    }
                    assert(id2 != views[km]) by {
                        assert(views.take(k as int)[km] == views[km]);
                    }
                    assert(mid.entry_of(id2) == pre.entry_of(id2) && mid.embedding_of(id2)
                        == pre.embedding_of(id2));
                    assert(mid.has_id(id2));
                    assert(self.entry_of(id2) == mid.entry_of(id2) && self.embedding_of(id2)
                        == mid.embedding_of(id2));
                }
            }
        }
        proof {
            assert(views.take(ids@.len() as int) == views);
        }
        Ok(())
    }

    /// Replaces the payload stored under `id` in place; the embedding and
    /// the slot layout stay untouched. An absent identifier is
    /// `EmbeddingNotExists`, never an insert.
    fn update_payload_by_id(&mut self, id: String, payload: MemoryEntry) -> (r: Result<
        (),
        Error,
    >)
        ensures
            !old(self).has_id(id@) ==> (r matches Err(Error::Storage(
                StorageError::EmbeddingNotExists(m),
            )) && m@ == id@ && *final(self) == *old(self)),
            old(self).has_id(id@) ==> r is Ok && final(self).wf() && final(self).dim_spec() == old(self).dim_spec() && final(self).count_spec() == old(self).count_spec() && final(self).buffer_len() == old(self).buffer_len() && final(self).free_len() == old(self).free_len() && final(self).entry_of(id@) == payload && final(self).embedding_of(id@)
                == old(self).embedding_of(id@) && (forall|id2: Seq<char>| #[trigger] final(self).has_id(id2) <==> old(self).has_id(id2)) && (forall|id2: Seq<char>|
                id2 != id@ && old(self).has_id(id2) ==> #[trigger] final(self).entry_of(id2) == old(self).entry_of(id2) && final(self).embedding_of(id2) == old(self).embedding_of(id2)),
    {
        let idx_opt = self.find_index(&id);
        match idx_opt {
            None => Err(Error::Storage(StorageError::EmbeddingNotExists(id))),
            Some(i) => {
                let s_no = self.slots[i].0;
                self.slots[i] = (s_no, payload);
                proof {
                    let pre = *old(self);
                    let post = *self;
                    let ii: int = i as int;
                    assert forall|a: int, b: int|
                        0 <= a < b < post.slots@.len() implies post.slots@[a].1.id@
                        != post.slots@[b].1.id@ by {
                        assert(post.slots@[a].1.id@ == pre.slots@[a].1.id@);
                        assert(post.slots@[b].1.id@ == pre.slots@[b].1.id@);
                    }
                    assert(post.wf());
                    assert forall|j: int|
                        0 <= j < post.slots@.len() implies #[trigger] post.embedding_at(j)
                        == pre.embedding_at(j) by {
                        assert(post.embedding_at(j) =~= pre.embedding_at(j));
                    }
                    post.lemma_index_of_at(ii);
                    assert forall|id2: Seq<char>| #[trigger]
                        post.has_id(id2) <==> pre.has_id(id2) by {
                        if pre.has_id(id2) {
                            let j = pre.index_of(id2);
                            assert(post.entry_at(j).id@ == id2);
                        }
                        if post.has_id(id2) {
                            let j = post.index_of(id2);
                            assert(pre.entry_at(j).id@ == id2);
                        }
                    }
                    assert forall|id2: Seq<char>|
                        id2 != id@ && pre.has_id(id2) implies #[trigger] post.entry_of(id2)
                        == pre.entry_of(id2) && post.embedding_of(id2) == pre.embedding_of(
                        id2,
                    ) by {
                        let j = pre.index_of(id2);
                        pre.lemma_index_of_at(j);
                        assert(j != ii);
                        post.lemma_index_of_at(j);
                    }
                }
                Ok(())
            },
        }
    }

    /// The number of live entries.
    fn count(&self) -> (r: Result<usize, Error>)
        ensures
            r matches Ok(c) && c == self.count_spec(),
    {
        Ok(self.slots.len())
    }
}


/// Unwraps ranked similarity candidates into result pairs, keeping order.
fn extract_pairs_sim(ranked: Vec<(i128, u128, usize, (Vec<i16>, MemoryEntry))>) -> (r: Vec<
    (Vec<i16>, MemoryEntry),
>)
    ensures
        r@.len() == ranked@.len(),
        forall|k: int| 0 <= k < r@.len() ==> r@[k] == ranked@[k].3,
{
    let ghost rv = ranked@;
    let mut src = ranked;
    let mut out: Vec<(Vec<i16>, MemoryEntry)> = Vec::new();
    while src.len() > 0
        invariant
            out@.len() + src@.len() == rv.len(),
            src@ == rv.skip(out@.len() as int),
            forall|k: int| 0 <= k < out@.len() ==> out@[k] == rv[k].3,
        decreases src@.len(),
    {
        let item = src.remove(0);
        out.push(item.3);
        proof {
            assert(src@ =~= rv.skip(out@.len() as int));
        }
    }
    out
}

/// Unwraps ranked keyed candidates into result pairs, keeping order.
fn extract_pairs(ranked: Vec<(i128, usize, (Vec<i16>, MemoryEntry))>) -> (r: Vec<
    (Vec<i16>, MemoryEntry),
>)
    ensures
        r@.len() == ranked@.len(),
        forall|k: int| 0 <= k < r@.len() ==> r@[k] == ranked@[k].2,
{
    let ghost rv = ranked@;
    let mut src = ranked;
    let mut out: Vec<(Vec<i16>, MemoryEntry)> = Vec::new();
    while src.len() > 0
        invariant
            out@.len() + src@.len() == rv.len(),
            src@ == rv.skip(out@.len() as int),
            forall|k: int| 0 <= k < out@.len() ==> out@[k] == rv[k].2,
        decreases src@.len(),
    {
        let item = src.remove(0);
        out.push(item.2);
        proof {
            assert(src@ =~= rv.skip(out@.len() as int));
        }
    }
    out
}

/// Appends a copy of `src` to the end of `data`.
fn append_copy(data: &mut Vec<i16>, src: &Vec<i16>)
    ensures
        final(data)@ == old(data)@ + src@,
{
    let mut j: usize = 0;
    while j < src.len()
        invariant
            j <= src@.len(),
            data@ == old(data)@ + src@.take(j as int),
        decreases src@.len() - j,
    {
        let v: i16 = src[j];
        data.push(v);
        j = j + 1;
        proof {
            assert(old(data)@ + src@.take(j as int) =~= (old(data)@ + src@.take(j as int - 1)).push(
                src@[j as int - 1],
            ));
        }
    }
    proof {
        assert(src@.take(src@.len() as int) =~= src@);
    }
}


/// The accounting law of the slot layout: the buffer is exactly tiled by
/// the `dim`-sized slots, live and freed together — deletions keep bytes
/// in place, so the buffer never shrinks, and reuse keeps it from growing.
pub proof fn lemma_buffer_tiling(s: InMemoryDB)
    requires
        s.wf(),
    ensures
        s.buffer_len() == s.dim_spec() * (s.count_spec() + s.free_len()),
{
}

/// Every stored embedding has the store's dimensionality.
pub proof fn lemma_embedding_dim(s: InMemoryDB, id: Seq<char>)
    requires
        s.wf(),
        s.has_id(id),
    ensures
        s.embedding_of(id).len() == s.dim_spec(),
{
    s.lemma_embedding_len(s.index_of(id));
}

/// Round trip: after a successful insert of `(emb, entry)`, the store
/// holds exactly that pair under the entry's identifier, which is what a
/// lookup by that identifier returns.
pub proof fn lemma_round_trip(pre: InMemoryDB, post: InMemoryDB, emb: Seq<i16>, entry: MemoryEntry)
    requires
        InMemoryDB::insert_ok_post(pre, post, emb, entry),
    ensures
        post.has_id(entry.id@),
        post.entry_of(entry.id@) == entry,
        post.embedding_of(entry.id@) == emb,
{
}

/// Slot reuse: deleting an entry and then inserting a fresh one never
/// grows the buffer, because the freed slot is reused.
pub proof fn lemma_slot_reuse(
    s0: InMemoryDB,
    s1: InMemoryDB,
    s2: InMemoryDB,
    id: Seq<char>,
    emb: Seq<i16>,
    entry: MemoryEntry,
)
    requires
        InMemoryDB::delete_ok_post(s0, s1, id),
        InMemoryDB::insert_ok_post(s1, s2, emb, entry),
    ensures
        s2.buffer_len() == s0.buffer_len(),
{
}

/// Deleting twice: a successful delete removes the identifier and exactly
/// one entry, so a second delete of the same identifier must fail and
/// change nothing.
pub proof fn lemma_delete_idempotent(s0: InMemoryDB, s1: InMemoryDB, id: Seq<char>)
    requires
        InMemoryDB::delete_ok_post(s0, s1, id),
    ensures
        !s1.has_id(id),
        s1.count_spec() == s0.count_spec() - 1,
{
}

/// Ranking correctness: with exactly three stored embeddings strictly
/// ordered in similarity to the query as `a` above `b` above `c`, a search
/// for two returns `a`'s entry first and `b`'s second.
pub proof fn lemma_ranking(
    pre: InMemoryDB,
    q: Seq<i16>,
    res: Seq<(Seq<i16>, MemoryEntry)>,
    a: int,
    b: int,
    c: int,
)
    requires
        pre.wf(),
        q.len() == pre.dim_spec(),
        pre.count_spec() == 3,
        0 <= a < 3 && 0 <= b < 3 && 0 <= c < 3,
        a != b && b != c && a != c,
        !crate::sim::sim_le_v(q, pre.embedding_at(a), pre.embedding_at(b)),
        !crate::sim::sim_le_v(q, pre.embedding_at(b), pre.embedding_at(c)),
        InMemoryDB::search_post(pre, q, 2, res),
    ensures
        res.len() == 2,
        res[0].1.id@ == pre.entry_at(a).id@,
        res[1].1.id@ == pre.entry_at(b).id@,
{
    let ea = pre.embedding_at(a);
    let eb = pre.embedding_at(b);
    let ec = pre.embedding_at(c);
    pre.lemma_embedding_len(a);
    pre.lemma_embedding_len(b);
    pre.lemma_embedding_len(c);
    assert(ea.len() == q.len() && eb.len() == q.len() && ec.len() == q.len());
    crate::sim::lemma_rank_inv(q, ea);
    crate::sim::lemma_rank_inv(q, eb);
    crate::sim::lemma_rank_inv(q, ec);
    crate::sim::lemma_sim_le_total(
        crate::sim::dot(q, ea),
        crate::sim::dot(ea, ea),
        crate::sim::dot(q, eb),
        crate::sim::dot(eb, eb),
    );
    crate::sim::lemma_sim_le_total(
        crate::sim::dot(q, eb),
        crate::sim::dot(eb, eb),
        crate::sim::dot(q, ec),
        crate::sim::dot(ec, ec),
    );
    crate::sim::lemma_sim_le_trans(
        crate::sim::dot(q, ec),
        crate::sim::dot(ec, ec),
        crate::sim::dot(q, eb),
        crate::sim::dot(eb, eb),
        crate::sim::dot(q, ea),
        crate::sim::dot(ea, ea),
    );
    assert(res.len() == 2);
    let i0 = choose|i: int|
        0 <= i < pre.count_spec() && res[0].1.eqv(#[trigger] pre.entry_at(i)) && res[0].0
            == pre.embedding_at(i);
    let i1 = choose|i: int|
        0 <= i < pre.count_spec() && res[1].1.eqv(#[trigger] pre.entry_at(i)) && res[1].0
            == pre.embedding_at(i);
    assert(res[0].1.id@ == pre.entry_at(i0).id@);
    assert(res[1].1.id@ == pre.entry_at(i1).id@);
    assert(i0 != i1) by {
        if i0 == i1 {
            assert(res[0].1.id@ == res[1].1.id@);
        }
    }
    pre.lemma_index_of_at(a);
    pre.lemma_index_of_at(b);
    pre.lemma_index_of_at(c);
    pre.lemma_index_of_at(i0);
    pre.lemma_index_of_at(i1);
    assert(res_has_id(res, pre.entry_at(a).id@)) by {
        if !res_has_id(res, pre.entry_at(a).id@) {
            assert(crate::sim::sim_le_v(q, ea, res[0].0));
            assert(crate::sim::sim_le_v(q, ea, res[1].0));
            assert(i0 == b || i0 == c);
            assert(i1 == b || i1 == c);
            if i0 == b || i1 == b {
                assert(crate::sim::sim_le_v(q, ea, eb));
            } else {
                assert(crate::sim::sim_le_v(q, ea, ec));
                assert(crate::sim::sim_le_v(q, ec, eb)) by {
                    crate::sim::lemma_sim_le_total(
                        crate::sim::dot(q, eb),
                        crate::sim::dot(eb, eb),
                        crate::sim::dot(q, ec),
                        crate::sim::dot(ec, ec),
                    );
                }
                crate::sim::lemma_sim_le_trans(
                    crate::sim::dot(q, ea),
                    crate::sim::dot(ea, ea),
                    crate::sim::dot(q, ec),
                    crate::sim::dot(ec, ec),
                    crate::sim::dot(q, eb),
                    crate::sim::dot(eb, eb),
                );
            }
        }
    }
    let ka = choose|k: int| 0 <= k < res.len() && (#[trigger] res[k]).1.id@ == pre.entry_at(a).id@;
    assert(ka == 0 || ka == 1);
    assert(ka == 0 ==> i0 == a) by {
        if ka == 0 && i0 != a {
            assert(pre.entry_at(i0).id@ == pre.entry_at(a).id@);
            pre.lemma_index_of_at(i0);
        }
    }
    assert(ka == 1 ==> i1 == a) by {
        if ka == 1 && i1 != a {
            assert(pre.entry_at(i1).id@ == pre.entry_at(a).id@);
            pre.lemma_index_of_at(i1);
        }
    }
    assert(i0 == a) by {
        if i0 != a {
            assert(i1 == a);
            assert(crate::sim::sim_le_v(q, res[1].0, res[0].0));
            assert(crate::sim::sim_le_v(q, ea, res[0].0));
            assert(i0 == b || i0 == c);
            if i0 == b {
                assert(crate::sim::sim_le_v(q, ea, eb));
            } else {
                assert(crate::sim::sim_le_v(q, ea, ec));
                crate::sim::lemma_sim_le_trans(
                    crate::sim::dot(q, eb),
                    crate::sim::dot(eb, eb),
                    crate::sim::dot(q, ea),
                    crate::sim::dot(ea, ea),
                    crate::sim::dot(q, ec),
                    crate::sim::dot(ec, ec),
                );
            }
        }
    }
    assert(i1 == b) by {
        if i1 != b {
            assert(i1 == c);
            assert(!res_has_id(res, pre.entry_at(b).id@)) by {
                if res_has_id(res, pre.entry_at(b).id@) {
                    let kb = choose|k: int|
                        0 <= k < res.len() && (#[trigger] res[k]).1.id@ == pre.entry_at(b).id@;
                    if kb == 0 {
                        assert(pre.entry_at(i0).id@ == pre.entry_at(b).id@);
                        pre.lemma_index_of_at(i0);
                    } else {
                        assert(pre.entry_at(i1).id@ == pre.entry_at(b).id@);
                        pre.lemma_index_of_at(i1);
                    }
                }
            }
            assert(crate::sim::sim_le_v(q, eb, res[1].0));
            assert(crate::sim::sim_le_v(q, eb, ec));
        }
    }
}


} // verus!
