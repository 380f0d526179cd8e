//! The text-to-vector embedding capability.

use vstd::prelude::*;
use vstd::string::StringSliceAdditionalSpecFns;

use crate::error::Error;

verus! {

/// A capability for turning text into fixed-point embedding vectors,
/// abstracting over different embedder backends (local or managed models,
/// or a whole pipeline).
///
/// An embedder produces vectors of one fixed dimensionality, `dim_spec`;
/// nothing else is promised of the values, and the core never retries a
/// failed embedding.
pub trait Embedder: Sized {
    /// The dimensionality of every embedding this embedder produces.
    spec fn dim_spec(&self) -> nat;

    fn embed_text(&self, input: &str) -> (r: Result<Vec<i16>, Error>)
        ensures
            r matches Ok(v) ==> v@.len() == self.dim_spec(),
    ;
}

/// A placeholder for the embedder type when none has been configured.
/// Attempted usage results in a `NoOp` error; the type exists to assist
/// with generic builder typing.
pub struct EmbedderNotSet;

impl Embedder for EmbedderNotSet {
    /// The placeholder produces nothing; any dimensionality fits vacuously.
    closed spec fn dim_spec(&self) -> nat {
        0
    }

    fn embed_text(&self, input: &str) -> (r: Result<Vec<i16>, Error>)
        ensures
            r matches Err(e) && e is NoOp,
    {
        Err(Error::NoOp)
    }
}


/// How many bytes of `s` fall into bucket `b` when bytes are bucketed by
/// their value modulo `dim`.
pub open spec fn bucket_count(s: Seq<u8>, dim: int, b: int) -> int
    decreases s.len(),
{
    if s.len() == 0 {
        0
    } else {
        bucket_count(s.drop_last(), dim, b) + (if (s.last() as int) % dim == b {
            1int
        } else {
            0int
        })
    }
}

/// A small deterministic embedder: buckets the bytes of the input by their
/// value and counts them, giving a crude bag-of-bytes vector of a fixed
/// dimensionality. It needs no model and no network, which makes it a
/// reasonable stand-in backend wherever exact reproducibility matters more
/// than semantic quality.
pub struct CharFrequencyEmbedder {
    dim: usize,
}

impl CharFrequencyEmbedder {
    /// The configured dimensionality.
    pub closed spec fn dim_of(&self) -> nat {
        self.dim as nat
    }

    /// An embedder producing vectors of `dim` components.
    pub fn new(dim: usize) -> (r: Self)
        requires
            1 <= dim,
        ensures
            r.dim_of() == dim,
    {
        CharFrequencyEmbedder { dim }
    }
}

impl Embedder for CharFrequencyEmbedder {
    closed spec fn dim_spec(&self) -> nat {
        self.dim as nat
    }

    fn embed_text(&self, input: &str) -> (r: Result<Vec<i16>, Error>)
        ensures
            r is Ok,
            r matches Ok(v) ==> forall|b: int|
                0 <= b < v@.len() ==> (#[trigger] v@[b]) as int == (
                if bucket_count(input.spec_bytes(), self.dim_spec() as int, b) >= 0x7fff {
                    0x7fff
                } else {
                    bucket_count(input.spec_bytes(), self.dim_spec() as int, b)
                }),
    {
        let mut counts: Vec<i16> = Vec::new();
        let mut i: usize = 0;
        while i < self.dim
            invariant
                counts@.len() == i,
                i <= self.dim,
                forall|b: int| 0 <= b < i ==> (#[trigger] counts@[b]) == 0,
            decreases self.dim - i,
        {
            counts.push(0);
            i = i + 1;
        }
        if self.dim == 0 {
            return Ok(counts);
        }
        let bytes = input.as_bytes();
        let ghost bv = input.spec_bytes();
        let ghost d: int = self.dim as int;
        let mut j: usize = 0;
        proof {
            assert forall|b: int| 0 <= b < d implies bucket_count(bv.take(0), d, b) == 0 by {
                assert(bv.take(0).len() == 0);
            }
        }
        while j < bytes.len()
            invariant
                counts@.len() == self.dim_spec(),
                self.dim >= 1,
                d == self.dim as int,
                bv == input.spec_bytes(),
                bytes@ == bv,
                j <= bv.len(),
                forall|b: int|
                    0 <= b < d ==> (#[trigger] counts@[b]) as int == (
                    if bucket_count(bv.take(j as int), d, b) >= 0x7fff {
                        0x7fff
                    } else {
                        bucket_count(bv.take(j as int), d, b)
                    }),
            decreases bv.len() - j,
        {
            let x: u8 = *vstd::slice::slice_index_get(bytes, j);
            let idx = (x as usize) % self.dim;
            let ghost prev = counts@;
            let cur: i16 = counts[idx];
            if cur < 0x7fff {
                counts[idx] = cur + 1;
            }
            j = j + 1;
            proof {
                let jj: int = j as int;
                assert(bv.take(jj).drop_last() =~= bv.take(jj - 1));
                assert(bv.take(jj).last() == x);
                assert forall|b: int|
                    0 <= b < d implies bucket_count(bv.take(jj), d, b) == bucket_count(
                    bv.take(jj - 1),
                    d,
                    b,
                ) + (if (x as int) % d == b {
                    1int
                } else {
                    0int
                }) by {
                }
                assert forall|b: int| 0 <= b < d && b != idx implies counts@[b] == prev[b] by {
                }
                assert(idx == (x as int) % d);
                assert forall|b: int| 0 <= b < d implies bucket_count(bv.take(jj), d, b) >= 0 by {
                    lemma_bucket_count_nonneg(bv.take(jj), d, b);
                }
            }
        }
        proof {
            assert(bv.take(bv.len() as int) =~= bv);
        }
        Ok(counts)
    }
}

/// A bucket count is never negative.
proof fn lemma_bucket_count_nonneg(s: Seq<u8>, dim: int, b: int)
    ensures
        bucket_count(s, dim, b) >= 0,
    decreases s.len(),
{
    if s.len() > 0 {
        lemma_bucket_count_nonneg(s.drop_last(), dim, b);
    }
}

} // verus!
