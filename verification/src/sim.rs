//! Exact similarity ranking for fixed-point embeddings.
//!
//! Embedding components are fixed-point numbers stored as `i16`. Two stored
//! embeddings `a` and `b` are ranked against a query `q` by comparing
//! `dot(q, a) / sqrt(dot(a, a))` with `dot(q, b) / sqrt(dot(b, b))`, which
//! orders them exactly as cosine similarity does (the query's own magnitude
//! is a common positive factor and cannot change the order). The comparison
//! is carried out exactly on integers, with no rounding, by comparing signs
//! first and then cross-multiplying squared ratios.

use vstd::prelude::*;

verus! {

/// Dot product of two equal-length component vectors, as an unbounded
/// integer.
pub open spec fn dot(a: Seq<i16>, b: Seq<i16>) -> int
    decreases a.len(),
{
    if a.len() == 0 || b.len() == 0 {
        0
    } else {
        dot(a.drop_last(), b.drop_last()) + a.last() * b.last()
    }
}

/// A vector's dot product with itself is non-negative.
pub proof fn lemma_dot_self_nonneg(a: Seq<i16>)
    ensures
        dot(a, a) >= 0,
    decreases a.len(),
{
    if a.len() > 0 {
        lemma_dot_self_nonneg(a.drop_last());
        let x: int = a.last() as int;
        assert(x * x >= 0) by (nonlinear_arith) {
        }
    }
}

/// A vector whose dot product with itself is zero is orthogonal to every
/// vector: all its components are zero.
pub proof fn lemma_dot_self_zero(q: Seq<i16>, a: Seq<i16>)
    requires
        q.len() == a.len(),
        dot(a, a) == 0,
    ensures
        dot(q, a) == 0,
    decreases a.len(),
{
    if a.len() > 0 {
        let x: int = a.last() as int;
        lemma_dot_self_nonneg(a.drop_last());
        assert(x * x >= 0) by (nonlinear_arith) {
        }
        assert(x * x == 0 ==> x == 0) by (nonlinear_arith) {
        }
        lemma_dot_self_zero(q.drop_last(), a.drop_last());
        assert(q.last() * x == 0) by (nonlinear_arith)
            requires
                x == 0,
        {
        }
    }
}

/// The shape every (dot, squared-norm) ranking pair has: the squared norm is
/// non-negative, and a non-zero dot product forces a non-zero stored vector.
pub open spec fn rank_inv(d: int, n: int) -> bool {
    n >= 0 && (d != 0 ==> n > 0)
}

/// The pair formed from a query and a stored embedding of the same length
/// satisfies `rank_inv`.
pub proof fn lemma_rank_inv(q: Seq<i16>, a: Seq<i16>)
    requires
        q.len() == a.len(),
    ensures
        rank_inv(dot(q, a), dot(a, a)),
{
    lemma_dot_self_nonneg(a);
    if dot(q, a) != 0 && dot(a, a) == 0 {
        lemma_dot_self_zero(q, a);
    }
}

/// `sim_le(da, na, db, nb)` says that the similarity `da / sqrt(na)` is at
/// most `db / sqrt(nb)`, stated purely over integers: signs are compared
/// first, and equal signs are decided by cross-multiplying the squares.
/// A pair with a zero squared norm stands for a zero vector, whose
/// similarity is zero.
pub open spec fn sim_le(da: int, na: int, db: int, nb: int) -> bool {
    if da > 0 {
        db > 0 && da * da * nb <= db * db * na
    } else if da == 0 {
        db >= 0
    } else {
        db >= 0 || db * db * na <= da * da * nb
    }
}

/// The similarity order is total.
pub proof fn lemma_sim_le_total(da: int, na: int, db: int, nb: int)
    requires
        rank_inv(da, na),
        rank_inv(db, nb),
    ensures
        sim_le(da, na, db, nb) || sim_le(db, nb, da, na),
{
}

/// The similarity order is transitive.
pub proof fn lemma_sim_le_trans(da: int, na: int, db: int, nb: int, dc: int, nc: int)
    requires
        rank_inv(da, na),
        rank_inv(db, nb),
        rank_inv(dc, nc),
        sim_le(da, na, db, nb),
        sim_le(db, nb, dc, nc),
    ensures
        sim_le(da, na, dc, nc),
{
    if da > 0 {
        assert(db > 0 && dc > 0);
        assert(da * da * nc <= dc * dc * na) by (nonlinear_arith)
            requires
                da * da * nb <= db * db * na,
                db * db * nc <= dc * dc * nb,
                na > 0,
                nb > 0,
                nc > 0,
                da > 0,
                db > 0,
                dc > 0,
        {
        }
    } else if da == 0 {
        if db == 0 {
        } else {
            assert(db > 0);
            assert(dc > 0);
        }
    } else {
        if db >= 0 {
            if db == 0 {
                assert(dc >= 0);
            } else {
                assert(dc > 0);
            }
        } else {
            if dc >= 0 {
            } else {
                assert(dc * dc * na <= da * da * nc) by (nonlinear_arith)
                    requires
                        db * db * na <= da * da * nb,
                        dc * dc * nb <= db * db * nc,
                        na > 0,
                        nb > 0,
                        nc > 0,
                        da < 0,
                        db < 0,
                        dc < 0,
                {
                }
            }
        }
    }
}

/// Exact comparison of the fractions `a / b` and `c / d` by repeated
/// Euclidean division: equivalent to `a * d <= c * b` without ever forming
/// a product that could overflow.
fn frac_le(a: u128, b: u128, c: u128, d: u128) -> (r: bool)
    requires
        b >= 1,
        d >= 1,
    ensures
        r == (a * d <= c * b),
    decreases b + d,
{
    let qa: u128 = a / b;
    let ra: u128 = a % b;
    let qc: u128 = c / d;
    let rc: u128 = c % d;
    proof {
        vstd::arithmetic::div_mod::lemma_fundamental_div_mod(a as int, b as int);
        vstd::arithmetic::div_mod::lemma_fundamental_div_mod(c as int, d as int);
    }
    if qa < qc {
        proof {
            assert(a * d < c * b) by (nonlinear_arith)
                requires
                    a == b * qa + ra,
                    c == d * qc + rc,
                    0 <= ra < b,
                    0 <= rc < d,
                    qa < qc,
                    b >= 1,
                    d >= 1,
            {
            }
        }
        true
    } else if qa > qc {
        proof {
            assert(a * d > c * b) by (nonlinear_arith)
                requires
                    a == b * qa + ra,
                    c == d * qc + rc,
                    0 <= ra < b,
                    0 <= rc < d,
                    qa > qc,
                    b >= 1,
                    d >= 1,
            {
            }
        }
        false
    } else if ra == 0 {
        proof {
            assert(a * d <= c * b) by (nonlinear_arith)
                requires
                    a == b * qa,
                    c == d * qa + rc,
                    0 <= rc < d,
                    b >= 1,
                    d >= 1,
            {
            }
        }
        true
    } else if rc == 0 {
        proof {
            assert(a * d > c * b) by (nonlinear_arith)
                requires
                    a == b * qa + ra,
                    c == d * qa,
                    0 < ra < b,
                    b >= 1,
                    d >= 1,
            {
            }
        }
        false
    } else {
        let sub: bool = frac_le(d, rc, b, ra);
        proof {
            assert((a * d <= c * b) == (d * ra <= b * rc)) by (nonlinear_arith)
                requires
                    a == b * qa + ra,
                    c == d * qa + rc,
                    0 < ra < b,
                    0 < rc < d,
                    b >= 1,
                    d >= 1,
            {
            }
        }
        sub
    }
}

/// Exact executable form of `sim_le` over machine integers. The dot
/// products must fit comfortably below `2^63` so that their squares fit in
/// `u128`; the store guarantees this by bounding its dimensionality.
pub(crate) fn sim_le_exec(da: i128, na: u128, db: i128, nb: u128) -> (r: bool)
    requires
        rank_inv(da as int, na as int),
        rank_inv(db as int, nb as int),
        -0x7fff_ffff_ffff_ffff <= da <= 0x7fff_ffff_ffff_ffff,
        -0x7fff_ffff_ffff_ffff <= db <= 0x7fff_ffff_ffff_ffff,
    ensures
        r == sim_le(da as int, na as int, db as int, nb as int),
{
    if da > 0 {
        if db <= 0 {
            false
        } else {
            let dau: u128 = da as u128;
            let dbu: u128 = db as u128;
            proof {
                assert(dau * dau <= 0x3fff_ffff_ffff_ffff_0000_0000_0000_0001 && dbu * dbu
                    <= 0x3fff_ffff_ffff_ffff_0000_0000_0000_0001) by (nonlinear_arith)
                    requires
                        dau <= 0x7fff_ffff_ffff_ffff,
                        dbu <= 0x7fff_ffff_ffff_ffff,
                {
                }
            }
            let a2: u128 = dau * dau;
            let b2: u128 = dbu * dbu;
            proof {
                assert(a2 == (da as int) * (da as int) && b2 == (db as int) * (db as int))
                    by (nonlinear_arith)
                    requires
                        0 < da <= 0x7fff_ffff_ffff_ffff,
                        0 < db <= 0x7fff_ffff_ffff_ffff,
                        a2 == dau * dau,
                        b2 == dbu * dbu,
                        dau == da as int,
                        dbu == db as int,
                {
                }
            }
            let r: bool = frac_le(a2, na, b2, nb);
            proof {
                assert((a2 * nb <= b2 * na) == ((da as int) * (da as int) * (nb as int) <= (
                db as int) * (db as int) * (na as int))) by (nonlinear_arith)
                    requires
                        a2 == (da as int) * (da as int),
                        b2 == (db as int) * (db as int),
                {
                }
            }
            r
        }
    } else if da == 0 {
        db >= 0
    } else {
        if db >= 0 {
            true
        } else {
            let ma: u128 = (-da) as u128;
            let mb: u128 = (-db) as u128;
            proof {
                assert(ma * ma <= 0x3fff_ffff_ffff_ffff_0000_0000_0000_0001 && mb * mb
                    <= 0x3fff_ffff_ffff_ffff_0000_0000_0000_0001) by (nonlinear_arith)
                    requires
                        ma <= 0x7fff_ffff_ffff_ffff,
                        mb <= 0x7fff_ffff_ffff_ffff,
                {
                }
            }
            let a2: u128 = ma * ma;
            let b2: u128 = mb * mb;
            proof {
                assert(a2 == (da as int) * (da as int) && b2 == (db as int) * (db as int))
                    by (nonlinear_arith)
                    requires
                        -0x7fff_ffff_ffff_ffff <= da < 0,
                        -0x7fff_ffff_ffff_ffff <= db < 0,
                        ma == -(da as int),
                        mb == -(db as int),
                        a2 == ma * ma,
                        b2 == mb * mb,
                {
                }
            }
            let r: bool = frac_le(b2, nb, a2, na);
            proof {
                assert((b2 * na <= a2 * nb) == ((db as int) * (db as int) * (na as int) <= (
                da as int) * (da as int) * (nb as int))) by (nonlinear_arith)
                    requires
                        a2 == (da as int) * (da as int),
                        b2 == (db as int) * (db as int),
                {
                }
            }
            r
        }
    }
}


/// `a` ranks no higher than `b` against the query `q`: the vector-level
/// form of `sim_le`.
pub open spec fn sim_le_v(q: Seq<i16>, a: Seq<i16>, b: Seq<i16>) -> bool {
    sim_le(dot(q, a), dot(a, a), dot(q, b), dot(b, b))
}

/// Computes the dot product of two equal-length vectors exactly. The
/// length bound keeps the result far from the `i128` range and small
/// enough to square in `u128`.
pub(crate) fn dot_vv(a: &Vec<i16>, b: &Vec<i16>) -> (r: i128)
    requires
        a@.len() == b@.len(),
        a@.len() <= 0x1_0000_0000,
    ensures
        r == dot(a@, b@),
        -0x4000_0000_0000_0000 <= r <= 0x4000_0000_0000_0000,
{
    let mut acc: i128 = 0;
    let mut i: usize = 0;
    while i < a.len()
        invariant
            a@.len() == b@.len(),
            a@.len() <= 0x1_0000_0000,
            i <= a@.len(),
            acc == dot(a@.take(i as int), b@.take(i as int)),
            -((i as int) * 0x4000_0000) <= acc <= (i as int) * 0x4000_0000,
        decreases a@.len() - i,
    {
        let x: i128 = a[i] as i128;
        let y: i128 = b[i] as i128;
        proof {
            assert(-0x4000_0000 <= x * y <= 0x4000_0000) by (nonlinear_arith)
                requires
                    -0x8000 <= x <= 0x7fff,
                    -0x8000 <= y <= 0x7fff,
            {
            }
            assert((i as int + 1) * 0x4000_0000 <= 0x4000_0000_0000_0000 && (i as int + 1)
                * 0x4000_0000 == (i as int) * 0x4000_0000 + 0x4000_0000) by (nonlinear_arith)
                requires
                    0 <= i as int + 1 <= 0x1_0000_0000,
            {
            }
            assert(a@.take(i as int + 1).drop_last() =~= a@.take(i as int));
            assert(b@.take(i as int + 1).drop_last() =~= b@.take(i as int));
            assert(a@.take(i as int + 1).last() == a@[i as int]);
            assert(b@.take(i as int + 1).last() == b@[i as int]);
            assert(x * y == a@.take(i as int + 1).last() * b@.take(i as int + 1).last());
        }
        acc = acc + x * y;
        i = i + 1;
    }
    proof {
        assert(a@.take(a@.len() as int) =~= a@);
        assert(b@.take(b@.len() as int) =~= b@);
    }
    acc
}

} // verus!
