//! Vector selection: the Euclidean norm of each row of the normalized
//! matrix, and the index of the row closest to the all-zero ideal point.
use crate::ieee::f_le;
use crate::ieee::f_lt;
use crate::ieee::ieee_add;
use crate::ieee::ieee_mul;
use crate::ieee::ieee_sqrt;
use crate::ieee::is_finite_bits;
use crate::ieee::is_nan_bits;
use crate::ieee::lt_bits;
use crate::ieee::sign_bits;
use vstd::prelude::*;

verus! {

/// The rounded sum of squares of the first `n` entries, added left to
/// right starting from +0.0.
pub open spec fn sum_squares_prefix(row: Seq<u64>, n: int) -> u64
    decreases n,
{
    if n <= 0 {
        0u64
    } else {
        ieee_add(sum_squares_prefix(row, n - 1), ieee_mul(row[n - 1], row[n - 1]))
    }
}

/// The Euclidean norm of a vector of doubles: the rounded square root of
/// its rounded sum of squares.
pub open spec fn l2_norm_spec(row: Seq<u64>) -> u64 {
    ieee_sqrt(sum_squares_prefix(row, row.len() as int))
}

/// Every entry of the sequence is finite and non-negative.
pub open spec fn all_finite_nonneg(s: Seq<u64>) -> bool {
    forall|i: int|
        0 <= i < s.len() ==> is_finite_bits(#[trigger] s[i]) && !sign_bits(s[i])
}

/// The Euclidean (L2) norm of a vector of doubles, given as bit patterns.
/// On a vector of finite, non-negative entries the norm is non-negative
/// and never a NaN.
#[verifier::loop_isolation(false)]
pub fn l2_norm(v: &Vec<u64>) -> (r: u64)
    ensures
        r == l2_norm_spec(v@),
        all_finite_nonneg(v@) ==> !sign_bits(r) && !is_nan_bits(r),
{
    proof {
        assert(crate::ieee::mag_bits(0u64) == 0) by (bit_vector);
    }
    let n = v.len();
    let mut acc: u64 = 0;
    for i in 0..n
        invariant
            acc == sum_squares_prefix(v@, i as int),
            all_finite_nonneg(v@) ==> !sign_bits(acc) && !is_nan_bits(acc),
    {
        let sq = crate::ieee::mul_bits(v[i], v[i]);
        acc = crate::ieee::add_bits(acc, sq);
    }
    crate::ieee::sqrt_bits(acc)
}

/// The Euclidean norm of every row of a matrix of doubles.
#[verifier::loop_isolation(false)]
pub fn l2_norm_vectors(m: &Vec<Vec<u64>>) -> (r: Vec<u64>)
    ensures
        r@.len() == m@.len(),
        forall|i: int| 0 <= i < m@.len() ==> #[trigger] r@[i] == l2_norm_spec(m@[i]@),
        (forall|i: int| 0 <= i < m@.len() ==> all_finite_nonneg(#[trigger] m@[i]@)) ==> forall|
            i: int,
        | 0 <= i < m@.len() ==> !sign_bits(#[trigger] r@[i]) && !is_nan_bits(r@[i]),
{
    let n = m.len();
    let mut norms: Vec<u64> = Vec::new();
    for i in 0..n
        invariant
            norms@.len() == i,
            forall|j: int| 0 <= j < i ==> #[trigger] norms@[j] == l2_norm_spec(m@[j]@),
            (forall|j: int| 0 <= j < m@.len() ==> all_finite_nonneg(#[trigger] m@[j]@))
                ==> forall|j: int|
                0 <= j < i ==> !sign_bits(#[trigger] norms@[j]) && !is_nan_bits(norms@[j]),
    {
        let nm = l2_norm(&m[i]);
        norms.push(nm);
    }
    norms
}

/// The index of the row of the matrix whose Euclidean norm is smallest:
/// no row's norm is smaller, and every earlier row's norm is strictly
/// larger, so ties break to the first occurrence.
#[verifier::loop_isolation(false)]
pub fn index_of_best_vector(m: &Vec<Vec<u64>>) -> (r: usize)
    requires
        m@.len() > 0,
    ensures
        r < m@.len(),
        forall|j: int|
            0 <= j < m@.len() ==> f_le(l2_norm_spec(m@[r as int]@), #[trigger] l2_norm_spec(
                m@[j]@,
            )),
        forall|j: int|
            0 <= j < r ==> f_lt(l2_norm_spec(m@[r as int]@), #[trigger] l2_norm_spec(m@[j]@)),
{
    let norms = l2_norm_vectors(m);
    let n = norms.len();
    let mut best: usize = 0;
    for i in 1..n
        invariant
            best < i,
            forall|j: int| 0 <= j < i ==> f_le(norms@[best as int], #[trigger] norms@[j]),
            forall|j: int| 0 <= j < best ==> f_lt(norms@[best as int], #[trigger] norms@[j]),
    {
        if lt_bits(norms[i], norms[best]) {
            best = i;
        }
    }
    proof {
        assert forall|j: int| 0 <= j < m@.len() implies f_le(
            l2_norm_spec(m@[best as int]@),
            #[trigger] l2_norm_spec(m@[j]@),
        ) by {
            assert(norms@[j] == l2_norm_spec(m@[j]@));
            assert(f_le(norms@[best as int], norms@[j]));
        }
        assert forall|j: int| 0 <= j < best implies f_lt(
            l2_norm_spec(m@[best as int]@),
            #[trigger] l2_norm_spec(m@[j]@),
        ) by {
            assert(norms@[j] == l2_norm_spec(m@[j]@));
            assert(f_lt(norms@[best as int], norms@[j]));
        }
    }
    best
}

} // verus!
