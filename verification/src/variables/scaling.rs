//! The low-level numeric routines of the engine: minimum and maximum of an
//! observation vector, linear rescaling, and min-max auto-rescaling onto
//! [0, 1], all over IEEE 754 bit patterns.
use crate::ieee::ONE_BITS;
use crate::ieee::check_finite_bits;
use crate::ieee::div_bits;
use crate::ieee::f_le;
use crate::ieee::f_lt;
use crate::ieee::ieee_div;
use crate::ieee::ieee_mul;
use crate::ieee::ieee_sub;
use crate::ieee::is_finite_bits;
use crate::ieee::lt_bits;
use crate::ieee::mag_bits;
use crate::ieee::mul_bits;
use crate::ieee::norm_zero;
use crate::ieee::normalize_zero;
use crate::ieee::sign_bits;
use crate::ieee::sub_bits;
use crate::variables::values::Values;
use crate::variables::values::valid_values;
use vstd::prelude::*;

verus! {

/// Bit pattern of the double -1.0.
pub const NEG_ONE_BITS: u64 = 0xBFF0000000000000;

/// The smallest value of a non-empty sequence of doubles; on ties the
/// earliest occurrence wins.
pub open spec fn fmin(s: Seq<u64>) -> u64
    recommends
        s.len() > 0,
    decreases s.len(),
{
    if s.len() <= 1 {
        s[0]
    } else {
        let m = fmin(s.drop_last());
        if f_lt(s.last(), m) {
            s.last()
        } else {
            m
        }
    }
}

/// The largest value of a non-empty sequence of doubles; on ties the
/// earliest occurrence wins.
pub open spec fn fmax(s: Seq<u64>) -> u64
    recommends
        s.len() > 0,
    decreases s.len(),
{
    if s.len() <= 1 {
        s[0]
    } else {
        let m = fmax(s.drop_last());
        if f_lt(m, s.last()) {
            s.last()
        } else {
            m
        }
    }
}

/// The rounded span of a sequence of doubles: its maximum minus its
/// minimum.
pub open spec fn range_bits(s: Seq<u64>) -> u64 {
    ieee_sub(fmax(s), fmin(s))
}

/// A sequence that min-max rescaling cannot spread over [0, 1]: all its
/// values are numerically equal, or the rounded span overflows to
/// infinity.
pub open spec fn degenerate(s: Seq<u64>) -> bool {
    !f_lt(fmin(s), fmax(s)) || !is_finite_bits(range_bits(s))
}

/// One entry of the min-max rescaled sequence: the entry's offset from the
/// minimum, divided by the span (with -0.0 offsets taken as +0.0).
pub open spec fn rescaled_entry(s: Seq<u64>, i: int) -> u64 {
    ieee_div(norm_zero(ieee_sub(s[i], fmin(s))), range_bits(s))
}

/// The min-max rescaled sequence: every value mapped onto [0, 1], the
/// minimum to 0.0 and the maximum to 1.0, reflected about 1/2 when
/// `inverted`; a degenerate sequence maps to all zeros.
pub open spec fn autorescale_spec(s: Seq<u64>, inverted: bool) -> Seq<u64> {
    Seq::new(
        s.len(),
        |i: int|
            if degenerate(s) {
                0u64
            } else if inverted {
                ieee_sub(ONE_BITS, rescaled_entry(s, i))
            } else {
                rescaled_entry(s, i)
            },
    )
}

/// The minimum of a non-empty sequence is no larger than any entry.
pub proof fn lemma_fmin_le(s: Seq<u64>, k: int)
    requires
        0 <= k < s.len(),
    ensures
        f_le(fmin(s), s[k]),
    decreases s.len(),
{
    if s.len() > 1 {
        if k < s.len() - 1 {
            lemma_fmin_le(s.drop_last(), k);
            assert(s.drop_last()[k] == s[k]);
        }
    }
}

/// The minimum of a non-empty sequence occurs in it.
pub proof fn lemma_fmin_attained(s: Seq<u64>)
    requires
        s.len() > 0,
    ensures
        exists|k: int| 0 <= k < s.len() && s[k] == fmin(s),
    decreases s.len(),
{
    if s.len() <= 1 {
        assert(s[0] == fmin(s));
    } else {
        if f_lt(s.last(), fmin(s.drop_last())) {
            assert(s[s.len() - 1] == fmin(s));
        } else {
            lemma_fmin_attained(s.drop_last());
            let k = choose|k: int| 0 <= k < s.drop_last().len() && s.drop_last()[k] == fmin(
                s.drop_last(),
            );
            assert(s[k] == fmin(s));
        }
    }
}

/// The maximum of a non-empty sequence is no smaller than any entry.
pub proof fn lemma_fmax_ge(s: Seq<u64>, k: int)
    requires
        0 <= k < s.len(),
    ensures
        f_le(s[k], fmax(s)),
    decreases s.len(),
{
    if s.len() > 1 {
        if k < s.len() - 1 {
            lemma_fmax_ge(s.drop_last(), k);
            assert(s.drop_last()[k] == s[k]);
        }
    }
}

/// The maximum of a non-empty sequence occurs in it.
pub proof fn lemma_fmax_attained(s: Seq<u64>)
    requires
        s.len() > 0,
    ensures
        exists|k: int| 0 <= k < s.len() && s[k] == fmax(s),
    decreases s.len(),
{
    if s.len() <= 1 {
        assert(s[0] == fmax(s));
    } else {
        if f_lt(fmax(s.drop_last()), s.last()) {
            assert(s[s.len() - 1] == fmax(s));
        } else {
            lemma_fmax_attained(s.drop_last());
            let k = choose|k: int| 0 <= k < s.drop_last().len() && s.drop_last()[k] == fmax(
                s.drop_last(),
            );
            assert(s[k] == fmax(s));
        }
    }
}

/// The smallest value of a non-empty vector of doubles; on ties the
/// earliest occurrence wins.
pub fn min_value(v: &Vec<u64>) -> (r: u64)
    requires
        v@.len() > 0,
    ensures
        r == fmin(v@),
{
    let mut best = v[0];
    let n = v.len();
    for i in 1..n
        invariant
            1 <= i <= n,
            n == v@.len(),
            best == fmin(v@.subrange(0, i as int)),
    {
        proof {
            assert(v@.subrange(0, i + 1).drop_last() =~= v@.subrange(0, i as int));
            assert(v@.subrange(0, i + 1).last() == v@[i as int]);
        }
        if lt_bits(v[i], best) {
            best = v[i];
        }
    }
    proof {
        assert(v@.subrange(0, n as int) =~= v@);
    }
    best
}

/// The largest value of a non-empty vector of doubles; on ties the
/// earliest occurrence wins.
pub fn max_value(v: &Vec<u64>) -> (r: u64)
    requires
        v@.len() > 0,
    ensures
        r == fmax(v@),
{
    let mut best = v[0];
    let n = v.len();
    for i in 1..n
        invariant
            1 <= i <= n,
            n == v@.len(),
            best == fmax(v@.subrange(0, i as int)),
    {
        proof {
            assert(v@.subrange(0, i + 1).drop_last() =~= v@.subrange(0, i as int));
            assert(v@.subrange(0, i + 1).last() == v@[i as int]);
        }
        if lt_bits(best, v[i]) {
            best = v[i];
        }
    }
    proof {
        assert(v@.subrange(0, n as int) =~= v@);
    }
    best
}

/// Shifts and scales every entry: the result holds
/// `(v[i] - shift) * scaling_factor`, rounded per IEEE 754.
pub fn rescale_vector(v: &Vec<u64>, shift: u64, scaling_factor: u64) -> (r: Vec<u64>)
    ensures
        r@.len() == v@.len(),
        forall|i: int|
            0 <= i < v@.len() ==> #[trigger] r@[i] == ieee_mul(
                ieee_sub(v@[i], shift),
                scaling_factor,
            ),
{
    let n = v.len();
    let mut out: Vec<u64> = Vec::new();
    for i in 0..n
        invariant
            n == v@.len(),
            out@.len() == i,
            forall|j: int|
                0 <= j < i ==> #[trigger] out@[j] == ieee_mul(
                    ieee_sub(v@[j], shift),
                    scaling_factor,
                ),
    {
        let d = sub_bits(v[i], shift);
        out.push(mul_bits(d, scaling_factor));
    }
    out
}

/// Shifts, scales and reflects every entry: the result holds
/// `((v[i] - shift) * scaling_factor - 1) * -1`, rounded per IEEE 754, so
/// that the former minimum of a scaled vector becomes its maximum and vice
/// versa.
pub fn rescale_and_invert_vector(v: &Vec<u64>, shift: u64, scaling_factor: u64) -> (r: Vec<u64>)
    ensures
        r@.len() == v@.len(),
        forall|i: int|
            0 <= i < v@.len() ==> #[trigger] r@[i] == ieee_mul(
                ieee_sub(ieee_mul(ieee_sub(v@[i], shift), scaling_factor), ONE_BITS),
                NEG_ONE_BITS,
            ),
{
    let scaled = rescale_vector(v, shift, scaling_factor);
    let n = scaled.len();
    let mut out: Vec<u64> = Vec::new();
    for i in 0..n
        invariant
            n == scaled@.len(),
            scaled@.len() == v@.len(),
            out@.len() == i,
            forall|j: int|
                0 <= j < n ==> #[trigger] scaled@[j] == ieee_mul(
                    ieee_sub(v@[j], shift),
                    scaling_factor,
                ),
            forall|j: int|
                0 <= j < i ==> #[trigger] out@[j] == ieee_mul(
                    ieee_sub(scaled@[j], ONE_BITS),
                    NEG_ONE_BITS,
                ),
    {
        let d = sub_bits(scaled[i], ONE_BITS);
        out.push(mul_bits(d, NEG_ONE_BITS));
    }
    out
}

/// Min-max rescaling of an observation vector onto [0, 1], optionally
/// inverted. The result has the vector's length; when the values are not
/// all equal (and their span does not overflow), every result entry is a
/// finite value in [0.0, 1.0], entries holding the minimum map exactly to
/// 0.0 and entries holding the maximum exactly to 1.0 — reversed for an
/// inverted variable; a degenerate vector maps to all 0.0.
#[verifier::loop_isolation(false)]
pub fn autorescale_vector(v: &Values, inverted: bool) -> (r: Values)
    ensures
        r@ == autorescale_spec(v@, inverted),
        r@.len() == v@.len(),
        degenerate(v@) ==> forall|k: int| 0 <= k < r@.len() ==> #[trigger] r@[k] == 0u64,
        !degenerate(v@) ==> forall|k: int|
            0 <= k < r@.len() ==> !sign_bits(#[trigger] r@[k]) && is_finite_bits(r@[k]) && f_le(
                r@[k],
                ONE_BITS,
            ),
        !degenerate(v@) && !inverted ==> forall|k: int|
            0 <= k < v@.len() ==> (#[trigger] v@[k] == fmin(v@) ==> r@[k] == 0u64) && (v@[k]
                == fmax(v@) ==> r@[k] == ONE_BITS),
        !degenerate(v@) && inverted ==> forall|k: int|
            0 <= k < v@.len() ==> (#[trigger] v@[k] == fmin(v@) ==> r@[k] == ONE_BITS) && (v@[k]
                == fmax(v@) ==> r@[k] == 0u64),
{
    let vals = v.values();
    let n = vals.len();
    let mn = min_value(vals);
    let mx = max_value(vals);
    proof {
        lemma_fmin_attained(v@);
        lemma_fmax_attained(v@);
    }
    let range = sub_bits(mx, mn);
    let span_ok = lt_bits(mn, mx) && check_finite_bits(range);
    assert(span_ok == !degenerate(v@));
    let mut out: Vec<u64> = Vec::new();
    if !span_ok {
        for i in 0..n
            invariant
                out@.len() == i,
                forall|j: int| 0 <= j < i ==> #[trigger] out@[j] == 0u64,
        {
            out.push(0u64);
        }
        proof {
            assert(out@ =~= autorescale_spec(v@, inverted));
            assert(is_finite_bits(0u64)) by (bit_vector);
        }
        return Values::from_raw(out);
    }
    for i in 0..n
        invariant
            n == v@.len(),
            vals@ == v@,
            valid_values(v@),
            mn == fmin(v@),
            mx == fmax(v@),
            is_finite_bits(mn),
            is_finite_bits(mx),
            range == range_bits(v@),
            !degenerate(v@),
            is_finite_bits(range),
            f_lt(mn, mx),
            out@.len() == i,
            forall|j: int|
                0 <= j < i ==> #[trigger] out@[j] == autorescale_spec(v@, inverted)[j],
            forall|j: int|
                0 <= j < i ==> !sign_bits(#[trigger] out@[j]) && is_finite_bits(out@[j]) && f_le(
                    out@[j],
                    ONE_BITS,
                ),
            forall|j: int|
                0 <= j < i ==> (#[trigger] v@[j] == fmin(v@) ==> out@[j] == (if inverted {
                    ONE_BITS
                } else {
                    0u64
                })) && (v@[j] == fmax(v@) ==> out@[j] == (if inverted {
                    0u64
                } else {
                    ONE_BITS
                })),
    {
        proof {
            lemma_fmin_le(v@, i as int);
            lemma_fmax_ge(v@, i as int);
            crate::ieee::lemma_mag_of_sign(range);
        }
        assert(!sign_bits(range) && mag_bits(range) != 0);
        let d0 = sub_bits(vals[i], mn);
        let d = normalize_zero(d0);
        assert(!sign_bits(d));
        assert(range == ieee_sub(mx, mn));
        assert(f_le(d0, ieee_sub(mx, mn)));
        proof {
            assert(mag_bits(0u64) == 0) by (bit_vector);
            assert(crate::ieee::f_key(d) == crate::ieee::f_key(d0));
        }
        assert(f_le(d, range));
        proof {
            crate::ieee::lemma_mag_of_sign(d);
        }
        assert(is_finite_bits(d));
        let q = div_bits(d, range);
        let e = if inverted {
            let w = sub_bits(ONE_BITS, q);
            proof {
                crate::ieee::lemma_mag_of_sign(q);
                crate::ieee::lemma_mag_of_sign(w);
                crate::ieee::lemma_mag_of_sign(ONE_BITS);
                if q == ONE_BITS {
                    assert(w == 0u64);
                } else {
                    assert(f_lt(q, ONE_BITS));
                    assert(!sign_bits(w) && mag_bits(w) != 0);
                }
                assert(f_le(w, ONE_BITS));
                assert(is_finite_bits(w));
            }
            w
        } else {
            q
        };
        proof {
            if v@[i as int] == mn {
                assert(d0 == 0u64);
                assert(q == 0u64);
            }
            if v@[i as int] == mx {
                assert(d0 == range);
                assert(mag_bits(d0) != 0);
                assert(d == range);
                assert(q == ONE_BITS);
            }
            assert(e == autorescale_spec(v@, inverted)[i as int]);
        }
        out.push(e);
    }
    proof {
        assert(out@ =~= autorescale_spec(v@, inverted));
    }
    Values::from_raw(out)
}

/// Inversion is a reflection: on a non-degenerate vector, each entry of the
/// inverted rescaling is exactly 1.0 minus the corresponding entry of the
/// direct rescaling.
pub proof fn lemma_inversion_is_reflection(s: Seq<u64>, i: int)
    requires
        0 <= i < s.len(),
        !degenerate(s),
    ensures
        autorescale_spec(s, true)[i] == ieee_sub(ONE_BITS, autorescale_spec(s, false)[i]),
{
}

} // verus!
