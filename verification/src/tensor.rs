//! Dense numeric arrays: a shape plus a flat, row-major backing store of
//! fixed-point values, and the arithmetic / activation primitives that the
//! transformer model is built from.

use vstd::prelude::*;
use vstd::arithmetic::mul::lemma_mul_inequality;
use crate::fixed::{FX_ONE, FX_MAX, FX_MIN, sat_fx, fx_add_spec, fx_mul_spec, fx_add, fx_mul};

verus! {

/// A tensor-algebra operation that was handed unusable operands.
/// These errors are local and recoverable: the operands are untouched and
/// the caller may retry with corrected ones.
#[derive(Debug, Clone, Copy, PartialEq, Eq, Structural)]
pub enum TensorError {
    /// The operand shapes do not fit the operation.
    ShapeMismatch,
    /// The number of supplied values does not equal the product of the
    /// requested shape.
    ValueCountMismatch,
}

/// Number of elements a shape describes: the product of its dimension
/// sizes (1 for the empty shape).
pub open spec fn shape_product(s: Seq<usize>) -> int
    decreases s.len(),
{
    if s.len() == 0 {
        1
    } else {
        shape_product(s.drop_last()) * s.last() as int
    }
}

/// Value of one matrix-product entry after accumulating the first `k`
/// products of row `i` of `a` (an `m x n` matrix) with column `j` of `b`
/// (an `n x p` matrix), each step saturating.
pub open spec fn mm_entry(
    av: Seq<i64>,
    bv: Seq<i64>,
    n: int,
    p: int,
    i: int,
    j: int,
    k: int,
) -> int
    decreases k,
{
    if k <= 0 {
        0
    } else {
        fx_add_spec(
            mm_entry(av, bv, n, p, i, j, k - 1),
            fx_mul_spec(av[i * n + (k - 1)] as int, bv[(k - 1) * p + j] as int),
        )
    }
}

/// Sum of a sequence of fixed-point values, as an unbounded integer.
pub open spec fn sum_fx(s: Seq<i64>) -> int
    decreases s.len(),
{
    if s.len() == 0 {
        0
    } else {
        sum_fx(s.drop_last()) + s.last() as int
    }
}

/// Largest element of a sequence of fixed-point values (0 for the empty
/// sequence, which no caller relies on).
pub open spec fn seq_max_fx(s: Seq<i64>) -> int
    decreases s.len(),
{
    if s.len() == 0 {
        0
    } else if s.len() == 1 {
        s[0] as int
    } else if s.last() as int > seq_max_fx(s.drop_last()) {
        s.last() as int
    } else {
        seq_max_fx(s.drop_last())
    }
}

proof fn lemma_seq_max_ge(s: Seq<i64>, i: int)
    requires
        0 <= i < s.len(),
    ensures
        s[i] as int <= seq_max_fx(s),
    decreases s.len(),
{
    if s.len() > 1 && i < s.len() - 1 {
        lemma_seq_max_ge(s.drop_last(), i);
    }
}

/// Unnormalized softmax weight of element `i`: the exponential of its
/// distance to the maximum.
pub open spec fn softmax_weight(s: Seq<i64>, i: int) -> int {
    crate::fixed::exp_spec(s[i] as int - seq_max_fx(s))
}

/// Sum of the first `k` softmax weights.
pub open spec fn softmax_denom(s: Seq<i64>, k: int) -> int
    decreases k,
{
    if k <= 0 {
        0
    } else {
        softmax_denom(s, k - 1) + softmax_weight(s, k - 1)
    }
}

/// Normalized softmax output for element `i`: its weight as a fraction of
/// the total weight, rounded toward minus infinity.
pub open spec fn softmax_out(s: Seq<i64>, i: int) -> int {
    (softmax_weight(s, i) * 65536) / softmax_denom(s, s.len() as int)
}

/// Sum of the first `k` softmax outputs.
pub open spec fn softmax_out_sum(s: Seq<i64>, k: int) -> int
    decreases k,
{
    if k <= 0 {
        0
    } else {
        softmax_out_sum(s, k - 1) + softmax_out(s, k - 1)
    }
}

proof fn lemma_denom_bounds(s: Seq<i64>, k: int)
    requires
        0 <= k <= s.len(),
    ensures
        k <= softmax_denom(s, k) <= k * 65536,
    decreases k,
{
    if k > 0 {
        lemma_denom_bounds(s, k - 1);
        crate::fixed::lemma_exp_bounds(s[k - 1] as int - seq_max_fx(s));
    }
}

proof fn lemma_weight_le_denom(s: Seq<i64>, i: int, k: int)
    requires
        0 <= i < k <= s.len(),
    ensures
        softmax_weight(s, i) <= softmax_denom(s, k),
    decreases k,
{
    lemma_denom_bounds(s, i);
    crate::fixed::lemma_exp_bounds(s[k - 1] as int - seq_max_fx(s));
    if i < k - 1 {
        lemma_weight_le_denom(s, i, k - 1);
    }
}

/// Quotients of a sum: dividing two non-negative values separately loses
/// at most one unit against dividing their sum.
proof fn lemma_div_add_bounds(x: int, y: int, d: int)
    requires
        d >= 1,
    ensures
        x / d + y / d <= (x + y) / d,
        (x + y) / d <= x / d + y / d + 1,
{
    vstd::arithmetic::div_mod::lemma_fundamental_div_mod(x, d);
    vstd::arithmetic::div_mod::lemma_fundamental_div_mod(y, d);
    let qx = x / d;
    let rx = x % d;
    let qy = y / d;
    let ry = y % d;
    if rx + ry < d {
        assert(x + y == (qx + qy) * d + (rx + ry)) by (nonlinear_arith)
            requires
                x == d * qx + rx,
                y == d * qy + ry,
        ;
        vstd::arithmetic::div_mod::lemma_fundamental_div_mod_converse(
            x + y,
            d,
            qx + qy,
            rx + ry,
        );
    } else {
        assert(x + y == (qx + qy + 1) * d + (rx + ry - d)) by (nonlinear_arith)
            requires
                x == d * qx + rx,
                y == d * qy + ry,
        ;
        vstd::arithmetic::div_mod::lemma_fundamental_div_mod_converse(
            x + y,
            d,
            qx + qy + 1,
            rx + ry - d,
        );
    }
}

/// Partial sums of the normalized outputs track the corresponding share
/// of the denominator to within one unit per element.
proof fn lemma_out_sum_bounds(s: Seq<i64>, k: int)
    requires
        0 <= k <= s.len(),
        softmax_denom(s, s.len() as int) >= 1,
    ensures
        softmax_out_sum(s, k) <= (softmax_denom(s, k) * 65536) / softmax_denom(
            s,
            s.len() as int,
        ),
        softmax_out_sum(s, k) >= (softmax_denom(s, k) * 65536) / softmax_denom(
            s,
            s.len() as int,
        ) - k,
    decreases k,
{
    let t = softmax_denom(s, s.len() as int);
    if k > 0 {
        lemma_out_sum_bounds(s, k - 1);
        lemma_denom_bounds(s, k - 1);
        crate::fixed::lemma_exp_bounds(s[k - 1] as int - seq_max_fx(s));
        assert(softmax_denom(s, k) * 65536 == softmax_denom(s, k - 1) * 65536 + softmax_weight(
            s,
            k - 1,
        ) * 65536) by (nonlinear_arith)
            requires
                softmax_denom(s, k) == softmax_denom(s, k - 1) + softmax_weight(s, k - 1),
        ;
        vstd::arithmetic::mul::lemma_mul_nonnegative(softmax_denom(s, k - 1), 65536);
        vstd::arithmetic::mul::lemma_mul_nonnegative(softmax_weight(s, k - 1), 65536);
        lemma_div_add_bounds(
            softmax_denom(s, k - 1) * 65536,
            softmax_weight(s, k - 1) * 65536,
            t,
        );
    }
}

/// A sequence whose elements are exactly the normalized softmax outputs
/// sums to the sum of those outputs.
proof fn lemma_sum_matches_out_sum(d: Seq<i64>, s: Seq<i64>, k: int)
    requires
        0 <= k <= s.len(),
        d.len() == k,
        forall|i: int| 0 <= i < k ==> d[i] as int == softmax_out(s, i),
    ensures
        sum_fx(d) == softmax_out_sum(s, k),
    decreases k,
{
    if k > 0 {
        lemma_sum_matches_out_sum(d.drop_last(), s, k - 1);
    }
}

/// Cap on the accumulated sum of squared deviations (2^100); far beyond
/// anything a real buffer reaches, but it keeps the accumulation total.
pub const LN_ACC_CAP: i128 = 1267650600228229401496703205376;

/// Mean of a sequence of fixed-point values, rounded toward minus
/// infinity.
pub open spec fn ln_mean(s: Seq<i64>) -> int
    recommends
        s.len() > 0,
{
    sum_fx(s) / s.len() as int
}

/// Deviation of element `i` from the mean, clipped to the representable
/// range.
pub open spec fn ln_dev(s: Seq<i64>, i: int) -> int {
    sat_fx(s[i] as int - ln_mean(s))
}

/// Capped sum of the squared deviations of the first `k` elements.
pub open spec fn ln_sq_acc(s: Seq<i64>, k: int) -> int
    decreases k,
{
    if k <= 0 {
        0
    } else {
        let a = ln_sq_acc(s, k - 1) + ln_dev(s, k - 1) * ln_dev(s, k - 1);
        if a > LN_ACC_CAP as int {
            LN_ACC_CAP as int
        } else {
            a
        }
    }
}

/// Variance of the buffer, in fixed point.
pub open spec fn ln_var(s: Seq<i64>) -> int
    recommends
        s.len() > 0,
{
    (ln_sq_acc(s, s.len() as int) / s.len() as int) / 65536
}

/// Standard deviation of the buffer plus the caller's epsilon, in fixed
/// point.
pub open spec fn ln_sigma(s: Seq<i64>, eps: int) -> int
    recommends
        s.len() > 0,
        eps >= 0,
{
    crate::fixed::isqrt_spec((ln_var(s) + eps) * 65536)
}

/// Normalized value of element `i`: its deviation from the mean divided
/// by the standard deviation (zero when the deviation vanishes
/// everywhere).
pub open spec fn ln_out(s: Seq<i64>, eps: int, i: int) -> int {
    if ln_sigma(s, eps) == 0 {
        0
    } else {
        sat_fx((ln_dev(s, i) * 65536) / ln_sigma(s, eps))
    }
}

/// Sum of the first `k` normalized outputs.
pub open spec fn ln_out_sum(s: Seq<i64>, eps: int, k: int) -> int
    decreases k,
{
    if k <= 0 {
        0
    } else {
        ln_out_sum(s, eps, k - 1) + ln_out(s, eps, k - 1)
    }
}

/// Sum of the first `k` clipped deviations.
pub open spec fn ln_dev_sum(s: Seq<i64>, k: int) -> int
    decreases k,
{
    if k <= 0 {
        0
    } else {
        ln_dev_sum(s, k - 1) + ln_dev(s, k - 1)
    }
}

/// No element deviates from the mean by more than the representable
/// range, so no deviation is clipped.
pub open spec fn ln_unclipped(s: Seq<i64>) -> bool {
    forall|i: int|
        0 <= i < s.len() ==> FX_MIN as int <= #[trigger] (s[i] as int) - ln_mean(s)
            <= FX_MAX as int
}

proof fn lemma_sum_take(s: Seq<i64>, k: int)
    requires
        0 <= k <= s.len(),
    ensures
        sum_fx(s.take(k)) == (if k == 0 {
            0int
        } else {
            sum_fx(s.take(k - 1)) + s[k - 1] as int
        }),
{
    if k > 0 {
        assert(s.take(k).drop_last() =~= s.take(k - 1));
    }
}

/// Without clipping, the deviations sum to the division remainder of the
/// element sum by the length: non-negative and less than the length.
proof fn lemma_dev_sum_is_remainder(s: Seq<i64>, k: int)
    requires
        s.len() > 0,
        0 <= k <= s.len(),
        ln_unclipped(s),
    ensures
        ln_dev_sum(s, k) == sum_fx(s.take(k)) - k * ln_mean(s),
    decreases k,
{
    if k == 0 {
        assert(sum_fx(s.take(0)) == 0);
    } else {
        lemma_dev_sum_is_remainder(s, k - 1);
        lemma_sum_take(s, k);
        assert(k * ln_mean(s) == (k - 1) * ln_mean(s) + ln_mean(s)) by (nonlinear_arith);
    }
}

/// When the standard deviation is at least one whole unit and nothing
/// was clipped, normalization cannot saturate.
proof fn lemma_ln_out_no_sat(s: Seq<i64>, eps: int, i: int)
    requires
        s.len() > 0,
        0 <= i < s.len(),
        ln_sigma(s, eps) >= 65536,
    ensures
        ln_out(s, eps, i) == (ln_dev(s, i) * 65536) / ln_sigma(s, eps),
{
    let d = ln_dev(s, i);
    let sg = ln_sigma(s, eps);
    let q = (d * 65536) / sg;
    vstd::arithmetic::mul::lemma_mul_inequality(d, FX_MAX as int, 65536);
    vstd::arithmetic::mul::lemma_mul_inequality(FX_MIN as int, d, 65536);
    if d >= 0 {
        vstd::arithmetic::div_mod::lemma_div_pos_is_pos(d * 65536, sg);
        vstd::arithmetic::div_mod::lemma_div_is_ordered_by_denominator(d * 65536, 65536, sg);
        vstd::arithmetic::div_mod::lemma_div_by_multiple(d, 65536);
        vstd::arithmetic::mul::lemma_mul_is_commutative(d, 65536);
    } else {
        assert(q * sg <= d * 65536 && d * 65536 < (q + 1) * sg) by {
            vstd::arithmetic::div_mod::lemma_fundamental_div_mod(d * 65536, sg);
            assert((d * 65536) / sg * sg == sg * ((d * 65536) / sg)) by (nonlinear_arith);
            assert((q + 1) * sg == sg * q + sg) by (nonlinear_arith);
        }
        assert(FX_MIN as int <= q) by (nonlinear_arith)
            requires
                d * 65536 < (q + 1) * sg,
                FX_MIN as int * 65536 <= d * 65536,
                sg >= 65536,
                (FX_MIN as int) < 0,
        ;
        assert(q <= 0) by (nonlinear_arith)
            requires
                q * sg <= d * 65536,
                d < 0,
                sg >= 65536,
        ;
    }
}

/// Partial sums of the normalized outputs track the scaled deviation sums
/// to within one unit per element.
proof fn lemma_ln_out_sum_bounds(s: Seq<i64>, eps: int, k: int)
    requires
        s.len() > 0,
        0 <= k <= s.len(),
        ln_sigma(s, eps) >= 65536,
    ensures
        ln_out_sum(s, eps, k) <= (ln_dev_sum(s, k) * 65536) / ln_sigma(s, eps),
        ln_out_sum(s, eps, k) >= (ln_dev_sum(s, k) * 65536) / ln_sigma(s, eps) - k,
    decreases k,
{
    let sg = ln_sigma(s, eps);
    if k > 0 {
        lemma_ln_out_sum_bounds(s, eps, k - 1);
        lemma_ln_out_no_sat(s, eps, k - 1);
        assert(ln_dev_sum(s, k) * 65536 == ln_dev_sum(s, k - 1) * 65536 + ln_dev(s, k - 1)
            * 65536) by (nonlinear_arith)
            requires
                ln_dev_sum(s, k) == ln_dev_sum(s, k - 1) + ln_dev(s, k - 1),
        ;
        lemma_div_add_bounds(ln_dev_sum(s, k - 1) * 65536, ln_dev(s, k - 1) * 65536, sg);
    }
}

/// A sequence whose elements are exactly the normalized outputs sums to
/// the sum of those outputs.
proof fn lemma_sum_matches_ln_out_sum(d: Seq<i64>, s: Seq<i64>, eps: int, k: int)
    requires
        0 <= k <= s.len(),
        d.len() == k,
        forall|i: int| 0 <= i < k ==> d[i] as int == ln_out(s, eps, i),
    ensures
        sum_fx(d) == ln_out_sum(s, eps, k),
    decreases k,
{
    if k > 0 {
        lemma_sum_matches_ln_out_sum(d.drop_last(), s, eps, k - 1);
    }
}

/// Row-major position of entry `(i, k)` of an `m x n` matrix lies inside
/// the backing store.
pub(crate) proof fn lemma_rm_index(i: int, k: int, m: int, n: int)
    by (nonlinear_arith)
    requires
        0 <= i < m,
        0 <= k < n,
    ensures
        0 <= i * n + k,
        i * n + k < m * n,
{
}

pub(crate) proof fn lemma_product_rank2(s: Seq<usize>)
    requires
        s.len() == 2,
    ensures
        shape_product(s) == s[0] as int * s[1] as int,
{
    assert(s.drop_last().drop_last() =~= Seq::<usize>::empty());
    assert(shape_product(Seq::<usize>::empty()) == 1);
    assert(shape_product(s.drop_last()) == shape_product(s.drop_last().drop_last())
        * s.drop_last().last() as int);
    assert(s.drop_last().last() == s[0]);
}

/// A dense array of fixed-point values.  The backing store is flat and
/// row-major; its length always equals the product of the shape.
#[derive(Debug, Clone)]
pub struct Tensor {
    shape: Vec<usize>,
    data: Vec<i64>,
}

proof fn lemma_shape_product_nonneg(s: Seq<usize>)
    ensures
        shape_product(s) >= 0,
    decreases s.len(),
{
    if s.len() > 0 {
        lemma_shape_product_nonneg(s.drop_last());
        lemma_mul_inequality(0, shape_product(s.drop_last()), s.last() as int);
    }
}

/// Extending a prefix of a positive shape by one dimension can only grow
/// the element count.
proof fn lemma_take_product_step(s: Seq<usize>, k: int)
    requires
        0 <= k < s.len(),
        s[k] >= 1,
    ensures
        shape_product(s.take(k)) <= shape_product(s.take(k + 1)),
        shape_product(s.take(k + 1)) == shape_product(s.take(k)) * s[k] as int,
{
    assert(s.take(k + 1).drop_last() =~= s.take(k));
    assert(s.take(k + 1).last() == s[k]);
    lemma_shape_product_nonneg(s.take(k));
    lemma_mul_inequality(1, s[k] as int, shape_product(s.take(k)));
    vstd::arithmetic::mul::lemma_mul_is_commutative(shape_product(s.take(k)), s[k] as int);
}

/// With no zero dimension, every prefix of a shape describes at most as
/// many elements as the whole shape.
proof fn lemma_take_product_le(s: Seq<usize>, k: int)
    requires
        0 <= k <= s.len(),
        forall|i: int| 0 <= i < s.len() ==> s[i] >= 1,
    ensures
        shape_product(s.take(k)) <= shape_product(s),
        shape_product(s.take(k)) >= 1,
    decreases s.len() - k,
{
    if k == s.len() {
        assert(s.take(k) =~= s);
        lemma_take_product_ge_one(s.take(k));
    } else {
        lemma_take_product_step(s, k);
        lemma_take_product_le(s, k + 1);
        lemma_take_product_ge_one(s.take(k));
    }
}

proof fn lemma_take_product_ge_one(s: Seq<usize>)
    requires
        forall|i: int| 0 <= i < s.len() ==> s[i] >= 1,
    ensures
        shape_product(s) >= 1,
    decreases s.len(),
{
    if s.len() > 0 {
        assert(forall|i: int| 0 <= i < s.drop_last().len() ==> s.drop_last()[i] >= 1);
        lemma_take_product_ge_one(s.drop_last());
        lemma_mul_inequality(1, s.last() as int, shape_product(s.drop_last()));
        vstd::arithmetic::mul::lemma_mul_is_commutative(
            shape_product(s.drop_last()),
            s.last() as int,
        );
    }
}

/// A shape with a zero dimension describes no elements.
proof fn lemma_zero_dim_product(s: Seq<usize>, z: int)
    requires
        0 <= z < s.len(),
        s[z] == 0,
    ensures
        shape_product(s) == 0,
    decreases s.len(),
{
    if z == s.len() - 1 {
        assert(shape_product(s) == shape_product(s.drop_last()) * 0);
    } else {
        lemma_zero_dim_product(s.drop_last(), z);
    }
}

/// Element count of a shape, or `None` when it exceeds what a `usize` can
/// address.
pub(crate) fn shape_count(shape: &[usize]) -> (r: Option<usize>)
    ensures
        match r {
            Some(n) => n as int == shape_product(shape@),
            None => shape_product(shape@) > usize::MAX as int,
        },
{
    let mut has_zero: bool = false;
    let mut i: usize = 0;
    while i < shape.len()
        invariant
            0 <= i <= shape@.len(),
            has_zero ==> exists|z: int| 0 <= z < shape@.len() && shape@[z] == 0,
            !has_zero ==> forall|z: int| 0 <= z < i ==> shape@[z] >= 1,
        decreases shape@.len() - i,
    {
        if shape[i] == 0 {
            has_zero = true;
        }
        i += 1;
    }
    if has_zero {
        proof {
            let z = choose|z: int| 0 <= z < shape@.len() && shape@[z] == 0;
            lemma_zero_dim_product(shape@, z);
        }
        return Some(0);
    }
    let mut acc: u128 = 1;
    let mut j: usize = 0;
    while j < shape.len()
        invariant
            0 <= j <= shape@.len(),
            forall|z: int| 0 <= z < shape@.len() ==> shape@[z] >= 1,
            acc as int == shape_product(shape@.take(j as int)),
            acc <= usize::MAX as u128,
        decreases shape@.len() - j,
    {
        proof {
            lemma_take_product_step(shape@, j as int);
            assert(acc as int * shape@[j as int] as int <= 0xffff_ffff_ffff_ffff
                * 0xffff_ffff_ffff_ffff) by (nonlinear_arith)
                requires
                    0 <= acc as int <= 0xffff_ffff_ffff_ffff,
                    0 <= shape@[j as int] as int <= 0xffff_ffff_ffff_ffff,
            ;
        }
        acc = acc * (shape[j] as u128);
        if acc > usize::MAX as u128 {
            proof {
                lemma_take_product_le(shape@, j as int + 1);
            }
            return None;
        }
        j += 1;
    }
    proof {
        assert(shape@.take(shape@.len() as int) =~= shape@);
    }
    Some(acc as usize)
}

fn copy_shape(shape: &[usize]) -> (r: Vec<usize>)
    ensures
        r@ == shape@,
{
    let mut out: Vec<usize> = Vec::new();
    let mut i: usize = 0;
    while i < shape.len()
        invariant
            0 <= i <= shape@.len(),
            out@ =~= shape@.take(i as int),
        decreases shape@.len() - i,
    {
        out.push(shape[i]);
        i += 1;
    }
    proof {
        assert(shape@.take(shape@.len() as int) =~= shape@);
    }
    out
}

fn shapes_equal(a: &Vec<usize>, b: &Vec<usize>) -> (r: bool)
    ensures
        r <==> a@ == b@,
{
    if a.len() != b.len() {
        return false;
    }
    let n: usize = a.len();
    let mut i: usize = 0;
    while i < n
        invariant
            0 <= i <= n,
            a@.len() == n,
            b@.len() == n,
            forall|j: int| 0 <= j < i ==> a@[j] == b@[j],
        decreases n - i,
    {
        if a[i] != b[i] {
            return false;
        }
        i += 1;
    }
    proof {
        assert(a@ =~= b@);
    }
    true
}

fn fill_i64(count: usize, value: i64) -> (r: Vec<i64>)
    ensures
        r@.len() == count,
        forall|i: int| 0 <= i < count ==> r@[i] == value,
{
    let mut out: Vec<i64> = Vec::new();
    let mut i: usize = 0;
    while i < count
        invariant
            0 <= i <= count,
            out@.len() == i,
            forall|j: int| 0 <= j < i ==> out@[j] == value,
        decreases count - i,
    {
        out.push(value);
        i += 1;
    }
    out
}

impl Tensor {
    /// The shape, as seen by specifications.
    pub closed spec fn spec_shape(&self) -> Seq<usize> {
        self.shape@
    }

    /// The flat backing store, as seen by specifications.
    pub closed spec fn spec_data(&self) -> Seq<i64> {
        self.data@
    }

    /// Structural invariant: the store holds exactly as many values as the
    /// shape describes.  Every constructor establishes it and every
    /// operation preserves it.
    pub open spec fn wf(&self) -> bool {
        self.spec_data().len() == shape_product(self.spec_shape())
    }

    /// Allocate a tensor of the given shape with every element zero.
    pub fn zeros(shape: &[usize]) -> (t: Tensor)
        requires
            shape_product(shape@) <= usize::MAX as int,
        ensures
            t.wf(),
            t.spec_shape() == shape@,
            forall|i: int| 0 <= i < t.spec_data().len() ==> t.spec_data()[i] == 0,
    {
        let count = match shape_count(shape) {
            Some(n) => n,
            None => {
                proof {
                    assert(false);
                }
                vstd::pervasive::unreached()
            },
        };
        Tensor { shape: copy_shape(shape), data: fill_i64(count, 0) }
    }

    /// Allocate a tensor of the given shape with every element one
    /// (`FX_ONE` in the fixed-point encoding).
    pub fn ones(shape: &[usize]) -> (t: Tensor)
        requires
            shape_product(shape@) <= usize::MAX as int,
        ensures
            t.wf(),
            t.spec_shape() == shape@,
            forall|i: int| 0 <= i < t.spec_data().len() ==> t.spec_data()[i] == FX_ONE,
    {
        let count = match shape_count(shape) {
            Some(n) => n,
            None => {
                proof {
                    assert(false);
                }
                vstd::pervasive::unreached()
            },
        };
        Tensor { shape: copy_shape(shape), data: fill_i64(count, FX_ONE) }
    }

    /// Build a tensor of the given shape from the given values.  Fails with
    /// `ValueCountMismatch` if and only if the number of values differs
    /// from the element count of the shape.
    pub fn from_slice(values: &[i64], shape: &[usize]) -> (r: Result<Tensor, TensorError>)
        ensures
            match r {
                Ok(t) => {
                    &&& t.wf()
                    &&& t.spec_shape() == shape@
                    &&& t.spec_data() == values@
                    &&& values@.len() == shape_product(shape@)
                },
                Err(e) => {
                    &&& e == TensorError::ValueCountMismatch
                    &&& values@.len() != shape_product(shape@)
                },
            },
    {
        let vlen: usize = values.len();
        let count = match shape_count(shape) {
            Some(n) => n,
            None => {
                // more elements than a `usize` can address cannot match
                // the length of any real slice
                return Err(TensorError::ValueCountMismatch);
            },
        };
        if vlen != count {
            return Err(TensorError::ValueCountMismatch);
        }
        let mut data: Vec<i64> = Vec::new();
        let mut i: usize = 0;
        while i < values.len()
            invariant
                0 <= i <= values@.len(),
                data@ =~= values@.take(i as int),
            decreases values@.len() - i,
        {
            data.push(values[i]);
            i += 1;
        }
        proof {
            assert(values@.take(values@.len() as int) =~= values@);
        }
        Ok(Tensor { shape: copy_shape(shape), data })
    }

    /// Elementwise saturating sum.  Fails with `ShapeMismatch` if and only
    /// if the two shapes differ; the operands are never altered.
    pub fn add(&self, other: &Tensor) -> (r: Result<Tensor, TensorError>)
        requires
            self.wf(),
            other.wf(),
        ensures
            match r {
                Ok(t) => {
                    &&& self.spec_shape() == other.spec_shape()
                    &&& t.wf()
                    &&& t.spec_shape() == self.spec_shape()
                    &&& t.spec_data().len() == self.spec_data().len()
                    &&& forall|i: int|
                        0 <= i < t.spec_data().len() ==> t.spec_data()[i] as int == fx_add_spec(
                            self.spec_data()[i] as int,
                            other.spec_data()[i] as int,
                        )
                },
                Err(e) => {
                    &&& e == TensorError::ShapeMismatch
                    &&& self.spec_shape() != other.spec_shape()
                },
            },
    {
        if !shapes_equal(&self.shape, &other.shape) {
            return Err(TensorError::ShapeMismatch);
        }
        let n: usize = self.data.len();
        let mut data: Vec<i64> = Vec::new();
        let mut i: usize = 0;
        while i < n
            invariant
                0 <= i <= n,
                n == self.spec_data().len(),
                n == other.spec_data().len(),
                data@.len() == i,
                forall|j: int|
                    0 <= j < i ==> data@[j] as int == fx_add_spec(
                        self.spec_data()[j] as int,
                        other.spec_data()[j] as int,
                    ),
            decreases n - i,
        {
            data.push(fx_add(self.data[i], other.data[i]));
            i += 1;
        }
        Ok(Tensor { shape: copy_shape(self.shape.as_slice()), data })
    }

    /// Elementwise saturating product.  Fails with `ShapeMismatch` if and
    /// only if the two shapes differ; the operands are never altered.
    pub fn mul(&self, other: &Tensor) -> (r: Result<Tensor, TensorError>)
        requires
            self.wf(),
            other.wf(),
        ensures
            match r {
                Ok(t) => {
                    &&& self.spec_shape() == other.spec_shape()
                    &&& t.wf()
                    &&& t.spec_shape() == self.spec_shape()
                    &&& t.spec_data().len() == self.spec_data().len()
                    &&& forall|i: int|
                        0 <= i < t.spec_data().len() ==> t.spec_data()[i] as int == fx_mul_spec(
                            self.spec_data()[i] as int,
                            other.spec_data()[i] as int,
                        )
                },
                Err(e) => {
                    &&& e == TensorError::ShapeMismatch
                    &&& self.spec_shape() != other.spec_shape()
                },
            },
    {
        if !shapes_equal(&self.shape, &other.shape) {
            return Err(TensorError::ShapeMismatch);
        }
        let n: usize = self.data.len();
        let mut data: Vec<i64> = Vec::new();
        let mut i: usize = 0;
        while i < n
            invariant
                0 <= i <= n,
                n == self.spec_data().len(),
                n == other.spec_data().len(),
                data@.len() == i,
                forall|j: int|
                    0 <= j < i ==> data@[j] as int == fx_mul_spec(
                        self.spec_data()[j] as int,
                        other.spec_data()[j] as int,
                    ),
            decreases n - i,
        {
            data.push(fx_mul(self.data[i], other.data[i]));
            i += 1;
        }
        Ok(Tensor { shape: copy_shape(self.shape.as_slice()), data })
    }

    /// Whether `self` and `other` can be matrix-multiplied: both operands
    /// of rank 2 and the inner dimensions agree.
    pub open spec fn matmul_compatible(&self, other: &Tensor) -> bool {
        &&& self.spec_shape().len() == 2
        &&& other.spec_shape().len() == 2
        &&& self.spec_shape()[1] == other.spec_shape()[0]
    }

    /// Matrix product, defined only for rank-2 operands with matching
    /// inner dimensions; fails with `ShapeMismatch` if and only if the
    /// operands do not fit.  Entry `(i, j)` of the result is the standard
    /// row-by-column accumulation of saturating fixed-point products.
    pub fn matmul(&self, other: &Tensor) -> (r: Result<Tensor, TensorError>)
        requires
            self.wf(),
            other.wf(),
            self.matmul_compatible(other) ==> self.spec_shape()[0] as int
                * other.spec_shape()[1] as int <= usize::MAX as int,
        ensures
            match r {
                Ok(t) => {
                    &&& self.matmul_compatible(other)
                    &&& t.wf()
                    &&& t.spec_shape() == seq![self.spec_shape()[0], other.spec_shape()[1]]
                    &&& t.spec_data().len() == self.spec_shape()[0] as int
                        * other.spec_shape()[1] as int
                    &&& forall|i: int, j: int|
                        0 <= i < self.spec_shape()[0] as int && 0 <= j
                            < other.spec_shape()[1] as int ==> #[trigger] t.spec_data()[i
                            * other.spec_shape()[1] as int + j] as int == mm_entry(
                            self.spec_data(),
                            other.spec_data(),
                            self.spec_shape()[1] as int,
                            other.spec_shape()[1] as int,
                            i,
                            j,
                            self.spec_shape()[1] as int,
                        )
                },
                Err(e) => {
                    &&& e == TensorError::ShapeMismatch
                    &&& !self.matmul_compatible(other)
                },
            },
    {
        if self.shape.len() != 2 || other.shape.len() != 2 {
            return Err(TensorError::ShapeMismatch);
        }
        if self.shape[1] != other.shape[0] {
            return Err(TensorError::ShapeMismatch);
        }
        let m: usize = self.shape[0];
        let n: usize = self.shape[1];
        let p: usize = other.shape[1];
        proof {
            lemma_product_rank2(self.spec_shape());
            lemma_product_rank2(other.spec_shape());
        }
        let ghost av = self.spec_data();
        let ghost bv = other.spec_data();
        let dlen: usize = self.data.len();
        let olen: usize = other.data.len();
        proof {
            assert(av.len() <= usize::MAX as int);
            assert(bv.len() <= usize::MAX as int);
        }
        let mut data: Vec<i64> = Vec::new();
        let mut i: usize = 0;
        while i < m
            invariant
                0 <= i <= m,
                self.wf(),
                other.wf(),
                av == self.spec_data(),
                bv == other.spec_data(),
                self.spec_shape().len() == 2,
                other.spec_shape().len() == 2,
                m == self.spec_shape()[0],
                n == self.spec_shape()[1],
                n == other.spec_shape()[0],
                p == other.spec_shape()[1],
                m as int * p as int <= usize::MAX as int,
                av.len() == m as int * n as int,
                bv.len() == n as int * p as int,
                av.len() <= usize::MAX as int,
                bv.len() <= usize::MAX as int,
                data@.len() == i as int * p as int,
                forall|i2: int, j2: int|
                    0 <= i2 < i as int && 0 <= j2 < p as int ==> #[trigger] data@[i2 * p as int
                        + j2] as int == mm_entry(av, bv, n as int, p as int, i2, j2, n as int),
            decreases m - i,
        {
            let mut j: usize = 0;
            while j < p
                invariant
                    0 <= i < m,
                    0 <= j <= p,
                    self.wf(),
                    other.wf(),
                    av == self.spec_data(),
                    bv == other.spec_data(),
                    self.spec_shape().len() == 2,
                    other.spec_shape().len() == 2,
                    m == self.spec_shape()[0],
                    n == self.spec_shape()[1],
                    n == other.spec_shape()[0],
                    p == other.spec_shape()[1],
                    m as int * p as int <= usize::MAX as int,
                    av.len() == m as int * n as int,
                    bv.len() == n as int * p as int,
                    av.len() <= usize::MAX as int,
                    bv.len() <= usize::MAX as int,
                    data@.len() == i as int * p as int + j as int,
                    forall|i2: int, j2: int|
                        0 <= i2 < i as int && 0 <= j2 < p as int ==> #[trigger] data@[i2
                            * p as int + j2] as int == mm_entry(
                            av,
                            bv,
                            n as int,
                            p as int,
                            i2,
                            j2,
                            n as int,
                        ),
                    forall|j2: int|
                        0 <= j2 < j as int ==> #[trigger] data@[i as int * p as int + j2] as int
                            == mm_entry(av, bv, n as int, p as int, i as int, j2, n as int),
                decreases p - j,
            {
                let mut acc: i64 = 0;
                let mut k: usize = 0;
                while k < n
                    invariant
                        0 <= i < m,
                        0 <= j < p,
                        0 <= k <= n,
                        self.wf(),
                        other.wf(),
                        av == self.spec_data(),
                        bv == other.spec_data(),
                        self.spec_shape().len() == 2,
                        other.spec_shape().len() == 2,
                        m == self.spec_shape()[0],
                        n == self.spec_shape()[1],
                        n == other.spec_shape()[0],
                        p == other.spec_shape()[1],
                        av.len() == m as int * n as int,
                        bv.len() == n as int * p as int,
                        av.len() <= usize::MAX as int,
                        bv.len() <= usize::MAX as int,
                        acc as int == mm_entry(av, bv, n as int, p as int, i as int, j as int, k as int),
                    decreases n - k,
                {
                    proof {
                        lemma_rm_index(i as int, k as int, m as int, n as int);
                        lemma_rm_index(k as int, j as int, n as int, p as int);
                    }
                    let a: i64 = self.data[i * n + k];
                    let b: i64 = other.data[k * p + j];
                    acc = fx_add(acc, fx_mul(a, b));
                    k += 1;
                }
                data.push(acc);
                proof {
                    assert(data@.len() == i as int * p as int + j as int + 1);
                    assert forall|i2: int, j2: int|
                        0 <= i2 < i as int && 0 <= j2 < p as int implies #[trigger] data@[i2
                        * p as int + j2] as int == mm_entry(
                        av,
                        bv,
                        n as int,
                        p as int,
                        i2,
                        j2,
                        n as int,
                    ) by {
                        lemma_rm_index(i2, j2, i as int, p as int);
                    }
                }
                j += 1;
            }
            proof {
                assert(i as int * p as int + p as int == (i as int + 1) * p as int)
                    by (nonlinear_arith);
            }
            i += 1;
        }
        let mut shape: Vec<usize> = Vec::new();
        shape.push(m);
        shape.push(p);
        let t = Tensor { shape, data };
        proof {
            lemma_product_rank2(t.spec_shape());
            assert(t.spec_shape() =~= seq![self.spec_shape()[0], other.spec_shape()[1]]);
        }
        Ok(t)
    }

    /// In-place rectified linear unit: every element becomes
    /// `max(element, 0)`.
    pub fn relu(&mut self)
        requires
            old(self).wf(),
        ensures
            final(self).wf(),
            final(self).spec_shape() == old(self).spec_shape(),
            final(self).spec_data().len() == old(self).spec_data().len(),
            forall|i: int|
                0 <= i < final(self).spec_data().len() ==> final(self).spec_data()[i] as int == (
                if old(self).spec_data()[i] < 0 {
                    0int
                } else {
                    old(self).spec_data()[i] as int
                }),
    {
        let n: usize = self.data.len();
        let mut i: usize = 0;
        while i < n
            invariant
                0 <= i <= n,
                self.spec_shape() == old(self).spec_shape(),
                self.spec_data().len() == n,
                old(self).spec_data().len() == n,
                forall|j: int|
                    0 <= j < i ==> self.spec_data()[j] as int == (if old(self).spec_data()[j]
                        < 0 {
                        0int
                    } else {
                        old(self).spec_data()[j] as int
                    }),
                forall|j: int| i <= j < n ==> self.spec_data()[j] == old(self).spec_data()[j],
            decreases n - i,
        {
            if self.data[i] < 0 {
                self.data.set(i, 0);
            }
            i += 1;
        }
    }

    /// In-place numerically stable softmax over the entire flat buffer as
    /// one distribution: the maximum is subtracted before exponentiating
    /// and every weight is normalized by the total.  Every output lies in
    /// `[0, FX_ONE]` and, for a non-empty buffer, the outputs sum to one
    /// whole unit up to one smallest step per element.
    pub fn softmax(&mut self)
        requires
            old(self).wf(),
        ensures
            final(self).wf(),
            final(self).spec_shape() == old(self).spec_shape(),
            final(self).spec_data().len() == old(self).spec_data().len(),
            forall|i: int|
                0 <= i < final(self).spec_data().len() ==> final(self).spec_data()[i] as int
                    == softmax_out(old(self).spec_data(), i),
            forall|i: int|
                #![trigger final(self).spec_data()[i]]
                0 <= i < final(self).spec_data().len() ==> 0 <= final(self).spec_data()[i]
                    <= FX_ONE,
            old(self).spec_data().len() > 0 ==> FX_ONE - old(self).spec_data().len() <= sum_fx(
                final(self).spec_data(),
            ) <= FX_ONE as int,
    {
        let n: usize = self.data.len();
        if n == 0 {
            return;
        }
        let ghost s = self.spec_data();
        // largest element, for numerical stability
        let mut mx: i64 = self.data[0];
        let mut i: usize = 1;
        proof {
            assert(s.take(1).len() == 1 && s.take(1)[0] == s[0]);
        }
        while i < n
            invariant
                1 <= i <= n,
                s == self.spec_data(),
                n == s.len(),
                mx as int == seq_max_fx(s.take(i as int)),
            decreases n - i,
        {
            proof {
                assert(s.take(i as int + 1).drop_last() =~= s.take(i as int));
                assert(s.take(i as int + 1).last() == s[i as int]);
            }
            if self.data[i] > mx {
                mx = self.data[i];
            }
            i += 1;
        }
        proof {
            assert(s.take(n as int) =~= s);
        }
        // exponential weights
        let mut w: Vec<i64> = Vec::new();
        let mut j: usize = 0;
        while j < n
            invariant
                0 <= j <= n,
                s == self.spec_data(),
                n == s.len(),
                mx as int == seq_max_fx(s),
                w@.len() == j,
                forall|z: int| 0 <= z < j ==> #[trigger] w@[z] as int == softmax_weight(s, z),
                forall|z: int| 0 <= z < j ==> 1 <= #[trigger] w@[z] <= 65536,
            decreases n - j,
        {
            proof {
                lemma_seq_max_ge(s, j as int);
            }
            let d: i128 = self.data[j] as i128 - mx as i128;
            let arg: i64 = if d <= -2097152 {
                -2097152
            } else {
                d as i64
            };
            w.push(crate::fixed::fx_exp(arg));
            j += 1;
        }
        // total weight
        let mut total: i128 = 0;
        let mut k: usize = 0;
        while k < n
            invariant
                0 <= k <= n,
                n == s.len(),
                w@.len() == n,
                forall|z: int| 0 <= z < n ==> #[trigger] w@[z] as int == softmax_weight(s, z),
                forall|z: int| 0 <= z < n ==> 1 <= #[trigger] w@[z] <= 65536,
                total as int == softmax_denom(s, k as int),
                k as int <= total as int <= k as int * 65536,
            decreases n - k,
        {
            total = total + w[k] as i128;
            proof {
                assert((k as int + 1) * 65536 == k as int * 65536 + 65536) by (nonlinear_arith);
            }
            k += 1;
        }
        // normalize
        let ghost t = softmax_denom(s, n as int);
        let mut z: usize = 0;
        while z < n
            invariant
                0 <= z <= n,
                n == s.len(),
                self.spec_shape() == old(self).spec_shape(),
                self.spec_data().len() == n,
                old(self).spec_data() == s,
                w@.len() == n,
                forall|q: int| 0 <= q < n ==> #[trigger] w@[q] as int == softmax_weight(s, q),
                forall|q: int| 0 <= q < n ==> 1 <= #[trigger] w@[q] <= 65536,
                total as int == t,
                t == softmax_denom(s, n as int),
                1 <= t,
                forall|q: int|
                    0 <= q < z ==> #[trigger] self.spec_data()[q] as int == softmax_out(s, q),
                forall|q: int| 0 <= q < z ==> 0 <= #[trigger] self.spec_data()[q] <= FX_ONE,
            decreases n - z,
        {
            let num: u128 = (w[z] as u128) * 65536;
            let q128: u128 = num / (total as u128);
            proof {
                lemma_weight_le_denom(s, z as int, n as int);
                vstd::arithmetic::mul::lemma_mul_inequality(w@[z as int] as int, t, 65536);
                vstd::arithmetic::div_mod::lemma_div_is_ordered(
                    w@[z as int] as int * 65536,
                    t * 65536,
                    t,
                );
                vstd::arithmetic::div_mod::lemma_div_by_multiple(65536, t);
                vstd::arithmetic::mul::lemma_mul_is_commutative(t, 65536);
                vstd::arithmetic::div_mod::lemma_div_pos_is_pos(
                    w@[z as int] as int * 65536,
                    t,
                );
            }
            self.data.set(z, q128 as i64);
            z += 1;
        }
        proof {
            lemma_out_sum_bounds(s, n as int);
            lemma_denom_bounds(s, n as int);
            lemma_sum_matches_out_sum(self.spec_data(), s, n as int);
            vstd::arithmetic::div_mod::lemma_div_by_multiple(65536, t);
            vstd::arithmetic::mul::lemma_mul_is_commutative(t, 65536);
        }
    }

    /// In-place layer normalization of the entire buffer to zero mean and
    /// unit variance, `(x - mean) / sqrt(variance + epsilon)`; learned
    /// scale and bias are applied by the caller as separate elementwise
    /// operations.  When the standard deviation is at least one whole
    /// unit and no deviation is clipped, the outputs sum to zero up to
    /// one smallest step per element.
    pub fn layer_norm(&mut self, eps: i64)
        requires
            old(self).wf(),
            eps >= 0,
        ensures
            final(self).wf(),
            final(self).spec_shape() == old(self).spec_shape(),
            final(self).spec_data().len() == old(self).spec_data().len(),
            forall|i: int|
                0 <= i < final(self).spec_data().len() ==> final(self).spec_data()[i] as int
                    == ln_out(old(self).spec_data(), eps as int, i),
            old(self).spec_data().len() > 0 && ln_unclipped(old(self).spec_data()) && ln_sigma(
                old(self).spec_data(),
                eps as int,
            ) >= FX_ONE as int ==> -(old(self).spec_data().len() as int) <= sum_fx(
                final(self).spec_data(),
            ) <= old(self).spec_data().len() as int,
    {
        let n: usize = self.data.len();
        if n == 0 {
            return;
        }
        let ghost s = self.spec_data();
        // element sum
        let mut sum: i128 = 0;
        let mut i: usize = 0;
        while i < n
            invariant
                0 <= i <= n,
                s == self.spec_data(),
                n == s.len(),
                sum as int == sum_fx(s.take(i as int)),
                -(i as int) * 9223372036854775808 <= sum as int <= i as int
                    * 9223372036854775807,
            decreases n - i,
        {
            proof {
                lemma_sum_take(s, i as int + 1);
            }
            sum = sum + self.data[i] as i128;
            i += 1;
        }
        proof {
            assert(s.take(n as int) =~= s);
        }
        let mu: i128 = crate::fixed::div_floor_i128(sum, n as i128);
        proof {
            assert(mu as int == ln_mean(s));
            vstd::arithmetic::div_mod::lemma_multiply_divide_le(
                sum as int,
                n as int,
                9223372036854775807,
            );
            vstd::arithmetic::div_mod::lemma_div_multiples_vanish(
                -9223372036854775808,
                n as int,
            );
            vstd::arithmetic::div_mod::lemma_div_is_ordered(
                n as int * -9223372036854775808,
                sum as int,
                n as int,
            );
        }
        // clipped deviations and capped sum of their squares
        let mut devs: Vec<i64> = Vec::new();
        let mut acc: i128 = 0;
        let mut j: usize = 0;
        while j < n
            invariant
                0 <= j <= n,
                s == self.spec_data(),
                n == s.len(),
                mu as int == ln_mean(s),
                -9223372036854775808 <= mu as int <= 9223372036854775807,
                devs@.len() == j,
                forall|q: int| 0 <= q < j ==> #[trigger] devs@[q] as int == ln_dev(s, q),
                acc as int == ln_sq_acc(s, j as int),
                0 <= acc <= LN_ACC_CAP,
            decreases n - j,
        {
            let d: i64 = crate::fixed::sat_fx_i128(self.data[j] as i128 - mu);
            devs.push(d);
            proof {
                assert(0 <= (d as int * d as int) && (d as int * d as int)
                    <= 19807040628566084398385987584) by (nonlinear_arith)
                    requires
                        FX_MIN as int <= d as int <= FX_MAX as int,
                ;
            }
            let sq: i128 = (d as i128) * (d as i128);
            acc = acc + sq;
            if acc > LN_ACC_CAP {
                acc = LN_ACC_CAP;
            }
            j += 1;
        }
        // variance and standard deviation
        let v1: i128 = crate::fixed::div_floor_i128(acc, n as i128);
        proof {
            vstd::arithmetic::div_mod::lemma_div_pos_is_pos(acc as int, n as int);
            vstd::arithmetic::div_mod::lemma_div_is_ordered(v1 as int, acc as int, 65536);
            vstd::arithmetic::div_mod::lemma_div_nonincreasing(acc as int, n as int);
            vstd::arithmetic::div_mod::lemma_div_pos_is_pos(v1 as int, 65536);
            vstd::arithmetic::div_mod::lemma_div_nonincreasing(v1 as int, 65536);
        }
        let var: i128 = crate::fixed::div_floor_i128(v1, 65536);
        let varg: i128 = (var + eps as i128) * 65536;
        let sg: u128 = crate::fixed::isqrt_u128(varg as u128);
        proof {
            assert(sg as int == ln_sigma(s, eps as int));
        }
        // normalize
        let ghost sig = ln_sigma(s, eps as int);
        if sg == 0 {
            let mut z: usize = 0;
            while z < n
                invariant
                    0 <= z <= n,
                    n == s.len(),
                    self.spec_shape() == old(self).spec_shape(),
                    self.spec_data().len() == n,
                    old(self).spec_data() == s,
                    sig == ln_sigma(s, eps as int),
                    sig == 0,
                    forall|q: int|
                        0 <= q < z ==> #[trigger] self.spec_data()[q] as int == ln_out(
                            s,
                            eps as int,
                            q,
                        ),
                decreases n - z,
            {
                self.data.set(z, 0);
                z += 1;
            }
        } else {
            let mut z: usize = 0;
            while z < n
                invariant
                    0 <= z <= n,
                    n == s.len(),
                    self.spec_shape() == old(self).spec_shape(),
                    self.spec_data().len() == n,
                    old(self).spec_data() == s,
                    devs@.len() == n,
                    forall|q: int| 0 <= q < n ==> #[trigger] devs@[q] as int == ln_dev(s, q),
                    sig == ln_sigma(s, eps as int),
                    sg as int == sig,
                    1 <= sg <= 0x8000_0000_0000_0000,
                    forall|q: int|
                        0 <= q < z ==> #[trigger] self.spec_data()[q] as int == ln_out(
                            s,
                            eps as int,
                            q,
                        ),
                decreases n - z,
            {
                let num: i128 = (devs[z] as i128) * 65536;
                let q128: i128 = crate::fixed::div_floor_i128(num, sg as i128);
                let out: i64 = crate::fixed::sat_fx_i128(q128);
                self.data.set(z, out);
                z += 1;
            }
            proof {
                if ln_unclipped(s) && sig >= 65536 {
                    lemma_ln_out_sum_bounds(s, eps as int, n as int);
                    lemma_sum_matches_ln_out_sum(self.spec_data(), s, eps as int, n as int);
                    lemma_dev_sum_is_remainder(s, n as int);
                    vstd::arithmetic::div_mod::lemma_fundamental_div_mod(sum_fx(s), n as int);
                    let rem = ln_dev_sum(s, n as int);
                    assert(0 <= rem < n as int);
                    vstd::arithmetic::mul::lemma_mul_inequality(rem, n as int - 1, 65536);
                    vstd::arithmetic::mul::lemma_mul_nonnegative(rem, 65536);
                    vstd::arithmetic::div_mod::lemma_div_pos_is_pos(rem * 65536, sig);
                    vstd::arithmetic::div_mod::lemma_div_is_ordered_by_denominator(
                        rem * 65536,
                        65536,
                        sig,
                    );
                    vstd::arithmetic::div_mod::lemma_div_by_multiple(rem, 65536);
                    vstd::arithmetic::mul::lemma_mul_is_commutative(rem, 65536);
                }
            }
        }
    }

    /// Read access to the shape.
    pub fn shape(&self) -> (r: &Vec<usize>)
        ensures
            r@ == self.spec_shape(),
    {
        &self.shape
    }

    /// Read access to the flat backing store.
    pub fn data(&self) -> (r: &Vec<i64>)
        ensures
            r@ == self.spec_data(),
    {
        &self.data
    }
}

} // verus!
