//! Exact statistics of pixel intensities.
//!
//! The mean and the standard deviation of a training array are fractions of
//! three whole numbers: how many intensities there are, their sum, and the
//! sum of their squares. With `n` intensities of sum `s` and sum of squares
//! `q`, the mean is `s / n` and the variance is `(n * q - s * s) / (n * n)`;
//! where intensities are taken as fractions of the full intensity 255, the
//! mean is divided by 255 and the variance by its square. The numerator
//! `n * q - s * s` is the *spread*: the standard deviation is zero exactly
//! where the spread is.
//!
//! An intensity `x` is normalized to `(x - mean) / deviation`, which is
//! `(n * x - s)` divided by the root of the spread, in either unit. The whole
//! number `n * x - s` is the *centered* intensity.

use vstd::prelude::*;

verus! {

/// The sum of the numbers of a sequence.
pub open spec fn sum(s: Seq<int>) -> int
    decreases s.len(),
{
    if s.len() == 0 {
        0
    } else {
        sum(s.drop_last()) + s.last()
    }
}

/// The sum of the squares of the numbers of a sequence.
pub open spec fn sum_sq(s: Seq<int>) -> int
    decreases s.len(),
{
    if s.len() == 0 {
        0
    } else {
        sum_sq(s.drop_last()) + s.last() * s.last()
    }
}

/// The sum of the squared distances of the numbers of a sequence from `x`.
pub open spec fn sum_dev_sq(s: Seq<int>, x: int) -> int
    decreases s.len(),
{
    if s.len() == 0 {
        0
    } else {
        sum_dev_sq(s.drop_last(), x) + (s.last() - x) * (s.last() - x)
    }
}

/// The variance of a sequence, times the square of its length.
pub open spec fn spread(s: Seq<int>) -> int {
    s.len() * sum_sq(s) - sum(s) * sum(s)
}

/// All numbers of a sequence are the same.
pub open spec fn is_constant(s: Seq<int>) -> bool {
    forall|i: int, j: int| 0 <= i < s.len() && 0 <= j < s.len() ==> s[i] == s[j]
}

/// Intensities as whole numbers.
pub open spec fn ints(values: Seq<u8>) -> Seq<int> {
    Seq::new(values.len(), |i: int| values[i] as int)
}

/// Each number of a sequence, times the length, less the sum: its distance
/// from the mean, times the length.
pub open spec fn centered(s: Seq<int>) -> Seq<int> {
    Seq::new(s.len(), |i: int| s.len() * s[i] - sum(s))
}

/// Each number of a sequence centered with the moments `m`, which may be
/// those of another sequence.
pub open spec fn centered_by(m: Moments, s: Seq<int>) -> Seq<int> {
    Seq::new(s.len(), |i: int| m.center(s[i]))
}

/// Centered intensities as whole numbers.
pub open spec fn wide_ints(values: Seq<i128>) -> Seq<int> {
    Seq::new(values.len(), |i: int| values[i] as int)
}

proof fn lemma_dev_sq_expand(s: Seq<int>, x: int)
    ensures
        sum_dev_sq(s, x) == sum_sq(s) - 2 * x * sum(s) + s.len() * x * x,
        sum_dev_sq(s, x) >= 0,
    decreases s.len(),
{
    if s.len() > 0 {
        let rest = s.drop_last();
        let y = s.last();
        lemma_dev_sq_expand(rest, x);
        let n = rest.len() as int;
        let a = sum(rest);
        let q = sum_sq(rest);
        assert(q - 2 * x * a + n * x * x + (y - x) * (y - x) == (q + y * y) - 2 * x * (a + y) + (n
            + 1) * x * x) by (nonlinear_arith);
        assert((y - x) * (y - x) >= 0) by (nonlinear_arith);
    }
}

proof fn lemma_dev_sq_zero(s: Seq<int>, x: int)
    ensures
        sum_dev_sq(s, x) == 0 <==> (forall|i: int| 0 <= i < s.len() ==> s[i] == x),
    decreases s.len(),
{
    if s.len() > 0 {
        let rest = s.drop_last();
        let y = s.last();
        lemma_dev_sq_zero(rest, x);
        lemma_dev_sq_expand(rest, x);
        assert((y - x) * (y - x) >= 0 && ((y - x) * (y - x) == 0 <==> y == x))
            by (nonlinear_arith);
        if sum_dev_sq(s, x) == 0 {
            assert forall|i: int| 0 <= i < s.len() implies s[i] == x by {
                if i < rest.len() {
                    assert(rest[i] == s[i]);
                }
            }
        }
        if forall|i: int| 0 <= i < s.len() ==> s[i] == x {
            assert forall|i: int| 0 <= i < rest.len() implies rest[i] == x by {
                assert(rest[i] == s[i]);
            }
        }
    }
}

proof fn lemma_spread_step(s: Seq<int>)
    requires
        s.len() > 0,
    ensures
        spread(s) == spread(s.drop_last()) + sum_dev_sq(s.drop_last(), s.last()),
{
    let rest = s.drop_last();
    let x = s.last();
    lemma_dev_sq_expand(rest, x);
    let n = rest.len() as int;
    let a = sum(rest);
    let q = sum_sq(rest);
    assert((n + 1) * (q + x * x) - (a + x) * (a + x) == (n * q - a * a) + (q - 2 * x * a + n * x
        * x)) by (nonlinear_arith);
}

/// The spread is never negative.
pub proof fn lemma_spread_nonnegative(s: Seq<int>)
    ensures
        spread(s) >= 0,
    decreases s.len(),
{
    if s.len() == 0 {
        assert(spread(s) == 0) by (nonlinear_arith)
            requires
                spread(s) == 0 * sum_sq(s) - 0 * 0,
        ;
    } else {
        lemma_spread_nonnegative(s.drop_last());
        lemma_spread_step(s);
        lemma_dev_sq_expand(s.drop_last(), s.last());
    }
}

/// The standard deviation of a sequence is zero exactly where all its
/// numbers are the same: the spread is zero if and only if the sequence is
/// constant.
pub proof fn lemma_spread_zero_iff_constant(s: Seq<int>)
    ensures
        spread(s) == 0 <==> is_constant(s),
    decreases s.len(),
{
    if s.len() == 0 {
        lemma_spread_nonnegative(s);
        assert(spread(s) == 0) by (nonlinear_arith)
            requires
                spread(s) == 0 * sum_sq(s) - 0 * 0,
        ;
    } else {
        let rest = s.drop_last();
        let x = s.last();
        lemma_spread_zero_iff_constant(rest);
        lemma_spread_nonnegative(rest);
        lemma_spread_step(s);
        lemma_dev_sq_expand(rest, x);
        lemma_dev_sq_zero(rest, x);
        if spread(s) == 0 {
            assert forall|i: int, j: int| 0 <= i < s.len() && 0 <= j < s.len() implies s[i]
                == s[j] by {
                if i < rest.len() {
                    assert(rest[i] == s[i] && rest[i] == x);
                }
                if j < rest.len() {
                    assert(rest[j] == s[j] && rest[j] == x);
                }
            }
        }
        if is_constant(s) {
            assert forall|i: int| 0 <= i < rest.len() implies rest[i] == x by {
                assert(rest[i] == s[i] && s[s.len() - 1] == x);
            }
            assert forall|i: int, j: int| 0 <= i < rest.len() && 0 <= j < rest.len() implies rest[i]
                == rest[j] by {
                assert(rest[i] == s[i] && rest[j] == s[j]);
            }
        }
    }
}

/// The sums of the first `k` centered numbers and of their squares.
proof fn lemma_centered_prefix(s: Seq<int>, k: int)
    requires
        0 <= k <= s.len(),
    ensures
        sum(centered(s).take(k)) == s.len() * sum(s.take(k)) - k * sum(s),
        sum_sq(centered(s).take(k)) == s.len() * s.len() * sum_sq(s.take(k)) - 2 * s.len() * sum(s)
            * sum(s.take(k)) + k * sum(s) * sum(s),
    decreases k,
{
    let n = s.len() as int;
    let t = sum(s);
    if k == 0 {
        assert(n * 0 - 0 * t == 0) by (nonlinear_arith);
        assert(n * n * 0 - 2 * n * t * 0 + 0 * t * t == 0) by (nonlinear_arith);
    } else {
        lemma_centered_prefix(s, k - 1);
        let x = s[k - 1];
        assert(s.take(k).drop_last() =~= s.take(k - 1));
        assert(centered(s).take(k).drop_last() =~= centered(s).take(k - 1));
        assert(centered(s).take(k).last() == n * x - t);
        let a = sum(s.take(k - 1));
        let q = sum_sq(s.take(k - 1));
        assert((n * a - (k - 1) * t) + (n * x - t) == n * (a + x) - k * t) by (nonlinear_arith);
        assert((n * n * q - 2 * n * t * a + (k - 1) * t * t) + (n * x - t) * (n * x - t) == n * n
            * (q + x * x) - 2 * n * t * (a + x) + k * t * t) by (nonlinear_arith);
    }
}

/// Centering moves the mean to zero: the centered numbers sum to zero.
pub proof fn lemma_centered_sum_is_zero(s: Seq<int>)
    ensures
        sum(centered(s)) == 0,
{
    lemma_centered_prefix(s, s.len() as int);
    assert(s.take(s.len() as int) =~= s);
    assert(centered(s).take(s.len() as int) =~= centered(s));
    let n = s.len() as int;
    let t = sum(s);
    assert(n * t - n * t == 0) by (nonlinear_arith);
}

/// Dividing the centered numbers by the root of the spread gives variance
/// one: their squares sum to the length times the spread.
pub proof fn lemma_centered_squares(s: Seq<int>)
    ensures
        sum_sq(centered(s)) == s.len() * spread(s),
{
    lemma_centered_prefix(s, s.len() as int);
    assert(s.take(s.len() as int) =~= s);
    assert(centered(s).take(s.len() as int) =~= centered(s));
    let n = s.len() as int;
    let t = sum(s);
    let q = sum_sq(s);
    assert(n * n * q - 2 * n * t * t + n * t * t == n * (n * q - t * t)) by (nonlinear_arith);
}

/// Why no statistics could be computed.
#[derive(Clone, Copy, Debug, PartialEq, Eq, Structural)]
pub enum StatsError {
    /// There are no intensities.
    Empty,
    /// All intensities are the same, so the standard deviation is zero and
    /// nothing can be divided by it.
    Degenerate,
}

/// The statistics of a training array, as whole numbers.
#[derive(Clone, Copy, Debug, PartialEq, Eq)]
pub struct PixelStats {
    count: usize,
    sum: u128,
    sum_sq: u128,
}

/// What [`PixelStats`] holds, as mathematical values.
pub ghost struct Moments {
    /// How many intensities there are.
    pub count: nat,
    /// Their sum.
    pub sum: nat,
    /// The sum of their squares.
    pub sum_sq: nat,
}

impl Moments {
    /// These are the moments of `s`.
    pub open spec fn describes(self, s: Seq<int>) -> bool {
        &&& self.count == s.len()
        &&& self.sum == sum(s)
        &&& self.sum_sq == sum_sq(s)
    }

    /// The distance of `value` from the mean, times the count.
    pub open spec fn center(self, value: int) -> int {
        self.count * value - self.sum
    }
}

impl View for PixelStats {
    type V = Moments;

    closed spec fn view(&self) -> Moments {
        Moments { count: self.count as nat, sum: self.sum as nat, sum_sq: self.sum_sq as nat }
    }
}

impl PixelStats {
    #[verifier::type_invariant]
    spec fn bounded(self) -> bool {
        self.sum <= 255 * self.count && self.sum_sq <= 65025 * self.count
    }

    /// How many intensities there are.
    pub fn count(&self) -> (n: usize)
        ensures
            n == self@.count,
    {
        self.count
    }

    /// The sum of the intensities.
    pub fn sum(&self) -> (s: u128)
        ensures
            s == self@.sum,
    {
        self.sum
    }

    /// The sum of the squares of the intensities.
    pub fn sum_sq(&self) -> (q: u128)
        ensures
            q == self@.sum_sq,
    {
        self.sum_sq
    }

    /// Computes the statistics of the intensities of a training array.
    ///
    /// Fails where there are no intensities, and where the standard
    /// deviation is zero.
    pub fn compute(values: &[u8]) -> (r: Result<PixelStats, StatsError>)
        ensures
            match r {
                Ok(stats) => stats@.describes(ints(values@)) && spread(ints(values@)) > 0,
                Err(StatsError::Empty) => values@.len() == 0,
                Err(StatsError::Degenerate) => values@.len() > 0 && spread(ints(values@)) == 0,
            },
    {
        let n = values.len();
        if n == 0 {
            return Err(StatsError::Empty);
        }
        let ghost all = ints(values@);
        let first = values[0];
        let mut constant = true;
        let mut total: u128 = 0;
        let mut total_sq: u128 = 0;
        let mut i: usize = 0;
        while i < n
            invariant
                i <= n,
                n == values@.len(),
                all == ints(values@),
                first == values@[0],
                total == sum(all.take(i as int)),
                total_sq == sum_sq(all.take(i as int)),
                total <= 255 * i,
                total_sq <= 65025 * i,
                constant <==> (forall|k: int| 0 <= k < i ==> values@[k] == first),
            decreases n - i,
        {
            let v = values[i];
            proof {
                assert(all.take(i + 1).drop_last() =~= all.take(i as int));
                assert(all.take(i + 1).last() == v as int);
                assert(v * v <= 65025) by (nonlinear_arith)
                    requires
                        0 <= v <= 255,
                ;
            }
            total = total + v as u128;
            total_sq = total_sq + (v as u128) * (v as u128);
            if v != first {
                constant = false;
            }
            i += 1;
        }
        proof {
            assert(all.take(n as int) =~= all);
            lemma_spread_zero_iff_constant(all);
            lemma_spread_nonnegative(all);
            if constant {
                assert(is_constant(all));
            } else {
                let k = choose|k: int| 0 <= k < n && values@[k] != first;
                assert(all[k] != all[0]);
            }
        }
        if constant {
            Err(StatsError::Degenerate)
        } else {
            Ok(PixelStats { count: n, sum: total, sum_sq: total_sq })
        }
    }

    /// The distance of an intensity from the mean, times the count. Divided
    /// by the root of the spread it is the normalized intensity.
    pub fn center(&self, value: u8) -> (c: i128)
        ensures
            c == self@.center(value as int),
    {
        proof {
            use_type_invariant(self);
        }
        assert(self.count * value <= 0xffff_ffff_ffff_ffff * 255) by (nonlinear_arith)
            requires
                self.count <= 0xffff_ffff_ffff_ffff,
                value <= 255,
        ;
        (self.count as i128) * (value as i128) - (self.sum as i128)
    }

    /// Centers every intensity of an array with these statistics, which may
    /// be those of another array.
    pub fn center_all(&self, values: &[u8]) -> (out: Vec<i128>)
        ensures
            wide_ints(out@) == centered_by(self@, ints(values@)),
    {
        let mut out: Vec<i128> = Vec::new();
        let mut i: usize = 0;
        while i < values.len()
            invariant
                i <= values.len(),
                out@.len() == i,
                forall|k: int| 0 <= k < i ==> out@[k] == self@.center(values@[k] as int),
            decreases values.len() - i,
        {
            out.push(self.center(values[i]));
            i += 1;
        }
        assert(wide_ints(out@) =~= centered_by(self@, ints(values@)));
        out
    }
}

/// Normalizing the training array with its own statistics gives mean zero
/// and variance one: centered with the moments of the sequence itself, the
/// numbers sum to zero, and their squares to the length times the spread, so
/// that division by the root of the spread leaves a mean square of one.
pub proof fn lemma_training_is_normalized(m: Moments, s: Seq<int>)
    requires
        m.describes(s),
    ensures
        sum(centered_by(m, s)) == 0,
        sum_sq(centered_by(m, s)) == s.len() * spread(s),
{
    assert(centered_by(m, s) =~= centered(s));
    lemma_centered_sum_is_zero(s);
    lemma_centered_squares(s);
}

/// The same statistics shift every array alike: whatever sequence is
/// centered, each of its numbers is had back by adding the sum and dividing
/// by the count.
pub proof fn lemma_centering_inverts(m: Moments, s: Seq<int>)
    requires
        m.count > 0,
    ensures
        forall|i: int|
            0 <= i < s.len() ==> (#[trigger] centered_by(m, s)[i] + m.sum) / (m.count as int)
                == s[i],
{
    let n = m.count as int;
    assert forall|i: int| 0 <= i < s.len() implies (#[trigger] centered_by(m, s)[i] + m.sum) / n
        == s[i] by {
        let value = s[i];
        assert((n * value) / n == value) by (nonlinear_arith)
            requires
                n > 0,
        ;
    }
}

} // verus!
