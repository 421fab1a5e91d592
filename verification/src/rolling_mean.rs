//! A streaming estimator of the mean of a sequence of points.

use vstd::prelude::*;
use vstd::arithmetic::div_mod::{lemma_fundamental_div_mod, lemma_fundamental_div_mod_converse};

verus! {

/// The grid value nearest to `sum / count`, halves rounded up.
pub open spec fn rounded_mean(sum: int, count: int) -> int {
    (2 * sum + count) / (2 * count)
}

/// `rounded_mean(sum, count)` is a grid value nearest to the exact quotient:
/// it differs from `sum / count` by at most one half.
pub proof fn lemma_rounded_mean_nearest(sum: int, count: int)
    requires
        count >= 1,
    ensures
        -count <= 2 * sum - 2 * count * rounded_mean(sum, count) < count,
{
    let d: int = 2 * count;
    let x: int = 2 * sum + count;
    lemma_fundamental_div_mod(x, d);
    assert(0 <= x % d < d);
    assert(d * (x / d) == 2 * count * (x / d)) by (nonlinear_arith)
        requires
            d == 2 * count,
    ;
}

/// The mean of values that each lie in the 32-bit range lies in it as well.
pub proof fn lemma_rounded_mean_range(sum: int, count: int)
    requires
        count >= 1,
        i32::MIN * count <= sum <= i32::MAX * count,
    ensures
        i32::MIN <= rounded_mean(sum, count) <= i32::MAX,
{
    lemma_rounded_mean_nearest(sum, count);
    let r: int = rounded_mean(sum, count);
    assert(i32::MIN <= r <= i32::MAX) by (nonlinear_arith)
        requires
            count >= 1,
            -0x8000_0000 * count <= sum <= 0x7FFF_FFFF * count,
            -count <= 2 * sum - 2 * count * r < count,
    ;
}

/// The mean of `count` copies of one value is that value.
pub proof fn lemma_rounded_mean_of_copies(v: int, count: int)
    requires
        count >= 1,
    ensures
        rounded_mean(count * v, count) == v,
{
    assert(2 * (count * v) + count == v * (2 * count) + count) by (nonlinear_arith);
    lemma_fundamental_div_mod_converse(2 * (count * v) + count, 2 * count, v, count);
}

/// Shifting every value by `shift` shifts the mean by `shift`.
proof fn lemma_rounded_mean_shift(sum: int, count: int, shift: int)
    requires
        count >= 1,
    ensures
        rounded_mean(sum + count * shift, count) == rounded_mean(sum, count) + shift,
{
    let d: int = 2 * count;
    let x: int = 2 * sum + count;
    lemma_fundamental_div_mod(x, d);
    assert(2 * (sum + count * shift) + count == (x / d + shift) * d + x % d)
        by (nonlinear_arith)
        requires
            x == d * (x / d) + x % d,
            x == 2 * sum + count,
            d == 2 * count,
    ;
    lemma_fundamental_div_mod_converse(
        2 * (sum + count * shift) + count,
        d,
        x / d + shift,
        x % d,
    );
}

/// The sum of coordinate `j` over the first `n` points.
pub open spec fn column_sum(points: Seq<Seq<i32>>, j: int, n: int) -> int
    decreases n,
{
    if n <= 0 {
        0
    } else {
        column_sum(points, j, n - 1) + points[n - 1][j]
    }
}

/// The sum of a column over `n` points depends on those points only.
pub proof fn lemma_column_sum_prefix(p: Seq<Seq<i32>>, q: Seq<Seq<i32>>, j: int, n: int)
    requires
        0 <= n <= p.len(),
        n <= q.len(),
        forall|i: int| 0 <= i < n ==> p[i] == q[i],
    ensures
        column_sum(p, j, n) == column_sum(q, j, n),
    decreases n,
{
    if n > 0 {
        lemma_column_sum_prefix(p, q, j, n - 1);
    }
}

/// Taking point `i` out of a sequence takes its coordinate out of the sum.
pub proof fn lemma_column_sum_remove(points: Seq<Seq<i32>>, j: int, i: int)
    requires
        0 <= i < points.len(),
    ensures
        column_sum(points, j, points.len() as int) == column_sum(
            points.remove(i),
            j,
            points.len() - 1,
        ) + points[i][j],
    decreases points.len(),
{
    let n = points.len() as int;
    let rest = points.drop_last();
    lemma_column_sum_prefix(points, rest, j, n - 1);
    if i == n - 1 {
        assert(points.remove(i) =~= rest);
    } else {
        lemma_column_sum_remove(rest, j, i);
        let shorter = points.remove(i);
        assert(shorter.drop_last() =~= rest.remove(i));
        assert(shorter[n - 2] == points[n - 1]);
        lemma_column_sum_prefix(shorter, rest.remove(i), j, n - 2);
    }
}

/// The sum of a column is the same for two sequences that hold the same
/// points, whatever their order.
pub proof fn lemma_column_sum_permutation(s: Seq<Seq<i32>>, t: Seq<Seq<i32>>, j: int)
    requires
        s.to_multiset() == t.to_multiset(),
    ensures
        s.len() == t.len(),
        column_sum(s, j, s.len() as int) == column_sum(t, j, t.len() as int),
    decreases s.len(),
{
    s.to_multiset_ensures();
    t.to_multiset_ensures();
    if s.len() > 0 {
        let n = s.len() as int;
        let x = s[n - 1];
        assert(s.contains(x));
        assert(t.to_multiset().count(x) > 0);
        assert(t.contains(x));
        let i = choose|i: int| 0 <= i < t.len() && t[i] == x;
        let s1 = s.remove(n - 1);
        let t1 = t.remove(i);
        assert(s1.to_multiset() == s.to_multiset().remove(x));
        assert(t1.to_multiset() == t.to_multiset().remove(x));
        lemma_column_sum_permutation(s1, t1, j);
        lemma_column_sum_remove(s, j, n - 1);
        lemma_column_sum_remove(t, j, i);
    }
}

/// Folding one more value into an exact mean is the rolling update: with
/// `old_mean = sum / count` and `new_mean = (sum + sample) / (count + 1)`,
/// `new_mean == old_mean - (old_mean - sample) / (count + 1)`. Here it is
/// stated free of fractions, both sides multiplied by `count * (count + 1)`.
pub proof fn lemma_rolling_update(sum: int, count: int, sample: int)
    requires
        count >= 1,
    ensures
        (sum + sample) * count == sum * (count + 1) - (sum - sample * count),
{
    assert((sum + sample) * count == sum * (count + 1) - (sum - sample * count))
        by (nonlinear_arith);
}

/// The running mean of the points seen so far. It keeps the exact sum of
/// each coordinate and the number of points, never the points themselves.
#[derive(Debug)]
pub struct RollingMean {
    sum: Vec<i128>,
    n_samples: u64,
}

impl RollingMean {
    /// The exact sum of each coordinate over the points seen.
    pub closed spec fn sums(&self) -> Seq<int> {
        Seq::new(self.sum@.len(), |j: int| self.sum@[j] as int)
    }

    /// The number of points seen.
    pub closed spec fn count(&self) -> nat {
        self.n_samples as nat
    }

    /// The invariant of the type: at least one point was seen, and each sum
    /// is one of that many 32-bit values.
    pub open spec fn wf(&self) -> bool {
        &&& self.count() >= 1
        &&& self.count() <= u64::MAX
        &&& forall|j: int|
            0 <= j < self.sums().len() ==> i32::MIN * self.count() <= (#[trigger] self.sums()[j])
                <= i32::MAX * self.count()
    }

    /// The estimator has been fed exactly the points of `points`: it counts
    /// as many, and holds the sum of each of their coordinates.
    pub open spec fn summarizes(&self, points: Seq<Seq<i32>>) -> bool {
        &&& self.count() == points.len()
        &&& forall|j: int|
            0 <= j < self.sums().len() ==> (#[trigger] self.sums()[j]) == column_sum(
                points,
                j,
                points.len() as int,
            )
    }

    /// The mean of the points seen, each coordinate rounded to the grid.
    pub open spec fn mean(&self) -> Seq<i32> {
        Seq::new(
            self.sums().len(),
            |j: int| rounded_mean(self.sums()[j], self.count() as int) as i32,
        )
    }

    /// Starts an estimator from its first point.
    pub fn new(first_sample: Vec<i32>) -> (r: RollingMean)
        ensures
            r.wf(),
            r.count() == 1,
            r.sums() == first_sample@.map_values(|v: i32| v as int),
            r.summarizes(seq![first_sample@]),
    {
        let n: usize = first_sample.len();
        let mut sum: Vec<i128> = Vec::new();
        let mut j: usize = 0;
        while j < n
            invariant
                n == first_sample@.len(),
                j <= n,
                sum@.len() == j,
                forall|i: int| 0 <= i < j ==> (#[trigger] sum@[i]) == first_sample@[i],
            decreases n - j,
        {
            sum.push(first_sample[j] as i128);
            j = j + 1;
        }
        let r = RollingMean { sum, n_samples: 1 };
        assert(r.sums() =~= first_sample@.map_values(|v: i32| v as int));
        assert forall|j: int| 0 <= j < r.sums().len() implies (#[trigger] r.sums()[j])
            == column_sum(seq![first_sample@], j, 1) by {
            assert(column_sum(seq![first_sample@], j, 0) == 0);
        }
        r
    }

    /// Folds one more point into the mean.
    pub fn accumulate(&mut self, new_sample: &Vec<i32>)
        requires
            old(self).wf(),
            old(self).count() < u64::MAX,
            new_sample@.len() == old(self).sums().len(),
        ensures
            final(self).wf(),
            final(self).count() == old(self).count() + 1,
            final(self).sums().len() == old(self).sums().len(),
            forall|j: int|
                0 <= j < new_sample@.len() ==> (#[trigger] final(self).sums()[j]) == old(
                    self,
                ).sums()[j] + new_sample@[j],
            forall|seen: Seq<Seq<i32>>| #[trigger]
                old(self).summarizes(seen) ==> final(self).summarizes(seen.push(new_sample@)),
    {
        let n: usize = new_sample.len();
        let ghost before = self.sums();
        let ghost count = self.count() as int;
        let mut j: usize = 0;
        while j < n
            invariant
                n == new_sample@.len(),
                n == self.sum@.len(),
                j <= n,
                before.len() == n,
                count == self.n_samples,
                1 <= count < u64::MAX,
                forall|i: int|
                    0 <= i < n ==> i32::MIN * count <= (#[trigger] before[i]) <= i32::MAX * count,
                forall|i: int| 0 <= i < j ==> (#[trigger] self.sum@[i]) == before[i] + new_sample@[i],
                forall|i: int| j <= i < n ==> (#[trigger] self.sum@[i]) == before[i],
            decreases n - j,
        {
            let s: i128 = self.sum[j];
            proof {
                assert(s == before[j as int]);
                assert(-0x8000_0000 * 0xFFFF_FFFF_FFFF_FFFF <= s <= 0x7FFF_FFFF
                    * 0xFFFF_FFFF_FFFF_FFFF) by (nonlinear_arith)
                    requires
                        -0x8000_0000 * count <= s <= 0x7FFF_FFFF * count,
                        1 <= count < 0xFFFF_FFFF_FFFF_FFFF,
                ;
            }
            self.sum.set(j, s + new_sample[j] as i128);
            j = j + 1;
        }
        self.n_samples = self.n_samples + 1;
        proof {
            assert forall|i: int| 0 <= i < self.sums().len() implies i32::MIN * self.count() <= (
            #[trigger] self.sums()[i]) <= i32::MAX * self.count() by {
                let b: int = before[i];
                let x: int = new_sample@[i] as int;
                assert(self.sums()[i] == b + x);
                assert(-0x8000_0000 * (count + 1) <= b + x <= 0x7FFF_FFFF * (count + 1))
                    by (nonlinear_arith)
                    requires
                        -0x8000_0000 * count <= b <= 0x7FFF_FFFF * count,
                        -0x8000_0000 <= x <= 0x7FFF_FFFF,
                ;
            }
            assert forall|seen: Seq<Seq<i32>>| #[trigger]
                old(self).summarizes(seen) implies self.summarizes(seen.push(new_sample@)) by {
                let longer = seen.push(new_sample@);
                assert forall|i: int| 0 <= i < self.sums().len() implies (
                #[trigger] self.sums()[i]) == column_sum(longer, i, longer.len() as int) by {
                    lemma_column_sum_prefix(longer, seen, i, seen.len() as int);
                    assert(self.sums()[i] == before[i] + new_sample@[i]);
                }
            }
        }
    }

    /// Two estimators that were fed the same points, in whatever order, hold
    /// the same sums and give the same mean.
    pub proof fn lemma_order_independent(
        self,
        other: RollingMean,
        seen: Seq<Seq<i32>>,
        seen_by_other: Seq<Seq<i32>>,
    )
        requires
            self.summarizes(seen),
            other.summarizes(seen_by_other),
            seen.to_multiset() == seen_by_other.to_multiset(),
            self.sums().len() == other.sums().len(),
        ensures
            self.count() == other.count(),
            self.sums() == other.sums(),
            self.mean() == other.mean(),
    {
        assert forall|j: int| 0 <= j < self.sums().len() implies self.sums()[j]
            == other.sums()[j] by {
            lemma_column_sum_permutation(seen, seen_by_other, j);
        }
        lemma_column_sum_permutation(seen, seen_by_other, 0);
        assert(self.sums() =~= other.sums());
    }

    /// The number of points seen so far.
    pub fn n_samples(&self) -> (n: u64)
        ensures
            n == self.count(),
    {
        self.n_samples
    }

    /// The mean of the points seen so far, each coordinate rounded to the
    /// nearest grid value (halves upwards).
    pub fn current_mean(&self) -> (m: Vec<i32>)
        requires
            self.wf(),
        ensures
            m@ == self.mean(),
    {
        let n: usize = self.sum.len();
        let count: u128 = self.n_samples as u128;
        let mut m: Vec<i32> = Vec::new();
        let mut j: usize = 0;
        while j < n
            invariant
                self.wf(),
                n == self.sum@.len(),
                count == self.n_samples,
                j <= n,
                m@.len() == j,
                forall|i: int| 0 <= i < j ==> (#[trigger] m@[i]) == self.mean()[i],
            decreases n - j,
        {
            let s: i128 = self.sum[j];
            proof {
                assert(s == self.sums()[j as int]);
                lemma_rounded_mean_range(s as int, count as int);
                lemma_rounded_mean_shift(s as int, count as int, 0x8000_0000);
                assert(0 <= s + count * 0x8000_0000 <= 0xFFFF_FFFF * 0xFFFF_FFFF_FFFF_FFFF)
                    by (nonlinear_arith)
                    requires
                        -0x8000_0000 * count <= s <= 0x7FFF_FFFF * count,
                        1 <= count <= 0xFFFF_FFFF_FFFF_FFFF,
                ;
            }
            let shifted: u128 = (s + (self.n_samples as i128) * 0x8000_0000) as u128;
            let quotient: u128 = (2 * shifted + count) / (2 * count);
            let value: i32 = (quotient as i128 - 0x8000_0000) as i32;
            m.push(value);
            j = j + 1;
        }
        assert(m@ =~= self.mean());
        m
    }
}

} // verus!
