//! Points, point sets and the squared Euclidean distance.

use vstd::prelude::*;

verus! {

/// Sum of the squared differences of the first `n` coordinates of `a` and `b`.
pub open spec fn sq_dist_prefix(a: Seq<i32>, b: Seq<i32>, n: int) -> int
    decreases n,
{
    if n <= 0 {
        0
    } else {
        sq_dist_prefix(a, b, n - 1) + (a[n - 1] - b[n - 1]) * (a[n - 1] - b[n - 1])
    }
}

/// Squared Euclidean distance between two points of equal length.
pub open spec fn sq_dist(a: Seq<i32>, b: Seq<i32>) -> int {
    sq_dist_prefix(a, b, a.len() as int)
}

/// The largest value one squared coordinate difference can take.
pub open spec fn max_sq_term() -> int {
    0xFFFF_FFFFint * 0xFFFF_FFFFint
}

/// A prefix distance is non-negative and bounded by `n` maximal terms.
pub proof fn lemma_sq_dist_prefix_bounds(a: Seq<i32>, b: Seq<i32>, n: int)
    requires
        0 <= n <= a.len(),
        a.len() == b.len(),
    ensures
        0 <= sq_dist_prefix(a, b, n) <= n * max_sq_term(),
    decreases n,
{
    if n > 0 {
        lemma_sq_dist_prefix_bounds(a, b, n - 1);
        let d: int = a[n - 1] - b[n - 1];
        assert(0 <= d * d <= 0xFFFF_FFFF * 0xFFFF_FFFF) by (nonlinear_arith)
            requires
                -0xFFFF_FFFF <= d <= 0xFFFF_FFFF,
        ;
        assert(n * max_sq_term() == (n - 1) * max_sq_term() + max_sq_term())
            by (nonlinear_arith);
    }
}

/// Two points of equal length are at distance zero exactly when they are equal.
pub proof fn lemma_sq_dist_zero(a: Seq<i32>, b: Seq<i32>)
    requires
        a.len() == b.len(),
    ensures
        sq_dist(a, b) == 0 <==> a == b,
{
    lemma_sq_dist_prefix_zero(a, b, a.len() as int);
    if sq_dist(a, b) == 0 {
        assert(a =~= b);
    }
}

proof fn lemma_sq_dist_prefix_zero(a: Seq<i32>, b: Seq<i32>, n: int)
    requires
        0 <= n <= a.len(),
        a.len() == b.len(),
    ensures
        sq_dist_prefix(a, b, n) == 0 <==> (forall|j: int| 0 <= j < n ==> a[j] == b[j]),
    decreases n,
{
    if n > 0 {
        lemma_sq_dist_prefix_zero(a, b, n - 1);
        lemma_sq_dist_prefix_bounds(a, b, n - 1);
        let d: int = a[n - 1] - b[n - 1];
        assert(d * d >= 0 && (d * d == 0 <==> d == 0)) by (nonlinear_arith);
    }
}

/// Squared Euclidean distance between two points of equal length.
///
/// With 32-bit coordinates the sum always fits in 128 bits, whatever the
/// number of coordinates.
pub fn sq_l2_dist(a: &Vec<i32>, b: &Vec<i32>) -> (d: u128)
    requires
        a.len() == b.len(),
    ensures
        d == sq_dist(a@, b@),
{
    let n: usize = a.len();
    let mut total: u128 = 0;
    let mut j: usize = 0;
    while j < n
        invariant
            n == a.len(),
            n == b.len(),
            j <= n,
            total == sq_dist_prefix(a@, b@, j as int),
        decreases n - j,
    {
        let diff: i128 = a[j] as i128 - b[j] as i128;
        proof {
            lemma_sq_dist_prefix_bounds(a@, b@, j as int);
            lemma_sq_dist_prefix_bounds(a@, b@, j + 1);
            assert((j + 1) * max_sq_term() <= 0xFFFF_FFFF_FFFF_FFFF * max_sq_term())
                by (nonlinear_arith)
                requires
                    j + 1 <= 0xFFFF_FFFF_FFFF_FFFF,
            ;
            assert(0 <= diff * diff <= 0xFFFF_FFFF * 0xFFFF_FFFF) by (nonlinear_arith)
                requires
                    -0xFFFF_FFFF <= diff <= 0xFFFF_FFFF,
            ;
        }
        let term: u128 = (diff * diff) as u128;
        total = total + term;
        j = j + 1;
    }
    total
}

/// An ordered collection of points that all have the same number of
/// coordinates. Row `i` is point `i`; the same type holds a set of centroids,
/// where the row index is the cluster identifier.
#[derive(Debug)]
pub struct PointSet {
    rows: Vec<Vec<i32>>,
    n_features: usize,
}

/// A set of centroids: row `t` is the centroid of cluster `t`.
pub type CentroidSet = PointSet;

impl View for PointSet {
    type V = Seq<Seq<i32>>;

    closed spec fn view(&self) -> Seq<Seq<i32>> {
        Seq::new(self.rows@.len(), |i: int| self.rows@[i]@)
    }
}

/// Every row of `rows` has `width` coordinates.
pub open spec fn rectangular(rows: Seq<Seq<i32>>, width: int) -> bool {
    forall|i: int| 0 <= i < rows.len() ==> (#[trigger] rows[i]).len() == width
}

impl PointSet {
    /// The number of coordinates of each point.
    pub closed spec fn width(&self) -> nat {
        self.n_features as nat
    }

    /// The invariant of the type: all rows have `width()` coordinates.
    pub open spec fn wf(&self) -> bool {
        rectangular(self@, self.width() as int)
    }

    /// An empty set of points with `n_features` coordinates each.
    pub fn new(n_features: usize) -> (s: PointSet)
        ensures
            s.wf(),
            s@ == Seq::<Seq<i32>>::empty(),
            s.width() == n_features,
    {
        let s = PointSet { rows: Vec::new(), n_features };
        assert(s@ =~= Seq::<Seq<i32>>::empty());
        s
    }

    /// Builds a point set from rows. Returns `None` when the rows differ in
    /// length; with no rows at all the width is zero.
    pub fn from_rows(rows: Vec<Vec<i32>>) -> (r: Option<PointSet>)
        ensures
            r.is_some() <==> (rows@.len() == 0 || rectangular(
                Seq::new(rows@.len(), |i: int| rows@[i]@),
                rows@[0]@.len() as int,
            )),
            r.is_some() ==> r.unwrap().wf() && r.unwrap()@ == Seq::new(
                rows@.len(),
                |i: int| rows@[i]@,
            ) && r.unwrap().width() == (if rows@.len() == 0 {
                0
            } else {
                rows@[0]@.len()
            }),
    {
        let ghost model = Seq::new(rows@.len(), |i: int| rows@[i]@);
        let n: usize = rows.len();
        if n == 0 {
            let s = PointSet { rows, n_features: 0 };
            assert(s@ =~= model);
            return Some(s);
        }
        let width: usize = rows[0].len();
        let mut i: usize = 1;
        while i < n
            invariant
                1 <= i <= n,
                n == rows@.len(),
                width == rows@[0]@.len(),
                model == Seq::new(rows@.len(), |i: int| rows@[i]@),
                forall|r: int| 0 <= r < i ==> (#[trigger] model[r]).len() == width,
            decreases n - i,
        {
            if rows[i].len() != width {
                assert(model[i as int].len() != width);
                return None;
            }
            i = i + 1;
        }
        let s = PointSet { rows, n_features: width };
        assert(s@ =~= model);
        Some(s)
    }

    /// The number of points.
    pub fn n_samples(&self) -> (n: usize)
        ensures
            n == self@.len(),
    {
        self.rows.len()
    }

    /// The number of coordinates of each point.
    pub fn n_features(&self) -> (w: usize)
        ensures
            w == self.width(),
    {
        self.n_features
    }

    /// Point `i`.
    pub fn row(&self, i: usize) -> (p: &Vec<i32>)
        requires
            i < self@.len(),
        ensures
            p@ == self@[i as int],
    {
        &self.rows[i]
    }

    /// Appends a point.
    pub fn push_row(&mut self, p: Vec<i32>)
        requires
            old(self).wf(),
            p@.len() == old(self).width(),
        ensures
            final(self).wf(),
            final(self)@ == old(self)@.push(p@),
            final(self).width() == old(self).width(),
    {
        let ghost before = self@;
        self.rows.push(p);
        assert(self@ =~= before.push(p@));
    }

    /// The points as plain rows.
    pub fn to_rows(&self) -> (rows: Vec<Vec<i32>>)
        ensures
            rows@.len() == self@.len(),
            forall|i: int| 0 <= i < rows@.len() ==> (#[trigger] rows@[i])@ == self@[i],
    {
        let n: usize = self.rows.len();
        let mut out: Vec<Vec<i32>> = Vec::new();
        let mut i: usize = 0;
        while i < n
            invariant
                n == self.rows@.len(),
                i <= n,
                out@.len() == i,
                forall|r: int| 0 <= r < i ==> (#[trigger] out@[r])@ == self@[r],
            decreases n - i,
        {
            let copy = copy_point(&self.rows[i]);
            out.push(copy);
            i = i + 1;
        }
        out
    }
}

/// A copy of a point.
pub fn copy_point(p: &Vec<i32>) -> (q: Vec<i32>)
    ensures
        q@ == p@,
{
    let n: usize = p.len();
    let mut q: Vec<i32> = Vec::new();
    let mut j: usize = 0;
    while j < n
        invariant
            n == p@.len(),
            j <= n,
            q@ == p@.subrange(0, j as int),
        decreases n - j,
    {
        q.push(p[j]);
        assert(q@ =~= p@.subrange(0, j + 1));
        j = j + 1;
    }
    assert(p@.subrange(0, n as int) =~= p@);
    q
}

} // verus!
