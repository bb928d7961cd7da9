//! The proximity index: a fixed-radius search structure over boundary
//! samples. Built once with a fixed radius, populated by `insert`, then
//! queried with `search`, which returns every stored sample within the
//! radius of the query point together with its squared Euclidean distance.
//! Distances between grid coordinates are exact integers, so a sample is in
//! range exactly when its squared distance is at most the squared radius.

use vstd::prelude::*;

use crate::boundary::Sample;
use crate::grid::MAX_DIM;

verus! {

/// Largest admitted search radius; keeps the squared radius within `u64`.
pub const MAX_RADIUS: usize = 0xffff_ffff;

/// Both coordinates small enough that any squared distance to another such
/// point fits in `u64`.
pub open spec fn coord_ok(s: Sample) -> bool {
    &&& s.x <= MAX_DIM
    &&& s.y <= MAX_DIM
}

/// Squared Euclidean distance between `(ax, ay)` and `(bx, by)`.
pub open spec fn sq_dist(ax: int, ay: int, bx: int, by: int) -> int {
    (ax - bx) * (ax - bx) + (ay - by) * (ay - by)
}

/// Whether a sample lies within `radius` of the query point: its squared
/// distance is at most the squared radius.
pub open spec fn in_range(s: Sample, x: int, y: int, radius: int) -> bool {
    sq_dist(s.x as int, s.y as int, x, y) <= radius * radius
}

/// The result pair reported for a sample: its value and its squared
/// distance to the query point.
pub open spec fn pair_at(s: Sample, x: int, y: int) -> (u64, u64) {
    (s.value, sq_dist(s.x as int, s.y as int, x, y) as u64)
}

/// The pairs a query at `(x, y)` with the given radius reports, in the
/// order the samples were inserted.
pub open spec fn search_spec(samples: Seq<Sample>, x: int, y: int, radius: int) -> Seq<(u64, u64)>
    decreases samples.len(),
{
    if samples.len() == 0 {
        Seq::empty()
    } else {
        search_spec(samples.drop_last(), x, y, radius) + if in_range(samples.last(), x, y, radius) {
            seq![pair_at(samples.last(), x, y)]
        } else {
            Seq::empty()
        }
    }
}

/// The pair at position `j` of a query's result is the report of some
/// stored sample within the radius.
pub open spec fn reported_from_sample(
    samples: Seq<Sample>,
    x: int,
    y: int,
    radius: int,
    j: int,
) -> bool {
    exists|k: int|
        0 <= k < samples.len() && in_range(#[trigger] samples[k], x, y, radius) && search_spec(
            samples,
            x,
            y,
            radius,
        )[j] == pair_at(samples[k], x, y)
}

/// Soundness of a query: every reported pair is the report of some stored
/// sample within the radius.
pub proof fn lemma_search_sound(samples: Seq<Sample>, x: int, y: int, radius: int)
    ensures
        forall|j: int|
            0 <= j < search_spec(samples, x, y, radius).len() ==> #[trigger] reported_from_sample(
                samples,
                x,
                y,
                radius,
                j,
            ),
    decreases samples.len(),
{
    if samples.len() > 0 {
        let pre = samples.drop_last();
        lemma_search_sound(pre, x, y, radius);
        let cur = search_spec(samples, x, y, radius);
        let precur = search_spec(pre, x, y, radius);
        assert forall|j: int| 0 <= j < cur.len() implies #[trigger] reported_from_sample(
            samples,
            x,
            y,
            radius,
            j,
        ) by {
            if j < precur.len() {
                assert(cur[j] == precur[j]);
                assert(reported_from_sample(pre, x, y, radius, j));
                let k = choose|k: int|
                    0 <= k < pre.len() && in_range(#[trigger] pre[k], x, y, radius) && precur[j]
                        == pair_at(pre[k], x, y);
                assert(samples[k] == pre[k]);
                assert(0 <= k < samples.len() && in_range(samples[k], x, y, radius) && cur[j]
                    == pair_at(samples[k], x, y));
            } else {
                let k = samples.len() - 1;
                assert(in_range(samples[k], x, y, radius));
                assert(cur[j] == pair_at(samples[k], x, y));
            }
        }
    }
}

/// Completeness of a query: every stored sample within the radius has its
/// pair reported.
pub proof fn lemma_search_complete(samples: Seq<Sample>, x: int, y: int, radius: int, k: int)
    requires
        0 <= k < samples.len(),
        in_range(samples[k], x, y, radius),
    ensures
        search_spec(samples, x, y, radius).contains(pair_at(samples[k], x, y)),
    decreases samples.len(),
{
    let pre = samples.drop_last();
    let cur = search_spec(samples, x, y, radius);
    let precur = search_spec(pre, x, y, radius);
    if k == samples.len() - 1 {
        assert(cur[precur.len() as int] == pair_at(samples[k], x, y));
    } else {
        assert(pre[k] == samples[k]);
        lemma_search_complete(pre, x, y, radius, k);
        let j = choose|j: int| 0 <= j < precur.len() && precur[j] == pair_at(pre[k], x, y);
        assert(cur[j] == pair_at(samples[k], x, y));
    }
}

/// Radius monotonicity: a query at a smaller radius reports exactly the
/// pairs a query at a larger radius reports whose squared distance is
/// within the smaller squared radius. Enlarging the radius can only add
/// candidate samples to a query's result, never remove one.
pub proof fn lemma_radius_monotonic(samples: Seq<Sample>, x: int, y: int, r1: int, r2: int)
    requires
        forall|k: int| 0 <= k < samples.len() ==> coord_ok(#[trigger] samples[k]),
        0 <= x <= MAX_DIM,
        0 <= y <= MAX_DIM,
        0 <= r1 <= r2 <= MAX_RADIUS,
    ensures
        search_spec(samples, x, y, r1) == search_spec(samples, x, y, r2).filter(
            (|p: (u64, u64)| p.1 <= (r1 * r1) as u64),
        ),
    decreases samples.len(),
{
    let pred = |p: (u64, u64)| p.1 <= (r1 * r1) as u64;
    assert(0 <= r1 * r1 <= r2 * r2 <= 0xffff_ffff * 0xffff_ffff) by (nonlinear_arith)
        requires
            0 <= r1 <= r2 <= 0xffff_ffff,
    ;
    if samples.len() == 0 {
        assert(search_spec(samples, x, y, r2).filter(pred) =~= Seq::<(u64, u64)>::empty()) by {
            reveal(Seq::filter);
        }
    } else {
        let pre = samples.drop_last();
        assert(forall|k: int| 0 <= k < pre.len() ==> coord_ok(#[trigger] pre[k]));
        lemma_radius_monotonic(pre, x, y, r1, r2);
        let s = samples.last();
        let d = sq_dist(s.x as int, s.y as int, x, y);
        assert(0 <= d <= 0x7fff_ffff * 0x7fff_ffff * 2) by (nonlinear_arith)
            requires
                0 <= s.x <= MAX_DIM,
                0 <= s.y <= MAX_DIM,
                0 <= x <= MAX_DIM,
                0 <= y <= MAX_DIM,
                d == sq_dist(s.x as int, s.y as int, x, y),
                MAX_DIM == 0x7fff_ffff,
        ;
        let p = pair_at(s, x, y);
        assert(p.1 == d);
        if in_range(s, x, y, r2) {
            assert(search_spec(samples, x, y, r2) =~= search_spec(pre, x, y, r2).push(p));
            Seq::lemma_filter_push(search_spec(pre, x, y, r2), p, pred);
            if in_range(s, x, y, r1) {
                assert(pred(p));
                assert(search_spec(samples, x, y, r1) =~= search_spec(pre, x, y, r1).push(p));
            } else {
                assert(!pred(p));
                assert(search_spec(samples, x, y, r1) =~= search_spec(pre, x, y, r1));
            }
        } else {
            assert(!in_range(s, x, y, r1));
            assert(search_spec(samples, x, y, r2) =~= search_spec(pre, x, y, r2));
            assert(search_spec(samples, x, y, r1) =~= search_spec(pre, x, y, r1));
        }
    }
}

pub struct FixedRadiusSearch {
    radius: usize,
    samples: Vec<Sample>,
}

impl FixedRadiusSearch {
    /// The fixed radius the index was constructed with.
    pub closed spec fn spec_radius(self) -> usize {
        self.radius
    }

    /// The stored samples, in insertion order.
    pub closed spec fn spec_samples(self) -> Seq<Sample> {
        self.samples@
    }

    /// The radius is positive and bounded, and every stored sample has
    /// bounded coordinates.
    pub open spec fn well_formed(self) -> bool {
        &&& 1 <= self.spec_radius() <= MAX_RADIUS
        &&& forall|k: int|
            0 <= k < self.spec_samples().len() ==> coord_ok(#[trigger] self.spec_samples()[k])
    }

    /// Constructs an empty index with the given fixed search radius.
    pub fn new(radius: usize) -> (r: FixedRadiusSearch)
        requires
            1 <= radius <= MAX_RADIUS,
        ensures
            r.well_formed(),
            r.spec_radius() == radius,
            r.spec_samples() == Seq::<Sample>::empty(),
    {
        FixedRadiusSearch { radius, samples: Vec::new() }
    }

    /// Adds one sample at `(x, y)` with the given value; storage is
    /// unordered and duplicates are permitted.
    pub fn insert(&mut self, x: usize, y: usize, value: u64)
        requires
            old(self).well_formed(),
            x <= MAX_DIM,
            y <= MAX_DIM,
        ensures
            final (self).well_formed(),
            final (self).spec_radius() == old(self).spec_radius(),
            final (self).spec_samples() == old(self).spec_samples().push(Sample { x, y, value }),
    {
        self.samples.push(Sample { x, y, value });
        proof {
            let s = self.samples@;
            assert forall|k: int| 0 <= k < s.len() implies coord_ok(s[k]) by {
                if k < s.len() - 1 {
                    assert(s[k] == old(self).spec_samples()[k]);
                } else {
                    assert(s[k] == Sample { x, y, value });
                }
            }
        }
    }

    /// Queries the index: reports every stored sample whose distance to
    /// `(x, y)` is at most the radius, paired with its squared distance.
    pub fn search(&self, x: usize, y: usize) -> (r: Vec<(u64, u64)>)
        requires
            self.well_formed(),
            x <= MAX_DIM,
            y <= MAX_DIM,
        ensures
            r@ == search_spec(self.spec_samples(), x as int, y as int, self.spec_radius() as int),
    {
        let radius: u64 = self.radius as u64;
        assert(radius * radius <= 0xffff_ffff * 0xffff_ffff) by (nonlinear_arith)
            requires
                radius <= 0xffff_ffff,
        ;
        let rr: u64 = radius * radius;
        let mut out: Vec<(u64, u64)> = Vec::new();
        let n = self.samples.len();
        proof {
            assert(self.spec_samples().take(0) =~= Seq::<Sample>::empty());
        }
        for k in 0..n
            invariant
                self.well_formed(),
                n == self.spec_samples().len(),
                x <= MAX_DIM,
                y <= MAX_DIM,
                rr == (self.spec_radius() as int) * (self.spec_radius() as int),
                out@ == search_spec(
                    self.spec_samples().take(k as int),
                    x as int,
                    y as int,
                    self.spec_radius() as int,
                ),
        {
            let s = self.samples[k];
            let dx: u64 = if x >= s.x {
                (x - s.x) as u64
            } else {
                (s.x - x) as u64
            };
            let dy: u64 = if y >= s.y {
                (y - s.y) as u64
            } else {
                (s.y - y) as u64
            };
            assert(dx * dx + dy * dy == sq_dist(s.x as int, s.y as int, x as int, y as int)
                && dx * dx + dy * dy <= 0x7fff_ffff * 0x7fff_ffff * 2) by (nonlinear_arith)
                requires
                    dx == if x >= s.x {
                        x - s.x
                    } else {
                        s.x - x
                    },
                    dy == if y >= s.y {
                        y - s.y
                    } else {
                        s.y - y
                    },
                    dx <= 0x7fff_ffff,
                    dy <= 0x7fff_ffff,
            ;
            let d2: u64 = dx * dx + dy * dy;
            if d2 <= rr {
                out.push((s.value, d2));
            }
            proof {
                let taken = self.spec_samples().take(k + 1);
                assert(taken.drop_last() =~= self.spec_samples().take(k as int));
                assert(taken.last() == s);
                assert(out@ =~= search_spec(
                    taken,
                    x as int,
                    y as int,
                    self.spec_radius() as int,
                ));
            }
        }
        proof {
            assert(self.spec_samples().take(n as int) =~= self.spec_samples());
        }
        out
    }
}

} // verus!
