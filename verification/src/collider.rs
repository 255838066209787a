//! The polygon collider, a secondary component: an ordered sequence of
//! boundary points on the double-resolution grid plus a set of edges, either
//! given explicitly or derived as the closed loop joining consecutive points.
//!
//! Collider geometry aligns with the volume's double-resolution addressing:
//! [`PolygonCollider::points_as_half`] offsets each integer point and divides
//! it by two, yielding exact half-unit [`Position`] values. Projecting the
//! edges through a continuous transform and drawing them is left to the
//! caller, which takes the edge endpoints from
//! [`PolygonCollider::edge_segments`].

use vstd::prelude::*;
use crate::mapper::{CellIndex, Position};

verus! {

/// Largest magnitude a point or offset coordinate may have, so that offset
/// sums and their halves stay well inside the fixed-point position range.
pub const MAX_POINT_COORD: i64 = 1_073_741_824;

/// An immutable polygon: boundary points in order, and the edges among them
/// as index pairs into `points`.
pub struct PolygonCollider {
    pub points: Vec<CellIndex>,
    pub edges: Vec<(usize, usize)>,
}

impl PolygonCollider {
    /// Validity: every edge endpoint names an existing point.
    pub open spec fn wf(self) -> bool {
        forall|e: int|
            0 <= e < self.edges@.len() ==> (#[trigger] self.edges@[e]).0 < self.points@.len()
                && self.edges@[e].1 < self.points@.len()
    }

    /// The closed-loop edge list over `n` points: each point joined to the
    /// next, the last wrapping back to the first.
    pub open spec fn loop_edge(n: int, k: int) -> (usize, usize) {
        ((k as usize), (if k + 1 == n {
            0usize
        } else {
            (k + 1) as usize
        }))
    }

    /// Builds a collider. With `indices` absent the edges are the closed
    /// loop joining consecutive points; with `indices` given they are taken
    /// as they are, and construction fails exactly when one of them names a
    /// point that does not exist.
    #[verifier::loop_isolation(false)]
    pub fn new(points: Vec<CellIndex>, indices: Option<Vec<(usize, usize)>>) -> (r: Option<
        PolygonCollider,
    >)
        ensures
            (match indices {
                None => r is Some,
                Some(v) => r is Some <==> (forall|e: int|
                    0 <= e < v@.len() ==> (#[trigger] v@[e]).0 < points@.len() && v@[e].1
                        < points@.len()),
            }),
            r matches Some(col) ==> {
                &&& col.wf()
                &&& col.points@ == points@
                &&& (match indices {
                    None => col.edges@.len() == points@.len() && (forall|k: int|
                        0 <= k < points@.len() ==> #[trigger] col.edges@[k]
                            == PolygonCollider::loop_edge(points@.len() as int, k)),
                    Some(v) => col.edges@ == v@,
                })
            },
    {
        match indices {
            Some(v) => {
                let n = points.len();
                let m = v.len();
                let mut e: usize = 0;
                while e < m
                    invariant
                        e <= m,
                        m == v@.len(),
                        n == points@.len(),
                        forall|q: int|
                            0 <= q < e ==> (#[trigger] v@[q]).0 < n && v@[q].1 < n,
                    decreases m - e,
                {
                    let (a, b) = v[e];
                    if a >= n || b >= n {
                        proof {
                            assert(!((v@[e as int]).0 < points@.len() && (v@[e as int]).1
                                < points@.len()));
                        }
                        return None;
                    }
                    e += 1;
                }
                Some(PolygonCollider { points, edges: v })
            },
            None => {
                let n = points.len();
                let mut edges: Vec<(usize, usize)> = Vec::new();
                let mut k: usize = 0;
                while k < n
                    invariant
                        k <= n,
                        n == points@.len(),
                        edges@.len() == k,
                        forall|q: int|
                            0 <= q < k ==> #[trigger] edges@[q] == PolygonCollider::loop_edge(
                                n as int,
                                q,
                            ),
                    decreases n - k,
                {
                    let next: usize = if k + 1 == n {
                        0
                    } else {
                        k + 1
                    };
                    edges.push((k, next));
                    k += 1;
                }
                Some(PolygonCollider { points, edges })
            },
        }
    }

    /// Every point coordinate, and the offset's, is small enough to shift
    /// and halve without leaving the fixed-point position range.
    pub open spec fn coords_bounded(self, offset: CellIndex) -> bool {
        &&& -MAX_POINT_COORD <= offset.x <= MAX_POINT_COORD
        &&& -MAX_POINT_COORD <= offset.y <= MAX_POINT_COORD
        &&& forall|k: int|
            0 <= k < self.points@.len() ==> -MAX_POINT_COORD <= (#[trigger] self.points@[k]).x
                <= MAX_POINT_COORD && -MAX_POINT_COORD <= self.points@[k].y <= MAX_POINT_COORD
    }

    /// One coordinate offset and halved exactly: the whole part is the floor
    /// of `(v + off) / 2`, the fraction half a unit when the sum is odd.
    pub open spec fn spec_half(v: int) -> (int, u32) {
        (v / 2, if v % 2 == 0 {
            0u32
        } else {
            500_000u32
        })
    }

    /// The position of point `k` after offsetting and halving both axes.
    pub open spec fn spec_half_point(p: CellIndex, offset: CellIndex) -> Position {
        Position {
            whole_x: Self::spec_half(p.x + offset.x).0 as i32,
            frac_x: Self::spec_half(p.x + offset.x).1,
            whole_y: Self::spec_half(p.y + offset.y).0 as i32,
            frac_y: Self::spec_half(p.y + offset.y).1,
        }
    }

    /// Converts the integer boundary points, plus an integer offset, into
    /// exact positions at half scale, aligning the collider with the
    /// volume's double-resolution addressing.
    #[verifier::loop_isolation(false)]
    pub fn points_as_half(&self, offset: CellIndex) -> (r: Vec<Position>)
        requires
            self.coords_bounded(offset),
        ensures
            r@.len() == self.points@.len(),
            forall|k: int|
                0 <= k < r@.len() ==> #[trigger] r@[k] == PolygonCollider::spec_half_point(
                    self.points@[k],
                    offset,
                ) && r@[k].wf(),
    {
        let n = self.points.len();
        let mut r: Vec<Position> = Vec::new();
        let mut k: usize = 0;
        while k < n
            invariant
                k <= n,
                n == self.points@.len(),
                r@.len() == k,
                forall|q: int|
                    0 <= q < k ==> #[trigger] r@[q] == PolygonCollider::spec_half_point(
                        self.points@[q],
                        offset,
                    ) && r@[q].wf(),
            decreases n - k,
        {
            let p = self.points[k];
            let (wx, fx) = half_coord(p.x, offset.x);
            let (wy, fy) = half_coord(p.y, offset.y);
            r.push(Position { whole_x: wx, frac_x: fx, whole_y: wy, frac_y: fy });
            k += 1;
        }
        r
    }

    /// The endpoints of every edge, offset and halved: what a debug drawer
    /// projects through its transform, one line segment per pair.
    #[verifier::loop_isolation(false)]
    pub fn edge_segments(&self, offset: CellIndex) -> (r: Vec<(Position, Position)>)
        requires
            self.wf(),
            self.coords_bounded(offset),
        ensures
            r@.len() == self.edges@.len(),
            forall|e: int|
                0 <= e < r@.len() ==> #[trigger] r@[e] == (
                PolygonCollider::spec_half_point(
                    self.points@[self.edges@[e].0 as int],
                    offset,
                ), PolygonCollider::spec_half_point(self.points@[self.edges@[e].1 as int], offset)),
    {
        let halves = self.points_as_half(offset);
        let m = self.edges.len();
        let mut r: Vec<(Position, Position)> = Vec::new();
        let mut e: usize = 0;
        while e < m
            invariant
                e <= m,
                m == self.edges@.len(),
                halves@.len() == self.points@.len(),
                forall|q: int|
                    0 <= q < halves@.len() ==> #[trigger] halves@[q]
                        == PolygonCollider::spec_half_point(self.points@[q], offset),
                r@.len() == e,
                forall|q: int|
                    0 <= q < e ==> #[trigger] r@[q] == (
                    PolygonCollider::spec_half_point(
                        self.points@[self.edges@[q].0 as int],
                        offset,
                    ), PolygonCollider::spec_half_point(
                        self.points@[self.edges@[q].1 as int],
                        offset,
                    )),
            decreases m - e,
        {
            let (a, b) = self.edges[e];
            let pa = halves[a];
            let pb = halves[b];
            r.push((pa, pb));
            e += 1;
        }
        r
    }
}

/// One coordinate of [`PolygonCollider::spec_half`], computed without signed
/// division: the sum is shifted into the non-negative range, halved there,
/// and shifted back, which preserves the floor because the shift is even.
fn half_coord(v: i64, off: i64) -> (r: (i32, u32))
    requires
        -MAX_POINT_COORD <= v <= MAX_POINT_COORD,
        -MAX_POINT_COORD <= off <= MAX_POINT_COORD,
    ensures
        r.0 as int == PolygonCollider::spec_half(v + off).0,
        r.1 == PolygonCollider::spec_half(v + off).1,
        r.1 < crate::mapper::FRAC_UNIT,
{
    let sum: i64 = v + off;
    let shifted: u64 = (sum + 2 * MAX_POINT_COORD) as u64;
    let half: u64 = shifted / 2;
    let whole: i64 = (half as i64) - MAX_POINT_COORD;
    let frac: u32 = if shifted % 2 == 1 {
        500_000
    } else {
        0
    };
    proof {
        let s = sum as int;
        let m = MAX_POINT_COORD as int;
        let t = s + 2 * m;
        vstd::arithmetic::div_mod::lemma_fundamental_div_mod(s, 2);
        let q = s / 2;
        let r = s % 2;
        assert(0 <= r < 2);
        assert(t == 2 * (q + m) + r);
        vstd::arithmetic::div_mod::lemma_fundamental_div_mod_converse(t, 2, q + m, r);
        assert(t == shifted as int);
    }
    (whole as i32, frac)
}

} // verus!
