use vstd::prelude::*;

verus! {

/// Largest absolute coordinate a planar point may hold, so that every
/// product of two coordinate differences fits in 64 bits.
pub const MAX_COORD: i64 = 1073741824;

/// A point of the local plane, in integer units (millimetres for projected
/// positions). Coordinates are exact, so two points coincide only when equal.
#[derive(Clone, Copy, Debug, PartialEq, Eq, Structural)]
pub struct Point {
    pub x: i64,
    pub y: i64,
}

/// A displacement between two points of the plane.
#[derive(Clone, Copy, Debug, PartialEq, Eq, Structural)]
pub struct Vector {
    pub x: i64,
    pub y: i64,
}

/// Squared Euclidean distance between two points.
pub open spec fn dist_sq(p: Point, q: Point) -> int {
    (q.x - p.x) * (q.x - p.x) + (q.y - p.y) * (q.y - p.y)
}

/// The largest natural number whose square does not exceed `n`.
pub open spec fn root(n: nat) -> nat
    decreases n,
{
    if n == 0 {
        0
    } else {
        let r = root((n - 1) as nat);
        if (r + 1) * (r + 1) <= n {
            (r + 1) as nat
        } else {
            r
        }
    }
}

/// Euclidean distance between two points, rounded down.
pub open spec fn distance(p: Point, q: Point) -> nat {
    root(dist_sq(p, q) as nat)
}

pub proof fn lemma_root_bounds(n: nat)
    ensures
        (root(n) as int) * (root(n) as int) <= n < (root(n) + 1) * (root(n) + 1),
    decreases n,
{
    let q = root(n) as int;
    if n > 0 {
        lemma_root_bounds((n - 1) as nat);
        let r = root((n - 1) as nat) as int;
        assert((r + 1) * (r + 1) < (r + 2) * (r + 2)) by (nonlinear_arith)
            requires r >= 0;
        if (r + 1) * (r + 1) <= n {
            assert(q == r + 1);
        } else {
            assert(q == r);
        }
    } else {
        assert(q == 0);
    }
    assert(q * q <= n < (q + 1) * (q + 1));
}

/// `root(n)` is the only natural number `r` with `r² <= n < (r + 1)²`.
pub proof fn lemma_root_unique(n: nat, r: nat)
    requires
        r * r <= n < (r + 1) * (r + 1),
    ensures
        r == root(n),
{
    lemma_root_bounds(n);
    let q = root(n);
    if r < q {
        assert((r + 1) * (r + 1) <= q * q) by (nonlinear_arith)
            requires r + 1 <= q, r >= 0;
    } else if q < r {
        assert((q + 1) * (q + 1) <= r * r) by (nonlinear_arith)
            requires q + 1 <= r, q >= 0;
    }
}

/// `root` never decreases as its argument grows.
pub proof fn lemma_root_monotone(n: nat, m: nat)
    requires
        n <= m,
    ensures
        root(n) <= root(m),
{
    lemma_root_bounds(n);
    lemma_root_bounds(m);
    let a = root(n);
    let b = root(m);
    if a > b {
        assert((b + 1) * (b + 1) <= a * a) by (nonlinear_arith)
            requires b + 1 <= a, b >= 0;
    }
}

/// The distance from any point to itself is zero.
pub proof fn lemma_distance_to_itself(p: Point)
    ensures
        distance(p, p) == 0,
{
    assert(dist_sq(p, p) == 0);
    assert(root(0) == 0);
}

/// Integer square root, rounded down.
pub fn floor_sqrt(n: u128) -> (r: u64)
    ensures
        r == root(n as nat),
{
    let mut lo: u128 = 0;
    let mut hi: u128 = 0x1_0000_0000_0000_0000;
    assert(n < hi * hi) by (nonlinear_arith)
        requires hi == 0x1_0000_0000_0000_0000, n < 0x1_0000_0000_0000_0000_0000_0000_0000_0000;
    while hi - lo > 1
        invariant
            lo < hi <= 0x1_0000_0000_0000_0000,
            lo * lo <= n < hi * hi,
        decreases hi - lo,
    {
        let mid: u128 = lo + (hi - lo) / 2;
        assert(mid * mid < 0x1_0000_0000_0000_0000_0000_0000_0000_0000) by (nonlinear_arith)
            requires mid < 0x1_0000_0000_0000_0000;
        if mid * mid <= n {
            lo = mid;
        } else {
            hi = mid;
        }
    }
    proof {
        lemma_root_unique(n as nat, lo as nat);
    }
    lo as u64
}

impl Point {
    /// Both coordinates lie within the plane's representable range.
    pub open spec fn in_plane(self) -> bool {
        -MAX_COORD <= self.x <= MAX_COORD && -MAX_COORD <= self.y <= MAX_COORD
    }

    /// Exact squared distance to `p`.
    pub fn distance_sq_to(&self, p: &Point) -> (r: u128)
        requires
            self.in_plane(),
            p.in_plane(),
        ensures
            r == dist_sq(*self, *p),
    {
        let v = Vector::from_points(self, p);
        proof {
            assert(v.x * v.x >= 0 && v.y * v.y >= 0) by (nonlinear_arith);
        }
        let s = v.dot(&v);
        s as u128
    }

    /// Each coordinate differs from `p`'s by less than `delta`.
    pub fn close_to(&self, p: &Point, delta: u64) -> (r: bool)
        requires
            self.in_plane(),
            p.in_plane(),
        ensures
            r == (-delta < self.x - p.x < delta && -delta < self.y - p.y < delta),
    {
        let dx = self.x - p.x;
        let dy = self.y - p.y;
        let d = delta as i128;
        -d < dx as i128 && (dx as i128) < d && -d < dy as i128 && (dy as i128) < d
    }

    /// Euclidean distance to `p`, rounded down.
    pub fn distance_to(&self, p: &Point) -> (r: u64)
        requires
            self.in_plane(),
            p.in_plane(),
        ensures
            r == distance(*self, *p),
    {
        floor_sqrt(self.distance_sq_to(p))
    }
}

impl Vector {
    /// Each component is at most the span of the plane.
    pub open spec fn spans_plane(self) -> bool {
        -2 * MAX_COORD <= self.x <= 2 * MAX_COORD && -2 * MAX_COORD <= self.y <= 2 * MAX_COORD
    }

    pub open spec fn cross_spec(self, v: Vector) -> int {
        self.x * v.y - self.y * v.x
    }

    pub open spec fn dot_spec(self, v: Vector) -> int {
        self.x * v.x + self.y * v.y
    }

    /// The displacement `to - from`.
    pub fn from_points(from: &Point, to: &Point) -> (v: Vector)
        requires
            from.in_plane(),
            to.in_plane(),
        ensures
            v.x == to.x - from.x,
            v.y == to.y - from.y,
            v.spans_plane(),
    {
        Vector { x: to.x - from.x, y: to.y - from.y }
    }

    /// Scalar cross product `self.x * v.y - self.y * v.x`.
    pub fn cross(&self, v: &Vector) -> (r: i128)
        requires
            self.spans_plane(),
            v.spans_plane(),
        ensures
            r == self.cross_spec(*v),
            -0x8000_0000_0000_0000 <= r <= 0x8000_0000_0000_0000,
    {
        let (ax, ay, bx, by) = (self.x as i128, self.y as i128, v.x as i128, v.y as i128);
        proof {
            lemma_product_bound(ax as int, by as int);
            lemma_product_bound(ay as int, bx as int);
        }
        ax * by - ay * bx
    }

    /// Scalar dot product `self.x * v.x + self.y * v.y`.
    pub fn dot(&self, v: &Vector) -> (r: i128)
        requires
            self.spans_plane(),
            v.spans_plane(),
        ensures
            r == self.dot_spec(*v),
            -0x8000_0000_0000_0000 <= r <= 0x8000_0000_0000_0000,
    {
        let (ax, ay, bx, by) = (self.x as i128, self.y as i128, v.x as i128, v.y as i128);
        proof {
            lemma_product_bound(ax as int, bx as int);
            lemma_product_bound(ay as int, by as int);
            assert(ax * ax >= 0 && ay * ay >= 0) by (nonlinear_arith);
        }
        ax * bx + ay * by
    }

    /// Euclidean length, rounded down.
    pub fn det(&self) -> (r: u64)
        requires
            self.spans_plane(),
        ensures
            r == root(self.dot_spec(*self) as nat),
    {
        proof {
            assert(self.x * self.x >= 0 && self.y * self.y >= 0) by (nonlinear_arith);
        }
        let s = self.dot(self);
        floor_sqrt(s as u128)
    }
}

proof fn lemma_product_bound(a: int, b: int)
    requires
        -2 * MAX_COORD <= a <= 2 * MAX_COORD,
        -2 * MAX_COORD <= b <= 2 * MAX_COORD,
    ensures
        -0x4000_0000_0000_0000 <= a * b <= 0x4000_0000_0000_0000,
{
    assert(-0x4000_0000_0000_0000 <= a * b <= 0x4000_0000_0000_0000) by (nonlinear_arith)
        requires -0x8000_0000 <= a <= 0x8000_0000, -0x8000_0000 <= b <= 0x8000_0000;
}

} // verus!
