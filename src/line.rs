use vstd::prelude::*;

use crate::basic::{dist_sq, distance, floor_sqrt, lemma_root_monotone, root, Point, Vector};
use crate::error::GeometryError;

verus! {

/// A point with rational coordinates `(x / den, y / den)`, `den > 0`.
#[derive(Clone, Copy, Debug, PartialEq, Eq, Structural)]
pub struct FracPoint {
    pub x: i128,
    pub y: i128,
    pub den: i128,
}

impl FracPoint {
    pub open spec fn value(self) -> (int, int, int) {
        (self.x as int, self.y as int, self.den as int)
    }
}

/// Euclidean distance from the rational point `q` to `p`, rounded down.
pub open spec fn frac_distance(q: (int, int, int), p: Point) -> nat {
    root(
        (((q.0 - p.x * q.2) * (q.0 - p.x * q.2) + (q.1 - p.y * q.2) * (q.1 - p.y * q.2)) / (q.2
            * q.2)) as nat,
    )
}

/// A straight edge between two distinct points.
#[derive(Clone, Copy, Debug, PartialEq, Eq, Structural)]
pub struct LineSegment {
    pub a: Point,
    pub b: Point,
}

impl LineSegment {
    pub open spec fn wf(self) -> bool {
        self.a.in_plane() && self.b.in_plane() && self.a != self.b
    }

    pub open spec fn dx(self) -> int {
        self.b.x - self.a.x
    }

    pub open spec fn dy(self) -> int {
        self.b.y - self.a.y
    }

    /// Squared length of the segment.
    pub open spec fn len_sq(self) -> int {
        self.dx() * self.dx() + self.dy() * self.dy()
    }

    /// Dot product of `a -> p` with `a -> b`.
    pub open spec fn dot_at(self, p: Point) -> int {
        (p.x - self.a.x) * self.dx() + (p.y - self.a.y) * self.dy()
    }

    /// Cross product of `a -> p` with `a -> b`; zero exactly when `p` is on the line.
    pub open spec fn cross_at(self, p: Point) -> int {
        (p.x - self.a.x) * self.dy() - (p.y - self.a.y) * self.dx()
    }

    /// Orthogonal projection of `p` onto the infinite line through `a` and `b`,
    /// as a rational point over the denominator `|ab|²`.
    pub open spec fn projection(self, p: Point) -> (int, int, int) {
        (
            self.a.x * self.len_sq() + self.dot_at(p) * self.dx(),
            self.a.y * self.len_sq() + self.dot_at(p) * self.dy(),
            self.len_sq(),
        )
    }

    /// The point of the segment closest to `p`: the projection of `p` onto the
    /// line, clamped to the segment (the endpoint it falls beyond, if any).
    pub open spec fn closest_point_spec(self, p: Point) -> (int, int, int) {
        if self.dot_at(p) <= 0 {
            (self.a.x as int, self.a.y as int, 1)
        } else if self.dot_at(p) >= self.len_sq() {
            (self.b.x as int, self.b.y as int, 1)
        } else {
            self.projection(p)
        }
    }

    /// Numerator of the exact squared distance from `p` to the closest point,
    /// whose denominator is that point's denominator squared.
    pub open spec fn exact_dist_sq_num(self, p: Point) -> int {
        let q = self.closest_point_spec(p);
        (q.0 - p.x * q.2) * (q.0 - p.x * q.2) + (q.1 - p.y * q.2) * (q.1 - p.y * q.2)
    }

    /// Distance from `p` to the closest point of the segment, rounded down.
    pub open spec fn distance_spec(self, p: Point) -> nat {
        frac_distance(self.closest_point_spec(p), p)
    }

    /// Builds the segment from `a` to `b`; fails when the two points coincide.
    pub fn new(a: Point, b: Point) -> (r: Result<LineSegment, GeometryError>)
        requires
            a.in_plane(),
            b.in_plane(),
        ensures
            a == b <==> r == Err::<LineSegment, GeometryError>(
                GeometryError::DegenerateSegment { a, b },
            ),
            a != b <==> r == Ok::<LineSegment, GeometryError>(LineSegment { a, b }),
            r is Ok ==> r->Ok_0.wf(),
    {
        if a == b {
            Err(GeometryError::DegenerateSegment { a, b })
        } else {
            Ok(LineSegment { a, b })
        }
    }

    /// Orthogonal projection of `p` onto the line through the segment.
    pub fn find_projection(&self, p: &Point) -> (r: FracPoint)
        requires
            self.wf(),
            p.in_plane(),
        ensures
            r.value() == self.projection(*p),
            r.den > 0,
    {
        let d = Vector::from_points(&self.a, &self.b);
        let ap = Vector::from_points(&self.a, p);
        let len = d.dot(&d);
        let dot = ap.dot(&d);
        proof {
            lemma_len_positive(*self);
            lemma_projection_fits(*self, *p);
        }
        // Over exact rationals the same formula serves vertical lines too.
        let ax = self.a.x as i128;
        let ay = self.a.y as i128;
        let dx = d.x as i128;
        let dy = d.y as i128;
        FracPoint { x: ax * len + dot * dx, y: ay * len + dot * dy, den: len }
    }

    /// The point of the segment closest to `p`: the projection clamped to the segment.
    pub fn find_closest_point(&self, p: &Point) -> (r: FracPoint)
        requires
            self.wf(),
            p.in_plane(),
        ensures
            r.value() == self.closest_point_spec(*p),
            r.den > 0,
    {
        let projection = self.find_projection(p);
        let d = Vector::from_points(&self.a, &self.b);
        let ap = Vector::from_points(&self.a, p);
        let len = d.dot(&d);
        let dot = ap.dot(&d);
        if dot <= 0 {
            // The projection is `a` or lies before it.
            return FracPoint { x: self.a.x as i128, y: self.a.y as i128, den: 1 };
        }
        if dot >= len {
            // The projection is `b` or lies beyond it.
            return FracPoint { x: self.b.x as i128, y: self.b.y as i128, den: 1 };
        }
        projection
    }

    /// Distance from `p` to the segment (to its closest point), rounded down.
    pub fn distance_to_point(&self, p: &Point) -> (r: u64)
        requires
            self.wf(),
            p.in_plane(),
        ensures
            r == self.distance_spec(*p),
    {
        let c = self.find_closest_point(p);
        if c.den == 1 && c.x == self.a.x as i128 && c.y == self.a.y as i128 {
            proof {
                lemma_integer_distance(self.a, *p);
            }
            return self.a.distance_to(p);
        }
        if c.den == 1 && c.x == self.b.x as i128 && c.y == self.b.y as i128 {
            proof {
                lemma_integer_distance(self.b, *p);
            }
            return self.b.distance_to(p);
        }
        let d = Vector::from_points(&self.a, &self.b);
        let ap = Vector::from_points(&self.a, p);
        let len = d.dot(&d);
        let cr = ap.cross(&d);
        proof {
            lemma_len_positive(*self);
            lemma_projection_distance(*self, *p);
            assert(cr * cr <= 0x4000_0000_0000_0000_0000_0000_0000_0000) by (nonlinear_arith)
                requires -0x8000_0000_0000_0000 <= cr <= 0x8000_0000_0000_0000;
            assert(cr * cr >= 0) by (nonlinear_arith);
        }
        let n = (cr * cr) as u128;
        let q = n / (len as u128);
        floor_sqrt(q)
    }
}

impl LineSegment {
    /// `p` lies on the segment, endpoints included.
    pub open spec fn on_span(self, p: Point) -> bool {
        self.cross_at(p) == 0 && 0 <= self.dot_at(p) <= self.len_sq()
    }

    /// The projection of `p` onto the line falls outside the segment.
    pub open spec fn projects_outside(self, p: Point) -> bool {
        self.dot_at(p) < 0 || self.dot_at(p) > self.len_sq()
    }
}

/// A point on a segment is at distance zero from it.
pub proof fn lemma_on_span_distance_zero(s: LineSegment, p: Point)
    requires
        s.wf(),
        s.on_span(p),
    ensures
        s.distance_spec(p) == 0,
{
    lemma_exact_zero_iff_on_span(s, p);
    lemma_len_positive(s);
    let q = s.closest_point_spec(p);
    let n = s.exact_dist_sq_num(p);
    assert(n / (q.2 * q.2) == 0) by (nonlinear_arith)
        requires n == 0, q.2 >= 1;
    assert(root(0) == 0);
}

/// The exact distance from `p` to the segment is zero exactly when `p` lies on
/// the segment. (The rounded distance is also zero for points less than one
/// unit away.)
pub proof fn lemma_exact_zero_iff_on_span(s: LineSegment, p: Point)
    requires
        s.wf(),
    ensures
        s.exact_dist_sq_num(p) == 0 <==> s.on_span(p),
{
    lemma_len_positive(s);
    lemma_projection_offsets(s, p);
    lemma_endpoints_on_line(s, p);
    let (dx, dy, cr, dot, len) = (s.dx(), s.dy(), s.cross_at(p), s.dot_at(p), s.len_sq());
    if dot <= 0 {
        lemma_zero_square_sum(s.a.x - p.x, s.a.y - p.y);
    } else if dot >= len {
        lemma_zero_square_sum(s.b.x - p.x, s.b.y - p.y);
    } else {
        let q = s.projection(p);
        let n = s.exact_dist_sq_num(p);
        assert(n == len * (cr * cr)) by (nonlinear_arith)
            requires
                q.0 - p.x * q.2 == -dy * cr,
                q.1 - p.y * q.2 == dx * cr,
                len == dx * dx + dy * dy,
                n == (q.0 - p.x * q.2) * (q.0 - p.x * q.2) + (q.1 - p.y * q.2) * (q.1 - p.y * q.2),
        ;
        assert(n == 0 <==> cr == 0) by (nonlinear_arith)
            requires n == len * (cr * cr), len > 0;
    }
}

/// When the projection of `p` onto the line falls outside the segment, the
/// distance is that to the nearer endpoint.
pub proof fn lemma_outside_projection_nearer_endpoint(s: LineSegment, p: Point)
    requires
        s.wf(),
        s.projects_outside(p),
    ensures
        s.distance_spec(p) == if distance(p, s.a) < distance(p, s.b) {
            distance(p, s.a)
        } else {
            distance(p, s.b)
        },
{
    lemma_len_positive(s);
    lemma_dist_sq_to_b(s, p);
    lemma_integer_distance(s.a, p);
    lemma_integer_distance(s.b, p);
    lemma_dist_sq_symmetric(p, s.a);
    lemma_dist_sq_symmetric(p, s.b);
    let (da, db) = (dist_sq(p, s.a), dist_sq(p, s.b));
    lemma_zero_square_sum(s.a.x - p.x, s.a.y - p.y);
    lemma_zero_square_sum(s.b.x - p.x, s.b.y - p.y);
    if s.dot_at(p) < 0 {
        lemma_root_monotone(da as nat, db as nat);
    } else {
        lemma_root_monotone(db as nat, da as nat);
    }
}

/// `|p - b|² = |p - a|² - 2 (a -> p)·(a -> b) + |ab|²`.
proof fn lemma_dist_sq_to_b(s: LineSegment, p: Point)
    ensures
        dist_sq(p, s.b) == dist_sq(p, s.a) - 2 * s.dot_at(p) + s.len_sq(),
{
    let (ux, uy, dx, dy) = (p.x - s.a.x, p.y - s.a.y, s.dx(), s.dy());
    assert((dx - ux) * (dx - ux) + (dy - uy) * (dy - uy) == (ux * ux + uy * uy) - 2 * (ux * dx
        + uy * dy) + (dx * dx + dy * dy)) by (nonlinear_arith);
    assert(s.b.x - p.x == dx - ux && s.b.y - p.y == dy - uy);
    assert(s.a.x - p.x == -ux && s.a.y - p.y == -uy);
    assert((-ux) * (-ux) == ux * ux && (-uy) * (-uy) == uy * uy) by (nonlinear_arith);
}

/// A sum of two squares is never negative, and is zero only when both are.
proof fn lemma_zero_square_sum(u: int, v: int)
    ensures
        u * u + v * v >= 0,
        u * u + v * v == 0 <==> (u == 0 && v == 0),
{
    assert(u * u + v * v >= 0) by (nonlinear_arith);
    assert(u * u + v * v == 0 <==> (u == 0 && v == 0)) by (nonlinear_arith);
}

/// On the line, the dot product tells where `p` is: at `a` when zero, at `b`
/// when it equals `|ab|²`.
proof fn lemma_endpoints_on_line(s: LineSegment, p: Point)
    requires
        s.wf(),
    ensures
        p == s.a ==> s.dot_at(p) == 0 && s.cross_at(p) == 0,
        p == s.b ==> s.dot_at(p) == s.len_sq() && s.cross_at(p) == 0,
        s.cross_at(p) == 0 && s.dot_at(p) == 0 ==> p == s.a,
        s.cross_at(p) == 0 && s.dot_at(p) == s.len_sq() ==> p == s.b,
{
    lemma_len_positive(s);
    lemma_projection_offsets(s, p);
    let (dx, dy, cr, dot, len) = (s.dx(), s.dy(), s.cross_at(p), s.dot_at(p), s.len_sq());
    let q = s.projection(p);
    if p == s.b {
        assert(dot == len && cr == 0) by (nonlinear_arith)
            requires
                dot == (p.x - s.a.x) * dx + (p.y - s.a.y) * dy,
                cr == (p.x - s.a.x) * dy - (p.y - s.a.y) * dx,
                dx == p.x - s.a.x,
                dy == p.y - s.a.y,
                len == dx * dx + dy * dy,
        ;
    }
    if cr == 0 && dot == 0 {
        assert(dot * dx == 0 && dot * dy == 0 && -dy * cr == 0 && dx * cr == 0) by (nonlinear_arith)
            requires dot == 0, cr == 0;
        assert(p.x * len == s.a.x * len && p.y * len == s.a.y * len);
        assert(p.x == s.a.x && p.y == s.a.y) by (nonlinear_arith)
            requires p.x * len == s.a.x * len, p.y * len == s.a.y * len, len > 0;
    }
    if p == s.a {
        assert(dot == 0 && cr == 0) by (nonlinear_arith)
            requires
                dot == (p.x - s.a.x) * dx + (p.y - s.a.y) * dy,
                cr == (p.x - s.a.x) * dy - (p.y - s.a.y) * dx,
                p.x == s.a.x,
                p.y == s.a.y,
        ;
    }
    if cr == 0 && dot == len {
        assert((dot - len) * dx == 0 && (dot - len) * dy == 0) by (nonlinear_arith)
            requires dot == len;
        assert(-dy * cr == 0 && dx * cr == 0) by (nonlinear_arith)
            requires cr == 0;
        assert(p.x * len == s.b.x * len && p.y * len == s.b.y * len);
        assert(p.x == s.b.x && p.y == s.b.y) by (nonlinear_arith)
            requires p.x * len == s.b.x * len, p.y * len == s.b.y * len, len > 0;
    }
}

proof fn lemma_dist_sq_symmetric(p: Point, q: Point)
    ensures
        dist_sq(p, q) == dist_sq(q, p),
{
    assert((q.x - p.x) * (q.x - p.x) == (p.x - q.x) * (p.x - q.x)) by (nonlinear_arith);
    assert((q.y - p.y) * (q.y - p.y) == (p.y - q.y) * (p.y - q.y)) by (nonlinear_arith);
}

proof fn lemma_len_positive(s: LineSegment)
    requires
        s.wf(),
    ensures
        s.len_sq() > 0,
{
    let (dx, dy) = (s.dx(), s.dy());
    assert(dx != 0 || dy != 0);
    assert(dx * dx + dy * dy > 0) by (nonlinear_arith)
        requires dx != 0 || dy != 0;
}

proof fn lemma_projection_fits(s: LineSegment, p: Point)
    requires
        s.wf(),
        p.in_plane(),
    ensures
        -0x8000_0000_0000_0000_0000_0000 <= s.a.x * s.len_sq() <= 0x8000_0000_0000_0000_0000_0000,
        -0x8000_0000_0000_0000_0000_0000 <= s.a.y * s.len_sq() <= 0x8000_0000_0000_0000_0000_0000,
        -0x8000_0000_0000_0000_0000_0000 <= s.dot_at(p) * s.dx() <= 0x8000_0000_0000_0000_0000_0000,
        -0x8000_0000_0000_0000_0000_0000 <= s.dot_at(p) * s.dy() <= 0x8000_0000_0000_0000_0000_0000,
{
    let (ax, ay, dx, dy) = (s.a.x as int, s.a.y as int, s.dx(), s.dy());
    let (len, dot) = (s.len_sq(), s.dot_at(p));
    let ux = p.x - ax;
    let uy = p.y - ay;
    assert(-0x8000_0000_0000_0000 <= dot <= 0x8000_0000_0000_0000) by (nonlinear_arith)
        requires
            dot == ux * dx + uy * dy,
            -0x8000_0000 <= ux <= 0x8000_0000,
            -0x8000_0000 <= uy <= 0x8000_0000,
            -0x8000_0000 <= dx <= 0x8000_0000,
            -0x8000_0000 <= dy <= 0x8000_0000,
    ;
    assert(0 <= len <= 0x8000_0000_0000_0000) by (nonlinear_arith)
        requires
            len == dx * dx + dy * dy,
            -0x8000_0000 <= dx <= 0x8000_0000,
            -0x8000_0000 <= dy <= 0x8000_0000,
    ;
    lemma_scaled_bound(ax, len);
    lemma_scaled_bound(ay, len);
    lemma_scaled_bound(dx, dot);
    lemma_scaled_bound(dy, dot);
}

proof fn lemma_scaled_bound(c: int, v: int)
    requires
        -0x8000_0000 <= c <= 0x8000_0000,
        -0x8000_0000_0000_0000 <= v <= 0x8000_0000_0000_0000,
    ensures
        -0x8000_0000_0000_0000_0000_0000 <= c * v <= 0x8000_0000_0000_0000_0000_0000,
        -0x8000_0000_0000_0000_0000_0000 <= v * c <= 0x8000_0000_0000_0000_0000_0000,
{
    assert(-0x8000_0000_0000_0000_0000_0000 <= c * v <= 0x8000_0000_0000_0000_0000_0000)
        by (nonlinear_arith)
        requires
            -0x8000_0000 <= c <= 0x8000_0000,
            -0x8000_0000_0000_0000 <= v <= 0x8000_0000_0000_0000,
    ;
    assert(c * v == v * c) by (nonlinear_arith);
}

/// How far the projection lies from `p`, from `a` and from `b`, coordinate by coordinate.
proof fn lemma_projection_offsets(s: LineSegment, p: Point)
    ensures
        s.projection(p).0 - p.x * s.len_sq() == -s.dy() * s.cross_at(p),
        s.projection(p).1 - p.y * s.len_sq() == s.dx() * s.cross_at(p),
        s.projection(p).0 - s.a.x * s.len_sq() == s.dot_at(p) * s.dx(),
        s.projection(p).1 - s.a.y * s.len_sq() == s.dot_at(p) * s.dy(),
        s.projection(p).0 - s.b.x * s.len_sq() == (s.dot_at(p) - s.len_sq()) * s.dx(),
        s.projection(p).1 - s.b.y * s.len_sq() == (s.dot_at(p) - s.len_sq()) * s.dy(),
{
    let (ax, ay, bx, by, px, py) = (
        s.a.x as int,
        s.a.y as int,
        s.b.x as int,
        s.b.y as int,
        p.x as int,
        p.y as int,
    );
    let dx = bx - ax;
    let dy = by - ay;
    let ux = px - ax;
    let uy = py - ay;
    let len = dx * dx + dy * dy;
    let dot = ux * dx + uy * dy;
    let cr = ux * dy - uy * dx;
    assert(dot * dx - ux * len == -dy * cr) by (nonlinear_arith)
        requires
            len == dx * dx + dy * dy,
            dot == ux * dx + uy * dy,
            cr == ux * dy - uy * dx,
    ;
    assert(dot * dy - uy * len == dx * cr) by (nonlinear_arith)
        requires
            len == dx * dx + dy * dy,
            dot == ux * dx + uy * dy,
            cr == ux * dy - uy * dx,
    ;
    assert(ax * len - px * len == -(ux * len)) by (nonlinear_arith)
        requires ux == px - ax;
    assert(ay * len - py * len == -(uy * len)) by (nonlinear_arith)
        requires uy == py - ay;
    assert(ax * len - bx * len == -(dx * len)) by (nonlinear_arith)
        requires dx == bx - ax;
    assert(ay * len - by * len == -(dy * len)) by (nonlinear_arith)
        requires dy == by - ay;
    assert(dot * dx - dx * len == (dot - len) * dx) by (nonlinear_arith);
    assert(dot * dy - dy * len == (dot - len) * dy) by (nonlinear_arith);
    assert(ux * len == len * ux && uy * len == len * uy) by (nonlinear_arith);
    assert(s.len_sq() == len && s.dot_at(p) == dot && s.cross_at(p) == cr);
    assert(s.dx() == dx && s.dy() == dy);
    assert(s.projection(p).0 == ax * len + dot * dx);
    assert(s.projection(p).1 == ay * len + dot * dy);
    assert(-dy * cr == -s.dy() * s.cross_at(p));
}

/// For an integer point, the rational distance is the plain one.
proof fn lemma_integer_distance(q: Point, p: Point)
    ensures
        frac_distance((q.x as int, q.y as int, 1), p) == root(dist_sq(q, p) as nat),
{
    let ux = q.x - p.x * 1;
    let uy = q.y - p.y * 1;
    assert(ux * ux == (p.x - q.x) * (p.x - q.x)) by (nonlinear_arith)
        requires ux == q.x - p.x;
    assert(uy * uy == (p.y - q.y) * (p.y - q.y)) by (nonlinear_arith)
        requires uy == q.y - p.y;
    let sum = ux * ux + uy * uy;
    assert(p.x * 1 == p.x && p.y * 1 == p.y && 1int * 1int == 1);
    assert(sum / 1 == sum);
    assert(sum == dist_sq(q, p));
}

/// From `p` to its projection the squared distance is `cross² / |ab|²`.
proof fn lemma_projection_distance(s: LineSegment, p: Point)
    requires
        s.wf(),
    ensures
        frac_distance(s.projection(p), p) == root(
            ((s.cross_at(p) * s.cross_at(p)) / s.len_sq()) as nat,
        ),
{
    lemma_projection_offsets(s, p);
    lemma_len_positive(s);
    let (dx, dy, cr, len) = (s.dx(), s.dy(), s.cross_at(p), s.len_sq());
    let q = s.projection(p);
    let sum = (q.0 - p.x * q.2) * (q.0 - p.x * q.2) + (q.1 - p.y * q.2) * (q.1 - p.y * q.2);
    assert(sum == len * (cr * cr)) by (nonlinear_arith)
        requires
            q.0 - p.x * q.2 == -dy * cr,
            q.1 - p.y * q.2 == dx * cr,
            q.2 == len,
            len == dx * dx + dy * dy,
            sum == (q.0 - p.x * q.2) * (q.0 - p.x * q.2) + (q.1 - p.y * q.2) * (q.1 - p.y
                * q.2),
    ;
    assert(cr * cr >= 0) by (nonlinear_arith);
    vstd::arithmetic::div_mod::lemma_div_denominator(len * (cr * cr), len, len);
    vstd::arithmetic::div_mod::lemma_div_multiples_vanish(cr * cr, len);
    assert(sum / (q.2 * q.2) == (cr * cr) / len);
}

} // verus!
