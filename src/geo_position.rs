use vstd::prelude::*;

use crate::basic::{Point, MAX_COORD};

verus! {

/// Mean Earth radius, in millimetres.
pub const EARTH_RADIUS_MM: i128 = 6371071000;

/// Pi, scaled by 10^15.
pub const PI_E15: i128 = 3141592653589793;

/// 180 degrees in nanodegrees, times the scale of `PI_E15`.
pub const ARC_DENOM: i128 = 180000000000000000000000000;

/// Scale of a cosine given as an integer: `1.0` is `COS_SCALE`.
pub const COS_SCALE: i128 = 1000000000;

/// 90 degrees, in nanodegrees.
pub const MAX_LATITUDE: i64 = 90000000000;

/// 180 degrees, in nanodegrees.
pub const MAX_LONGITUDE: i64 = 180000000000;

/// A geodetic position, latitude and longitude in nanodegrees.
#[derive(Clone, Copy, Debug, PartialEq, Eq, Structural)]
pub struct GeoPosition {
    pub latitude: i64,
    pub longitude: i64,
}

/// Length in millimetres of the arc of a great circle spanning `delta` nanodegrees, rounded down.
pub open spec fn arc_mm(delta: int) -> int {
    (EARTH_RADIUS_MM * delta * PI_E15) / (ARC_DENOM as int)
}

/// East offset of `pos` from `origin`: the arc of the longitude difference,
/// foreshortened by the cosine of `pos`'s own latitude, rounded down.
pub open spec fn projected_x(pos: GeoPosition, origin: GeoPosition, cos_latitude: int) -> int {
    (arc_mm(pos.longitude - origin.longitude) * cos_latitude) / (COS_SCALE as int)
}

/// North offset of `pos` from `origin`: the arc of the latitude difference.
pub open spec fn projected_y(pos: GeoPosition, origin: GeoPosition) -> int {
    arc_mm(pos.latitude - origin.latitude)
}

impl GeoPosition {
    pub open spec fn valid(self) -> bool {
        -MAX_LATITUDE <= self.latitude <= MAX_LATITUDE && -MAX_LONGITUDE <= self.longitude
            <= MAX_LONGITUDE
    }

    /// Projects the position onto the plane tangent at `origin`, in millimetres,
    /// given the cosine of its own latitude scaled by `COS_SCALE`. `None` when
    /// the projected point lies beyond the plane's range.
    pub fn to_cartesian(&self, origin: &GeoPosition, cos_latitude: i64) -> (r: Option<Point>)
        requires
            self.valid(),
            origin.valid(),
            0 <= cos_latitude <= COS_SCALE,
        ensures
            r is Some <==> (-MAX_COORD <= projected_x(*self, *origin, cos_latitude as int)
                <= MAX_COORD && -MAX_COORD <= projected_y(*self, *origin) <= MAX_COORD),
            r is Some ==> r->Some_0.x == projected_x(*self, *origin, cos_latitude as int)
                && r->Some_0.y == projected_y(*self, *origin),
    {
        let dlat = self.latitude as i128 - origin.latitude as i128;
        let dlon = self.longitude as i128 - origin.longitude as i128;
        let y = arc(dlat);
        let along = arc(dlon);
        assert(-0x1_0000_0000_0000_0000_0000 <= along * (cos_latitude as i128)
            <= 0x1_0000_0000_0000_0000_0000) by (nonlinear_arith)
            requires
                -0x10_0000_0000 <= along <= 0x10_0000_0000,
                0 <= cos_latitude <= 1000000000,
        ;
        let x = match (along * cos_latitude as i128).checked_div_euclid(COS_SCALE) {
            Some(q) => q,
            None => 0,
        };
        if -(MAX_COORD as i128) <= x && x <= MAX_COORD as i128 && -(MAX_COORD as i128) <= y && y
            <= MAX_COORD as i128 {
            Some(Point { x: x as i64, y: y as i64 })
        } else {
            None
        }
    }
}

/// The arc for a difference of at most a full turn.
fn arc(delta: i128) -> (r: i128)
    requires
        -360000000000 <= delta <= 360000000000,
    ensures
        r == arc_mm(delta as int),
        -0x10_0000_0000 <= r <= 0x10_0000_0000,
{
    let ghost big = EARTH_RADIUS_MM * delta * PI_E15;
    assert(-0x1000_0000_0000_0000_0000_0000_0000_0000 <= 6371071000 * delta * 3141592653589793
        <= 0x1000_0000_0000_0000_0000_0000_0000_0000) by (nonlinear_arith)
        requires -360000000000 <= delta <= 360000000000;
    assert(big == 6371071000 * delta * 3141592653589793);
    let n = EARTH_RADIUS_MM * delta * PI_E15;
    match n.checked_div_euclid(ARC_DENOM) {
        Some(q) => q,
        None => 0,
    }
}

/// For a position on the origin's parallel, the north offset is zero and the
/// east offset is the arc of the longitude difference times the cosine, to
/// within two millimetres below the exact value.
pub proof fn lemma_same_latitude_projection(pos: GeoPosition, origin: GeoPosition, cos_latitude: int)
    requires
        pos.valid(),
        origin.valid(),
        pos.latitude == origin.latitude,
        0 <= cos_latitude <= COS_SCALE,
    ensures
        projected_y(pos, origin) == 0,
        ARC_DENOM * COS_SCALE * projected_x(pos, origin, cos_latitude) <= EARTH_RADIUS_MM * (
        pos.longitude - origin.longitude) * PI_E15 * cos_latitude,
        EARTH_RADIUS_MM * (pos.longitude - origin.longitude) * PI_E15 * cos_latitude < ARC_DENOM
            * COS_SCALE * (projected_x(pos, origin, cos_latitude) + 2),
{
    assert(EARTH_RADIUS_MM * 0 * PI_E15 == 0);
    let big = EARTH_RADIUS_MM * (pos.longitude - origin.longitude) * PI_E15;
    let d = ARC_DENOM as int;
    let s = COS_SCALE as int;
    let c = cos_latitude;
    let a = big / d;
    let x = (a * c) / s;
    vstd::arithmetic::div_mod::lemma_fundamental_div_mod(big, d);
    vstd::arithmetic::div_mod::lemma_fundamental_div_mod(a * c, s);
    assert(d * a <= big < d * (a + 1));
    assert(s * x <= a * c < s * (x + 1));
    assert(d * s * x <= big * c < d * s * (x + 2)) by (nonlinear_arith)
        requires
            d > 0,
            s > 0,
            0 <= c <= s,
            d * a <= big < d * (a + 1),
            s * x <= a * c < s * (x + 1),
    ;
}

} // verus!
