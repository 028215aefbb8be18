use vstd::prelude::*;

use crate::basic::{distance, Point};
use crate::data_source::SuburbInfo;
use crate::polyline::min_distance;
use crate::power_lines::{HighVoltageLine, VoltageGroups};

verus! {

/// The suburbs whose location lies strictly within `range` of `place`, in order.
pub open spec fn nearby(s: Seq<(SuburbInfo, Point)>, place: Point, range: int) -> Seq<SuburbInfo>
    decreases s.len(),
{
    if s.len() == 0 {
        Seq::empty()
    } else {
        let rest = nearby(s.drop_last(), place, range);
        if distance(s.last().1, place) < range {
            rest.push(s.last().0)
        } else {
            rest
        }
    }
}

/// Keeps the suburbs, given with their projected locations, that lie
/// strictly closer than `range` to `place`.
pub fn filter_suburb(place: &Point, suburbs: Vec<(SuburbInfo, Point)>, range: u64) -> (r: Vec<
    SuburbInfo,
>)
    requires
        place.in_plane(),
        forall|i: int| 0 <= i < suburbs@.len() ==> (#[trigger] suburbs@[i]).1.in_plane(),
    ensures
        r@ == nearby(suburbs@, *place, range as int),
{
    let ghost all = suburbs@;
    let mut rest = suburbs;
    let mut out: Vec<SuburbInfo> = Vec::new();
    let ghost mut i: int = 0;
    while rest.len() > 0
        invariant
            place.in_plane(),
            forall|q: int| 0 <= q < all.len() ==> (#[trigger] all[q]).1.in_plane(),
            0 <= i <= all.len(),
            rest@ == all.skip(i),
            out@ == nearby(all.take(i), *place, range as int),
        decreases rest@.len(),
    {
        let (info, location) = rest.remove(0);
        assert((info, location) == all[i]);
        proof {
            assert(all.take(i + 1).drop_last() =~= all.take(i));
            assert(all.take(i + 1).last() == all[i]);
        }
        if location.distance_to(place) < range {
            out.push(info);
        }
        proof {
            i = i + 1;
        }
        assert(rest@ =~= all.skip(i));
    }
    proof {
        assert(all.take(i) =~= all);
    }
    out
}

pub open spec fn widen(o: Option<u64>) -> Option<nat> {
    match o {
        Some(d) => Some(d as nat),
        None => None,
    }
}

/// The smallest distance from `p` to any of `lines`, or `None` for no line.
pub open spec fn nearest_line(lines: Seq<HighVoltageLine>, p: Point) -> Option<nat>
    decreases lines.len(),
{
    if lines.len() == 0 {
        None
    } else {
        let d = min_distance(lines.last().line.segments(), p);
        match nearest_line(lines.drop_last(), p) {
            Some(m) => Some(if d < m { d } else { m }),
            None => Some(d),
        }
    }
}

/// For each voltage group, the smallest distance from `place` to any of its lines.
pub fn voltage_distances(groups: &VoltageGroups, place: &Point) -> (r: Vec<(u16, Option<u64>)>)
    requires
        place.in_plane(),
    ensures
        r@.len() == groups@.len(),
        forall|g: int|
            0 <= g < groups@.len() ==> (#[trigger] r@[g]).0 == groups@[g].0 && widen(r@[g].1) == nearest_line(groups@[g].1@, *place),
{
    let mut out: Vec<(u16, Option<u64>)> = Vec::new();
    let mut g: usize = 0;
    while g < groups.len()
        invariant
            place.in_plane(),
            0 <= g <= groups@.len(),
            out@.len() == g,
            forall|a: int|
                0 <= a < g ==> (#[trigger] out@[a]).0 == groups@[a].0 && widen(out@[a].1) == nearest_line(groups@[a].1@, *place),
        decreases groups@.len() - g,
    {
        let lines = &groups[g].1;
        let mut best: Option<u64> = None;
        let mut l: usize = 0;
        assert(lines@.take(0) =~= Seq::<HighVoltageLine>::empty());
        while l < lines.len()
            invariant
                place.in_plane(),
                *lines == groups@[g as int].1,
                0 <= l <= lines@.len(),
                widen(best) == nearest_line(lines@.take(l as int), *place),
            decreases lines@.len() - l,
        {
            let d = lines[l].line.distance_to(place);
            proof {
                assert(lines@.take(l + 1).drop_last() =~= lines@.take(l as int));
                assert(lines@.take(l + 1).last() == lines@[l as int]);
            }
            best = match best {
                Some(m) => Some(if d < m { d } else { m }),
                None => Some(d),
            };
            l += 1;
        }
        proof {
            assert(lines@.take(l as int) =~= lines@);
        }
        out.push((groups[g].0, best));
        g += 1;
    }
    out
}

/// Entry `k` is reported: it has a distance, and it is nearer than every
/// entry of a higher voltage.
pub open spec fn reported(ds: Seq<(u16, Option<u64>)>, k: int) -> bool {
    &&& ds[k].1 is Some
    &&& forall|j: int|
        0 <= j < ds.len() && ds[j].0 > ds[k].0 && ds[j].1 is Some ==> ds[k].1->Some_0
            < #[trigger] ds[j].1->Some_0
}

/// The reported entries among the first `n`, in order.
pub open spec fn report_prefix(ds: Seq<(u16, Option<u64>)>, n: int) -> Seq<(u16, u64)>
    decreases n,
{
    if n <= 0 {
        Seq::empty()
    } else {
        let r = report_prefix(ds, n - 1);
        if reported(ds, n - 1) {
            r.push((ds[n - 1].0, ds[n - 1].1->Some_0))
        } else {
            r
        }
    }
}

/// The voltages worth reporting: walking from the highest voltage down, each
/// one whose lines come nearer than those of every higher voltage.
pub fn lines_to_report(distances: &Vec<(u16, Option<u64>)>) -> (r: Vec<(u16, u64)>)
    ensures
        r@ == report_prefix(distances@, distances@.len() as int),
{
    let ghost ds = distances@;
    let mut out: Vec<(u16, u64)> = Vec::new();
    let mut k: usize = 0;
    while k < distances.len()
        invariant
            ds == distances@,
            0 <= k <= ds.len(),
            out@ == report_prefix(ds, k as int),
        decreases ds.len() - k,
    {
        if let Some(d) = distances[k].1 {
            let v = distances[k].0;
            let mut nearest = true;
            let mut j: usize = 0;
            while j < distances.len()
                invariant
                    ds == distances@,
                    0 <= k < ds.len(),
                    ds[k as int].1 == Some(d),
                    ds[k as int].0 == v,
                    0 <= j <= ds.len(),
                    nearest == forall|q: int|
                        0 <= q < j && ds[q].0 > v && ds[q].1 is Some ==> d < #[trigger] ds[q].1->Some_0,
                decreases ds.len() - j,
            {
                if distances[j].0 > v {
                    if let Some(e) = distances[j].1 {
                        if d >= e {
                            nearest = false;
                        }
                    }
                }
                j += 1;
            }
            assert(nearest == reported(ds, k as int));
            if nearest {
                out.push((v, d));
            }
        }
        k += 1;
    }
    out
}

} // verus!
