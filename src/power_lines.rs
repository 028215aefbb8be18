use vstd::prelude::*;

use crate::basic::Point;
use crate::decimal::{decimal_u16, parse_u16, text_equals};
use crate::error::GeometryError;
use crate::line::LineSegment;
use crate::polyline::{all_in_plane, chain_of, no_repeat, repeat_error, PolyLine};

verus! {

/// One run of a high-voltage line, with the identifier the service gives it.
pub struct HighVoltageLine {
    pub line: PolyLine,
    pub id: String,
}

/// What the contracts see of a line run: its identifier and its segments.
pub type LineView = (Seq<char>, Seq<LineSegment>);

impl HighVoltageLine {
    pub open spec fn view(self) -> LineView {
        (self.id@, self.line.segments())
    }
}

/// A line run as the service describes it, its positions already projected.
pub struct RawLine {
    pub id: String,
    pub kind: String,
    pub points: Vec<Point>,
}

/// Why a line run could not be read.
#[derive(Debug, PartialEq, Eq)]
pub enum LineError {
    /// The geometry is not a `LineString`.
    UnsupportedType { kind: String },
    /// No voltage is listed for the line.
    MissingVoltage { id: String },
    /// More than one voltage is listed for the line.
    MultipleVoltages { id: String },
    /// The voltage label is not a number of kilovolts.
    BadVoltage { label: String },
    /// The line's points do not form a chain.
    BadShape { id: String, error: GeometryError },
}

/// Lines grouped by voltage: each voltage once, in order of first appearance.
pub type VoltageGroups = Vec<(u16, Vec<HighVoltageLine>)>;

pub open spec fn lines_view(v: Seq<HighVoltageLine>) -> Seq<LineView> {
    v.map_values(|h: HighVoltageLine| h.view())
}

pub open spec fn groups_view(g: Seq<(u16, Vec<HighVoltageLine>)>) -> Seq<(u16, Seq<LineView>)> {
    g.map_values(|e: (u16, Vec<HighVoltageLine>)| (e.0, lines_view(e.1@)))
}

/// Index of the group for voltage `v`, or the number of groups when there is none.
pub open spec fn group_index(groups: Seq<(u16, Seq<LineView>)>, v: u16) -> int
    decreases groups.len(),
{
    if groups.len() == 0 {
        0
    } else if group_index(groups.drop_last(), v) < groups.len() - 1 {
        group_index(groups.drop_last(), v)
    } else if groups.last().0 == v {
        groups.len() - 1
    } else {
        groups.len() as int
    }
}

/// Appends `lines` to the group of voltage `v`, opening the group when there is none.
pub open spec fn extend_group(
    groups: Seq<(u16, Seq<LineView>)>,
    v: u16,
    lines: Seq<LineView>,
) -> Seq<(u16, Seq<LineView>)> {
    let k = group_index(groups, v);
    if k < groups.len() {
        groups.update(k, (v, groups[k].1 + lines))
    } else {
        groups.push((v, lines))
    }
}

/// The label with every `kV` taken out.
pub open spec fn without_kv(s: Seq<char>) -> Seq<char>
    decreases s.len(),
{
    if s.len() == 0 {
        s
    } else if s.len() >= 2 && s[0] == 'k' && s[1] == 'V' {
        without_kv(s.skip(2))
    } else {
        seq![s[0]] + without_kv(s.skip(1))
    }
}

/// Index of the first voltage entry for `id`, or the number of entries.
pub open spec fn voltage_index(vs: Seq<(String, Vec<String>)>, id: Seq<char>) -> int
    decreases vs.len(),
{
    if vs.len() == 0 {
        0
    } else if vs[0].0@ == id {
        0
    } else {
        1 + voltage_index(vs.skip(1), id)
    }
}

/// Each voltage has at most one group.
pub open spec fn unique_voltages(groups: Seq<(u16, Seq<LineView>)>) -> bool {
    forall|i: int, j: int|
        0 <= i < groups.len() && 0 <= j < groups.len() && i != j ==> #[trigger] groups[i].0
            != #[trigger] groups[j].0
}

/// Extending a group keeps each voltage in one group.
pub proof fn lemma_extend_group_unique(
    groups: Seq<(u16, Seq<LineView>)>,
    v: u16,
    lines: Seq<LineView>,
)
    requires
        unique_voltages(groups),
    ensures
        unique_voltages(extend_group(groups, v, lines)),
{
    lemma_group_index_bounds(groups, v);
    let k = group_index(groups, v);
    let g = extend_group(groups, v, lines);
    assert forall|i: int, j: int|
        0 <= i < g.len() && 0 <= j < g.len() && i != j implies #[trigger] g[i].0 != #[trigger] g[j].0 by {
        if k < groups.len() {
            assert(g[i].0 == groups[i].0 && g[j].0 == groups[j].0);
        } else {
            if i < groups.len() && j < groups.len() {
                assert(groups[i].0 != groups[j].0);
            }
        }
    }
}

/// Lines grouped by voltage have each voltage in one group.
pub proof fn lemma_grouped_unique(ls: Seq<RawLine>, vs: Seq<(String, Vec<String>)>)
    ensures
        unique_voltages(grouped(ls, vs)),
    decreases ls.len(),
{
    if ls.len() > 0 {
        lemma_grouped_unique(ls.drop_last(), vs);
        lemma_extend_group_unique(
            grouped(ls.drop_last(), vs),
            voltage_of(ls.last(), vs),
            seq![(ls.last().id@, chain_of(ls.last().points@))],
        );
    }
}

proof fn lemma_group_index_bounds(groups: Seq<(u16, Seq<LineView>)>, v: u16)
    ensures
        0 <= group_index(groups, v) <= groups.len(),
        group_index(groups, v) < groups.len() ==> groups[group_index(groups, v)].0 == v,
        forall|j: int| 0 <= j < group_index(groups, v) ==> #[trigger] groups[j].0 != v,
    decreases groups.len(),
{
    if groups.len() > 0 {
        let init = groups.drop_last();
        lemma_group_index_bounds(init, v);
        assert forall|j: int| 0 <= j < group_index(groups, v) implies #[trigger] groups[j].0 != v by {
            if j < groups.len() - 1 {
                assert(groups[j] == init[j]);
            }
        }
    }
}

proof fn lemma_group_index_unique(groups: Seq<(u16, Seq<LineView>)>, v: u16, k: int)
    requires
        0 <= k <= groups.len(),
        k < groups.len() ==> groups[k].0 == v,
        forall|j: int| 0 <= j < k ==> #[trigger] groups[j].0 != v,
    ensures
        group_index(groups, v) == k,
    decreases groups.len(),
{
    if groups.len() > 0 {
        if k < groups.len() {
            if k < groups.len() - 1 {
                lemma_group_index_unique(groups.drop_last(), v, k);
            } else {
                lemma_group_index_unique(groups.drop_last(), v, groups.len() - 1);
            }
        } else {
            lemma_group_index_unique(groups.drop_last(), v, groups.len() - 1);
        }
    }
}

/// Appends `lines` to the group of voltage `v` in `groups`.
pub fn extend_voltage_group(groups: &mut VoltageGroups, v: u16, lines: Vec<HighVoltageLine>)
    requires
        unique_voltages(groups_view(old(groups)@)),
    ensures
        unique_voltages(groups_view(final(groups)@)),
        groups_view(final(groups)@) == extend_group(groups_view(old(groups)@), v, lines_view(lines@)),
{
    proof {
        lemma_extend_group_unique(groups_view(groups@), v, lines_view(lines@));
    }
    let ghost before = groups_view(groups@);
    let mut k: usize = 0;
    while k < groups.len() && groups[k].0 != v
        invariant
            0 <= k <= groups@.len(),
            before == groups_view(groups@),
            forall|j: int| 0 <= j < k ==> #[trigger] groups@[j].0 != v,
        decreases groups@.len() - k,
    {
        k += 1;
    }
    proof {
        assert forall|j: int| 0 <= j < k implies #[trigger] before[j].0 != v by {
            assert(before[j].0 == groups@[j].0);
        }
        lemma_group_index_unique(before, v, k as int);
    }
    if k < groups.len() {
        let (key, mut existing) = groups.remove(k);
        let ghost old_inner = existing@;
        let ghost added = lines@;
        let mut rest = lines;
        existing.append(&mut rest);
        groups.insert(k, (key, existing));
        proof {
            assert(lines_view(old_inner + added) =~= lines_view(old_inner) + lines_view(added));
            assert(groups_view(groups@) =~= before.update(
                k as int,
                (v, lines_view(old_inner) + lines_view(added)),
            ));
        }
    } else {
        groups.push((v, lines));
        proof {
            assert(groups_view(groups@) =~= before.push((v, lines_view(lines@))));
        }
    }
}

/// Relies on `str::replace`: every `kV` of the label, from left to right, taken out.
#[verifier::external_body]
fn strip_kv(label: &str) -> (r: String)
    ensures
        r@ == without_kv(label@),
{
    label.replace("kV", "")
}

/// The first voltage entry listed for `id`.
fn find_voltage<'a>(voltages: &'a Vec<(String, Vec<String>)>, id: &str) -> (r: Option<&'a Vec<String>>)
    ensures
        voltage_index(voltages@, id@) < voltages@.len() <==> r is Some,
        r is Some ==> *r->Some_0 == voltages@[voltage_index(voltages@, id@)].1,
{
    let mut k: usize = 0;
    assert(voltages@.skip(0) =~= voltages@);
    while k < voltages.len()
        invariant
            0 <= k <= voltages@.len(),
            voltage_index(voltages@, id@) == k + voltage_index(voltages@.skip(k as int), id@),
        decreases voltages@.len() - k,
    {
        let ghost rest = voltages@.skip(k as int);
        assert(rest[0] == voltages@[k as int]);
        if text_equals(voltages[k].0.as_str(), id) {
            return Some(&voltages[k].1);
        }
        assert(rest.skip(1) =~= voltages@.skip(k + 1));
        k += 1;
    }
    None
}

pub open spec fn line_string(kind: Seq<char>) -> bool {
    kind == "LineString"@
}

/// The voltage label of a line, when exactly one is listed.
pub open spec fn label_of(l: RawLine, vs: Seq<(String, Vec<String>)>) -> Option<Seq<char>> {
    let k = voltage_index(vs, l.id@);
    if k < vs.len() && vs[k].1@.len() == 1 {
        Some(vs[k].1@[0]@)
    } else {
        None
    }
}

/// Every check on the line passes: a `LineString`, one voltage listed, a
/// number of kilovolts as its label, and a chain of at least two points.
pub open spec fn line_reads(l: RawLine, vs: Seq<(String, Vec<String>)>) -> bool {
    &&& line_string(l.kind@)
    &&& label_of(l, vs) is Some
    &&& decimal_u16(without_kv(label_of(l, vs)->Some_0)) is Some
    &&& l.points@.len() >= 2
    &&& no_repeat(l.points@)
}

pub open spec fn voltage_of(l: RawLine, vs: Seq<(String, Vec<String>)>) -> u16 {
    decimal_u16(without_kv(label_of(l, vs)->Some_0))->Some_0
}

/// `err` reports the first check on the line that fails.
pub open spec fn line_error_for(err: LineError, l: RawLine, vs: Seq<(String, Vec<String>)>) -> bool {
    let k = voltage_index(vs, l.id@);
    if !line_string(l.kind@) {
        err matches LineError::UnsupportedType { kind } && kind@ == l.kind@
    } else if k >= vs.len() || vs[k].1@.len() == 0 {
        err matches LineError::MissingVoltage { id } && id@ == l.id@
    } else if vs[k].1@.len() > 1 {
        err matches LineError::MultipleVoltages { id } && id@ == l.id@
    } else if decimal_u16(without_kv(vs[k].1@[0]@)) is None {
        err matches LineError::BadVoltage { label } && label@ == vs[k].1@[0]@
    } else {
        err matches LineError::BadShape { id, error } && id@ == l.id@ && if l.points@.len() < 2 {
            error == (GeometryError::InsufficientPoints { count: l.points@.len() as usize })
        } else {
            !no_repeat(l.points@) && repeat_error(l.points@, error)
        }
    }
}

/// The lines grouped by voltage, in the order they come.
pub open spec fn grouped(ls: Seq<RawLine>, vs: Seq<(String, Vec<String>)>) -> Seq<(u16, Seq<LineView>)>
    decreases ls.len(),
{
    if ls.len() == 0 {
        Seq::empty()
    } else {
        extend_group(
            grouped(ls.drop_last(), vs),
            voltage_of(ls.last(), vs),
            seq![(ls.last().id@, chain_of(ls.last().points@))],
        )
    }
}

/// Reads the line runs of a suburb and groups them by voltage. `voltages`
/// lists the voltage labels (such as `132kV`) per line identifier. The first
/// line that fails a check gives the error.
pub fn parse_high_voltage_lines(lines: Vec<RawLine>, voltages: &Vec<(String, Vec<String>)>) -> (r:
    Result<VoltageGroups, LineError>)
    requires
        forall|i: int| 0 <= i < lines@.len() ==> all_in_plane(#[trigger] lines@[i].points@),
    ensures
        r is Ok <==> forall|i: int| 0 <= i < lines@.len() ==> line_reads(#[trigger] lines@[i], voltages@),
        r is Ok ==> groups_view(r->Ok_0@) == grouped(lines@, voltages@) && unique_voltages(
            groups_view(r->Ok_0@),
        ),
        r is Err ==> exists|i: int|
            0 <= i < lines@.len() && !line_reads(#[trigger] lines@[i], voltages@) && line_error_for(
                r->Err_0,
                lines@[i],
                voltages@,
            ) && forall|j: int| 0 <= j < i ==> line_reads(#[trigger] lines@[j], voltages@),
{
    let ghost all = lines@;
    let mut rest = lines;
    let mut groups: VoltageGroups = Vec::new();
    let ghost mut i: int = 0;
    while rest.len() > 0
        invariant
            all == lines@,
            rest@ == all.skip(i),
            0 <= i <= all.len(),
            forall|q: int| 0 <= q < all.len() ==> all_in_plane(#[trigger] all[q].points@),
            forall|q: int| 0 <= q < i ==> line_reads(#[trigger] all[q], voltages@),
            groups_view(groups@) == grouped(all.take(i), voltages@),
        decreases rest@.len(),
    {
        let line = rest.remove(0);
        assert(line == all[i]);
        let ghost l = line;
        if !text_equals(line.kind.as_str(), "LineString") {
            let err = LineError::UnsupportedType { kind: line.kind };
            proof {
                assert(line_error_for(err, l, voltages@));
                assert(!line_reads(l, voltages@));
            }
            return Err(err);
        }
        let labels = match find_voltage(voltages, line.id.as_str()) {
            Some(labels) => labels,
            None => {
                let err = LineError::MissingVoltage { id: line.id };
            proof {
                assert(line_error_for(err, l, voltages@));
                assert(!line_reads(l, voltages@));
            }
            return Err(err);
            },
        };
        if labels.len() == 0 {
            let err = LineError::MissingVoltage { id: line.id };
            proof {
                assert(line_error_for(err, l, voltages@));
                assert(!line_reads(l, voltages@));
            }
            return Err(err);
        }
        if labels.len() > 1 {
            let err = LineError::MultipleVoltages { id: line.id };
            proof {
                assert(line_error_for(err, l, voltages@));
                assert(!line_reads(l, voltages@));
            }
            return Err(err);
        }
        let stripped = strip_kv(labels[0].as_str());
        let voltage = match parse_u16(stripped.as_str()) {
            Some(v) => v,
            None => {
                let err = LineError::BadVoltage { label: labels[0].clone() };
            proof {
                assert(line_error_for(err, l, voltages@));
                assert(!line_reads(l, voltages@));
            }
            return Err(err);
            },
        };
        let id = line.id;
        let polyline = match PolyLine::new(line.points) {
            Ok(p) => p,
            Err(e) => {
                let err = LineError::BadShape { id, error: e };
            proof {
                assert(line_error_for(err, l, voltages@));
                assert(!line_reads(l, voltages@));
            }
            return Err(err);
            },
        };
        let ghost view = (l.id@, chain_of(l.points@));
        let mut one: Vec<HighVoltageLine> = Vec::new();
        one.push(HighVoltageLine { line: polyline, id });
        proof {
            assert(lines_view(one@) =~= seq![view]);
            assert(all.take(i + 1).drop_last() =~= all.take(i));
            assert(all.take(i + 1).last() == l);
        }
        proof {
            lemma_grouped_unique(all.take(i), voltages@);
        }
        extend_voltage_group(&mut groups, voltage, one);
        proof {
            i = i + 1;
        }
        assert(rest@ =~= all.skip(i));
    }
    proof {
        assert(all.take(i) =~= all);
        lemma_grouped_unique(all, voltages@);
    }
    Ok(groups)
}

pub open spec fn ids_view(v: Seq<String>) -> Seq<Seq<char>> {
    v.map_values(|s: String| s@)
}

/// The lines whose identifier is not yet in `seen`, each identifier taken
/// once, and `seen` with the taken identifiers appended.
pub open spec fn fresh_lines(lines: Seq<LineView>, seen: Seq<Seq<char>>) -> (Seq<LineView>, Seq<Seq<char>>)
    decreases lines.len(),
{
    if lines.len() == 0 {
        (Seq::empty(), seen)
    } else {
        let (kept, now) = fresh_lines(lines.drop_last(), seen);
        let l = lines.last();
        if now.contains(l.0) {
            (kept, now)
        } else {
            (kept.push(l), now.push(l.0))
        }
    }
}

/// `acc` with the fresh lines of each group of `map`, in order, appended to
/// the group of the same voltage (a new group when there is none).
pub open spec fn merged(
    acc: Seq<(u16, Seq<LineView>)>,
    map: Seq<(u16, Seq<LineView>)>,
    seen: Seq<Seq<char>>,
) -> (Seq<(u16, Seq<LineView>)>, Seq<Seq<char>>)
    decreases map.len(),
{
    if map.len() == 0 {
        (acc, seen)
    } else {
        let (groups, now) = merged(acc, map.drop_last(), seen);
        let (kept, after) = fresh_lines(map.last().1, now);
        (extend_group(groups, map.last().0, kept), after)
    }
}

/// Merging keeps each voltage in one group.
pub proof fn lemma_merged_unique(
    acc: Seq<(u16, Seq<LineView>)>,
    map: Seq<(u16, Seq<LineView>)>,
    seen: Seq<Seq<char>>,
)
    requires
        unique_voltages(acc),
    ensures
        unique_voltages(merged(acc, map, seen).0),
    decreases map.len(),
{
    if map.len() > 0 {
        lemma_merged_unique(acc, map.drop_last(), seen);
        let (groups, now) = merged(acc, map.drop_last(), seen);
        let (kept, after) = fresh_lines(map.last().1, now);
        lemma_extend_group_unique(groups, map.last().0, kept);
    }
}

fn contains_id(ids: &Vec<String>, id: &String) -> (r: bool)
    ensures
        r == ids_view(ids@).contains(id@),
{
    let mut k: usize = 0;
    while k < ids.len()
        invariant
            0 <= k <= ids@.len(),
            forall|j: int| 0 <= j < k ==> ids@[j]@ != id@,
        decreases ids@.len() - k,
    {
        if text_equals(ids[k].as_str(), id.as_str()) {
            assert(ids_view(ids@)[k as int] == id@);
            return true;
        }
        k += 1;
    }
    assert forall|j: int| 0 <= j < ids_view(ids@).len() implies ids_view(ids@)[j] != id@ by {
        assert(ids_view(ids@)[j] == ids@[j]@);
    }
    false
}

/// Adds the line groups of `map` to `acc`, leaving out every line whose
/// identifier is in `cached_line_id`, and records the identifiers taken.
pub fn aggregate_high_voltage_lines(
    acc: VoltageGroups,
    map: VoltageGroups,
    cached_line_id: &mut Vec<String>,
) -> (r: VoltageGroups)
    requires
        unique_voltages(groups_view(acc@)),
    ensures
        unique_voltages(groups_view(r@)),
        (groups_view(r@), ids_view(final(cached_line_id)@)) == merged(
            groups_view(acc@),
            groups_view(map@),
            ids_view(old(cached_line_id)@),
        ),
{
    let ghost acc0 = groups_view(acc@);
    let ghost seen0 = ids_view(cached_line_id@);
    let ghost all = map@;
    let mut groups = acc;
    let mut rest = map;
    let ghost mut i: int = 0;
    while rest.len() > 0
        invariant
            all == map@,
            0 <= i <= all.len(),
            rest@ == all.skip(i),
            acc0 == groups_view(acc@),
            unique_voltages(acc0),
            seen0 == ids_view(old(cached_line_id)@),
            (groups_view(groups@), ids_view(cached_line_id@)) == merged(
                acc0,
                groups_view(all.take(i)),
                seen0,
            ),
        decreases rest@.len(),
    {
        let (voltage, lines) = rest.remove(0);
        assert((voltage, lines) == all[i]);
        let ghost line_all = lines@;
        let ghost seen_before = ids_view(cached_line_id@);
        let mut pending = lines;
        let mut kept: Vec<HighVoltageLine> = Vec::new();
        let ghost mut j: int = 0;
        assert(lines_view(line_all).take(0) =~= Seq::<LineView>::empty());
        while pending.len() > 0
            invariant
                0 <= j <= line_all.len(),
                pending@ == line_all.skip(j),
                (lines_view(kept@), ids_view(cached_line_id@)) == fresh_lines(
                    lines_view(line_all).take(j),
                    seen_before,
                ),
            decreases pending@.len(),
        {
            let line = pending.remove(0);
            assert(line == line_all[j]);
            let ghost lv = lines_view(line_all);
            proof {
                assert(lv.take(j + 1).drop_last() =~= lv.take(j));
                assert(lv.take(j + 1).last() == line.view());
            }
            if !contains_id(cached_line_id, &line.id) {
                let ghost before_ids = cached_line_id@;
                cached_line_id.push(line.id.clone());
                proof {
                    assert(ids_view(cached_line_id@) =~= ids_view(before_ids).push(line.id@));
                }
                let ghost before_kept = kept@;
                kept.push(line);
                proof {
                    assert(lines_view(kept@) =~= lines_view(before_kept).push(line.view()));
                }
            }
            proof {
                j = j + 1;
            }
            assert(pending@ =~= line_all.skip(j));
        }
        proof {
            lemma_merged_unique(acc0, groups_view(all.take(i)), seen0);
            assert(lines_view(line_all).take(j) =~= lines_view(line_all));
            assert(groups_view(all.take(i + 1)).drop_last() =~= groups_view(all.take(i)));
            assert(groups_view(all.take(i + 1)).last() == (voltage, lines_view(line_all)));
        }
        extend_voltage_group(&mut groups, voltage, kept);
        proof {
            i = i + 1;
        }
        assert(rest@ =~= all.skip(i));
    }
    proof {
        assert(all.take(i) =~= all);
        lemma_merged_unique(acc0, groups_view(all), seen0);
    }
    groups
}

} // verus!
