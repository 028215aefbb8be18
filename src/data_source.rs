use vstd::prelude::*;

use crate::decimal::{decimal_u16, parse_u16};
use crate::geo_position::GeoPosition;

verus! {

/// A suburb as the boundary service lists it.
pub struct SuburbInfo {
    pub name: String,
    pub id: u16,
    pub postcode: u16,
    pub position: GeoPosition,
}

/// A suburb entry as the service lists it: the suburb code, then name,
/// postcode, latitude and longitude (in degrees) as text. `latitude` and
/// `longitude` hold the two coordinates read as numbers, in nanodegrees, or
/// `None` where the text is not a number.
pub struct SuburbEntry {
    pub code: String,
    pub fields: [String; 4],
    pub latitude: Option<i64>,
    pub longitude: Option<i64>,
}

/// Which field of a suburb entry could not be read, with its text.
#[derive(Debug, PartialEq, Eq)]
pub enum SuburbError {
    BadCode { code: String },
    BadPostcode { postcode: String },
    BadLatitude { latitude: String },
    BadLongitude { longitude: String },
}

/// The postcode field of a suburb the service lists without one.
pub open spec fn is_none_marker(s: Seq<char>) -> bool {
    s == seq!['N', 'o', 'n', 'e']
}

/// The entries that carry a postcode, in order.
pub open spec fn kept(entries: Seq<SuburbEntry>) -> Seq<SuburbEntry>
    decreases entries.len(),
{
    if entries.len() == 0 {
        Seq::empty()
    } else {
        let rest = kept(entries.drop_last());
        if is_none_marker(entries.last().fields@[1]@) {
            rest
        } else {
            rest.push(entries.last())
        }
    }
}

pub open spec fn latitude_of(e: SuburbEntry) -> Option<i64> {
    e.latitude
}

pub open spec fn longitude_of(e: SuburbEntry) -> Option<i64> {
    e.longitude
}

/// Every field of the entry reads: code and postcode as `u16`, latitude and
/// longitude as numbers.
pub open spec fn entry_parses(e: SuburbEntry) -> bool {
    decimal_u16(e.code@) is Some && decimal_u16(e.fields@[1]@) is Some && latitude_of(e) is Some
        && longitude_of(e) is Some
}

/// `info` holds what the entry says.
pub open spec fn suburb_from(info: SuburbInfo, e: SuburbEntry) -> bool {
    &&& info.name@ == e.fields@[0]@
    &&& decimal_u16(e.code@) == Some(info.id)
    &&& decimal_u16(e.fields@[1]@) == Some(info.postcode)
    &&& latitude_of(e) == Some(info.position.latitude)
    &&& longitude_of(e) == Some(info.position.longitude)
}

/// `err` names the first field of the entry that does not read.
pub open spec fn error_for(err: SuburbError, e: SuburbEntry) -> bool {
    if decimal_u16(e.code@) is None {
        err matches SuburbError::BadCode { code } && code@ == e.code@
    } else if decimal_u16(e.fields@[1]@) is None {
        err matches SuburbError::BadPostcode { postcode } && postcode@ == e.fields@[1]@
    } else if latitude_of(e) is None {
        err matches SuburbError::BadLatitude { latitude } && latitude@ == e.fields@[2]@
    } else {
        err matches SuburbError::BadLongitude { longitude } && longitude@ == e.fields@[3]@
    }
}

proof fn lemma_kept_prefix(s: Seq<SuburbEntry>, k: int)
    requires
        0 <= k <= s.len(),
    ensures
        kept(s.take(k)).len() <= kept(s).len(),
        forall|j: int| 0 <= j < kept(s.take(k)).len() ==> #[trigger] kept(s.take(k))[j] == kept(s)[j],
    decreases s.len(),
{
    if k < s.len() {
        let t = s.drop_last();
        assert(t.take(k) =~= s.take(k));
        lemma_kept_prefix(t, k);
    } else {
        assert(s.take(k) =~= s);
    }
}

fn is_none_text(s: &str) -> (r: bool)
    ensures
        r == is_none_marker(s@),
{
    if s.unicode_len() != 4 {
        return false;
    }
    let r = s.get_char(0) == 'N' && s.get_char(1) == 'o' && s.get_char(2) == 'n' && s.get_char(3)
        == 'e';
    proof {
        if r {
            assert(s@ =~= seq!['N', 'o', 'n', 'e']);
        }
    }
    r
}

/// Reads the suburb list, one entry per suburb code. Entries whose postcode is
/// `None` are left out; the first entry with a field that does not read
/// gives the error.
pub fn get_all_suburbs(raw_suburb_map: Vec<SuburbEntry>) -> (r: Result<
    Vec<SuburbInfo>,
    SuburbError,
>)
    ensures
        r is Ok <==> forall|j: int|
            0 <= j < kept(raw_suburb_map@).len() ==> entry_parses(#[trigger] kept(raw_suburb_map@)[j]),
        r is Ok ==> r->Ok_0@.len() == kept(raw_suburb_map@).len() && forall|j: int|
            0 <= j < r->Ok_0@.len() ==> suburb_from(
                #[trigger] r->Ok_0@[j],
                kept(raw_suburb_map@)[j],
            ),
        r is Err ==> exists|j: int|
            0 <= j < kept(raw_suburb_map@).len() && !entry_parses(
                #[trigger] kept(raw_suburb_map@)[j],
            ) && error_for(r->Err_0, kept(raw_suburb_map@)[j]) && forall|q: int|
                0 <= q < j ==> entry_parses(#[trigger] kept(raw_suburb_map@)[q]),
{
    let ghost all = raw_suburb_map@;
    let mut out: Vec<SuburbInfo> = Vec::new();
    let mut i: usize = 0;
    while i < raw_suburb_map.len()
        invariant
            all == raw_suburb_map@,
            0 <= i <= all.len(),
            out@.len() == kept(all.take(i as int)).len(),
            forall|j: int|
                0 <= j < out@.len() ==> suburb_from(#[trigger] out@[j], kept(all.take(i as int))[j]),
            forall|j: int|
                0 <= j < kept(all.take(i as int)).len() ==> entry_parses(
                    #[trigger] kept(all.take(i as int))[j],
                ),
        decreases all.len() - i,
    {
        let ghost before = kept(all.take(i as int));
        proof {
            assert(all.take(i + 1).drop_last() =~= all.take(i as int));
            assert(all.take(i + 1).last() == all[i as int]);
        }
        let entry = &raw_suburb_map[i];
        let fields = &entry.fields;
        if is_none_text(fields[1].as_str()) {
            i += 1;
            continue;
        }
        let ghost now = kept(all.take(i + 1));
        assert(now == before.push(all[i as int]));
        proof {
            lemma_kept_prefix(all, i + 1);
            assert(now[before.len() as int] == all[i as int]);
            assert forall|q: int| 0 <= q < before.len() implies entry_parses(#[trigger] kept(all)[q]) by {
                assert(now[q] == before[q]);
            }
        }
        let id = match parse_u16(entry.code.as_str()) {
            Some(v) => v,
            None => {
                let err = SuburbError::BadCode { code: entry.code.clone() };
                assert(error_for(err, kept(all)[before.len() as int]));
                return Err(err);
            },
        };
        let postcode = match parse_u16(fields[1].as_str()) {
            Some(v) => v,
            None => {
                let err = SuburbError::BadPostcode { postcode: fields[1].clone() };
                assert(error_for(err, kept(all)[before.len() as int]));
                return Err(err);
            },
        };
        let latitude = match entry.latitude {
            Some(v) => v,
            None => {
                return Err(SuburbError::BadLatitude { latitude: fields[2].clone() });
            },
        };
        let longitude = match entry.longitude {
            Some(v) => v,
            None => {
                return Err(SuburbError::BadLongitude { longitude: fields[3].clone() });
            },
        };
        out.push(
            SuburbInfo {
                name: fields[0].clone(),
                id,
                postcode,
                position: GeoPosition { latitude, longitude },
            },
        );
        i += 1;
    }
    proof {
        assert(all.take(all.len() as int) =~= all);
    }
    Ok(out)
}

} // verus!
