//! Time zones and local time, over the zone tables of `chrono_tz`.

use crate::calendar;
use crate::calendar::{instant, local_day, DAY, EPOCH_DAY, MAX_DAY, MAX_TIME, MIN_DAY, MIN_TIME};
use chrono::{Offset, TimeZone};
use vstd::prelude::*;

verus! {

/// Whether `chrono_tz` has a zone of that name.
pub uninterp spec fn zone_known(name: Seq<char>) -> bool;

/// The offset from UTC, in seconds, that `chrono_tz` gives for a zone at an instant.
pub uninterp spec fn zone_offset(name: Seq<char>, t: int) -> int;

/// The instants at which the wall clock of a zone shows `local`, as `chrono_tz` finds them: none
/// in a gap, two where the reading is ambiguous.
pub uninterp spec fn local_instants(name: Seq<char>, local: int) -> Seq<int>;

/// `str::parse` for `chrono_tz::Tz`: whether the name is one of a zone. `UTC` is.
#[verifier::external_body]
fn is_zone(name: &str) -> (r: bool)
    ensures
        r == zone_known(name@),
        name@ == "UTC"@ ==> r,
{
    name.parse::<chrono_tz::Tz>().is_ok()
}

/// `chrono::TimeZone::offset_from_utc_datetime` of `chrono_tz::Tz`: the zone's offset from UTC at
/// an instant. It is less than a day either way, and none for `UTC`.
#[verifier::external_body]
fn offset_at(name: &str, t: i64) -> (r: i64)
    requires
        zone_known(name@),
        calendar::representable(t as int),
    ensures
        r == zone_offset(name@, t as int),
        -DAY < r < DAY,
        name@ == "UTC"@ ==> r == 0,
{
    let zone: chrono_tz::Tz = name.parse().unwrap();
    let utc = chrono::DateTime::from_timestamp(t, 0).unwrap().naive_utc();
    zone.offset_from_utc_datetime(&utc).fix().local_minus_utc() as i64
}

/// `chrono::TimeZone::from_local_datetime` of `chrono_tz::Tz`: the instants at which the zone's
/// wall clock shows `local`, the earlier one first. Each of them, moved by the zone's offset at
/// that instant, gives the reading back.
#[verifier::external_body]
fn instants_of(name: &str, local: i64) -> (r: Vec<i64>)
    requires
        zone_known(name@),
        calendar::representable(local as int),
    ensures
        r@.map_values(|t: i64| t as int) == local_instants(name@, local as int),
        r@.len() <= 2,
        r@.len() == 2 ==> r@[0] < r@[1],
        forall|i: int|
            0 <= i < r@.len() ==> #[trigger] r@[i] + zone_offset(name@, r@[i] as int) == local
                && calendar::representable(r@[i] as int),
{
    let zone: chrono_tz::Tz = name.parse().unwrap();
    let reading = chrono::DateTime::from_timestamp(local, 0).unwrap().naive_utc();
    match zone.from_local_datetime(&reading) {
        chrono::LocalResult::None => Vec::new(),
        chrono::LocalResult::Single(t) => vec![t.timestamp()],
        chrono::LocalResult::Ambiguous(a, b) => vec![a.timestamp(), b.timestamp()],
    }
}

/// A time zone known to `chrono_tz`.
#[derive(Debug)]
pub struct Tz {
    name: String,
}

impl View for Tz {
    type V = Seq<char>;

    /// The zone's name.
    closed spec fn view(&self) -> Seq<char> {
        self.name@
    }
}

/// The instant that a stored timestamp stands for: itself, or the epoch where it cannot be
/// represented.
pub open spec fn utc(ts: int) -> int {
    if calendar::representable(ts) {
        ts
    } else {
        0
    }
}

/// The wall-clock reading of a zone at a stored timestamp.
pub open spec fn local_time(zone: Seq<char>, ts: int) -> int {
    utc(ts) + zone_offset(zone, utc(ts))
}

/// The date on a zone's wall calendar at a stored timestamp. A date that cannot be represented
/// falls back to that of the epoch.
pub open spec fn date_at(zone: Seq<char>, ts: int) -> int {
    let local = local_time(zone, ts);
    if calendar::representable(local) {
        calendar::day_of(local)
    } else {
        calendar::day_of(zone_offset(zone, 0))
    }
}

/// The wall-clock reading at minute `minute` of a date.
pub open spec fn reading(day: int, minute: int) -> int {
    (day - EPOCH_DAY) * 86400 + minute * 60
}

/// The first minute of the date, not before `minute`, that the zone's wall clock shows; a full
/// day's count of minutes where there is none.
pub open spec fn first_shown(zone: Seq<char>, day: int, minute: int) -> int
    decreases 1440 - minute,
{
    if minute >= 1440 || local_instants(zone, reading(day, minute)).len() > 0 {
        minute
    } else {
        first_shown(zone, day, minute + 1)
    }
}

/// The instant at which a date starts in a zone: the earliest instant of the first minute that
/// its wall clock shows on that date, or midnight UTC where it shows none.
pub open spec fn date_start(zone: Seq<char>, day: int) -> int {
    let minute = first_shown(zone, day, 0);
    if minute < 1440 {
        local_instants(zone, reading(day, minute))[0]
    } else {
        reading(day, 0)
    }
}

impl Tz {
    #[verifier::type_invariant]
    spec fn known(self) -> bool {
        zone_known(self.name@)
    }

    /// The zone's name.
    pub fn name(&self) -> (r: &str)
        ensures
            r@ == self@,
    {
        self.name.as_str()
    }

    /// The zone's offset from UTC at an instant.
    pub fn offset(&self, t: i64) -> (r: i64)
        requires
            calendar::representable(t as int),
        ensures
            r == zone_offset(self@, t as int),
            -DAY < r < DAY,
            self@ == "UTC"@ ==> r == 0,
    {
        proof {
            use_type_invariant(self);
        }
        offset_at(self.name.as_str(), t)
    }

    /// The wall-clock reading at a stored timestamp.
    pub fn local(&self, ts: i64) -> (r: i64)
        ensures
            r == local_time(self@, ts as int),
            calendar::shown(r as int),
            0 <= ts ==> -DAY < r,
    {
        let t: i64 = ts_to_utc(ts);
        t + self.offset(t)
    }

    /// The date at a stored timestamp.
    pub fn date(&self, ts: i64) -> (r: i64)
        ensures
            r == date_at(self@, ts as int),
            calendar::day_in_range(r as int),
            0 <= ts ==> EPOCH_DAY - 1 <= r,
    {
        let local: i64 = self.local(ts);
        if MIN_TIME <= local && local <= MAX_TIME {
            local_day(local)
        } else {
            local_day(self.offset(0))
        }
    }
}

/// The zone of a name, or `None` where none such is known.
pub fn find_tz(name: &str) -> (r: Option<Tz>)
    ensures
        r is Some == zone_known(name@),
        r is Some ==> r->0@ == name@,
{
    if is_zone(name) {
        Some(Tz { name: name.to_owned() })
    } else {
        None
    }
}

/// The zone of a name; `UTC` where no name is given or none such is known.
pub fn resolve_tz(tz_name: Option<&str>) -> (r: Tz)
    ensures
        r@ == (match tz_name {
            Some(name) => if zone_known(name@) {
                name@
            } else {
                "UTC"@
            },
            None => "UTC"@,
        }),
{
    if let Some(name) = tz_name {
        if let Some(tz) = find_tz(name) {
            return tz;
        }
    }
    let utc = "UTC";
    let known = is_zone(utc);
    assert(known);
    Tz { name: utc.to_owned() }
}

/// The instant of a stored timestamp. One that cannot be represented falls back to the epoch.
pub fn ts_to_utc(ts: i64) -> (r: i64)
    ensures
        r == utc(ts as int),
        calendar::representable(r as int),
{
    match instant(ts) {
        Some(t) => t,
        None => 0,
    }
}

/// The instant at which a date starts in a zone. A local midnight that does not exist advances to
/// the first minute of the day that does; an ambiguous one is the earlier instant.
pub fn local_date_start(date: i64, tz: &Tz) -> (r: i64)
    requires
        MIN_DAY <= date <= MAX_DAY,
    ensures
        r == date_start(tz@, date as int),
        calendar::representable(r as int),
        first_shown(tz@, date as int, 0) < 1440 ==> date_at(tz@, r as int) == date,
        first_shown(tz@, date as int, 0) < 1440 && local_instants(
            tz@,
            reading(date as int, first_shown(tz@, date as int, 0)),
        ).len() == 2 ==> r < local_instants(
            tz@,
            reading(date as int, first_shown(tz@, date as int, 0)),
        )[1],
{
    proof {
        use_type_invariant(tz);
    }
    let midnight: i64 = (date - EPOCH_DAY) * DAY;
    let mut minute: i64 = 0;
    while minute < 1440
        invariant
            MIN_DAY <= date <= MAX_DAY,
            midnight == (date - EPOCH_DAY) * DAY,
            0 <= minute <= 1440,
            zone_known(tz.name@),
            first_shown(tz@, date as int, 0) == first_shown(tz@, date as int, minute as int),
        decreases 1440 - minute,
    {
        let local: i64 = midnight + minute * 60;
        let found = instants_of(tz.name.as_str(), local);
        if found.len() > 0 {
            proof {
                let named = local_instants(tz@, local as int);
                assert(named[0] == found@[0]);
                assert(named.len() == 2 ==> named[1] == found@[1]);
            }
            return found[0];
        }
        minute = minute + 1;
    }
    midnight
}

} // verus!
