//! Time-zone conversions, backed by the tz database that `chrono_tz` compiles in.
//!
//! Everything a zone computes is a function of its IANA name and the instant,
//! so the two directions of conversion are named by uninterpreted spec
//! functions over the name: the offset a zone applies at a UTC second, and
//! the unique UTC second showing a given wall-clock reading, when there is
//! exactly one. Wall-clock readings that a transition skips or duplicates
//! resolve to `None`.

use vstd::prelude::*;

use crate::civil;

verus! {

#[verifier::external_type_specification]
#[verifier::external_body]
pub struct ExTz(chrono_tz::Tz);

/// Offset east of UTC, in seconds, that the named zone applies at UTC second `t`.
pub uninterp spec fn zone_offset_at(tz: Seq<char>, t: int) -> int;

/// The unique UTC second whose wall clock in the named zone reads local second
/// count `l`, or `None` when a transition skips or duplicates that reading.
pub uninterp spec fn zone_resolve_local(tz: Seq<char>, l: int) -> Option<i64>;

/// Whether the tz database knows a zone by this name.
pub uninterp spec fn zone_name_known(name: Seq<char>) -> bool;

/// A time zone: a database handle remembered together with its IANA name,
/// which is all that contracts ever speak about.
pub struct Zone {
    tz: chrono_tz::Tz,
    name: String,
}

impl View for Zone {
    type V = Seq<char>;

    closed spec fn view(&self) -> Seq<char> {
        self.name@
    }
}

impl Zone {
    /// Relies on `chrono_tz`'s `FromStr` for `Tz`: the lookup succeeds exactly
    /// for the zone names in the database.
    #[verifier::external_body]
    pub fn from_name(name: &str) -> (r: Option<Zone>)
        ensures
            r is Some <==> zone_name_known(name@),
            r matches Some(z) ==> z@ == name@,
    {
        match name.parse::<chrono_tz::Tz>() {
            Ok(tz) => Some(Zone { tz, name: name.to_string() }),
            Err(_) => None,
        }
    }

    /// Relies on the `Tz::Europe__Rome` constant, whose name is "Europe/Rome".
    #[verifier::external_body]
    pub fn rome() -> (z: Zone)
        ensures
            z@ == "Europe/Rome"@,
    {
        Zone { tz: chrono_tz::Tz::Europe__Rome, name: "Europe/Rome".to_string() }
    }

    pub fn name(&self) -> (r: &String)
        ensures
            r@ == self@,
    {
        &self.name
    }

    pub fn duplicate(&self) -> (z: Zone)
        ensures
            z@ == self@,
    {
        Zone { tz: self.tz, name: self.name.clone() }
    }

    /// Relies on `Tz::offset_from_utc_datetime` and `Offset::fix`: the offset
    /// in effect at UTC second `t`; a `FixedOffset` is under one day in size.
    #[verifier::external_body]
    pub(crate) fn offset_at(&self, t: i64) -> (off: i32)
        requires
            0 <= t <= 300000000000,
        ensures
            off == zone_offset_at(self@, t as int),
            -86400 < off < 86400,
    {
        let dt = match chrono::DateTime::from_timestamp(t, 0) {
            Some(d) => d,
            None => return 0,
        };
        let off = chrono::TimeZone::offset_from_utc_datetime(&self.tz, &dt.naive_utc());
        chrono::Offset::fix(&off).local_minus_utc()
    }

    /// Relies on `Tz::from_local_datetime`: `Single` is returned exactly when
    /// one UTC instant shows this wall-clock reading, and then that instant
    /// carries the offset that maps it back, so `utc + offset == local`.
    #[verifier::external_body]
    pub(crate) fn resolve_local(&self, y: i64, mo: i64, d: i64, h: i64, mi: i64, s: i64) -> (r: Option<
        i64,
    >)
        requires
            civil::valid_date(y as int, mo as int, d as int),
            y <= civil::MAX_YEAR,
            0 <= h < 24,
            0 <= mi < 60,
            0 <= s < 60,
        ensures
            r == zone_resolve_local(
                self@,
                civil::civil_secs(y as int, mo as int, d as int, h as int, mi as int, s as int),
            ),
            r matches Some(u) ==> {
                let l = civil::civil_secs(
                    y as int,
                    mo as int,
                    d as int,
                    h as int,
                    mi as int,
                    s as int,
                );
                u + zone_offset_at(self@, u as int) == l && l - 86400 < u < l + 86400
            },
    {
        let nd = match chrono::NaiveDate::from_ymd_opt(y as i32, mo as u32, d as u32) {
            Some(x) => x,
            None => return None,
        };
        let ndt = match nd.and_hms_opt(h as u32, mi as u32, s as u32) {
            Some(x) => x,
            None => return None,
        };
        match chrono::TimeZone::from_local_datetime(&self.tz, &ndt) {
            chrono::LocalResult::Single(dt) => Some(dt.timestamp()),
            _ => None,
        }
    }
}

} // verus!
