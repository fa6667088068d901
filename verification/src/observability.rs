//! Observability settings, and the calendar arithmetic of log timestamps.
use vstd::prelude::*;

use crate::text::str_to_string;

verus! {

/// Settings for logging.
#[derive(Clone, Debug)]
pub struct ObservabilityConfig {
    /// The service name used in log entries and log file names.
    pub service: String,
    /// Directory for log files; platform defaults apply when unset.
    pub log_dir: Option<std::path::PathBuf>,
}

impl ObservabilityConfig {
    /// Settings for the given service, with an optional log directory.
    pub fn from_env_with_overrides(service_name: &str, log_dir: Option<std::path::PathBuf>) -> (r: Self)
        ensures
            r.service@ == service_name@,
            r.log_dir == log_dir,
    {
        ObservabilityConfig { service: str_to_string(service_name), log_dir }
    }
}

/// The days-in-era position of a day count: days since 0000-03-01 split
/// into 400-year eras (146097 days each) and the day within the era.
pub open spec fn era_of(days: int) -> (int, int) {
    let z = days + 719468;
    let era = z / 146097;
    (era, z - era * 146097)
}

/// The year of era of a day of era.
pub open spec fn year_of_era(doe: int) -> int {
    (doe - doe / 1460 + doe / 36524 - doe / 146096) / 365
}

/// The proleptic Gregorian (year, month, day) of a count of days since
/// 1970-01-01 (negative before it), by the civil-from-days computation on
/// March-based years.
pub open spec fn civil_from_days(days: int) -> (int, int, int) {
    let (era, doe) = era_of(days);
    let yoe = year_of_era(doe);
    let y = yoe + era * 400;
    let doy = doe - (365 * yoe + yoe / 4 - yoe / 100);
    let mp = (5 * doy + 2) / 153;
    let d = doy - (153 * mp + 2) / 5 + 1;
    let m = if mp < 10 {
        mp + 3
    } else {
        mp - 9
    };
    (if m <= 2 {
        y + 1
    } else {
        y
    }, m, d)
}

/// The (year, month, day) of a count of days since 1970-01-01; the year is
/// cut to `i32`.
pub fn days_to_ymd(days: i64) -> (r: (i32, u32, u32))
    requires
        days <= i64::MAX - 719468,
    ensures
        r.0 == civil_from_days(days as int).0 as i32,
        r.1 == civil_from_days(days as int).1,
        r.2 == civil_from_days(days as int).2,
        1 <= r.1 <= 12,
        1 <= r.2 <= 31,
{
    let z: i64 = days + 719468;
    let era: i64 = if z >= 0 {
        z / 146097
    } else {
        let n: i64 = 146096 - z;
        -(n / 146097)
    };
    proof {
        assert(era == z / 146097) by (nonlinear_arith)
            requires
                z >= 0 ==> era == z / 146097,
                z < 0 ==> era == -((146096 - z) / 146097),
        ;
    }
    let doe: u32 = (z - era * 146097) as u32;
    proof {
        assert(0 <= z - era * 146097 < 146097) by (nonlinear_arith)
            requires
                era == z / 146097,
        ;
    }
    proof {
        assert(doe / 1460 <= doe) by (bit_vector);
    }
    let t: u32 = doe - doe / 1460 + doe / 36524 - doe / 146096;
    let yoe: u32 = t / 365;
    proof {
        assert(365 * yoe + yoe / 4 - yoe / 100 <= doe && yoe < 400) by (bit_vector)
            requires
                doe < 146097u32,
                t == doe - doe / 1460 + doe / 36524 - doe / 146096,
                yoe == t / 365,
        ;
    }
    let y: i64 = yoe as i64 + era * 400;
    let doy: u32 = doe - (365 * yoe + yoe / 4 - yoe / 100);
    proof {
        assert(doy <= 365) by (bit_vector)
            requires
                doe < 146097u32,
                t == doe - doe / 1460 + doe / 36524 - doe / 146096,
                yoe == t / 365,
                doy == doe - (365 * yoe + yoe / 4 - yoe / 100),
        ;
    }
    let q: u32 = 5 * doy + 2;
    let mp: u32 = q / 153;
    let back: u32 = 153 * mp + 2;
    proof {
        assert(mp <= 11 && back / 5 <= doy && doy - back / 5 <= 30) by (bit_vector)
            requires
                doy <= 365u32,
                q == 5 * doy + 2,
                mp == q / 153,
                back == 153 * mp + 2,
        ;
    }
    let d: u32 = doy - back / 5 + 1;
    let m: u32 = if mp < 10 {
        mp + 3
    } else {
        mp - 9
    };
    let y: i64 = if m <= 2 {
        y + 1
    } else {
        y
    };
    (y as i32, m, d)
}

} // verus!
