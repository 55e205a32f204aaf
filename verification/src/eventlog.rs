//! Provenance plumbing: ISO-8601 timestamps computed straight from the
//! Unix clock with the Gregorian calendar, run identifiers, and the
//! per-machine event log path.  No date library is involved; the
//! conversion is spelled out and proved here.

use vstd::prelude::*;

use crate::strutil::{dec2, dec4, hex_str_fixed, push_dec2, push_dec4, push_hex_fixed, str_to_string};

verus! {

/// A Gregorian leap year: divisible by 4 and not by 100, or by 400.
pub open spec fn leap_year(y: int) -> bool {
    (y % 4 == 0 && y % 100 != 0) || y % 400 == 0
}

/// A year is a leap year exactly when it is divisible by 4 and not by
/// 100, or divisible by 400.
pub fn is_leap(y: i64) -> (r: bool)
    requires
        y >= 0,
    ensures
        r == leap_year(y as int),
{
    (y % 4 == 0 && y % 100 != 0) || y % 400 == 0
}

/// Days in a year.
pub open spec fn year_days(y: int) -> int {
    if leap_year(y) {
        366
    } else {
        365
    }
}

/// Walk years forward from `y` until the remaining day count falls inside
/// one; yields the year and the zero-based day within it.
pub open spec fn find_year(y: int, rem: int) -> (int, int)
    decreases rem when rem >= 0
{
    if rem < year_days(y) {
        (y, rem)
    } else {
        find_year(y + 1, rem - year_days(y))
    }
}

/// Month and one-based day for a zero-based day of the year.
pub open spec fn month_day(leap: bool, rem: int) -> (int, int) {
    let feb: int = if leap {
        29
    } else {
        28
    };
    if rem < 31 {
        (1, rem + 1)
    } else if rem < 31 + feb {
        (2, rem - 31 + 1)
    } else if rem < 62 + feb {
        (3, rem - 31 - feb + 1)
    } else if rem < 92 + feb {
        (4, rem - 62 - feb + 1)
    } else if rem < 123 + feb {
        (5, rem - 92 - feb + 1)
    } else if rem < 153 + feb {
        (6, rem - 123 - feb + 1)
    } else if rem < 184 + feb {
        (7, rem - 153 - feb + 1)
    } else if rem < 215 + feb {
        (8, rem - 184 - feb + 1)
    } else if rem < 245 + feb {
        (9, rem - 215 - feb + 1)
    } else if rem < 276 + feb {
        (10, rem - 245 - feb + 1)
    } else if rem < 306 + feb {
        (11, rem - 276 - feb + 1)
    } else {
        (12, rem - 306 - feb + 1)
    }
}

/// The ISO-8601 UTC timestamp text for a Unix second count.
pub open spec fn timestamp_str(secs: nat) -> Seq<char> {
    let days = secs / 86400;
    let tod = secs % 86400;
    let yd = find_year(1970, days as int);
    let md = month_day(leap_year(yd.0), yd.1);
    dec4(yd.0 as nat) + seq!['-'] + dec2(md.0 as nat) + seq!['-'] + dec2(md.1 as nat) + seq!['T']
        + dec2((tod / 3600) as nat) + seq![':'] + dec2(((tod % 3600) / 60) as nat) + seq![':']
        + dec2((tod % 60) as nat) + seq!['Z']
}

/// Render a Unix second count as `YYYY-MM-DDThh:mm:ssZ`.
pub fn format_timestamp(secs: u64) -> (r: String)
    ensures
        r@ == timestamp_str(secs as nat),
{
    let days: u64 = secs / 86400;
    let tod: u64 = secs % 86400;
    let hours: u64 = tod / 3600;
    let minutes: u64 = (tod % 3600) / 60;
    let seconds: u64 = tod % 60;

    let mut y: u64 = 1970;
    let mut remaining: u64 = days;
    proof {
        assert(days <= u64::MAX / 86400) by (nonlinear_arith)
            requires
                days == secs / 86400,
                secs <= u64::MAX,
        ;
    }
    loop
        invariant
            1970 <= y,
            days <= u64::MAX / 86400,
            remaining <= days,
            y - 1970 <= days - remaining,
            find_year(1970, days as int) == find_year(y as int, remaining as int),
        ensures
            1970 <= y,
            y <= 1970 + days,
            find_year(1970, days as int) == find_year(y as int, remaining as int),
            remaining < year_days(y as int),
        decreases remaining,
    {
        proof {
            assert(y <= 1970 + days);
        }
        let yd: u64 = if is_leap(y as i64) {
            366
        } else {
            365
        };
        if remaining < yd {
            break ;
        }
        remaining = remaining - yd;
        y = y + 1;
    }
    let ghost yd_pair = find_year(1970, days as int);
    proof {
        assert(yd_pair.0 == y as int && yd_pair.1 == remaining as int);
    }
    let leap = is_leap(y as i64);
    let feb: u64 = if leap {
        29
    } else {
        28
    };
    let m: u64;
    let d: u64;
    if remaining < 31 {
        m = 1;
        d = remaining + 1;
    } else if remaining < 31 + feb {
        m = 2;
        d = remaining - 31 + 1;
    } else if remaining < 62 + feb {
        m = 3;
        d = remaining - 31 - feb + 1;
    } else if remaining < 92 + feb {
        m = 4;
        d = remaining - 62 - feb + 1;
    } else if remaining < 123 + feb {
        m = 5;
        d = remaining - 92 - feb + 1;
    } else if remaining < 153 + feb {
        m = 6;
        d = remaining - 123 - feb + 1;
    } else if remaining < 184 + feb {
        m = 7;
        d = remaining - 153 - feb + 1;
    } else if remaining < 215 + feb {
        m = 8;
        d = remaining - 184 - feb + 1;
    } else if remaining < 245 + feb {
        m = 9;
        d = remaining - 215 - feb + 1;
    } else if remaining < 276 + feb {
        m = 10;
        d = remaining - 245 - feb + 1;
    } else if remaining < 306 + feb {
        m = 11;
        d = remaining - 276 - feb + 1;
    } else {
        m = 12;
        d = remaining - 306 - feb + 1;
    }
    proof {
        assert(month_day(leap_year(y as int), remaining as int).0 == m as int);
        assert(month_day(leap_year(y as int), remaining as int).1 == d as int);
    }

    let mut out = String::new();
    push_dec4(&mut out, y);
    out.push('-');
    push_dec2(&mut out, m);
    out.push('-');
    push_dec2(&mut out, d);
    out.push('T');
    push_dec2(&mut out, hours);
    out.push(':');
    push_dec2(&mut out, minutes);
    out.push(':');
    push_dec2(&mut out, seconds);
    out.push('Z');
    proof {
        assert(out@ =~= timestamp_str(secs as nat));
    }
    out
}

/// Relies on std's system clock: whole seconds since the Unix epoch.
/// What it returns depends on the moment of the call, so nothing more is
/// promised of it.
#[verifier::external_body]
fn unix_now_secs() -> u64 {
    std::time::SystemTime::now().duration_since(std::time::UNIX_EPOCH).unwrap_or_default().as_secs()
}

/// Relies on std's system clock: nanoseconds since the Unix epoch.
/// What it returns depends on the moment of the call, so nothing more is
/// promised of it.
#[verifier::external_body]
fn unix_now_nanos() -> u128 {
    std::time::SystemTime::now()
        .duration_since(std::time::UNIX_EPOCH)
        .unwrap_or_default()
        .as_nanos()
}

/// The current time as an ISO-8601 UTC timestamp.  Whatever the clock
/// returned, the result is the well-formed rendering of some second count.
pub fn now_iso8601() -> (r: String)
    ensures
        exists|secs: nat| r@ == timestamp_str(secs),
{
    let secs = unix_now_secs();
    let r = format_timestamp(secs);
    proof {
        assert(r@ == timestamp_str(secs as nat));
    }
    r
}

/// A run identifier: `r-` followed by twelve lowercase hex digits drawn
/// from the low 48 bits of the clock's nanosecond count.
pub fn generate_run_id() -> (r: String)
    ensures
        r@.len() == 14,
        r@.take(2) == "r-"@,
        forall|i: int| 2 <= i < 14 ==> crate::hashes::is_hex_char(#[trigger] r@[i]),
{
    let nanos = unix_now_nanos();
    let low: u64 = (nanos % 0x1_0000_0000_0000) as u64;
    let mut out = str_to_string("r-");
    proof {
        reveal_strlit("r-");
    }
    push_hex_fixed(&mut out, low, 12);
    proof {
        lemma_hex_fixed_props(low as nat, 12);
        assert(out@.take(2) =~= "r-"@);
    }
    out
}

/// Fixed-width hex renderings have their width, in hex characters.
pub proof fn lemma_hex_fixed_props(n: nat, w: nat)
    ensures
        hex_str_fixed(n, w).len() == w,
        forall|i: int|
            0 <= i < w ==> crate::hashes::is_hex_char(#[trigger] hex_str_fixed(n, w)[i]),
    decreases w,
{
    if w > 0 {
        lemma_hex_fixed_props(n / 16, (w - 1) as nat);
    }
}

/// The event log lives beside the lock: `<state_dir>/<machine>/events.jsonl`.
pub fn event_log_path(state_dir: &str, machine: &str) -> (r: String)
    ensures
        r@ == state_dir@ + seq!['/'] + machine@ + "/events.jsonl"@,
{
    let mut out = str_to_string(state_dir);
    out.push('/');
    out.append(machine);
    out.append("/events.jsonl");
    out
}

} // verus!
