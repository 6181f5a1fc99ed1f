//! Instants, geographic (mean solar) time, and the `HH:MM:SS` face of a clock.
use crate::longitude::{Longitude, MAX_OFFSET_SECONDS, longitude_to_offset_seconds, lemma_offset_bounded, lemma_offset_zero};
use vstd::prelude::*;
use vstd::string::{StrSliceExecFns, StringExecFns};

verus! {

/// Seconds in a day.
pub const SECONDS_PER_DAY: i64 = 86400;

/// A moment in UTC: whole seconds since 1970-01-01T00:00:00Z and the nanoseconds
/// past that second. During a leap second the nanoseconds run past one second.
#[derive(Clone, Copy, Debug, PartialEq, Eq)]
pub struct Instant {
    pub secs: i64,
    pub nanos: u32,
}

impl Instant {
    pub open spec fn wf(&self) -> bool {
        self.nanos < 2_000_000_000
    }

    /// `self` comes strictly before `other`.
    pub open spec fn before(&self, other: Instant) -> bool {
        self.secs < other.secs || (self.secs == other.secs && self.nanos < other.nanos)
    }

    /// Midnight UTC plus the given hours, minutes and seconds, on 1970-01-01.
    pub fn at_hms(hour: u32, minute: u32, second: u32) -> (r: Instant)
        requires
            hour < 24,
            minute < 60,
            second < 60,
        ensures
            r.wf(),
            r.secs == hour * 3600 + minute * 60 + second,
            r.nanos == 0,
    {
        Instant { secs: (hour * 3600 + minute * 60 + second) as i64, nanos: 0 }
    }
}

/// The geographic time at a longitude: the UTC instant moved by the longitude's offset.
pub open spec fn geographic_spec(utc: Instant, lon: Longitude) -> Instant {
    Instant { secs: (utc.secs + lon.offset_spec()) as i64, nanos: utc.nanos }
}

/// The shifted instant can be held in an `i64` of seconds.
pub open spec fn geographic_fits(utc: Instant, lon: Longitude) -> bool {
    i64::MIN <= utc.secs + lon.offset_spec() <= i64::MAX
}

/// The mean solar time at `lon` for the UTC instant `utc`.
pub fn geographic_time(utc: Instant, lon: &Longitude) -> (r: Instant)
    requires
        utc.wf(),
        lon.wf(),
        geographic_fits(utc, *lon),
    ensures
        r.wf(),
        r == geographic_spec(utc, *lon),
{
    let offset = longitude_to_offset_seconds(lon);
    Instant { secs: utc.secs + offset, nanos: utc.nanos }
}

/// Every instant within a day less half a day of the ends of `i64` can be shifted.
pub proof fn lemma_geographic_fits(utc: Instant, lon: Longitude)
    requires
        lon.wf(),
        i64::MIN + MAX_OFFSET_SECONDS <= utc.secs <= i64::MAX - MAX_OFFSET_SECONDS,
    ensures
        geographic_fits(utc, lon),
{
    lemma_offset_bounded(lon);
}

/// Geographic time keeps the distance and the order between two UTC instants:
/// a later UTC instant gives a later geographic time, later by the same amount.
pub proof fn lemma_geographic_monotonic(a: Instant, b: Instant, lon: Longitude)
    requires
        lon.wf(),
        geographic_fits(a, lon),
        geographic_fits(b, lon),
    ensures
        geographic_spec(b, lon).secs - geographic_spec(a, lon).secs == b.secs - a.secs,
        geographic_spec(b, lon).nanos - geographic_spec(a, lon).nanos == b.nanos - a.nanos,
        a.before(b) <==> geographic_spec(a, lon).before(geographic_spec(b, lon)),
{
}

/// At the prime meridian geographic time is UTC itself.
pub proof fn lemma_geographic_prime_meridian(utc: Instant, lon: Longitude)
    requires
        lon.wf(),
        lon.mantissa == 0,
    ensures
        geographic_fits(utc, lon),
        geographic_spec(utc, lon) == utc,
{
    lemma_offset_zero(lon);
}

/// Geographic time lies exactly the longitude's offset ahead of the UTC instant it
/// came from, to the nanosecond.
pub proof fn lemma_geographic_offset(utc: Instant, lon: Longitude)
    requires
        lon.wf(),
        geographic_fits(utc, lon),
    ensures
        geographic_spec(utc, lon).secs - utc.secs == lon.offset_spec(),
        geographic_spec(utc, lon).nanos == utc.nanos,
{
}

/// The digit `d` as a character.
pub open spec fn digit_char(d: int) -> char {
    "0123456789"@[d]
}

/// `n` below 100 as two digits, with a leading zero.
pub open spec fn two_digits(n: int) -> Seq<char> {
    seq![digit_char(n / 10), digit_char(n % 10)]
}

/// Seconds since midnight on the wall clock that runs `offset` seconds ahead of UTC.
pub open spec fn seconds_of_day(t: Instant, offset: int) -> int {
    (t.secs + offset) % (SECONDS_PER_DAY as int)
}

/// The face `HH:MM:SS` of a 24-hour clock at `s` seconds past midnight.
pub open spec fn clock_text(s: int) -> Seq<char> {
    two_digits(s / 3600) + seq![':'] + two_digits((s % 3600) / 60) + seq![':'] + two_digits(
        s % 60,
    )
}

/// Appends `n` below 100 as two digits.
fn push_two_digits(out: &mut String, n: u32)
    requires
        n < 100,
    ensures
        final(out)@ == old(out)@ + two_digits(n as int),
{
    let digits = "0123456789";
    proof {
        reveal_strlit("0123456789");
    }
    let tens = (n / 10) as usize;
    let ones = (n % 10) as usize;
    out.append(digits.substring_ascii(tens, tens + 1));
    out.append(digits.substring_ascii(ones, ones + 1));
    assert(final(out)@ =~= old(out)@ + two_digits(n as int));
}

/// The clock face `HH:MM:SS` (24-hour, zero-padded, no fraction, no zone) of the
/// wall clock that runs `utc_offset` seconds ahead of UTC, at the instant `t`.
pub fn format_clock(t: Instant, utc_offset: i32) -> (r: String)
    ensures
        r@ == clock_text(seconds_of_day(t, utc_offset as int)),
        r@.len() == 8,
{
    let wall: i128 = t.secs as i128 + utc_offset as i128;
    let s: u32 = match wall.checked_rem_euclid(SECONDS_PER_DAY as i128) {
        Some(v) => v as u32,
        None => 0,
    };
    assert(s == seconds_of_day(t, utc_offset as int));
    let colon = ":";
    proof {
        reveal_strlit(":");
    }
    let mut r = String::new();
    push_two_digits(&mut r, s / 3600);
    r.append(colon);
    push_two_digits(&mut r, (s % 3600) / 60);
    r.append(colon);
    push_two_digits(&mut r, s % 60);
    assert(r@ =~= clock_text(s as int));
    r
}

} // verus!
