//! One reading of the three clocks, and the text of the panel that shows them.
use crate::clock::{Instant, clock_text, format_clock, geographic_spec, geographic_time, seconds_of_day, lemma_geographic_fits};
use crate::longitude::Longitude;
use vstd::prelude::*;
use vstd::string::{StrSliceExecFns, StringExecFns};

verus! {

/// A bound on the seconds of any instant that the clock can report: chrono
/// counts days in an `i32`, which keeps a timestamp well below `2^48` seconds.
pub const MAX_TIMESTAMP: i64 = 0x1_0000_0000_0000;

/// Where the viewer is: a longitude and, where known, the name of the place.
#[derive(Clone, Debug, PartialEq, Eq)]
pub struct Coordinate {
    pub longitude: Longitude,
    pub city: Option<String>,
}

/// The three clocks at one captured moment: UTC, the host's local zone (as its
/// offset from UTC at that moment) and geographic time.
#[derive(Clone, Copy, Debug, PartialEq, Eq)]
pub struct ClockSnapshot {
    pub utc: Instant,
    pub local_offset: i32,
    pub geographic: Instant,
}

/// Relies on chrono's `Local::now`, which reads the system clock once and converts
/// that UTC instant to the host's zone: `timestamp` and `timestamp_subsec_nanos`
/// give the UTC instant (days counted in an `i32`; a leap second keeps nanoseconds
/// below two seconds), `offset().local_minus_utc()` the zone's offset, which a
/// `FixedOffset` keeps strictly within a day.
#[verifier::external_body]
fn read_clock() -> (r: (Instant, i32))
    ensures
        r.0.wf(),
        -MAX_TIMESTAMP <= r.0.secs <= MAX_TIMESTAMP,
        -86400 < r.1 < 86400,
{
    let now = chrono::Local::now();
    let utc = Instant { secs: now.timestamp(), nanos: now.timestamp_subsec_nanos() };
    (utc, now.offset().local_minus_utc())
}

/// The snapshot of the UTC instant `utc`, for a host whose zone lies `local_offset`
/// seconds ahead of UTC at that instant.
pub fn snapshot_at(utc: Instant, local_offset: i32, lon: &Longitude) -> (r: ClockSnapshot)
    requires
        utc.wf(),
        lon.wf(),
        -MAX_TIMESTAMP <= utc.secs <= MAX_TIMESTAMP,
    ensures
        r.utc == utc,
        r.local_offset == local_offset,
        r.geographic == geographic_spec(utc, *lon),
        r.geographic.wf(),
{
    proof {
        lemma_geographic_fits(utc, *lon);
    }
    ClockSnapshot { utc, local_offset, geographic: geographic_time(utc, lon) }
}

/// Reads the clock once and derives the three clocks from that single instant.
pub fn make_snapshot(coordinate: &Coordinate) -> (r: ClockSnapshot)
    requires
        coordinate.longitude.wf(),
    ensures
        r.utc.wf(),
        -86400 < r.local_offset < 86400,
        r.geographic == geographic_spec(r.utc, coordinate.longitude),
{
    let (utc, local_offset) = read_clock();
    snapshot_at(utc, local_offset, &coordinate.longitude)
}

/// The text of one panel line: a clock face, a space and the clock's name.
pub open spec fn line_text(s: int, name: Seq<char>) -> Seq<char> {
    clock_text(s) + seq![' '] + name
}

fn labelled(face: String, label: &str) -> (r: String)
    ensures
        r@ == face@ + seq![' '] + label@,
{
    let space = " ";
    proof {
        reveal_strlit(" ");
    }
    let mut r = face;
    r.append(space);
    r.append(label);
    assert(r@ =~= face@ + seq![' '] + label@);
    r
}

/// The panel's three lines, in the fixed order UTC, Local, Geographic.
pub fn clock_lines(snap: &ClockSnapshot) -> (r: Vec<String>)
    ensures
        r@.len() == 3,
        r@[0]@ == line_text(seconds_of_day(snap.utc, 0), "UTC"@),
        r@[1]@ == line_text(seconds_of_day(snap.utc, snap.local_offset as int), "Local"@),
        r@[2]@ == line_text(seconds_of_day(snap.geographic, 0), "Geographic"@),
{
    let mut r: Vec<String> = Vec::new();
    r.push(labelled(format_clock(snap.utc, 0), "UTC"));
    r.push(labelled(format_clock(snap.utc, snap.local_offset), "Local"));
    r.push(labelled(format_clock(snap.geographic, 0), "Geographic"));
    r
}

/// The panel's title: ` city[latitude, longitude] `, with the numbers as given;
/// an unknown city leaves its place empty and an unknown latitude is left out
/// together with its comma.
pub open spec fn title_text(city: Option<Seq<char>>, latitude: Option<Seq<char>>, longitude: Seq<
    char,
>) -> Seq<char> {
    let place = match city {
        Some(c) => c,
        None => Seq::empty(),
    };
    let coordinates = match latitude {
        Some(l) => l + seq![',', ' '] + longitude,
        None => longitude,
    };
    seq![' '] + place + seq!['['] + coordinates + seq![']', ' ']
}

/// The title of the panel, as `title_text` gives it.
pub fn panel_title(city: Option<&str>, latitude: Option<&str>, longitude: &str) -> (r: String)
    ensures
        r@ == title_text(
            match city {
                Some(c) => Some(c@),
                None => None,
            },
            match latitude {
                Some(l) => Some(l@),
                None => None,
            },
            longitude@,
        ),
{
    proof {
        reveal_strlit(" ");
        reveal_strlit("[");
        reveal_strlit(", ");
        reveal_strlit("] ");
    }
    let mut r = String::from_str(" ");
    if let Some(c) = city {
        r.append(c);
    }
    r.append("[");
    if let Some(l) = latitude {
        r.append(l);
        r.append(", ");
    }
    r.append(longitude);
    r.append("] ");
    let ghost place = match city {
        Some(c) => c@,
        None => Seq::<char>::empty(),
    };
    let ghost coordinates = match latitude {
        Some(l) => l@ + seq![',', ' '] + longitude@,
        None => longitude@,
    };
    assert(r@ =~= seq![' '] + place + seq!['['] + coordinates + seq![']', ' ']);
    r
}

/// The length of the longest line, 0 for none.
pub open spec fn widest(lines: Seq<Seq<char>>) -> nat
    decreases lines.len(),
{
    if lines.len() == 0 {
        0
    } else {
        let rest = widest(lines.drop_last());
        let last = lines.last().len();
        if last > rest {
            last
        } else {
            rest
        }
    }
}

/// The width, in characters, that the panel's lines need: that of the longest.
pub fn panel_width(lines: &Vec<String>) -> (r: usize)
    ensures
        r == widest(lines@.map_values(|l: String| l@)),
{
    let mut width: usize = 0;
    let mut i: usize = 0;
    while i < lines.len()
        invariant
            i <= lines@.len(),
            width == widest(lines@.subrange(0, i as int).map_values(|l: String| l@)),
        decreases lines@.len() - i,
    {
        let len = lines[i].as_str().unicode_len();
        assert(lines@.subrange(0, i + 1).map_values(|l: String| l@).drop_last() =~= lines@.subrange(
            0,
            i as int,
        ).map_values(|l: String| l@));
        if len > width {
            width = len;
        }
        i = i + 1;
    }
    assert(lines@.subrange(0, i as int) =~= lines@);
    width
}

} // verus!
