use geoclock::clock::{geographic_time, Instant};
use geoclock::layout::{panel_area, Area};
use geoclock::longitude::{longitude_to_offset_seconds, Longitude};
use geoclock::snapshot::{clock_lines, make_snapshot, panel_title, panel_width, snapshot_at, ClockSnapshot, Coordinate};

fn lon(degrees: f64) -> Longitude {
    Longitude::from_f64_bits(degrees.to_bits()).unwrap()
}

#[test]
fn snapshot_derives_all_clocks_from_one_instant() {
    let utc = Instant { secs: 1_709_302_062, nanos: 5 };
    let l = lon(90.0);
    let snap = snapshot_at(utc, -18000, &l);
    assert_eq!(snap.utc, utc);
    assert_eq!(snap.local_offset, -18000);
    assert_eq!(snap.geographic, geographic_time(utc, &l));
    assert_eq!(snap.geographic.secs - snap.utc.secs, 21600);
}

#[test]
fn live_snapshot_is_consistent() {
    let coordinate = Coordinate { longitude: lon(-45.0), city: Some(String::from("Somewhere")) };
    let snap = make_snapshot(&coordinate);
    assert_eq!(snap.geographic.secs - snap.utc.secs, longitude_to_offset_seconds(&coordinate.longitude));
    assert_eq!(snap.geographic.nanos, snap.utc.nanos);
    assert!(snap.local_offset.abs() < 86400);
    assert!(snap.utc.nanos < 2_000_000_000);
    // The clock reads some time after 2020.
    assert!(snap.utc.secs > 1_577_836_800);
}

#[test]
fn lines_are_utc_local_geographic() {
    let snap = ClockSnapshot {
        utc: Instant::at_hms(12, 0, 0),
        local_offset: 2 * 3600,
        geographic: Instant::at_hms(9, 0, 0),
    };
    assert_eq!(clock_lines(&snap), vec!["12:00:00 UTC", "14:00:00 Local", "09:00:00 Geographic"]);
}

#[test]
fn lines_of_a_scenario() {
    let snap = snapshot_at(Instant::at_hms(0, 0, 0), 0, &lon(90.0));
    let lines = clock_lines(&snap);
    assert_eq!(lines[0], "00:00:00 UTC");
    assert_eq!(lines[1], "00:00:00 Local");
    assert_eq!(lines[2], "06:00:00 Geographic");
}

#[test]
fn title_holds_city_and_coordinates() {
    assert_eq!(panel_title(Some("Berlin"), Some("52.52"), "13.405"), " Berlin[52.52, 13.405] ");
    assert_eq!(panel_title(Some(""), Some("0"), "0"), " [0, 0] ");
}

#[test]
fn title_without_city_or_latitude() {
    assert_eq!(panel_title(None, Some("52.52"), "13.405"), " [52.52, 13.405] ");
    assert_eq!(panel_title(Some("Berlin"), None, "13.405"), " Berlin[13.405] ");
    assert_eq!(panel_title(None, None, "-45"), " [-45] ");
}

#[test]
fn width_is_that_of_the_longest_line() {
    let lines = vec![String::from("ab"), String::from("abcde"), String::from("abc")];
    assert_eq!(panel_width(&lines), 5);
    assert_eq!(panel_width(&Vec::new()), 0);
    let snap = snapshot_at(Instant::at_hms(1, 2, 3), 0, &lon(1.0));
    assert_eq!(panel_width(&clock_lines(&snap)), 19);
}

#[test]
fn panel_is_centred() {
    let area = Area { x: 0, y: 0, width: 80, height: 24 };
    let snap = snapshot_at(Instant::at_hms(1, 2, 3), 0, &lon(1.0));
    let r = panel_area(area, &clock_lines(&snap));
    assert_ne!(r, area);
    assert_eq!(r.width, 19);
    assert_eq!(r.height, 3);
    assert!(r.x == 30 || r.x == 31, "x = {}", r.x);
    assert!(r.y == 10 || r.y == 11, "y = {}", r.y);
}

#[test]
fn panel_in_an_offset_area() {
    let area = Area { x: 10, y: 5, width: 41, height: 13 };
    let lines = vec![String::from("x"); 3];
    let r = panel_area(area, &lines);
    assert_eq!(r.width, 1);
    assert_eq!(r.height, 3);
    assert_eq!(r.x, 30);
    assert_eq!(r.y, 10);
}
