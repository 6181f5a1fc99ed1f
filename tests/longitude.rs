use geoclock::longitude::{longitude_to_offset_seconds, Longitude};

fn lon(degrees: f64) -> Longitude {
    Longitude::from_f64_bits(degrees.to_bits()).unwrap()
}

fn offset(degrees: f64) -> i64 {
    longitude_to_offset_seconds(&lon(degrees))
}

#[test]
fn offset_east_quarter_turn() {
    assert_eq!(offset(90.0), 21600);
}

#[test]
fn offset_west_eighth_turn() {
    assert_eq!(offset(-45.0), -10800);
}

#[test]
fn offset_at_the_antimeridian() {
    assert_eq!(offset(180.0), 43200);
    assert_eq!(offset(-180.0), -43200);
}

#[test]
fn offset_at_the_prime_meridian() {
    assert_eq!(offset(0.0), 0);
    assert_eq!(offset(-0.0), 0);
}

#[test]
fn offset_truncates_toward_zero() {
    // 12.34 degrees is 2961.6 seconds; -12.34 is -2961.6.
    assert_eq!(offset(12.34), 2961);
    assert_eq!(offset(-12.34), -2961);
    // 0.004 degrees is 0.96 seconds.
    assert_eq!(offset(0.004), 0);
    assert_eq!(offset(-0.004), 0);
    assert_eq!(offset(0.5), 120);
    assert_eq!(offset(1.0 / 240.0 * 7.0 + 0.0001), 7);
}

#[test]
fn offset_matches_cast_of_product() {
    let samples = [
        -179.99, -151.2093, -73.9857, -0.1278, 2.3522, 13.4050, 37.6173, 77.2090, 139.6917,
        151.2093, 179.999,
    ];
    for d in samples {
        assert_eq!(offset(d), (d * 240.0) as i64, "longitude {}", d);
        assert!(offset(d).abs() <= 43200);
    }
}

#[test]
fn from_f64_bits_refuses_non_finite_and_out_of_range() {
    assert!(Longitude::from_f64_bits(f64::NAN.to_bits()).is_none());
    assert!(Longitude::from_f64_bits(f64::INFINITY.to_bits()).is_none());
    assert!(Longitude::from_f64_bits(f64::NEG_INFINITY.to_bits()).is_none());
    assert!(Longitude::from_f64_bits(180.5f64.to_bits()).is_none());
    assert!(Longitude::from_f64_bits((-180.000001f64).to_bits()).is_none());
    assert!(Longitude::from_f64_bits(1e300f64.to_bits()).is_none());
    assert!(Longitude::from_f64_bits(4503599627370496.0f64.to_bits()).is_none());
}

#[test]
fn from_f64_bits_is_exact() {
    assert_eq!(lon(90.0), Longitude { mantissa: 0x16_8000_0000_0000, shift: 46 });
    assert_eq!(lon(-45.0), Longitude { mantissa: -0x16_8000_0000_0000, shift: 47 });
    assert_eq!(lon(0.0), Longitude { mantissa: 0, shift: 1074 });
    assert_eq!(lon(f64::from_bits(1)), Longitude { mantissa: 1, shift: 1074 });
    assert_eq!(offset(f64::from_bits(1)), 0);
}

#[test]
fn whole_degrees() {
    assert_eq!(Longitude::from_degrees(-45), Some(Longitude { mantissa: -45, shift: 0 }));
    assert_eq!(longitude_to_offset_seconds(&Longitude::from_degrees(90).unwrap()), 21600);
    assert!(Longitude::from_degrees(181).is_none());
    assert!(Longitude::from_degrees(-181).is_none());
}

#[test]
fn dyadic_longitudes() {
    // 361 / 2 = 180.5 degrees is out of range; 359 / 2 = 179.5 is in.
    assert!(Longitude::new(361, 1).is_none());
    let l = Longitude::new(-359, 1).unwrap();
    assert_eq!(longitude_to_offset_seconds(&l), -43080);
    // 1 / 2^70 degrees is far below a second.
    assert_eq!(longitude_to_offset_seconds(&Longitude::new(1, 70).unwrap()), 0);
    // A mantissa past 2^53 is refused.
    assert!(Longitude::new(1 << 53, 60).is_none());
}

#[test]
fn offset_follows_the_double_product() {
    // The double 0.3 lies just below 0.3, but 0.3 * 240.0 rounds to exactly 72.0.
    assert_eq!(0.3f64 * 240.0, 72.0);
    assert_eq!(offset(0.3), 72);
    assert_eq!(offset(-0.3), -72);
    // The double nearest 1/240 lies below it, but its product with 240 is exactly 1.0.
    let one_step = f64::from_bits(0x3F71_1111_1111_1111);
    assert_eq!(one_step * 240.0, 1.0);
    assert_eq!(offset(one_step), 1);
    assert_eq!(offset(-one_step), -1);
}

#[test]
fn offset_agrees_with_cast_of_product_on_four_decimals() {
    let mut i: i64 = -1_800_000;
    while i <= 1_800_000 {
        let d = i as f64 / 10_000.0;
        let expected = (d * 240.0) as i64;
        assert_eq!(offset(d), expected, "longitude {}", d);
        i += 1;
    }
}
