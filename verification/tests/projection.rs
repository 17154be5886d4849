use relay_map::projection::{
    project, push_hundredths, push_tenths, Degrees, PixelPoint, CANVAS_HEIGHT, CANVAS_WIDTH,
    MICRO_PER_DEGREE, UNITS_PER_PIXEL,
};
use relay_map::text::{decimal_string, push_decimal, push_padded_digits};

fn tenths(units: i128) -> String {
    let mut s = String::new();
    push_tenths(&mut s, units);
    s
}

fn hundredths(units: i128) -> String {
    let mut s = String::new();
    push_hundredths(&mut s, units);
    s
}

#[test]
fn corners_and_centre_of_the_canvas() {
    assert_eq!(
        project(Degrees::from_whole(-180), Degrees::from_whole(90)),
        PixelPoint::from_pixels(0, 0)
    );
    assert_eq!(
        project(Degrees::from_whole(180), Degrees::from_whole(-90)),
        PixelPoint::from_pixels(1200, 600)
    );
    assert_eq!(
        project(Degrees::from_whole(0), Degrees::from_whole(0)),
        PixelPoint::from_pixels(600, 300)
    );
}

#[test]
fn canvas_constants() {
    assert_eq!(CANVAS_WIDTH, 1200);
    assert_eq!(CANVAS_HEIGHT, 600);
    assert_eq!(MICRO_PER_DEGREE, 1_000_000);
    assert_eq!(UNITS_PER_PIXEL, 300_000);
    assert_eq!(PixelPoint::from_pixels(1, 2), PixelPoint { x: 300_000, y: 600_000 });
    assert_eq!(Degrees::from_whole(-7), Degrees::from_micro(-7_000_000));
    assert_eq!(Degrees::from_micro(12).micro, 12);
}

#[test]
fn projection_is_a_shift_in_exact_units() {
    let p = project(Degrees::from_micro(1), Degrees::from_micro(-1));
    assert_eq!(p, PixelPoint { x: 180_000_001, y: 90_000_001 });
    let q = project(Degrees::from_micro(10_500_000), Degrees::from_micro(45_250_000));
    assert_eq!(q, PixelPoint { x: 190_500_000, y: 44_750_000 });
}

#[test]
fn positions_off_the_canvas_are_not_clamped() {
    let p = project(Degrees::from_whole(540), Degrees::from_whole(-270));
    assert_eq!(p, PixelPoint::from_pixels(2400, 1200));
    let q = project(Degrees::from_whole(-360), Degrees::from_whole(180));
    assert_eq!(q, PixelPoint::from_pixels(-600, -300));
    assert_eq!(tenths(q.x), "-600.0");
    assert_eq!(hundredths(q.y), "-300.00");
}

#[test]
fn extreme_angles_do_not_overflow() {
    let p = project(Degrees::from_micro(i64::MAX), Degrees::from_micro(i64::MIN));
    assert_eq!(p.x, i64::MAX as i128 + 180_000_000);
    assert_eq!(p.y, 90_000_000 - i64::MIN as i128);
    assert_eq!(tenths(p.x), "30744573456782.6");
    let from_whole = project(Degrees::from_whole(i32::MAX), Degrees::from_whole(i32::MIN));
    assert_eq!(from_whole.x, i32::MAX as i128 * 1_000_000 + 180_000_000);
    assert_eq!(from_whole.y, 90_000_000 - i32::MIN as i128 * 1_000_000);
}

#[test]
fn whole_pixels_are_written_with_zeros() {
    assert_eq!(tenths(0), "0.0");
    assert_eq!(hundredths(0), "0.00");
    assert_eq!(tenths(360_000_000), "1200.0");
    assert_eq!(hundredths(360_000_000), "1200.00");
    assert_eq!(tenths(750_000), "2.5");
    assert_eq!(tenths(450_000), "1.5");
}

#[test]
fn thirds_of_a_pixel_round_to_the_nearest_decimal() {
    // 633.333... pixels and 266.666... pixels
    assert_eq!(hundredths(190_000_000), "633.33");
    assert_eq!(hundredths(80_000_000), "266.67");
    assert_eq!(tenths(190_000_000), "633.3");
    assert_eq!(tenths(80_000_000), "266.7");
}

#[test]
fn ties_round_to_the_even_digit() {
    // 0.005 px, 0.015 px, 0.025 px
    assert_eq!(hundredths(1_500), "0.00");
    assert_eq!(hundredths(4_500), "0.02");
    assert_eq!(hundredths(7_500), "0.02");
    // 0.05 px, 0.15 px, 0.25 px
    assert_eq!(tenths(15_000), "0.0");
    assert_eq!(tenths(45_000), "0.2");
    assert_eq!(tenths(75_000), "0.2");
    // just below and just above a tie
    assert_eq!(hundredths(1_499), "0.00");
    assert_eq!(hundredths(1_501), "0.01");
    assert_eq!(tenths(14_999), "0.0");
    assert_eq!(tenths(15_001), "0.1");
}

#[test]
fn rounding_carries_into_the_whole_part() {
    assert_eq!(tenths(299_999), "1.0");
    assert_eq!(hundredths(299_999), "1.00");
    assert_eq!(hundredths(2_999_999), "10.00");
    assert_eq!(tenths(29_985_000), "100.0");
}

#[test]
fn negative_positions_keep_their_sign() {
    assert_eq!(tenths(-300_000), "-1.0");
    assert_eq!(hundredths(-190_000_000), "-633.33");
    assert_eq!(hundredths(-1), "-0.00");
    assert_eq!(tenths(-1), "-0.0");
    assert_eq!(hundredths(-4_500), "-0.02");
}

#[test]
fn the_widest_positions_are_written() {
    assert_eq!(
        tenths(i128::MAX),
        "567137278201564105772291012386280.4"
    );
    assert_eq!(
        hundredths(i128::MIN),
        "-567137278201564105772291012386280.35"
    );
}

#[test]
fn appending_keeps_what_was_there() {
    let mut s = String::from("x=");
    push_tenths(&mut s, 300_000);
    s.push(';');
    push_hundredths(&mut s, 600_000);
    assert_eq!(s, "x=1.0;2.00");
}

#[test]
fn whole_degrees_agree_with_floating_point() {
    for lon in -180..=180 {
        let p = project(Degrees::from_whole(lon), Degrees::from_whole(0));
        let x = (lon as f64 + 180.0) / 360.0 * 1200.0;
        assert_eq!(hundredths(p.x), format!("{x:.2}"), "longitude {lon}");
        assert_eq!(tenths(p.x), format!("{x:.1}"), "longitude {lon}");
    }
    for lat in -90..=90 {
        let p = project(Degrees::from_whole(0), Degrees::from_whole(lat));
        let y = (90.0 - lat as f64) / 180.0 * 600.0;
        assert_eq!(hundredths(p.y), format!("{y:.2}"), "latitude {lat}");
        assert_eq!(tenths(p.y), format!("{y:.1}"), "latitude {lat}");
    }
}

#[test]
fn decimal_fractions_of_a_degree_agree_with_floating_point() {
    // Steps of 0.1234 degrees from 180 degrees west and south: no position
    // falls on a rounding tie, where exact and floating arithmetic may part.
    let mut micro: i64 = -180_000_000;
    while micro <= 180_000_000 {
        let p = project(Degrees::from_micro(micro), Degrees::from_micro(micro));
        let lon = micro as f64 / 1e6;
        let lat = micro as f64 / 1e6;
        let x = (lon + 180.0) / 360.0 * 1200.0;
        let y = (90.0 - lat) / 180.0 * 600.0;
        assert_eq!(hundredths(p.x), format!("{x:.2}"), "longitude {lon}");
        assert_eq!(hundredths(p.y), format!("{y:.2}"), "latitude {lat}");
        micro += 123_400;
    }
}

#[test]
fn decimal_numerals() {
    assert_eq!(decimal_string(0), "0");
    assert_eq!(decimal_string(7), "7");
    assert_eq!(decimal_string(10), "10");
    assert_eq!(decimal_string(1200), "1200");
    assert_eq!(decimal_string(65535), "65535");
    assert_eq!(decimal_string(u128::MAX), "340282366920938463463374607431768211455");
    let mut s = String::from("n=");
    push_decimal(&mut s, 42);
    assert_eq!(s, "n=42");
}

#[test]
fn padded_digits_keep_leading_zeros() {
    let mut s = String::new();
    push_padded_digits(&mut s, 5, 2);
    assert_eq!(s, "05");
    let mut t = String::new();
    push_padded_digits(&mut t, 1234, 2);
    assert_eq!(t, "34");
    let mut u = String::from("a");
    push_padded_digits(&mut u, 9, 0);
    assert_eq!(u, "a");
    let mut v = String::new();
    push_padded_digits(&mut v, 0, 3);
    assert_eq!(v, "000");
}
