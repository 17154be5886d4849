//! The equirectangular projection onto the fixed canvas, in exact fixed-point
//! arithmetic.
//!
//! Angles are whole numbers of millionths of a degree. Canvas positions are
//! whole numbers of units, 300 000 of which make one pixel: with a canvas of
//! 1200 by 600 pixels one millionth of a degree is exactly one unit along
//! either axis, so projecting never rounds. Rounding happens once, when a
//! position is written as a decimal.

use vstd::prelude::*;
use vstd::string::StringExecFns;
use crate::text::{decimal_text, padded_digits, push_decimal, push_padded_digits};

verus! {

/// Millionths in one degree.
pub const MICRO_PER_DEGREE: i64 = 1_000_000;

/// Width of the canvas in pixels.
pub const CANVAS_WIDTH: i64 = 1200;

/// Height of the canvas in pixels.
pub const CANVAS_HEIGHT: i64 = 600;

/// Units of canvas position in one pixel.
pub const UNITS_PER_PIXEL: i64 = 300_000;

/// Units of canvas position in a tenth of a pixel.
pub const UNITS_PER_TENTH: u128 = 30_000;

/// Units of canvas position in a hundredth of a pixel.
pub const UNITS_PER_HUNDREDTH: u128 = 3_000;

/// An angle in millionths of a degree.
#[derive(Clone, Copy, Debug, PartialEq, Eq, Structural)]
pub struct Degrees {
    pub micro: i64,
}

impl Degrees {
    /// The angle of `micro` millionths of a degree.
    pub fn from_micro(micro: i64) -> (d: Degrees)
        ensures
            d.micro == micro,
    {
        Degrees { micro }
    }

    /// The angle of `whole` degrees.
    pub fn from_whole(whole: i32) -> (d: Degrees)
        ensures
            d.micro == whole * MICRO_PER_DEGREE,
    {
        let wide: i64 = whole as i64;
        Degrees { micro: wide * MICRO_PER_DEGREE }
    }
}

/// A position on the canvas, in units, `x` growing to the right and `y`
/// downwards. It may lie off the canvas.
#[derive(Clone, Copy, Debug, PartialEq, Eq, Structural)]
pub struct PixelPoint {
    pub x: i128,
    pub y: i128,
}

impl PixelPoint {
    /// The position `x` pixels from the left edge and `y` pixels from the top.
    pub fn from_pixels(x: i64, y: i64) -> (p: PixelPoint)
        ensures
            p.x == x * UNITS_PER_PIXEL,
            p.y == y * UNITS_PER_PIXEL,
    {
        let wide_x: i128 = x as i128;
        let wide_y: i128 = y as i128;
        let unit: i128 = UNITS_PER_PIXEL as i128;
        PixelPoint { x: wide_x * unit, y: wide_y * unit }
    }
}

/// Horizontal position of a longitude: `(longitude + 180) / 360` of the
/// canvas width, for a longitude in millionths of a degree and a result in
/// units.
pub open spec fn projected_x(lon_micro: int) -> int {
    (lon_micro + 180 * MICRO_PER_DEGREE) * (CANVAS_WIDTH * UNITS_PER_PIXEL) / (360
        * MICRO_PER_DEGREE)
}

/// Vertical position of a latitude: `(90 - latitude) / 180` of the canvas
/// height, for a latitude in millionths of a degree and a result in units.
pub open spec fn projected_y(lat_micro: int) -> int {
    (90 * MICRO_PER_DEGREE - lat_micro) * (CANVAS_HEIGHT * UNITS_PER_PIXEL) / (180
        * MICRO_PER_DEGREE)
}

/// The canvas position of a geographic position.
pub open spec fn projected(lon: Degrees, lat: Degrees) -> PixelPoint {
    PixelPoint { x: projected_x(lon.micro as int) as i128, y: projected_y(lat.micro as int) as i128 }
}

/// The divisions in [`projected_x`] and [`projected_y`] leave no remainder,
/// and each is a shift of the angle: the projection is exact, and strictly
/// increasing in the longitude and strictly decreasing in the latitude.
pub proof fn lemma_projection_exact(lon_micro: int, lat_micro: int)
    ensures
        (lon_micro + 180 * MICRO_PER_DEGREE) * (CANVAS_WIDTH * UNITS_PER_PIXEL) % (360
            * MICRO_PER_DEGREE) == 0,
        (90 * MICRO_PER_DEGREE - lat_micro) * (CANVAS_HEIGHT * UNITS_PER_PIXEL) % (180
            * MICRO_PER_DEGREE) == 0,
        projected_x(lon_micro) == lon_micro + 180 * MICRO_PER_DEGREE,
        projected_y(lat_micro) == 90 * MICRO_PER_DEGREE - lat_micro,
{
    assert(CANVAS_WIDTH * UNITS_PER_PIXEL == 360 * MICRO_PER_DEGREE);
    assert(CANVAS_HEIGHT * UNITS_PER_PIXEL == 180 * MICRO_PER_DEGREE);
    let x = lon_micro + 180 * MICRO_PER_DEGREE;
    let y = 90 * MICRO_PER_DEGREE - lat_micro;
    assert(x * 360_000_000 % 360_000_000 == 0 && x * 360_000_000 / 360_000_000 == x);
    assert(y * 180_000_000 % 180_000_000 == 0 && y * 180_000_000 / 180_000_000 == y);
}

/// Maps a geographic position to its canvas position. Nothing is clamped: an
/// angle outside the usual range gives a position off the canvas.
pub fn project(lon: Degrees, lat: Degrees) -> (p: PixelPoint)
    ensures
        p == projected(lon, lat),
        p.x == projected_x(lon.micro as int),
        p.y == projected_y(lat.micro as int),
        p.x == lon.micro + 180 * MICRO_PER_DEGREE,
        p.y == 90 * MICRO_PER_DEGREE - lat.micro,
{
    proof {
        lemma_projection_exact(lon.micro as int, lat.micro as int);
    }
    let lon_wide: i128 = lon.micro as i128;
    let lat_wide: i128 = lat.micro as i128;
    PixelPoint { x: lon_wide + 180_000_000, y: 90_000_000 - lat_wide }
}

/// `m / d` rounded to the nearest whole number, a tie going to the even
/// neighbour.
pub open spec fn nearest_even(m: nat, d: nat) -> nat {
    let q = m / d;
    let r = m % d;
    if 2 * r < d || (2 * r == d && q % 2 == 0) {
        q
    } else {
        q + 1
    }
}

/// [`nearest_even`] is off by half a unit at most: no whole number is nearer
/// to `m / d`.
pub proof fn lemma_nearest_even_is_nearest(m: nat, d: nat)
    requires
        d > 0,
    ensures
        2 * (nearest_even(m, d) * d - m) <= d,
        2 * (m - nearest_even(m, d) * d) <= d,
{
    vstd::arithmetic::div_mod::lemma_fundamental_div_mod(m as int, d as int);
    let q = m / d;
    let r = m % d;
    assert(m == d * q + r);
    assert((q + 1) * d == d * q + d) by (nonlinear_arith);
    assert(q * d == d * q) by (nonlinear_arith);
}

/// Ten to the power `places`.
pub open spec fn pow10(places: nat) -> nat
    decreases places,
{
    if places == 0 {
        1
    } else {
        10 * pow10((places - 1) as nat)
    }
}

/// The size of `units` without its sign.
pub open spec fn magnitude(units: int) -> nat {
    if units < 0 {
        (-units) as nat
    } else {
        units as nat
    }
}

/// A position of `units` written in pixels as a decimal with `places` digits
/// after the point: the value is rounded to the nearest such decimal, a tie
/// going to the even last digit; a negative position carries a minus sign,
/// also where it rounds to zero.
pub open spec fn pixel_text(units: int, places: nat) -> Seq<char> {
    let scaled = nearest_even(magnitude(units) * pow10(places), UNITS_PER_PIXEL as nat);
    let sign = if units < 0 {
        seq!['-']
    } else {
        Seq::empty()
    };
    sign + decimal_text(scaled / pow10(places)) + seq!['.'] + padded_digits(
        scaled % pow10(places),
        places,
    )
}

fn magnitude_of(units: i128) -> (m: u128)
    ensures
        m == magnitude(units as int),
{
    if units >= 0 {
        units as u128
    } else {
        (-(units + 1)) as u128 + 1
    }
}

/// Appends `m / d` rounded as [`nearest_even`] says, written with `places`
/// digits after the point, where `scale` is ten to the power `places`.
fn push_rounded(buf: &mut String, negative: bool, m: u128, d: u128, scale: u128, places: u8)
    requires
        2 <= d <= 1_000_000,
        0 < scale <= 1_000_000,
    ensures
        final(buf)@ == old(buf)@ + (if negative {
            seq!['-']
        } else {
            Seq::empty()
        }) + decimal_text(nearest_even(m as nat, d as nat) / (scale as nat)) + seq!['.']
            + padded_digits(nearest_even(m as nat, d as nat) % (scale as nat), places as nat),
{
    let q = m / d;
    let r = m % d;
    proof {
        vstd::arithmetic::div_mod::lemma_div_is_ordered_by_denominator(m as int, 2, d as int);
    }
    let scaled = if 2 * r < d || (2 * r == d && q % 2 == 0) {
        q
    } else {
        q + 1
    };
    proof {
        reveal_strlit("-");
        reveal_strlit(".");
    }
    let ghost start = buf@;
    if negative {
        buf.append("-");
    }
    let ghost signed = buf@;
    assert(signed =~= start + (if negative {
        seq!['-']
    } else {
        Seq::empty()
    }));
    push_decimal(buf, scaled / scale);
    buf.append(".");
    push_padded_digits(buf, scaled % scale, places);
    assert("."@ =~= seq!['.']);
}

/// Appends [`pixel_text`] of `units` with one digit after the point.
pub fn push_tenths(buf: &mut String, units: i128)
    ensures
        final(buf)@ == old(buf)@ + pixel_text(units as int, 1),
{
    let m = magnitude_of(units);
    proof {
        reveal_with_fuel(pow10, 3);
        assert((m * 10) / 300_000 == m / 30_000);
        assert((m * 10) % 300_000 == 10 * (m % 30_000));
        assert(nearest_even((m * 10) as nat, 300_000) == nearest_even(m as nat, 30_000));
    }
    push_rounded(buf, units < 0, m, UNITS_PER_TENTH, 10, 1);
    assert(buf@ =~= old(buf)@ + pixel_text(units as int, 1));
}

/// Appends [`pixel_text`] of `units` with two digits after the point.
pub fn push_hundredths(buf: &mut String, units: i128)
    ensures
        final(buf)@ == old(buf)@ + pixel_text(units as int, 2),
{
    let m = magnitude_of(units);
    proof {
        reveal_with_fuel(pow10, 3);
        assert((m * 100) / 300_000 == m / 3_000);
        assert((m * 100) % 300_000 == 100 * (m % 3_000));
        assert(nearest_even((m * 100) as nat, 300_000) == nearest_even(m as nat, 3_000));
    }
    push_rounded(buf, units < 0, m, UNITS_PER_HUNDREDTH, 100, 2);
    assert(buf@ =~= old(buf)@ + pixel_text(units as int, 2));
}

} // verus!
