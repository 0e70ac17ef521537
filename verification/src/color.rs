//! The fixed colour-gradient for warning levels.
//!
//! A warning level in `[0, 1]` (carried in thousandths) is mapped through a
//! hue sweep — full saturation, hue falling from green towards red as the
//! warning rises — so that a hotter colour always means a worse resource.
//! All arithmetic is integral: hues are in thousandths of a degree and
//! channels come out as bytes.

use vstd::prelude::*;

verus! {

/// Chroma in thousandths for a saturation and value in thousandths.
pub open spec fn hsv_chroma(s: int, v: int) -> int {
    v * s / 1000
}

/// Distance of `h` (thousandths of a degree) from the nearest even multiple
/// of sixty degrees, capped at sixty degrees.
pub open spec fn hsv_dist(h: int) -> int {
    let d = h % 120_000;
    if d <= 60_000 {
        60_000 - d
    } else {
        d - 60_000
    }
}

/// The secondary chroma component.
pub open spec fn hsv_x(h: int, c: int) -> int {
    c * (60_000 - hsv_dist(h)) / 60_000
}

/// A channel in thousandths rounded to a byte value.
pub open spec fn channel_byte(t: int) -> int {
    (t * 255 + 500) / 1000
}

/// Hue/saturation/value (thousandths of a degree, thousandths, thousandths)
/// to red/green/blue bytes.
pub open spec fn hsv_to_rgb_spec(h: int, s: int, v: int) -> (int, int, int) {
    let c = hsv_chroma(s, v);
    let x = hsv_x(h, c);
    let m = v - c;
    let rgb1 = if h < 60_000 {
        (c, x, 0)
    } else if h < 120_000 {
        (x, c, 0)
    } else if h < 180_000 {
        (0, c, x)
    } else if h < 240_000 {
        (0, x, c)
    } else if h < 300_000 {
        (x, 0, c)
    } else {
        (c, 0, x)
    };
    (channel_byte(rgb1.0 + m), channel_byte(rgb1.1 + m), channel_byte(rgb1.2 + m))
}

/// The gradient's position in thousandths for a value within `[min, max]`:
/// clamped, scaled, and flipped unless `reversed`.
pub open spec fn gradient_ratio(min: int, max: int, value: int, reversed: bool) -> int {
    let clamped = if value < min {
        min
    } else if value > max {
        max
    } else {
        value
    };
    let ratio = if max == min {
        500
    } else {
        (clamped - min) * 1000 / (max - min)
    };
    if reversed {
        ratio
    } else {
        1000 - ratio
    }
}

/// The full gradient: a position along `[min, max]` becomes an RGBA quad,
/// sweeping one hundred degrees of hue at full saturation and value, opaque.
pub open spec fn gradient_spec(min: int, max: int, value: int, reversed: bool) -> (
    int,
    int,
    int,
    int,
) {
    let ratio = gradient_ratio(min, max, value, reversed);
    let rgb = hsv_to_rgb_spec(100 * ratio, 1000, 1000);
    (rgb.0, rgb.1, rgb.2, 255)
}

/// Convert hue, saturation and value (thousandths of a degree, thousandths,
/// thousandths) to red, green and blue bytes.
pub fn hsv_to_rgb(h: u64, s: u64, v: u64) -> (rgb: (u8, u8, u8))
    requires
        h < 360_000,
        s <= 1000,
        v <= 1000,
    ensures
        (rgb.0 as int, rgb.1 as int, rgb.2 as int) == hsv_to_rgb_spec(h as int, s as int, v as int),
{
    proof {
        assert(v * s <= 1_000_000) by (nonlinear_arith)
            requires s <= 1000, v <= 1000;
        assert(v * s <= v * 1000) by (nonlinear_arith)
            requires s <= 1000, 0 <= v;
    }
    let c: u64 = v * s / 1000;
    let d: u64 = h % 120_000;
    let dist: u64 = if d <= 60_000 {
        60_000 - d
    } else {
        d - 60_000
    };
    proof {
        assert(c <= v);
        assert(c * (60_000 - dist) <= c * 60_000 <= 60_000_000) by (nonlinear_arith)
            requires dist <= 60_000, 0 <= c <= 1000;
    }
    let x: u64 = c * (60_000 - dist) / 60_000;
    let m: u64 = v - c;
    proof {
        assert(c == hsv_chroma(s as int, v as int));
        assert(x == hsv_x(h as int, c as int));
        assert(x <= c) by (nonlinear_arith)
            requires c * (60_000 - dist) <= c * 60_000, x == c * (60_000 - dist) / 60_000, 0 <= c;
    }
    let (r1, g1, b1): (u64, u64, u64) = if h < 60_000 {
        (c, x, 0)
    } else if h < 120_000 {
        (x, c, 0)
    } else if h < 180_000 {
        (0, c, x)
    } else if h < 240_000 {
        (0, x, c)
    } else if h < 300_000 {
        (x, 0, c)
    } else {
        (c, 0, x)
    };
    let r: u64 = ((r1 + m) * 255 + 500) / 1000;
    let g: u64 = ((g1 + m) * 255 + 500) / 1000;
    let b: u64 = ((b1 + m) * 255 + 500) / 1000;
    (r as u8, g as u8, b as u8)
}

/// The fixed colour-gradient over an explicit range: `value` is clamped to
/// `[min, max]` and mapped to an opaque RGBA quad, hotter towards `min`
/// unless `reversed`. Bounds are in thousandths.
pub fn get_color_gradient_full(min: i64, max: i64, value: i64, reversed: bool) -> (rgba: (
    u8,
    u8,
    u8,
    u8,
))
    requires
        -1_000_000_000 <= min <= max <= 1_000_000_000,
    ensures
        (rgba.0 as int, rgba.1 as int, rgba.2 as int, rgba.3 as int) == gradient_spec(
            min as int,
            max as int,
            value as int,
            reversed,
        ),
{
    let clamped: i64 = if value < min {
        min
    } else if value > max {
        max
    } else {
        value
    };
    let ratio0: u64 = if max == min {
        500
    } else {
        let num: u64 = (clamped - min) as u64;
        let den: u64 = (max - min) as u64;
        proof {
            assert(num * 1000 <= den * 1000) by (nonlinear_arith)
                requires num <= den;
            assert(num * 1000 / (den as int) <= 1000) by (nonlinear_arith)
                requires num * 1000 <= den * 1000, 0 < den;
        }
        num * 1000 / den
    };
    let ratio: u64 = if reversed {
        ratio0
    } else {
        1000 - ratio0
    };
    let (r, g, b) = hsv_to_rgb(100 * ratio, 1000, 1000);
    (r, g, b, 255)
}

/// The fixed colour-gradient for a warning level in `[0, 1]` thousandths.
pub fn get_color_gradient(value: i64) -> (rgba: (u8, u8, u8, u8))
    ensures
        (rgba.0 as int, rgba.1 as int, rgba.2 as int, rgba.3 as int) == gradient_spec(
            0,
            1000,
            value as int,
            false,
        ),
{
    get_color_gradient_full(0, 1000, value, false)
}

/// Along the warning gradient the position in the hue sweep is exactly the
/// warning level, so a higher warning always lands on a lower hue — the
/// hotter colour.
pub proof fn lemma_gradient_hue_monotone(w1: int, w2: int)
    requires
        0 <= w1 <= w2 <= 1000,
    ensures
        gradient_ratio(0, 1000, w1, false) == 1000 - w1,
        gradient_ratio(0, 1000, w2, false) <= gradient_ratio(0, 1000, w1, false),
{
    assert(w1 * 1000 / 1000 == w1) by (nonlinear_arith)
        requires 0 <= w1;
    assert(w2 * 1000 / 1000 == w2) by (nonlinear_arith)
        requires 0 <= w2;
}

/// How the overlay's frame outline is coloured: not at all, a fixed quad, a
/// random quad chosen once at startup, or the colour of the currently worst
/// resource icon.
#[derive(Debug, Clone, Copy, PartialEq, Eq, Structural)]
pub enum FrameColor {
    NoColor,
    Rgba(u8, u8, u8, u8),
    Random,
    WorstResource,
}

} // verus!
