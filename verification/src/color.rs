//! The colors that tell the agents of a population apart.
//!
//! Colors are spread over the hues of the color circle, inherited with a
//! small change, and blended between parents. All of it is computed in whole
//! numbers: hues in thousandths of a degree, saturation and lightness in
//! thousandths, blending ratios in parts per million.

use crate::random::{draw_range, draw_within};
use rand::rngs::SmallRng;
use vstd::prelude::*;

verus! {

/// A full turn of the color circle, in thousandths of a degree.
pub const FULL_TURN: u32 = 360_000;

/// Saturation of the colors of a population, in thousandths.
pub const POPULATION_SATURATION: u32 = 850;

/// Lightness of the colors of a population, in thousandths.
pub const POPULATION_LIGHTNESS: u32 = 650;

/// Lowest share of the second parent in a blend, in parts per million.
pub const BLEND_LOW: u32 = 300_000;

/// Upper end, not reached, of the share of the second parent in a blend.
pub const BLEND_HIGH: u32 = 700_000;

/// The chroma of a color, in millionths: largest at medium lightness.
pub open spec fn chroma(sat: int, light: int) -> int {
    (1000 - (if 2 * light >= 1000 {
        2 * light - 1000
    } else {
        1000 - 2 * light
    })) * sat
}

/// The share of the chroma that the second strongest channel gets, which
/// rises and falls within every sixth of the color circle.
pub open spec fn second_share(hue: int, c: int) -> int {
    c * (60_000 - (if hue % 120_000 >= 60_000 {
        hue % 120_000 - 60_000
    } else {
        60_000 - hue % 120_000
    })) / 60_000
}

/// The three channels before the lightness is added, in millionths.
pub open spec fn hue_channels(hue: int, c: int) -> (int, int, int) {
    let x = second_share(hue, c);
    let sector = hue / 60_000;
    if sector == 1 {
        (x, c, 0)
    } else if sector == 2 {
        (0, c, x)
    } else if sector == 3 {
        (0, x, c)
    } else if sector == 4 {
        (x, 0, c)
    } else if sector == 5 {
        (c, 0, x)
    } else {
        (c, x, 0)
    }
}

/// A channel in millionths as a byte, values beyond a byte cut back.
pub open spec fn to_byte(v: int) -> u8 {
    if v * 255 / 1_000_000 > 255 {
        255
    } else if v < 0 {
        0
    } else {
        (v * 255 / 1_000_000) as u8
    }
}

/// The color of a hue, saturation and lightness.
pub open spec fn spec_hsl_to_rgb(hue: int, sat: int, light: int) -> (u8, u8, u8) {
    let c = chroma(sat, light);
    let m = light * 1000 - c / 2;
    let (r, g, b) = hue_channels(hue, c);
    (to_byte(r + m), to_byte(g + m), to_byte(b + m))
}

/// The hue of agent `i` among `n`: the color circle is divided evenly.
pub open spec fn population_hue(i: int, n: int) -> int {
    i * 360_000 / n
}

/// The color of agent `i` among `n`.
pub open spec fn population_color(i: int, n: int) -> (u8, u8, u8) {
    spec_hsl_to_rgb(
        population_hue(i, n),
        POPULATION_SATURATION as int,
        POPULATION_LIGHTNESS as int,
    )
}

/// A channel that is `ratio` parts per million of `b` and the rest of `a`.
pub open spec fn blend_channel(a: u8, b: u8, ratio: int) -> u8 {
    ((a * (1_000_000 - ratio) + b * ratio) / 1_000_000) as u8
}

/// The color that is `ratio` parts per million of `c2` and the rest of
/// `c1`.
pub open spec fn spec_blend(c1: (u8, u8, u8), c2: (u8, u8, u8), ratio: int) -> (u8, u8, u8) {
    (
        blend_channel(c1.0, c2.0, ratio),
        blend_channel(c1.1, c2.1, ratio),
        blend_channel(c1.2, c2.2, ratio),
    )
}

/// A channel moved by `delta` and kept within a byte.
pub open spec fn shifted_channel(v: u8, delta: int) -> u8 {
    if v + delta < 0 {
        0
    } else if v + delta > 255 {
        255
    } else {
        (v + delta) as u8
    }
}

/// Each channel of `to` is that of `from` moved by at most `range` and kept
/// within a byte.
pub open spec fn color_near(from: (u8, u8, u8), to: (u8, u8, u8), range: int) -> bool {
    exists|dr: int, dg: int, db: int|
        -range <= dr <= range && -range <= dg <= range && -range <= db <= range && to == (
            #[trigger] shifted_channel(from.0, dr),
            #[trigger] shifted_channel(from.1, dg),
            #[trigger] shifted_channel(from.2, db),
        )
}

/// A channel in millionths as a byte.
fn byte_of(v: u64) -> (b: u8)
    requires
        v <= 0xFFFF_FFFF_FFFF,
    ensures
        b == to_byte(v as int),
{
    let scaled = v * 255 / 1_000_000;
    if scaled > 255 {
        255
    } else {
        scaled as u8
    }
}

/// The color of a hue in thousandths of a degree, below a full turn, and of
/// a saturation and a lightness in thousandths, at most 1000 each.
pub fn hsl_to_rgb(hue: u32, sat: u32, light: u32) -> (rgb: (u8, u8, u8))
    requires
        hue < FULL_TURN,
        sat <= 1000,
        light <= 1000,
    ensures
        rgb == spec_hsl_to_rgb(hue as int, sat as int, light as int),
{
    let spread: u64 = if 2 * light >= 1000 {
        (2 * light - 1000) as u64
    } else {
        (1000 - 2 * light) as u64
    };
    assert((1000 - spread) * sat <= 1_000_000) by (nonlinear_arith)
        requires
            0 <= spread <= 1000,
            0 <= sat <= 1000,
    ;
    let c: u64 = (1000 - spread) * (sat as u64);
    assert(c / 2 <= light * 1000) by (nonlinear_arith)
        requires
            c == (1000 - spread) * sat,
            0 <= sat <= 1000,
            0 <= light <= 1000,
            spread == if 2 * light >= 1000 {
                2 * light - 1000
            } else {
                1000 - 2 * light
            },
    ;
    let m: u64 = (light as u64) * 1000 - c / 2;
    let pos: u64 = (hue % 120_000) as u64;
    let away: u64 = if pos >= 60_000 {
        pos - 60_000
    } else {
        60_000 - pos
    };
    assert(c * (60_000 - away) <= 60_000_000_000) by (nonlinear_arith)
        requires
            0 <= c <= 1_000_000,
            0 <= away <= 60_000,
    ;
    let x: u64 = c * (60_000 - away) / 60_000;
    let sector = hue / 60_000;
    let (r, g, b): (u64, u64, u64) = if sector == 1 {
        (x, c, 0)
    } else if sector == 2 {
        (0, c, x)
    } else if sector == 3 {
        (0, x, c)
    } else if sector == 4 {
        (x, 0, c)
    } else if sector == 5 {
        (c, 0, x)
    } else {
        (c, x, 0)
    };
    (byte_of(r + m), byte_of(g + m), byte_of(b + m))
}

/// Colors for a population of `pop_size` agents, spread evenly over the
/// color circle.
pub fn generate_population_colors(pop_size: usize) -> (colors: Vec<(u8, u8, u8)>)
    ensures
        colors@.len() == pop_size,
        forall|i: int|
            0 <= i < pop_size ==> #[trigger] colors@[i] == population_color(i, pop_size as int),
{
    let mut colors: Vec<(u8, u8, u8)> = Vec::new();
    let mut i: usize = 0;
    while i < pop_size
        invariant
            0 <= i <= pop_size,
            colors@.len() == i,
            forall|j: int|
                0 <= j < i ==> #[trigger] colors@[j] == population_color(j, pop_size as int),
        decreases pop_size - i,
    {
        assert(0 <= (i * 360_000) / (pop_size as int) < 360_000) by (nonlinear_arith)
            requires
                0 <= i < pop_size,
        ;
        let hue = ((i as u128) * 360_000 / (pop_size as u128)) as u32;
        colors.push(hsl_to_rgb(hue, POPULATION_SATURATION, POPULATION_LIGHTNESS));
        i += 1;
    }
    colors
}

/// A channel changed by `delta` and kept within a byte.
fn shift_channel(v: u8, delta: i64) -> (r: u8)
    requires
        -0x1_0000_0000 <= delta <= 0x1_0000_0000,
    ensures
        r == shifted_channel(v, delta as int),
{
    let moved = v as i64 + delta;
    if moved < 0 {
        0
    } else if moved > 255 {
        255
    } else {
        moved as u8
    }
}

/// Changes each channel of a color by a random amount of at most `range`,
/// keeping it within a byte.
pub fn mutate_color(color: (u8, u8, u8), range: u32, rng: &mut SmallRng) -> (mutated: (
    u8,
    u8,
    u8,
))
    ensures
        color_near(color, mutated, range as int),
{
    let dr = draw_within(rng, range);
    let dg = draw_within(rng, range);
    let db = draw_within(rng, range);
    let mutated = (
        shift_channel(color.0, dr),
        shift_channel(color.1, dg),
        shift_channel(color.2, db),
    );
    assert(mutated == (
        shifted_channel(color.0, dr as int),
        shifted_channel(color.1, dg as int),
        shifted_channel(color.2, db as int),
    ));
    mutated
}

/// A channel blended from two.
fn blend_one(a: u8, b: u8, ratio: u32) -> (r: u8)
    requires
        ratio <= 1_000_000,
    ensures
        r == blend_channel(a, b, ratio as int),
{
    assert(0 <= a * (1_000_000 - ratio) + b * ratio <= 255_000_000) by (nonlinear_arith)
        requires
            0 <= a <= 255,
            0 <= b <= 255,
            0 <= ratio <= 1_000_000,
    ;
    let mixed: u64 = (a as u64) * ((1_000_000 - ratio) as u64) + (b as u64) * (ratio as u64);
    (mixed / 1_000_000) as u8
}

/// Blends two colors: `ratio` parts per million of `c2`, the rest of `c1`.
pub fn blend_colors(c1: (u8, u8, u8), c2: (u8, u8, u8), ratio: u32) -> (mixed: (u8, u8, u8))
    requires
        ratio <= 1_000_000,
    ensures
        mixed == spec_blend(c1, c2, ratio as int),
{
    (blend_one(c1.0, c2.0, ratio), blend_one(c1.1, c2.1, ratio), blend_one(c1.2, c2.2, ratio))
}

/// A random share for the second parent of a blend.
pub fn draw_blend_ratio(rng: &mut SmallRng) -> (ratio: u32)
    ensures
        BLEND_LOW <= ratio < BLEND_HIGH,
{
    draw_range(rng, BLEND_LOW as i64, BLEND_HIGH as i64) as u32
}

/// A blend lies between its parents, channel by channel.
pub proof fn lemma_blend_between(a: u8, b: u8, ratio: int)
    requires
        0 <= ratio <= 1_000_000,
    ensures
        a <= b ==> a <= blend_channel(a, b, ratio) <= b,
        b <= a ==> b <= blend_channel(a, b, ratio) <= a,
{
    let mixed = a * (1_000_000 - ratio) + b * ratio;
    if a <= b {
        assert(a * 1_000_000 <= mixed <= b * 1_000_000) by (nonlinear_arith)
            requires
                mixed == a * (1_000_000 - ratio) + b * ratio,
                0 <= ratio <= 1_000_000,
                0 <= a <= b,
        ;
    }
    if b <= a {
        assert(b * 1_000_000 <= mixed <= a * 1_000_000) by (nonlinear_arith)
            requires
                mixed == a * (1_000_000 - ratio) + b * ratio,
                0 <= ratio <= 1_000_000,
                0 <= b <= a,
        ;
    }
}

} // verus!
