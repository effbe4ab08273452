use vstd::prelude::*;

use crate::board::off;

verus! {

/// The colour with the given components.
pub open spec fn rgb(r: int, g: int, b: int) -> smart_leds::RGB8 {
    smart_leds::RGB8 { r: r as u8, g: g as u8, b: b as u8 }
}

/// Integer HSV to RGB conversion as smart-leds defines it: the hue circle is
/// cut into six sectors of about 43 steps, and within a sector one component
/// ramps while the other two sit at the value and at the floor.
pub open spec fn hsv_rgb(hue: u8, sat: u8, val: u8) -> smart_leds::RGB8 {
    let v = val as int;
    let s = sat as int;
    let f = (hue as int * 2 % 85) * 3;
    let p = v * (255 - s) / 255;
    let q = v * (255 - (s * f) / 255) / 255;
    let t = v * (255 - (s * (255 - f)) / 255) / 255;
    if hue <= 42 {
        rgb(v, t, p)
    } else if hue <= 84 {
        rgb(q, v, p)
    } else if hue <= 127 {
        rgb(p, v, t)
    } else if hue <= 169 {
        rgb(p, q, v)
    } else if hue <= 212 {
        rgb(t, p, v)
    } else if hue <= 254 {
        rgb(v, p, q)
    } else {
        rgb(v, t, p)
    }
}

/// Relies on smart_leds::hsv::hsv2rgb, whose body is the formula of `hsv_rgb`.
#[verifier::external_body]
fn hsv_to_rgb(hue: u8, sat: u8, val: u8) -> (r: smart_leds::RGB8)
    ensures
        r == hsv_rgb(hue, sat, val),
{
    smart_leds::hsv::hsv2rgb(smart_leds::hsv::Hsv { hue, sat, val })
}

/// The fully saturated, fully bright colour of a hue.
pub open spec fn hue_colour(hue: u8) -> smart_leds::RGB8 {
    hsv_rgb(hue, 255, 255)
}

/// Colour of a tile of the given rank: off when empty, a rainbow from 2 up to
/// 1024, white for 2048, dim gray for 4096, and one dark gray for every rank
/// above that.
pub open spec fn tile_colour(rank: u8) -> smart_leds::RGB8 {
    if rank == 0 {
        off()
    } else if rank == 1 {
        hue_colour(0)
    } else if rank == 2 {
        hue_colour(15)
    } else if rank == 3 {
        hue_colour(45)
    } else if rank == 4 {
        hue_colour(75)
    } else if rank == 5 {
        hue_colour(95)
    } else if rank == 6 {
        hue_colour(130)
    } else if rank == 7 {
        hue_colour(175)
    } else if rank == 8 {
        hue_colour(195)
    } else if rank == 9 {
        hue_colour(230)
    } else if rank == 10 {
        hue_colour(250)
    } else if rank == 11 {
        rgb(0xFF, 0xFF, 0xFF)
    } else if rank == 12 {
        rgb(0x69, 0x69, 0x69)
    } else {
        rgb(0x20, 0x20, 0x20)
    }
}

/// The fully saturated, fully bright colour of a hue.
pub fn colour_with_hue(hue: u8) -> (r: smart_leds::RGB8)
    ensures
        r == hue_colour(hue),
{
    hsv_to_rgb(hue, 255, 255)
}

/// Map blank tiles to be off,
/// 2 to 1024 tiles to rainbow colours,
/// 2048 to 4096 tiles to decreasing shades of white,
/// and larger tiles to one dark gray.
pub fn get_tile_colour(value: u8) -> (r: smart_leds::RGB8)
    ensures
        r == tile_colour(value),
        value >= 13 ==> r == tile_colour(13),
{
    match value {
        0 => smart_leds::RGB8 { r: 0, g: 0, b: 0 },
        1 => colour_with_hue(0),
        2 => colour_with_hue(15),
        3 => colour_with_hue(45),
        4 => colour_with_hue(75),
        5 => colour_with_hue(95),
        6 => colour_with_hue(130),
        7 => colour_with_hue(175),
        8 => colour_with_hue(195),
        9 => colour_with_hue(230),
        10 => colour_with_hue(250),
        11 => smart_leds::RGB8 { r: 0xFF, g: 0xFF, b: 0xFF },
        12 => smart_leds::RGB8 { r: 0x69, g: 0x69, b: 0x69 },
        _ => smart_leds::RGB8 { r: 0x20, g: 0x20, b: 0x20 },
    }
}

} // verus!
