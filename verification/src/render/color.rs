//! Colours and their resolution to 8-bit RGBA quadruples.

use vstd::prelude::*;

verus! {

/// A display colour: a named constant, an explicit RGB(A) value, or an HSV triple.
#[derive(Clone, Copy, Debug, PartialEq, Eq, Hash, Structural)]
pub enum Color {
    Red,
    Orange,
    Yellow,
    Green,
    Blue,
    Purple,
    White,
    Black,
    RGBA(u8, u8, u8, u8),
    RGB(u8, u8, u8),
    HSV(u16, u8, u8),
}

/// The sector of the colour wheel that a hue in degrees falls into: six
/// sectors of sixty degrees make one turn.
pub open spec fn hsv_sector(h: int) -> int {
    (h % 360) / 60
}

/// How far the hue has climbed within its pair of sectors, in sixtieths: up
/// from 0 to 60 over the first sector of the pair, and down again over the
/// second.
pub open spec fn hsv_ramp(h: int) -> int {
    if h % 120 < 60 {
        h % 120
    } else {
        120 - h % 120
    }
}

/// The sixtieths of the chroma that a channel (0 red, 1 green, 2 blue)
/// carries at a hue. In each sector one channel carries all of the chroma, one
/// carries the ramp and one carries none: in the order of the sectors the
/// three channels carry (all, ramp, none), (ramp, all, none),
/// (none, all, ramp), (none, ramp, all), (ramp, none, all), (all, none, ramp).
pub open spec fn hsv_share(h: int, channel: int) -> int {
    let sector = hsv_sector(h);
    let all = if sector == 0 || sector == 5 {
        0int
    } else if sector == 1 || sector == 2 {
        1int
    } else {
        2int
    };
    let ramp = if sector == 1 || sector == 4 {
        0int
    } else if sector == 0 || sector == 3 {
        1int
    } else {
        2int
    };
    if channel == all {
        60
    } else if channel == ramp {
        hsv_ramp(h)
    } else {
        0
    }
}

/// The level of a channel that carries `share` sixtieths of the chroma
/// `v * s`: the share of the chroma plus what the value exceeds the chroma by,
/// scaled to the range of a byte, clamped to that range and cut down to a
/// whole number.
pub open spec fn hsv_share_level(s: u8, v: u8, share: int) -> u8 {
    let sixtyfold = (v * s * share + (v - v * s) * 60) * 255;
    if sixtyfold <= 0 {
        0u8
    } else if sixtyfold / 60 >= 255 {
        255u8
    } else {
        (sixtyfold / 60) as u8
    }
}

/// The level of one channel of an HSV colour with hue `h` in degrees,
/// saturation `s` and value `v`, where 1 stands for full saturation and full
/// value.
pub open spec fn hsv_level(h: u16, s: u8, v: u8, channel: int) -> u8 {
    hsv_share_level(s, v, hsv_share(h as int, channel))
}

impl Color {
    /// The RGBA quadruple that this colour resolves to.
    pub open spec fn rgba(self) -> Seq<u8> {
        match self {
            Color::Red => seq![0xffu8, 0x00u8, 0x00u8, 0xffu8],
            Color::Orange => seq![0xffu8, 0xaau8, 0x00u8, 0xffu8],
            Color::Yellow => seq![0xaau8, 0xaau8, 0x00u8, 0xffu8],
            Color::Green => seq![0x00u8, 0xffu8, 0x00u8, 0xffu8],
            Color::Blue => seq![0x00u8, 0x00u8, 0xffu8, 0xffu8],
            Color::Purple => seq![0xaau8, 0x00u8, 0xaau8, 0xffu8],
            Color::White => seq![0xffu8, 0xffu8, 0xffu8, 0xffu8],
            Color::Black => seq![0x00u8, 0x00u8, 0x00u8, 0xffu8],
            Color::RGBA(r, g, b, a) => seq![r, g, b, a],
            Color::RGB(r, g, b) => seq![r, g, b, 0xffu8],
            Color::HSV(h, s, v) => seq![
                hsv_level(h, s, v, 0),
                hsv_level(h, s, v, 1),
                hsv_level(h, s, v, 2),
                0xffu8,
            ],
        }
    }

    /// Resolves the colour to its RGBA quadruple.
    pub fn get_rgba(&self) -> (out: [u8; 4])
        ensures
            out@ == self.rgba(),
    {
        match self {
            Color::Red => [0xff, 0x00, 0x00, 0xff],
            Color::Orange => [0xff, 0xaa, 0x00, 0xff],
            Color::Yellow => [0xaa, 0xaa, 0x00, 0xff],
            Color::Green => [0x00, 0xff, 0x00, 0xff],
            Color::Blue => [0x00, 0x00, 0xff, 0xff],
            Color::Purple => [0xaa, 0x00, 0xaa, 0xff],
            Color::White => [0xff, 0xff, 0xff, 0xff],
            Color::Black => [0x00, 0x00, 0x00, 0xff],
            Color::RGBA(r, g, b, a) => [*r, *g, *b, *a],
            Color::RGB(r, g, b) => [*r, *g, *b, 0xff],
            Color::HSV(h, s, v) => {
                let sector: u16 = (*h % 360) / 60;
                let fold: u16 = *h % 120;
                let ramp: i64 = if fold < 60 { fold as i64 } else { 120 - fold as i64 };
                let (r, g, b): (i64, i64, i64) = if sector == 0 {
                    (60, ramp, 0)
                } else if sector == 1 {
                    (ramp, 60, 0)
                } else if sector == 2 {
                    (0, 60, ramp)
                } else if sector == 3 {
                    (0, ramp, 60)
                } else if sector == 4 {
                    (ramp, 0, 60)
                } else {
                    (60, 0, ramp)
                };
                [
                    hsv_channel(*s, *v, r),
                    hsv_channel(*s, *v, g),
                    hsv_channel(*s, *v, b),
                    0xff,
                ]
            },
        }
    }
}

/// The level of a channel that carries `share` sixtieths of the chroma.
fn hsv_channel(s: u8, v: u8, share: i64) -> (level: u8)
    requires
        0 <= share <= 60,
    ensures
        level == hsv_share_level(s, v, share as int),
{
    let value: i64 = v as i64;
    proof {
        lemma_chroma_bounds(v as int, s as int, share as int);
    }
    let chroma: i64 = value * (s as i64);
    let scaled: i64 = (chroma * share + (value - chroma) * 60) * 255;
    if scaled <= 0 {
        0
    } else if scaled / 60 >= 255 {
        255
    } else {
        (scaled / 60) as u8
    }
}

/// The chroma and a channel's share of it stay small.
proof fn lemma_chroma_bounds(v: int, s: int, share: int)
    requires
        0 <= v <= 255,
        0 <= s <= 255,
        0 <= share <= 60,
    ensures
        0 <= v * s <= 65025,
        0 <= v * s * share <= 3901500,
{
    assert(0 <= v * s <= 65025) by (nonlinear_arith)
        requires
            0 <= v <= 255,
            0 <= s <= 255,
    ;
    let chroma = v * s;
    assert(0 <= chroma * share <= 3901500) by (nonlinear_arith)
        requires
            0 <= chroma <= 65025,
            0 <= share <= 60,
    ;
}

} // verus!
