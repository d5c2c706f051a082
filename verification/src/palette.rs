use vstd::prelude::*;
use crate::color::Color;

verus! {

/// The sixteen system colours of the xterm palette.
pub open spec fn system_rgb(i: int) -> (u8, u8, u8) {
    if i == 0 { (0, 0, 0) }
    else if i == 1 { (128, 0, 0) }
    else if i == 2 { (0, 128, 0) }
    else if i == 3 { (128, 128, 0) }
    else if i == 4 { (0, 0, 128) }
    else if i == 5 { (128, 0, 128) }
    else if i == 6 { (0, 128, 128) }
    else if i == 7 { (192, 192, 192) }
    else if i == 8 { (128, 128, 128) }
    else if i == 9 { (255, 0, 0) }
    else if i == 10 { (0, 255, 0) }
    else if i == 11 { (255, 255, 0) }
    else if i == 12 { (0, 0, 255) }
    else if i == 13 { (255, 0, 255) }
    else if i == 14 { (0, 255, 255) }
    else { (255, 255, 255) }
}

/// One step of the 6x6x6 colour cube: 0, 95, 135, 175, 215, 255.
pub open spec fn cube_level(n: int) -> u8 {
    if n == 0 { 0 } else { (55 + 40 * n) as u8 }
}

/// Entry `i` (`0 <= i < 256`) of the xterm 256-colour palette: sixteen
/// system colours, the colour cube, then 24 greys.
pub open spec fn palette_rgb(i: int) -> (u8, u8, u8) {
    if i < 16 {
        system_rgb(i)
    } else if i < 232 {
        let k = i - 16;
        (cube_level(k / 36), cube_level((k / 6) % 6), cube_level(k % 6))
    } else {
        let v = (8 + 10 * (i - 232)) as u8;
        (v, v, v)
    }
}

/// The whole palette.
pub open spec fn palette() -> Seq<(u8, u8, u8)> {
    Seq::new(256, |i: int| palette_rgb(i))
}

fn system_color(i: u8) -> (c: Color)
    requires
        i < 16,
    ensures
        c@ == system_rgb(i as int),
{
    match i {
        0 => Color::new_rgb(0, 0, 0),
        1 => Color::new_rgb(128, 0, 0),
        2 => Color::new_rgb(0, 128, 0),
        3 => Color::new_rgb(128, 128, 0),
        4 => Color::new_rgb(0, 0, 128),
        5 => Color::new_rgb(128, 0, 128),
        6 => Color::new_rgb(0, 128, 128),
        7 => Color::new_rgb(192, 192, 192),
        8 => Color::new_rgb(128, 128, 128),
        9 => Color::new_rgb(255, 0, 0),
        10 => Color::new_rgb(0, 255, 0),
        11 => Color::new_rgb(255, 255, 0),
        12 => Color::new_rgb(0, 0, 255),
        13 => Color::new_rgb(255, 0, 255),
        14 => Color::new_rgb(0, 255, 255),
        _ => Color::new_rgb(255, 255, 255),
    }
}

fn cube_level_of(n: u8) -> (v: u8)
    requires
        n < 6,
    ensures
        v == cube_level(n as int),
{
    if n == 0 { 0 } else { 55 + 40 * n }
}

/// The xterm 256-colour palette, in order.
pub fn term_colors() -> (v: Vec<Color>)
    ensures
        v@.len() == 256,
        forall|i: int| 0 <= i < 256 ==> (#[trigger] v@[i])@ == palette_rgb(i),
{
    let mut v: Vec<Color> = Vec::new();
    let mut i: u32 = 0;
    while i < 256
        invariant
            i <= 256,
            v@.len() == i,
            forall|j: int| 0 <= j < i ==> (#[trigger] v@[j])@ == palette_rgb(j),
        decreases 256 - i,
    {
        let c = if i < 16 {
            system_color(i as u8)
        } else if i < 232 {
            let k: u32 = i - 16;
            Color::new_rgb(
                cube_level_of((k / 36) as u8),
                cube_level_of(((k / 6) % 6) as u8),
                cube_level_of((k % 6) as u8),
            )
        } else {
            let g: u8 = (8 + 10 * (i - 232)) as u8;
            Color::new_rgb(g, g, g)
        };
        v.push(c);
        i = i + 1;
    }
    v
}

} // verus!
