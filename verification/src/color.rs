use vstd::prelude::*;

verus! {

/// An sRGBA color, one byte per channel, as the notebooks store it.
#[derive(Clone, Copy, Debug, PartialEq, Eq, Structural)]
pub struct Color {
    pub r: u8,
    pub g: u8,
    pub b: u8,
    pub a: u8,
}

impl Color {
    /// An opaque color.
    pub fn from_rgb(r: u8, g: u8, b: u8) -> (c: Color)
        ensures
            c == (Color { r, g, b, a: 255 }),
    {
        Color { r, g, b, a: 255 }
    }
}

} // verus!
verus! {

impl Color {
    /// Opaque black.
    pub fn black() -> (c: Color)
        ensures
            c == (Color { r: 0, g: 0, b: 0, a: 255 }),
    {
        Color { r: 0, g: 0, b: 0, a: 255 }
    }

    /// Opaque blue.
    pub fn blue() -> (c: Color)
        ensures
            c == (Color { r: 0, g: 0, b: 255, a: 255 }),
    {
        Color { r: 0, g: 0, b: 255, a: 255 }
    }
}

/// The color packed for the GPU: red, green and blue from the high byte down, and
/// an opaque alpha in the low byte.
pub open spec fn packed_rgb(c: Color) -> int {
    c.r * 0x1000000 + c.g * 0x10000 + c.b * 0x100 + 255
}

/// Packs a color for the GPU: red, green, blue, then 255, one byte each from the high byte.
pub fn color_to_rgb(color: &Color) -> (r: u32)
    ensures
        r == packed_rgb(*color),
{
    let r = color.r as u32;
    let g = color.g as u32;
    let b = color.b as u32;
    assert((r << 24) == r * 0x1000000) by (bit_vector)
        requires
            r < 256,
    ;
    assert((g << 16) == g * 0x10000) by (bit_vector)
        requires
            g < 256,
    ;
    assert((b << 8) == b * 0x100) by (bit_vector)
        requires
            b < 256,
    ;
    (r << 24) + (g << 16) + (b << 8) + 255
}

} // verus!
verus! {

/// The contrasting colors that tell chunks apart: black, red, blue, green, yellow,
/// magenta, cyan, light red, light blue, light green, light yellow.
pub open spec fn chunk_palette(i: int) -> Color {
    if i == 0 {
        Color { r: 0, g: 0, b: 0, a: 255 }
    } else if i == 1 {
        Color { r: 255, g: 0, b: 0, a: 255 }
    } else if i == 2 {
        Color { r: 0, g: 0, b: 255, a: 255 }
    } else if i == 3 {
        Color { r: 0, g: 255, b: 0, a: 255 }
    } else if i == 4 {
        Color { r: 255, g: 255, b: 0, a: 255 }
    } else if i == 5 {
        Color { r: 255, g: 0, b: 255, a: 255 }
    } else if i == 6 {
        Color { r: 0, g: 255, b: 255, a: 255 }
    } else if i == 7 {
        Color { r: 255, g: 128, b: 128, a: 255 }
    } else if i == 8 {
        Color { r: 0xAD, g: 0xD8, b: 0xE6, a: 255 }
    } else if i == 9 {
        Color { r: 0x90, g: 0xEE, b: 0x90, a: 255 }
    } else {
        Color { r: 255, g: 255, b: 0xE0, a: 255 }
    }
}

/// The hash that picks a chunk's color.
pub open spec fn chunk_hash(rx: i32, ry: i32, chunk_index: usize) -> i32 {
    ((rx * 73856093) as i32) ^ ((ry * 19349663) as i32) ^ ((
    (chunk_index as i32) * 83492791) as i32)
}

fn palette_at(i: usize) -> (c: Color)
    requires
        i < 11,
    ensures
        c == chunk_palette(i as int),
{
    if i == 0 {
        Color { r: 0, g: 0, b: 0, a: 255 }
    } else if i == 1 {
        Color { r: 255, g: 0, b: 0, a: 255 }
    } else if i == 2 {
        Color { r: 0, g: 0, b: 255, a: 255 }
    } else if i == 3 {
        Color { r: 0, g: 255, b: 0, a: 255 }
    } else if i == 4 {
        Color { r: 255, g: 255, b: 0, a: 255 }
    } else if i == 5 {
        Color { r: 255, g: 0, b: 255, a: 255 }
    } else if i == 6 {
        Color { r: 0, g: 255, b: 255, a: 255 }
    } else if i == 7 {
        Color { r: 255, g: 128, b: 128, a: 255 }
    } else if i == 8 {
        Color { r: 0xAD, g: 0xD8, b: 0xE6, a: 255 }
    } else if i == 9 {
        Color { r: 0x90, g: 0xEE, b: 0x90, a: 255 }
    } else {
        Color { r: 255, g: 255, b: 0xE0, a: 255 }
    }
}

/// A color of its own for each chunk, to tell chunks apart when debugging: a stable
/// hash of the chunk's position picks one of eleven contrasting colors. The products
/// of the hash must fit in an `i32`, and the hash must have an absolute value.
pub fn chunk_color(rx: i32, ry: i32, chunk_index: usize) -> (c: Color)
    requires
        i32::MIN <= rx * 73856093 <= i32::MAX,
        i32::MIN <= ry * 19349663 <= i32::MAX,
        i32::MIN <= (chunk_index as i32) * 83492791 <= i32::MAX,
        chunk_hash(rx, ry, chunk_index) != i32::MIN,
    ensures
        c == chunk_palette(
            (if chunk_hash(rx, ry, chunk_index) < 0 {
                -chunk_hash(rx, ry, chunk_index)
            } else {
                chunk_hash(rx, ry, chunk_index) as int
            }) % 11,
        ),
{
    let ci = chunk_index as i32;
    let h = (rx * 73856093) ^ (ry * 19349663) ^ (ci * 83492791);
    let a: u32 = if h < 0 {
        (-h) as u32
    } else {
        h as u32
    };
    let idx = (a as usize) % 11;
    palette_at(idx)
}

} // verus!
