//! The bitmap display: geometry, sprite rows and pixel lookups.
//!
//! The display buffer has 64 rows of 128 bits. Column `c` of a row is bit `127 - c`, so the
//! leftmost pixel is the most significant bit. In low resolution the frame is 64×32: columns
//! `0..64` (the upper half of the bits) and rows `0..32` are in use. In high resolution the frame
//! is 128×64 and the whole buffer is in use.
use vstd::prelude::*;
use vstd::string::StringExecFns;

verus! {

/// Number of rows in the display buffer.
pub const DISPLAY_ROWS: usize = 64;

/// Number of pixel columns in the given resolution.
pub open spec fn spec_screen_width(high_resolution: bool) -> usize {
    if high_resolution {
        128
    } else {
        64
    }
}

/// Number of pixel rows in the given resolution.
pub open spec fn spec_screen_height(high_resolution: bool) -> usize {
    if high_resolution {
        64
    } else {
        32
    }
}

/// The buffer row that has only column `col` lit.
pub open spec fn column_bit(col: int) -> u128 {
    1u128 << ((127 - col) as u128)
}

/// Whether column `col` is lit in the buffer row `bits`.
pub open spec fn lit(bits: u128, col: int) -> bool {
    bits & column_bit(col) != 0
}

/// What pixel `k` of a sprite row (counted from the left, `0..8`) contributes when the row is
/// placed with its leftmost pixel at column `x` of a screen `width` columns wide: its own column,
/// wrapped around the right edge, if the pixel is set, and nothing otherwise.
pub open spec fn sprite_pixel(row: u8, k: int, x: u8, width: int) -> u128 {
    if (row >> ((7 - k) as u8)) & 1u8 == 1u8 {
        column_bit((x + k) % width)
    } else {
        0u128
    }
}

/// The buffer-row mask of an 8-pixel sprite row placed at column `x`, with horizontal wraparound.
pub open spec fn sprite_mask(row: u8, x: u8, width: int) -> u128 {
    sprite_pixel(row, 0, x, width) | sprite_pixel(row, 1, x, width) | sprite_pixel(
        row,
        2,
        x,
        width,
    ) | sprite_pixel(row, 3, x, width) | sprite_pixel(row, 4, x, width) | sprite_pixel(
        row,
        5,
        x,
        width,
    ) | sprite_pixel(row, 6, x, width) | sprite_pixel(row, 7, x, width)
}

/// Whether the pixel at (`col`, `row`) of the logical frame is lit. Pixels outside the frame are
/// dark.
pub open spec fn pixel_lit(display: Seq<u128>, high_resolution: bool, col: int, row: int) -> bool {
    &&& 0 <= col < spec_screen_width(high_resolution)
    &&& 0 <= row < spec_screen_height(high_resolution)
    &&& lit(display[row], col)
}

/// Whether the pixel at (`px`, `py`) of a 128×64 host frame is lit. In high resolution the host
/// frame is the logical frame; in low resolution every logical pixel covers a 2×2 block of it.
pub open spec fn frame_lit(display: Seq<u128>, high_resolution: bool, px: int, py: int) -> bool {
    if high_resolution {
        pixel_lit(display, true, px, py)
    } else {
        0 <= px && 0 <= py && pixel_lit(display, false, px / 2, py / 2)
    }
}

/// The first `width` columns of a buffer row as text: `#` for a lit pixel, a blank for a dark
/// one.
pub open spec fn text_line(bits: u128, width: int) -> Seq<char> {
    Seq::new(
        width as nat,
        |c: int|
            if lit(bits, c) {
                '#'
            } else {
                ' '
            },
    )
}

#[verifier::when_used_as_spec(spec_screen_width)]
pub fn screen_width(high_resolution: bool) -> (w: usize)
    ensures
        w == spec_screen_width(high_resolution),
{
    if high_resolution {
        128
    } else {
        64
    }
}

#[verifier::when_used_as_spec(spec_screen_height)]
pub fn screen_height(high_resolution: bool) -> (h: usize)
    ensures
        h == spec_screen_height(high_resolution),
{
    if high_resolution {
        64
    } else {
        32
    }
}

/// Places an 8-pixel sprite row at column `x` of the buffer row, wrapping at the right edge of
/// the screen.
pub fn position_sprite_row(row: u8, x: u8, high_resolution: bool) -> (mask: u128)
    ensures
        mask == sprite_mask(row, x, spec_screen_width(high_resolution) as int),
{
    if high_resolution {
        let s: u32 = (x as u32 + 8) % 128;
        let v: u128 = row as u128;
        let mask: u128 = if s == 0 {
            v
        } else {
            (v << (128 - s)) | (v >> s)
        };
        assert({
            &&& s == (x + 8) % 128
            &&& v == row as u128
            &&& s == 0 ==> mask == v
            &&& s != 0 ==> mask == (v << ((128 - s) as u128)) | (v >> (s as u128))
        } ==> mask == sprite_mask(row, x, 128)) by (bit_vector);
        mask
    } else {
        let s: u32 = (x as u32 + 8) % 64;
        let v: u64 = row as u64;
        let rotated: u64 = if s == 0 {
            v
        } else {
            (v << (64 - s)) | (v >> s)
        };
        let mask: u128 = (rotated as u128) << 64;
        assert({
            &&& s == (x + 8) % 64
            &&& v == row as u64
            &&& s == 0 ==> rotated == v
            &&& s != 0 ==> rotated == (v << ((64 - s) as u64)) | (v >> (s as u64))
            &&& mask == (rotated as u128) << 64u128
        } ==> mask == sprite_mask(row, x, 64)) by (bit_vector);
        mask
    }
}

/// Looks up one pixel of the logical frame.
pub fn pixel(display: &[u128; 64], high_resolution: bool, col: usize, row: usize) -> (on: bool)
    ensures
        on == pixel_lit(display@, high_resolution, col as int, row as int),
{
    if col < screen_width(high_resolution) && row < screen_height(high_resolution) {
        let bits: u128 = display[row];
        let shift: u32 = 127 - col as u32;
        assert(shift == 127 - col);
        bits & (1u128 << shift) != 0
    } else {
        false
    }
}

/// Looks up one pixel of a 128×64 host frame.
pub fn frame_pixel(display: &[u128; 64], high_resolution: bool, px: u32, py: u32) -> (on: bool)
    ensures
        on == frame_lit(display@, high_resolution, px as int, py as int),
{
    if high_resolution {
        pixel(display, true, px as usize, py as usize)
    } else {
        pixel(display, false, (px / 2) as usize, (py / 2) as usize)
    }
}

/// Renders the first `width` columns of a buffer row as text.
pub fn render_line(bits: u128, width: usize) -> (line: String)
    requires
        width <= 128,
    ensures
        line@ == text_line(bits, width as int),
{
    let mut line = String::new();
    let mut c: usize = 0;
    assert(line@ =~= text_line(bits, 0));
    while c < width
        invariant
            c <= width <= 128,
            line@ == text_line(bits, c as int),
        decreases width - c,
    {
        proof {
            reveal_strlit("#");
            reveal_strlit(" ");
        }
        let shift: u32 = 127 - c as u32;
        if bits & (1u128 << shift) != 0 {
            line.append("#");
        } else {
            line.append(" ");
        }
        c += 1;
        assert(line@ =~= text_line(bits, c as int));
    }
    line
}

/// Renders the logical frame as text, one line for each pixel row.
pub fn render_text(display: &[u128; 64], high_resolution: bool) -> (lines: Vec<String>)
    ensures
        lines@.len() == spec_screen_height(high_resolution),
        forall|r: int|
            0 <= r < lines@.len() ==> (#[trigger] lines@[r])@ == text_line(
                display@[r],
                spec_screen_width(high_resolution) as int,
            ),
{
    let width = screen_width(high_resolution);
    let height = screen_height(high_resolution);
    let mut lines: Vec<String> = Vec::new();
    let mut r: usize = 0;
    while r < height
        invariant
            r <= height <= 64,
            width == spec_screen_width(high_resolution),
            height == spec_screen_height(high_resolution),
            lines@.len() == r,
            forall|k: int|
                0 <= k < r ==> (#[trigger] lines@[k])@ == text_line(display@[k], width as int),
        decreases height - r,
    {
        lines.push(render_line(display[r], width));
        r += 1;
    }
    lines
}

} // verus!
