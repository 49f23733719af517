use vstd::prelude::*;
use vstd::arithmetic::power2::{pow2, lemma2_to64};

verus! {

/// A fixed-size bitmap font: each glyph is `font_h` bytes, one byte per pixel row,
/// with bit N of a row byte giving the pixel in column N (bit 0 is the leftmost column).
pub struct BitmapFont {
    pub font_w: usize,
    pub font_h: usize,
    pub glyphs: usize,
    pub bitmap: &'static [u8],
}

impl BitmapFont {
    /// Looking up pixel (col, row) of glyph `ch` is possible: when the pixel
    /// lies inside the glyph grid, its column fits in a row byte and its row
    /// byte lies inside the bitmap. Pixels outside the grid are never looked up.
    pub open spec fn can_read(&self, ch: u8, col: int, row: int) -> bool {
        (ch < self.glyphs && 0 <= col < self.font_w && 0 <= row < self.font_h) ==> (col < 8 && ch
            * self.font_h + row < self.bitmap@.len())
    }

    /// Whether pixel (col, row) of glyph `ch` is set; pixels outside the glyph
    /// grid, and glyphs past the end of the font, are unset.
    pub open spec fn spec_pixel(&self, ch: u8, col: int, row: int) -> bool {
        if ch >= self.glyphs || col < 0 || col >= self.font_w || row < 0 || row >= self.font_h {
            false
        } else {
            let byte: u8 = self.bitmap@[ch * self.font_h + row];
            (byte >> (col as u8)) & 1u8 != 0
        }
    }

    /// Test if pixel (col, row) within glyph `ch` is set.
    /// Bit N of byte Y = pixel at (col N, row Y), with bit 0 = leftmost column.
    pub fn pixel(&self, ch: u8, col: usize, row: usize) -> (set: bool)
        requires
            self.can_read(ch, col as int, row as int),
        ensures
            set == self.spec_pixel(ch, col as int, row as int),
    {
        if ch as usize >= self.glyphs || col >= self.font_w || row >= self.font_h {
            return false;
        }
        let len = self.bitmap.len();
        proof {
            let c = ch as int;
            let h = self.font_h as int;
            assert(c * h <= c * h + row) by (nonlinear_arith)
                requires 0 <= c, 0 <= h, 0 <= row;
            assert(len == self.bitmap@.len());
        }
        let byte = self.bitmap[ch as usize * self.font_h + row];
        let shift = col as u8;
        (byte >> shift) & 1 != 0
    }
}


/// Pixel column `col` of a glyph row is bit `col` of its byte, counting from
/// the least significant bit: the row byte divided by 2 to the power `col`
/// is odd exactly where the pixel is set, so bit 0 is the leftmost column.
pub proof fn law_pixel_is_bit(font: BitmapFont, ch: u8, col: int, row: int)
    requires
        ch < font.glyphs,
        0 <= col < font.font_w,
        col < 8,
        0 <= row < font.font_h,
    ensures
        font.spec_pixel(ch, col, row) == ((font.bitmap@[ch * font.font_h + row] as nat / pow2(
            col as nat,
        )) % 2 == 1),
{
    let b: u8 = font.bitmap@[ch * font.font_h + row];
    lemma2_to64();
    if col == 0 {
        assert(((b >> 0u8) & 1u8 != 0) == ((b / 1) % 2 == 1)) by (bit_vector);
    } else if col == 1 {
        assert(((b >> 1u8) & 1u8 != 0) == ((b / 2) % 2 == 1)) by (bit_vector);
    } else if col == 2 {
        assert(((b >> 2u8) & 1u8 != 0) == ((b / 4) % 2 == 1)) by (bit_vector);
    } else if col == 3 {
        assert(((b >> 3u8) & 1u8 != 0) == ((b / 8) % 2 == 1)) by (bit_vector);
    } else if col == 4 {
        assert(((b >> 4u8) & 1u8 != 0) == ((b / 16) % 2 == 1)) by (bit_vector);
    } else if col == 5 {
        assert(((b >> 5u8) & 1u8 != 0) == ((b / 32) % 2 == 1)) by (bit_vector);
    } else if col == 6 {
        assert(((b >> 6u8) & 1u8 != 0) == ((b / 64) % 2 == 1)) by (bit_vector);
    } else {
        assert(((b >> 7u8) & 1u8 != 0) == ((b / 128) % 2 == 1)) by (bit_vector);
    }
}

} // verus!
