use countdown::raster::BitmapFont;

fn two_glyph_font() -> BitmapFont {
    BitmapFont {
        font_w: 8,
        font_h: 2,
        glyphs: 2,
        bitmap: &[0b0000_0001, 0b1000_0000, 0b0000_0100, 0b0000_0000],
    }
}

#[test]
fn pixel_reads_bits_from_the_left() {
    let f = two_glyph_font();
    assert!(f.pixel(0, 0, 0));
    assert!(!f.pixel(0, 1, 0));
    assert!(f.pixel(0, 7, 1));
    assert!(!f.pixel(0, 0, 1));
    assert!(f.pixel(1, 2, 0));
    assert!(!f.pixel(1, 2, 1));
}

#[test]
fn pixel_outside_the_font_is_unset() {
    let f = two_glyph_font();
    assert!(!f.pixel(2, 0, 0));
    assert!(!f.pixel(255, 0, 0));
    assert!(!f.pixel(0, 8, 0));
    assert!(!f.pixel(0, 0, 2));
    assert!(!f.pixel(0, usize::MAX, usize::MAX));
}

#[test]
fn pixel_outside_the_grid_needs_no_bitmap() {
    let empty = BitmapFont { font_w: 8, font_h: 16, glyphs: 256, bitmap: &[] };
    assert!(!empty.pixel(0, 8, 0));
    assert!(!empty.pixel(0, 0, 16));
    let wide = BitmapFont { font_w: 12, font_h: 1, glyphs: 1, bitmap: &[0b1000_0001] };
    assert!(wide.pixel(0, 0, 0));
    assert!(wide.pixel(0, 7, 0));
    assert!(!wide.pixel(0, 6, 0));
    assert!(!wide.pixel(1, 0, 0));
    assert!(!wide.pixel(0, 12, 0));
}
