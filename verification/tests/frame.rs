use countdown::frame::render_frame;
use countdown::raster::BitmapFont;

/// A one-column, two-row font where `1` has its top pixel set and `8` both.
fn tiny_font() -> BitmapFont {
    let mut bitmap = vec![0u8; 512];
    bitmap[b'1' as usize * 2] = 1;
    bitmap[b'8' as usize * 2] = 1;
    bitmap[b'8' as usize * 2 + 1] = 1;
    BitmapFont { font_w: 1, font_h: 2, glyphs: 256, bitmap: Box::leak(bitmap.into_boxed_slice()) }
}

const STATUS_RUNNING: &str = "[SPACE] pause  [R] reset  [Q] quit  [0-9] new time";

#[test]
fn small_frame() {
    let font = tiny_font();
    let out = render_frame(&font, "1", 10, 6, false, false, 61_000, "", false);
    let blank = format!("\x1b[0m{}", " ".repeat(10));
    let face_top = format!("\x1b[0m    \x1b[92m\u{2588}\u{2588}\x1b[0m    ");
    let face_bot = format!("\x1b[0m    \x1b[92m  \x1b[0m    ");
    let status = format!("\x1b[0m\x1b[2m{}\x1b[0m", STATUS_RUNNING);
    let expected = format!(
        "\x1b[H{}\r\n{}\r\n{}\r\n{}\r\n{}\r\n{}",
        blank, face_top, face_bot, blank, blank, status
    );
    assert_eq!(out, expected);
}

#[test]
fn half_blocks_and_colours() {
    let font = tiny_font();
    // scale 1: each terminal row shows both pixel rows of the glyph
    let out = render_frame(&font, "81", 6, 5, false, false, 10_000, "", false);
    let face = format!("\x1b[0m  \x1b[91m\u{2588}\u{2580}\x1b[0m  ");
    assert!(out.contains(&face), "{:?}", out);
    let paused = render_frame(&font, "8", 6, 5, true, false, 10_000, "", false);
    assert!(paused.contains("\x1b[36m"));
    assert!(paused.contains("PAUSED  [SPACE] resume"));
    let yellow = render_frame(&font, "8", 6, 5, false, false, 60_000, "", false);
    assert!(yellow.contains("\x1b[93m"));
    let flashing = render_frame(&font, "8", 6, 5, false, true, 0, "", true);
    assert!(flashing.contains("\x1b[97m"));
    assert!(flashing.contains("TIME'S UP!"));
    let not_flashing = render_frame(&font, "8", 6, 5, false, true, 0, "", false);
    assert!(not_flashing.contains("\x1b[91m"));
}

#[test]
fn input_row_and_centred_status() {
    let font = tiny_font();
    let out = render_frame(&font, "1", 60, 6, false, false, 61_000, "5m", false);
    let input = format!("\x1b[0m\x1b[93m  New time: 5m_\x1b[0m{}", " ".repeat(45));
    assert!(out.contains(&input), "{:?}", out);
    let status = format!("\x1b[0m\x1b[2m     {}     \x1b[0m", STATUS_RUNNING);
    assert!(out.ends_with(&status), "{:?}", out);
    assert_eq!(out.matches("\r\n").count(), 5);
}

#[test]
fn tiny_terminal() {
    let font = tiny_font();
    // a single row still shows one row of the face, unscaled
    let out = render_frame(&font, "1", 0, 1, false, false, 0, "", false);
    assert_eq!(out, "\x1b[H\x1b[0m\x1b[91m\u{2580}\x1b[0m");
    // with two rows and an empty text, the face row is empty and the status row follows
    let two = render_frame(&font, "", 0, 2, false, false, 0, "", false);
    assert_eq!(
        two,
        format!("\x1b[H\x1b[0m\x1b[91m\x1b[0m\r\n\x1b[0m\x1b[2m{}\x1b[0m", STATUS_RUNNING)
    );
    let none = render_frame(&font, "1", 5, 0, false, false, 0, "", false);
    assert_eq!(none, "\x1b[H");
}
