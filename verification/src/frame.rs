use vstd::prelude::*;
use crate::raster::BitmapFont;
use vstd::string::StringSliceAdditionalSpecFns;
use vstd::arithmetic::div_mod::{
    lemma_fundamental_div_mod_converse, lemma_fundamental_div_mod, lemma_mod_bound,
};

verus! {

// ── What a frame holds ─────────────────────────────────────────────────────

/// `a - b`, or zero when `b` exceeds `a`, as `usize::saturating_sub` gives it.
pub open spec fn sat_sub(a: int, b: int) -> int {
    if a >= b {
        a - b
    } else {
        0
    }
}

/// `n` spaces.
pub open spec fn spaces(n: int) -> Seq<char> {
    Seq::new(n as nat, |i: int| ' ')
}

/// The size of the clock face for `n` characters of text in a `cols` by `rows`
/// terminal: `(scale, disp_cols, disp_rows, margin_left, margin_top)`. Each
/// font pixel is `scale` columns wide and half a terminal row per `scale`
/// (two pixel rows share a row through half blocks); the face keeps two
/// columns and two rows of border on each side and is centred, with the two
/// bottom rows kept for the input and status lines.
pub open spec fn layout(font: BitmapFont, n: int, cols: int, rows: int) -> (int, int, int, int, int) {
    let fw = font.font_w as int;
    let fh = font.font_h as int;
    let text_px_w = n * fw;
    let avail_cols = sat_sub(cols, 4);
    let avail_rows = sat_sub(rows, 4);
    let scale_x = if text_px_w > 0 {
        avail_cols / text_px_w
    } else {
        1
    };
    let scale_y = if fh > 0 {
        avail_rows * 2 / fh
    } else {
        1
    };
    let lower = if scale_x <= scale_y {
        scale_x
    } else {
        scale_y
    };
    let scale = if lower >= 1 {
        lower
    } else {
        1
    };
    let disp_cols = text_px_w * scale;
    let disp_rows = fh * scale / 2;
    let margin_left = sat_sub(cols, disp_cols) / 2;
    let margin_top = sat_sub(rows, disp_rows + 2) / 2;
    (scale, disp_cols, disp_rows, margin_left, margin_top)
}

/// The half-block character for a terminal cell whose upper and lower halves
/// are the given font pixels.
pub open spec fn block_char(top: bool, bot: bool) -> char {
    if top && bot {
        '\u{2588}'
    } else if top {
        '\u{2580}'
    } else if bot {
        '\u{2584}'
    } else {
        ' '
    }
}

/// The character in column `tc` of row `dy` of the clock face drawn from the
/// bytes `text` at the given scale.
pub open spec fn cell_char(font: BitmapFont, text: Seq<u8>, scale: int, dy: int, tc: int) -> char {
    let fw = font.font_w as int;
    let char_idx = tc / (fw * scale);
    if char_idx >= text.len() {
        ' '
    } else {
        let ch = text[char_idx];
        let col = (tc / scale) % fw;
        block_char(
            font.spec_pixel(ch, col, (dy * 2) / scale),
            font.spec_pixel(ch, col, (dy * 2 + 1) / scale),
        )
    }
}

/// The colour of the clock face: flashing white and red once finished, cyan
/// while paused, red in the last ten seconds, yellow in the last minute,
/// green otherwise (seconds rounded up).
pub open spec fn color_of(paused: bool, finished: bool, remaining_ms: int, flash_on: bool) -> Seq<
    char,
> {
    let secs = (remaining_ms + 999) / 1000;
    if finished {
        if flash_on {
            "\x1b[97m"@
        } else {
            "\x1b[91m"@
        }
    } else if paused {
        "\x1b[36m"@
    } else if secs <= 10 {
        "\x1b[91m"@
    } else if secs <= 60 {
        "\x1b[93m"@
    } else {
        "\x1b[92m"@
    }
}

/// The key help shown on the bottom row.
pub open spec fn status_of(paused: bool, finished: bool) -> &'static str {
    if finished {
        "TIME'S UP!  [R] reset  [Q] quit  [0-9] new time"
    } else if paused {
        "PAUSED  [SPACE] resume  [R] reset  [Q] quit  [0-9] new time"
    } else {
        "[SPACE] pause  [R] reset  [Q] quit  [0-9] new time"
    }
}

/// One row of the clock face, `dy` half-block rows from its top: border
/// spaces, then the face in `color`, then spaces to the end of the line.
pub open spec fn glyph_row(
    font: BitmapFont,
    text: Seq<u8>,
    cols: int,
    scale: int,
    disp_cols: int,
    margin_left: int,
    color: Seq<char>,
    dy: int,
) -> Seq<char> {
    "\x1b[0m"@ + spaces(margin_left) + color + Seq::new(
        disp_cols as nat,
        |tc: int| cell_char(font, text, scale, dy, tc),
    ) + "\x1b[0m"@ + spaces(sat_sub(cols, margin_left + disp_cols))
}

/// The row that echoes a new time being typed (`input_len` is its length in
/// bytes), or a blank row when nothing is being typed.
pub open spec fn input_row(input: Seq<char>, input_len: int, cols: int) -> Seq<char> {
    if input.len() > 0 {
        let msg_len = "  New time: ".spec_bytes().len() + input_len + "_".spec_bytes().len();
        "\x1b[0m"@ + "\x1b[93m"@ + "  New time: "@ + input + "_"@ + "\x1b[0m"@ + spaces(
            sat_sub(cols, msg_len),
        )
    } else {
        "\x1b[0m"@ + spaces(cols)
    }
}

/// The dimmed, centred key help on the bottom row.
pub open spec fn status_row(paused: bool, finished: bool, cols: int) -> Seq<char> {
    let status = status_of(paused, finished);
    let len = status.spec_bytes().len() as int;
    let pad_l = sat_sub(cols, len) / 2;
    "\x1b[0m\x1b[2m"@ + spaces(pad_l) + status@ + spaces(sat_sub(cols, pad_l + len)) + "\x1b[0m"@
}

/// A row with nothing on it.
pub open spec fn blank_row(cols: int) -> Seq<char> {
    "\x1b[0m"@ + spaces(cols)
}

/// Row `tr` of the frame: a row of the clock face, the input row second from
/// the bottom, the key help at the bottom, or blank.
pub open spec fn row_text(
    font: BitmapFont,
    text: Seq<u8>,
    cols: int,
    rows: int,
    color: Seq<char>,
    input_line: Seq<char>,
    status_line: Seq<char>,
    tr: int,
) -> Seq<char> {
    let (scale, disp_cols, disp_rows, margin_left, margin_top) = layout(
        font,
        text.len() as int,
        cols,
        rows,
    );
    if margin_top <= tr < margin_top + disp_rows {
        glyph_row(font, text, cols, scale, disp_cols, margin_left, color, tr - margin_top)
    } else if tr == sat_sub(rows, 2) {
        input_line
    } else if tr == sat_sub(rows, 1) {
        status_line
    } else {
        blank_row(cols)
    }
}

/// The first `k` rows of the frame after the cursor-home sequence, rows
/// separated by CR LF.
pub open spec fn frame_rows(
    font: BitmapFont,
    text: Seq<u8>,
    cols: int,
    rows: int,
    color: Seq<char>,
    input_line: Seq<char>,
    status_line: Seq<char>,
    k: int,
) -> Seq<char>
    decreases k,
{
    if k <= 0 {
        "\x1b[H"@
    } else {
        frame_rows(font, text, cols, rows, color, input_line, status_line, k - 1) + row_text(
            font,
            text,
            cols,
            rows,
            color,
            input_line,
            status_line,
            k - 1,
        ) + if k < rows {
            "\r\n"@
        } else {
            Seq::empty()
        }
    }
}

/// The whole frame drawn for the clock face `text` (its bytes) in a `cols` by
/// `rows` terminal.
pub open spec fn spec_frame(
    font: BitmapFont,
    text: Seq<u8>,
    cols: int,
    rows: int,
    paused: bool,
    finished: bool,
    remaining_ms: int,
    input: Seq<char>,
    input_len: int,
    flash_on: bool,
) -> Seq<char> {
    frame_rows(
        font,
        text,
        cols,
        rows,
        color_of(paused, finished, remaining_ms, flash_on),
        input_row(input, input_len, cols),
        status_row(paused, finished, cols),
        rows,
    )
}

/// Every pixel lookup that row `dy` of the face makes is possible: for each
/// byte of the text and each column of its glyph, the two pixel rows that
/// the terminal row shows.
pub open spec fn row_reads_ok(font: BitmapFont, text: Seq<u8>, scale: int, dy: int) -> bool {
    forall|i: int, col: int|
        0 <= i < text.len() && 0 <= col < font.font_w ==> #[trigger] font.can_read(
            text[i],
            col,
            (dy * 2) / scale,
        ) && font.can_read(text[i], col, (dy * 2 + 1) / scale)
}

/// Every pixel lookup that drawing the face makes is possible: the rows of the
/// face that fall on the screen read only pixels that can be read.
pub open spec fn frame_reads_ok(font: BitmapFont, text: Seq<u8>, cols: int, rows: int) -> bool {
    let (scale, disp_cols, disp_rows, margin_left, margin_top) = layout(
        font,
        text.len() as int,
        cols,
        rows,
    );
    forall|dy: int|
        0 <= dy < disp_rows && margin_top + dy < rows ==> #[trigger] row_reads_ok(
            font,
            text,
            scale,
            dy,
        )
}

/// The sizes for which drawing a frame stays within machine integers: the
/// text's width in pixels, twice the rows available to the face, the six bytes
/// per cell that the frame is sized for, and the time left rounded up to whole
/// seconds.
pub open spec fn frame_fits(font: BitmapFont, n: int, cols: int, rows: int, remaining_ms: int) -> bool {
    &&& n * font.font_w <= usize::MAX
    &&& cols * rows * 6 <= usize::MAX
    &&& sat_sub(rows, 4) * 2 <= usize::MAX
    &&& remaining_ms + 999 <= u64::MAX
}

fn color_str(paused: bool, finished: bool, remaining_ms: u64, flash_on: bool) -> (r: &'static str)
    requires
        remaining_ms + 999 <= u64::MAX,
    ensures
        r@ == color_of(paused, finished, remaining_ms as int, flash_on),
{
    let remaining_secs = (remaining_ms + 999) / 1000;
    if finished {
        if flash_on {
            "\x1b[97m"
        } else {
            "\x1b[91m"
        }
    } else if paused {
        "\x1b[36m"
    } else if remaining_secs <= 10 {
        "\x1b[91m"
    } else if remaining_secs <= 60 {
        "\x1b[93m"
    } else {
        "\x1b[92m"
    }
}

fn block_str(top: bool, bot: bool) -> (r: &'static str)
    ensures
        r@ == seq![block_char(top, bot)],
{
    proof {
        reveal_strlit("\u{2588}");
        reveal_strlit("\u{2580}");
        reveal_strlit("\u{2584}");
        reveal_strlit(" ");
    }
    match (top, bot) {
        (true, true) => "\u{2588}",
        (true, false) => "\u{2580}",
        (false, true) => "\u{2584}",
        (false, false) => " ",
    }
}

fn push_spaces(buf: &mut String, n: usize)
    ensures
        final(buf)@ == old(buf)@ + spaces(n as int),
{
    proof {
        reveal_strlit(" ");
    }
    let mut i: usize = 0;
    while i < n
        invariant
            i <= n,
            buf@ == old(buf)@ + spaces(i as int),
        decreases n - i,
    {
        let ghost before = buf@;
        buf.append(" ");
        proof {
            reveal_strlit(" ");
            assert(before + seq![' '] =~= old(buf)@ + spaces(i + 1));
        }
        i = i + 1;
    }
}


fn status_str(paused: bool, finished: bool) -> (r: &'static str)
    ensures
        r == status_of(paused, finished),
{
    if finished {
        "TIME'S UP!  [R] reset  [Q] quit  [0-9] new time"
    } else if paused {
        "PAUSED  [SPACE] resume  [R] reset  [Q] quit  [0-9] new time"
    } else {
        "[SPACE] pause  [R] reset  [Q] quit  [0-9] new time"
    }
}

proof fn lemma_scaled_fits(w: int, scale: int, q: int, bound: int)
    requires
        w > 0,
        1 <= scale <= q,
        q == bound / w,
        bound >= 0,
    ensures
        w * scale <= bound,
{
    assert(w * scale <= w * q) by (nonlinear_arith)
        requires w > 0, scale <= q;
    assert(w * q <= bound) by (nonlinear_arith)
        requires w > 0, q == bound / w, bound >= 0;
}

fn face_layout(font: &BitmapFont, n: usize, cols: usize, rows: usize) -> (r: (
    usize,
    usize,
    usize,
    usize,
    usize,
))
    requires
        n * font.font_w <= usize::MAX,
        sat_sub(rows as int, 4) * 2 <= usize::MAX,
    ensures
        (r.0 as int, r.1 as int, r.2 as int, r.3 as int, r.4 as int) == layout(
            *font,
            n as int,
            cols as int,
            rows as int,
        ),
        r.0 >= 1,
        r.3 + r.1 <= usize::MAX,
        r.4 + r.2 <= usize::MAX,
        r.2 * 2 <= font.font_h * r.0 <= usize::MAX,
        r.1 > 0 ==> (n >= 1 && font.font_w >= 1 && font.font_w * r.0 <= r.1),
{
    let fw = font.font_w;
    let fh = font.font_h;
    let text_px_w = n * fw;
    let avail_cols = cols.saturating_sub(4);
    let avail_rows = rows.saturating_sub(4);
    let scale_x = if text_px_w > 0 {
        avail_cols / text_px_w
    } else {
        1
    };
    let scale_y = if fh > 0 {
        avail_rows * 2 / fh
    } else {
        1
    };
    let lower = if scale_x <= scale_y {
        scale_x
    } else {
        scale_y
    };
    let scale = if lower >= 1 {
        lower
    } else {
        1
    };
    proof {
        if text_px_w > 0 && scale > 1 {
            lemma_scaled_fits(text_px_w as int, scale as int, scale_x as int, avail_cols as int);
        }
        if text_px_w == 0 {
            assert(text_px_w * scale == 0);
        }
        if fh > 0 && scale > 1 {
            lemma_scaled_fits(fh as int, scale as int, scale_y as int, avail_rows * 2);
        }
        if fh == 0 {
            assert(fh * scale == 0);
        }
    }
    let disp_cols = text_px_w * scale;
    let fh_scaled = fh * scale;
    let disp_rows = fh_scaled / 2;
    let margin_left = cols.saturating_sub(disp_cols) / 2;
    let margin_top = rows.saturating_sub(disp_rows + 2) / 2;
    proof {
        if disp_cols > 0 {
            assert(n >= 1 && fw >= 1) by (nonlinear_arith)
                requires text_px_w == n * fw, disp_cols == text_px_w * scale, disp_cols > 0,
                    n >= 0, fw >= 0, scale >= 1;
            assert(fw * scale <= n * fw * scale) by (nonlinear_arith)
                requires n >= 1, fw >= 0, scale >= 1;
        }
    }
    (scale, disp_cols, disp_rows, margin_left, margin_top)
}

fn push_glyph_row(
    buf: &mut String,
    font: &BitmapFont,
    text: &[u8],
    cols: usize,
    scale: usize,
    disp_cols: usize,
    margin_left: usize,
    color: &str,
    dy: usize,
)
    requires
        row_reads_ok(*font, text@, scale as int, dy as int),
        scale >= 1,
        disp_cols == text@.len() * font.font_w * scale,
        disp_cols > 0 ==> (font.font_w >= 1 && font.font_w * scale <= disp_cols),
        margin_left + disp_cols <= usize::MAX,
        dy * 2 + 1 <= usize::MAX,
    ensures
        final(buf)@ == old(buf)@ + glyph_row(
            *font,
            text@,
            cols as int,
            scale as int,
            disp_cols as int,
            margin_left as int,
            color@,
            dy as int,
        ),
{
    let fw = font.font_w;
    let num_chars = text.len();
    buf.append("\x1b[0m");
    push_spaces(buf, margin_left);
    buf.append(color);
    let ghost start = buf@;
    let top_py = dy * 2;
    let bot_py = dy * 2 + 1;
    let mut tc: usize = 0;
    while tc < disp_cols
        invariant
            row_reads_ok(*font, text@, scale as int, dy as int),
            fw == font.font_w,
            num_chars == text@.len(),
            scale >= 1,
            disp_cols > 0 ==> (fw >= 1 && fw * scale <= disp_cols),
            top_py == dy * 2,
            bot_py == dy * 2 + 1,
            tc <= disp_cols,
            buf@ == start + Seq::new(
                tc as nat,
                |j: int| cell_char(*font, text@, scale as int, dy as int, j),
            ),
        decreases disp_cols - tc,
    {
        proof {
            assert(fw * scale >= 1) by (nonlinear_arith)
                requires fw >= 1, scale >= 1;
        }
        let char_idx = tc / (fw * scale);
        let font_px = (tc / scale) % fw;
        let font_py_top = top_py / scale;
        let font_py_bot = bot_py / scale;
        let ghost before = buf@;
        if char_idx >= num_chars {
            proof {
                reveal_strlit(" ");
            }
            buf.append(" ");
        } else {
            let ch = text[char_idx];
            proof {
                assert(font.can_read(text@[char_idx as int], font_px as int, (dy * 2) / (
                scale as int)));
            }
            let top = font.pixel(ch, font_px, font_py_top);
            let bot = font.pixel(ch, font_px, font_py_bot);
            buf.append(block_str(top, bot));
        }
        proof {
            assert(buf@ == before + seq![cell_char(*font, text@, scale as int, dy as int, tc as int)]);
            assert(start + Seq::new(
                (tc + 1) as nat,
                |j: int| cell_char(*font, text@, scale as int, dy as int, j),
            ) =~= before + seq![cell_char(*font, text@, scale as int, dy as int, tc as int)]);
        }
        tc = tc + 1;
    }
    buf.append("\x1b[0m");
    let used = margin_left + disp_cols;
    let pad = cols.saturating_sub(used);
    push_spaces(buf, pad);
    proof {
        assert(buf@ =~= old(buf)@ + glyph_row(
            *font,
            text@,
            cols as int,
            scale as int,
            disp_cols as int,
            margin_left as int,
            color@,
            dy as int,
        ));
    }
}

fn push_input_row(buf: &mut String, input: &str, cols: usize)
    ensures
        final(buf)@ == old(buf)@ + input_row(input@, input.spec_bytes().len() as int, cols as int),
{
    buf.append("\x1b[0m");
    if !input.is_empty() {
        buf.append("\x1b[93m");
        buf.append("  New time: ");
        buf.append(input);
        buf.append("_");
        buf.append("\x1b[0m");
        let msg_len = "  New time: ".as_bytes().len().saturating_add(input.as_bytes().len()).saturating_add(
            "_".as_bytes().len(),
        );
        push_spaces(buf, cols.saturating_sub(msg_len));
    } else {
        push_spaces(buf, cols);
    }
    proof {
        assert(buf@ =~= old(buf)@ + input_row(input@, input.spec_bytes().len() as int, cols as int));
    }
}

fn push_status_row(buf: &mut String, paused: bool, finished: bool, cols: usize)
    ensures
        final(buf)@ == old(buf)@ + status_row(paused, finished, cols as int),
{
    buf.append("\x1b[0m\x1b[2m");
    let status = status_str(paused, finished);
    let len = status.as_bytes().len();
    let pad_l = cols.saturating_sub(len) / 2;
    push_spaces(buf, pad_l);
    buf.append(status);
    let used = pad_l + len;
    push_spaces(buf, cols.saturating_sub(used));
    buf.append("\x1b[0m");
    proof {
        assert(buf@ =~= old(buf)@ + status_row(paused, finished, cols as int));
    }
}

/// Draws one frame of the countdown: the clock face `text` in large half-block
/// digits from `font`, centred and coloured by the timer's state, the new time
/// being typed second from the bottom, and the key help at the bottom.
pub fn render_frame(
    font: &BitmapFont,
    text: &str,
    cols: usize,
    rows: usize,
    paused: bool,
    finished: bool,
    remaining_ms: u64,
    input_buf: &str,
    flash_on: bool,
) -> (out: String)
    requires
        frame_reads_ok(*font, text.spec_bytes(), cols as int, rows as int),
        frame_fits(
            *font,
            text.spec_bytes().len() as int,
            cols as int,
            rows as int,
            remaining_ms as int,
        ),
    ensures
        out@ == spec_frame(
            *font,
            text.spec_bytes(),
            cols as int,
            rows as int,
            paused,
            finished,
            remaining_ms as int,
            input_buf@,
            input_buf.spec_bytes().len() as int,
            flash_on,
        ),
{
    let text_bytes = text.as_bytes();
    let num_chars = text_bytes.len();
    let (scale, disp_cols, disp_rows, margin_left, margin_top) = face_layout(
        font,
        num_chars,
        cols,
        rows,
    );
    let color = color_str(paused, finished, remaining_ms, flash_on);
    let ghost input_line = input_row(input_buf@, input_buf.spec_bytes().len() as int, cols as int);
    let ghost status_line = status_row(paused, finished, cols as int);
    let mut buf = String::new();
    buf.append("\x1b[H");
    let mut tr: usize = 0;
    while tr < rows
        invariant
            frame_reads_ok(*font, text_bytes@, cols as int, rows as int),
            text_bytes@ == text.spec_bytes(),
            num_chars == text_bytes@.len(),
            (scale as int, disp_cols as int, disp_rows as int, margin_left as int, margin_top as int)
                == layout(*font, num_chars as int, cols as int, rows as int),
            scale >= 1,
            margin_left + disp_cols <= usize::MAX,
            margin_top + disp_rows <= usize::MAX,
            disp_rows * 2 <= font.font_h * scale <= usize::MAX,
            disp_cols > 0 ==> (font.font_w >= 1 && font.font_w * scale <= disp_cols),
            color@ == color_of(paused, finished, remaining_ms as int, flash_on),
            input_line == input_row(input_buf@, input_buf.spec_bytes().len() as int, cols as int),
            status_line == status_row(paused, finished, cols as int),
            tr <= rows,
            buf@ == frame_rows(
                *font,
                text_bytes@,
                cols as int,
                rows as int,
                color@,
                input_line,
                status_line,
                tr as int,
            ),
        decreases rows - tr,
    {
        let ghost before = buf@;
        if tr >= margin_top && tr < margin_top + disp_rows {
            let dy = tr - margin_top;
            proof {
                assert(disp_cols == num_chars * font.font_w * scale);
                assert(row_reads_ok(*font, text_bytes@, scale as int, dy as int));
            }
            push_glyph_row(
                &mut buf,
                font,
                text_bytes,
                cols,
                scale,
                disp_cols,
                margin_left,
                color,
                dy,
            );
        } else if tr == rows.saturating_sub(2) {
            push_input_row(&mut buf, input_buf, cols);
        } else if tr == rows.saturating_sub(1) {
            push_status_row(&mut buf, paused, finished, cols);
        } else {
            buf.append("\x1b[0m");
            push_spaces(&mut buf, cols);
        }
        let ghost row = buf@;
        if tr + 1 < rows {
            buf.append("\r\n");
        }
        proof {
            assert(row =~= before + row_text(
                *font,
                text_bytes@,
                cols as int,
                rows as int,
                color@,
                input_line,
                status_line,
                tr as int,
            ));
            assert(buf@ =~= frame_rows(
                *font,
                text_bytes@,
                cols as int,
                rows as int,
                color@,
                input_line,
                status_line,
                tr + 1,
            ));
        }
        tr = tr + 1;
    }
    buf
}


// ── Laws ───────────────────────────────────────────────────────────────────

proof fn lemma_quotient_bounds(a: int, w: int)
    requires
        a >= 0,
        w > 0,
    ensures
        w * (a / w) <= a < w * (a / w + 1),
        a / w >= 0,
{
    lemma_fundamental_div_mod(a, w);
    lemma_mod_bound(a, w);
    assert(w * (a / w + 1) == w * (a / w) + w) by (nonlinear_arith);
    assert(a / w >= 0) by (nonlinear_arith)
        requires a >= 0, w > 0;
}

/// The face is as large as fits and is centred. Its scale is at least 1;
/// above 1 the face fits within the terminal less a border of two columns
/// and two rows on each side (two pixel rows to a terminal row), and one step
/// larger would not fit; text without width or a font without height is drawn
/// at scale 1. Left and top margins split the space left over evenly (any odd
/// column or row going to the right or bottom), the top counting the two rows
/// kept below the face; a face larger than the screen starts at its corner.
pub proof fn law_face_fits_and_is_centred(font: BitmapFont, n: int, cols: int, rows: int)
    requires
        n >= 0,
        cols >= 0,
        rows >= 0,
    ensures
        ({
            let (scale, disp_cols, disp_rows, margin_left, margin_top) = layout(font, n, cols, rows);
            let w = n * font.font_w;
            let h = font.font_h as int;
            let avail_cols = if cols >= 4 { cols - 4 } else { 0 };
            let avail_rows = if rows >= 4 { rows - 4 } else { 0 };
            &&& scale >= 1
            &&& disp_cols == w * scale
            &&& disp_rows == (h * scale) / 2
            &&& scale > 1 ==> w * scale <= avail_cols && h * scale <= 2 * avail_rows
            &&& w > 0 && h > 0 ==> w * (scale + 1) > avail_cols || h * (scale + 1) > 2 * avail_rows
            &&& w == 0 || h == 0 ==> scale == 1
            &&& disp_cols <= cols ==> 2 * margin_left <= cols - disp_cols <= 2 * margin_left + 1
            &&& disp_cols > cols ==> margin_left == 0
            &&& disp_rows + 2 <= rows ==> 2 * margin_top <= rows - disp_rows - 2 <= 2 * margin_top + 1
            &&& disp_rows + 2 > rows ==> margin_top == 0
        }),
{
    let fw = font.font_w as int;
    let w = n * fw;
    let h = font.font_h as int;
    let avail_cols = if cols >= 4 { cols - 4 } else { 0 };
    let avail_rows = if rows >= 4 { rows - 4 } else { 0 };
    assert(w >= 0) by (nonlinear_arith)
        requires n >= 0, fw >= 0, w == n * fw;
    if w > 0 {
        lemma_quotient_bounds(avail_cols, w);
    }
    if h > 0 {
        lemma_quotient_bounds(avail_rows * 2, h);
    }
    let (scale, disp_cols, disp_rows, margin_left, margin_top) = layout(font, n, cols, rows);
    let sx = if w > 0 { avail_cols / w } else { 1 };
    let sy = if h > 0 { avail_rows * 2 / h } else { 1 };
    if scale > 1 {
        if w > 0 {
            assert(w * scale <= w * sx) by (nonlinear_arith)
                requires w > 0, scale <= sx;
        } else {
            assert(w * scale == 0);
        }
        if h > 0 {
            assert(h * scale <= h * sy) by (nonlinear_arith)
                requires h > 0, scale <= sy;
        } else {
            assert(h * scale == 0);
        }
    }
    if w > 0 && h > 0 {
        if sx <= sy {
            assert(w * (scale + 1) >= w * (sx + 1)) by (nonlinear_arith)
                requires w > 0, scale >= sx;
        } else {
            assert(h * (scale + 1) >= h * (sy + 1)) by (nonlinear_arith)
                requires h > 0, scale >= sy;
        }
    }
}


/// The face draws its text left to right, each glyph left to right: in row
/// `dy` of the face, the `k`-th of the `scale` cells given to pixel column `c`
/// of character `j` (counted from the face's left edge, after the border
/// spaces and the colour code) shows that column's two pixel rows of
/// character `j`'s glyph, upper half above lower half.
pub proof fn law_face_left_to_right(
    font: BitmapFont,
    text: Seq<u8>,
    cols: int,
    scale: int,
    margin_left: int,
    color: Seq<char>,
    dy: int,
    j: int,
    c: int,
    k: int,
)
    requires
        scale >= 1,
        margin_left >= 0,
        0 <= j < text.len(),
        0 <= c < font.font_w,
        0 <= k < scale,
    ensures
        ({
            let fw = font.font_w as int;
            let disp_cols = text.len() * fw * scale;
            let row = glyph_row(font, text, cols, scale, disp_cols, margin_left, color, dy);
            let face_start = "\x1b[0m"@.len() + margin_left + color.len();
            let top = font.spec_pixel(text[j], c, (dy * 2) / scale);
            let bot = font.spec_pixel(text[j], c, (dy * 2 + 1) / scale);
            &&& row[face_start + j * fw * scale + c * scale + k] == if top && bot {
                '\u{2588}'
            } else if top {
                '\u{2580}'
            } else if bot {
                '\u{2584}'
            } else {
                ' '
            }
        }),
{
    let fw = font.font_w as int;
    let n = text.len() as int;
    let disp_cols = n * fw * scale;
    let t = j * fw * scale + c * scale + k;
    assert(c * scale + k < fw * scale) by (nonlinear_arith)
        requires c < fw, k < scale, 0 <= c, 0 <= k;
    assert(0 <= c * scale + k) by (nonlinear_arith)
        requires 0 <= c, 0 <= k, scale >= 1;
    assert(t == j * (fw * scale) + (c * scale + k)) by (nonlinear_arith)
        requires t == j * fw * scale + c * scale + k;
    lemma_fundamental_div_mod_converse(t, fw * scale, j, c * scale + k);
    assert(t == (j * fw + c) * scale + k) by (nonlinear_arith)
        requires t == j * fw * scale + c * scale + k;
    lemma_fundamental_div_mod_converse(t, scale, j * fw + c, k);
    lemma_fundamental_div_mod_converse(j * fw + c, fw, j, c);
    let w = fw * scale;
    assert((j + 1) * w <= n * w) by (nonlinear_arith)
        requires j + 1 <= n, w >= 0;
    assert(n * w == disp_cols) by (nonlinear_arith)
        requires w == fw * scale, disp_cols == n * fw * scale;
    assert(t < disp_cols) by (nonlinear_arith)
        requires t == j * w + (c * scale + k), c * scale + k < w, (j + 1) * w <= n * w,
            n * w == disp_cols;
    assert(0 <= t) by (nonlinear_arith)
        requires t == j * (fw * scale) + (c * scale + k), 0 <= c * scale + k, 0 <= j, fw * scale >= 0;
    let cells = Seq::new(disp_cols as nat, |x: int| cell_char(font, text, scale, dy, x));
    let row = glyph_row(font, text, cols, scale, disp_cols, margin_left, color, dy);
    let pre = "\x1b[0m"@ + spaces(margin_left) + color;
    assert(row == pre + cells + "\x1b[0m"@ + spaces(sat_sub(cols, margin_left + disp_cols)));
    assert(pre.len() == "\x1b[0m"@.len() + margin_left + color.len());
    assert(row[pre.len() + t] == cells[t]);
}

} // verus!
