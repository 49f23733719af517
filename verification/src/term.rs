use vstd::prelude::*;

verus! {

// `termios` input flags
pub const BRKINT: u32 = 0o2;
pub const ICRNL: u32 = 0o400;
pub const INPCK: u32 = 0o20;
pub const ISTRIP: u32 = 0o40;
pub const IXON: u32 = 0o2000;

// `termios` output flags
pub const OPOST: u32 = 0o1;

// `termios` control flags
pub const CS8: u32 = 0o60;

// `termios` local flags
pub const ECHO: u32 = 0o10;
pub const ICANON: u32 = 0o2;
pub const ISIG: u32 = 0o1;
pub const IEXTEN: u32 = 0o100000;

// `termios` control-character indices
pub const VTIME: usize = 5;
pub const VMIN: usize = 6;

/// The mode flags of a terminal's `termios` settings.
pub struct ModeFlags {
    pub iflag: u32,
    pub oflag: u32,
    pub cflag: u32,
    pub lflag: u32,
}

/// The flags of raw mode derived from `flags`: no break signal, CR-to-NL
/// translation, parity check, eighth-bit stripping or flow control on input;
/// no output processing; eight-bit characters; no echo, line editing,
/// extended input processing or signals from keys. Every other bit is kept.
pub fn raw_mode_flags(flags: ModeFlags) -> (r: ModeFlags)
    ensures
        r.iflag == flags.iflag & !(BRKINT | ICRNL | INPCK | ISTRIP | IXON),
        r.oflag == flags.oflag & !OPOST,
        r.cflag == flags.cflag | CS8,
        r.lflag == flags.lflag & !(ECHO | ICANON | IEXTEN | ISIG),
{
    ModeFlags {
        iflag: flags.iflag & !(BRKINT | ICRNL | INPCK | ISTRIP | IXON),
        oflag: flags.oflag & !OPOST,
        cflag: flags.cflag | CS8,
        lflag: flags.lflag & !(ECHO | ICANON | IEXTEN | ISIG),
    }
}

/// The control characters of raw mode derived from `cc`: a read returns at
/// once, with whatever input there is (no minimum count, no timeout).
pub fn raw_control_chars(cc: [u8; 32]) -> (r: [u8; 32])
    ensures
        r@ == cc@.update(VMIN as int, 0).update(VTIME as int, 0),
{
    let mut r = cc;
    r[VMIN] = 0;
    r[VTIME] = 0;
    r
}

/// The terminal size to use, in columns and rows: the size the terminal
/// reported when the query succeeded with both dimensions non-zero, else 80 by 24.
pub fn terminal_size(query_ok: bool, ws_col: u16, ws_row: u16) -> (r: (usize, usize))
    ensures
        r == if query_ok && ws_col > 0 && ws_row > 0 {
            (ws_col as usize, ws_row as usize)
        } else {
            (80usize, 24usize)
        },
{
    if query_ok && ws_col > 0 && ws_row > 0 {
        (ws_col as usize, ws_row as usize)
    } else {
        (80, 24)
    }
}

} // verus!
