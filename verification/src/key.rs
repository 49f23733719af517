use vstd::prelude::*;

verus! {

/// A key press, as read one byte at a time from a terminal in raw mode.
#[derive(Debug)]
pub enum Key {
    Char(u8),
    CtrlC,
    Enter,
    Backspace,
    Escape,
}

/// The key that a byte read from a raw-mode terminal stands for: 3 is Ctrl-C,
/// 13 (carriage return) is Enter, 27 starts an escape sequence, 8 and 127 are
/// Backspace, and any other byte is that character.
pub open spec fn spec_key_from_byte(byte: u8) -> Key {
    if byte == 3 {
        Key::CtrlC
    } else if byte == 13 {
        Key::Enter
    } else if byte == 27 {
        Key::Escape
    } else if byte == 8 || byte == 127 {
        Key::Backspace
    } else {
        Key::Char(byte)
    }
}

/// Decodes one byte of terminal input into a key.
pub fn key_from_byte(byte: u8) -> (k: Key)
    ensures
        k == spec_key_from_byte(byte),
{
    match byte {
        3 => Key::CtrlC,
        13 => Key::Enter,
        27 => Key::Escape,
        8 | 127 => Key::Backspace,
        b => Key::Char(b),
    }
}

} // verus!
