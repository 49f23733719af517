use countdown::key::{key_from_byte, Key};

#[test]
fn control_bytes() {
    assert!(matches!(key_from_byte(3), Key::CtrlC));
    assert!(matches!(key_from_byte(13), Key::Enter));
    assert!(matches!(key_from_byte(27), Key::Escape));
    assert!(matches!(key_from_byte(8), Key::Backspace));
    assert!(matches!(key_from_byte(127), Key::Backspace));
}

#[test]
fn other_bytes_are_characters() {
    assert!(matches!(key_from_byte(b'q'), Key::Char(b'q')));
    assert!(matches!(key_from_byte(b' '), Key::Char(b' ')));
    assert!(matches!(key_from_byte(10), Key::Char(10)));
    assert!(matches!(key_from_byte(0), Key::Char(0)));
    assert!(matches!(key_from_byte(255), Key::Char(255)));
}
