use countdown::term::{
    raw_control_chars, raw_mode_flags, terminal_size, ModeFlags, BRKINT, CS8, ECHO, ICANON,
    ICRNL, IEXTEN, INPCK, ISIG, ISTRIP, IXON, OPOST, VMIN, VTIME,
};

#[test]
fn raw_mode_clears_and_sets_bits() {
    let r = raw_mode_flags(ModeFlags { iflag: u32::MAX, oflag: u32::MAX, cflag: 0, lflag: u32::MAX });
    assert_eq!(r.iflag & (BRKINT | ICRNL | INPCK | ISTRIP | IXON), 0);
    assert_eq!(r.iflag | (BRKINT | ICRNL | INPCK | ISTRIP | IXON), u32::MAX);
    assert_eq!(r.oflag, u32::MAX & !OPOST);
    assert_eq!(r.cflag, CS8);
    assert_eq!(r.lflag & (ECHO | ICANON | IEXTEN | ISIG), 0);
    let kept = raw_mode_flags(ModeFlags { iflag: 0o4000, oflag: 0o4, cflag: 0o7, lflag: 0o40 });
    assert_eq!(kept.iflag, 0o4000);
    assert_eq!(kept.oflag, 0o4);
    assert_eq!(kept.cflag, 0o67);
    assert_eq!(kept.lflag, 0o40);
}

#[test]
fn raw_control_chars_read_at_once() {
    let cc = [7u8; 32];
    let r = raw_control_chars(cc);
    assert_eq!(r[VMIN], 0);
    assert_eq!(r[VTIME], 0);
    for (i, b) in r.iter().enumerate() {
        if i != VMIN && i != VTIME {
            assert_eq!(*b, 7);
        }
    }
}

#[test]
fn terminal_size_falls_back() {
    assert_eq!(terminal_size(true, 120, 40), (120, 40));
    assert_eq!(terminal_size(false, 120, 40), (80, 24));
    assert_eq!(terminal_size(true, 0, 40), (80, 24));
    assert_eq!(terminal_size(true, 120, 0), (80, 24));
}
