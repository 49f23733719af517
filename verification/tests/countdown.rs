use countdown::countdown::{flash_on, Countdown, KeyAction};
use countdown::key::Key;

fn type_text(c: &mut Countdown, text: &str) {
    for b in text.bytes() {
        assert!(matches!(c.handle_key(Key::Char(b)), KeyAction::Continue));
    }
}

#[test]
fn fresh_countdown() {
    let mut c = Countdown::new(90);
    assert_eq!(c.total_secs(), 90);
    assert_eq!(c.remaining_ms(), 90_000);
    assert!(!c.is_paused());
    assert!(!c.is_finished());
    assert_eq!(c.input_text(), "");
    assert!(c.take_redraw());
    assert!(!c.take_redraw());
}

#[test]
fn ticks_run_down_and_finish() {
    let mut c = Countdown::new(2);
    c.tick(500);
    assert_eq!(c.remaining_ms(), 1500);
    assert!(!c.take_bell());
    c.tick(1500);
    assert_eq!(c.remaining_ms(), 0);
    assert!(c.is_finished());
    assert!(c.take_redraw());
    assert!(c.take_redraw(), "a finished countdown is drawn on every pass");
    c.tick(1000);
    assert_eq!(c.remaining_ms(), 0);
}

#[test]
fn ticking_past_the_end_finishes() {
    let mut c = Countdown::new(1);
    c.tick(5000);
    assert_eq!(c.remaining_ms(), 0);
    assert!(c.is_finished());
}

#[test]
fn two_ticks_equal_one() {
    let mut a = Countdown::new(10);
    let mut b = Countdown::new(10);
    a.tick(300);
    a.tick(4200);
    b.tick(4500);
    assert_eq!(a.remaining_ms(), b.remaining_ms());
    assert_eq!(a.remaining_ms(), 5500);
}

#[test]
fn bell_rings_once_per_finish() {
    let mut c = Countdown::new(1);
    c.tick(1000);
    assert!(c.take_bell());
    assert!(!c.take_bell());
    assert!(matches!(c.handle_key(Key::Char(b'r')), KeyAction::RestartClock));
    assert!(!c.take_bell());
    c.tick(1000);
    assert!(c.take_bell());
}

#[test]
fn display_rounds_up_and_asks_for_redraw_on_change() {
    let mut c = Countdown::new(61);
    assert_eq!(c.refresh_display(), "01:01");
    assert!(c.take_redraw());
    assert_eq!(c.refresh_display(), "01:01");
    assert!(!c.take_redraw());
    c.tick(999);
    assert_eq!(c.refresh_display(), "01:01");
    assert!(!c.take_redraw());
    c.tick(1);
    assert_eq!(c.refresh_display(), "01:00");
    assert!(c.take_redraw());
    c.tick(59_999);
    assert_eq!(c.refresh_display(), "00:01");
    c.tick(1);
    assert_eq!(c.refresh_display(), "00:00");
}

#[test]
fn display_of_hours() {
    let mut c = Countdown::new(5400);
    assert_eq!(c.refresh_display(), "1:30:00");
}

#[test]
fn space_pauses_and_resumes() {
    let mut c = Countdown::new(10);
    assert!(c.take_redraw());
    assert!(matches!(c.handle_key(Key::Char(b' ')), KeyAction::RestartClock));
    assert!(c.is_paused());
    assert!(c.take_redraw());
    c.tick(5000);
    assert_eq!(c.remaining_ms(), 10_000);
    assert!(matches!(c.handle_key(Key::Char(b' ')), KeyAction::RestartClock));
    assert!(!c.is_paused());
    c.tick(5000);
    assert_eq!(c.remaining_ms(), 5000);
}

#[test]
fn space_does_nothing_once_finished() {
    let mut c = Countdown::new(1);
    c.tick(1000);
    assert!(matches!(c.handle_key(Key::Char(b' ')), KeyAction::Continue));
    assert!(!c.is_paused());
}

#[test]
fn reset_restores_full_time() {
    let mut c = Countdown::new(10);
    c.handle_key(Key::Char(b' '));
    c.tick(3000);
    c.handle_key(Key::Char(b' '));
    c.tick(3000);
    assert!(matches!(c.handle_key(Key::Char(b'R')), KeyAction::RestartClock));
    assert_eq!(c.remaining_ms(), 10_000);
    assert!(!c.is_paused());
    assert!(!c.is_finished());
}

#[test]
fn quit_keys() {
    let mut c = Countdown::new(10);
    assert!(matches!(c.handle_key(Key::CtrlC), KeyAction::Quit));
    assert!(matches!(c.handle_key(Key::Escape), KeyAction::Quit));
    assert!(matches!(c.handle_key(Key::Char(b'q')), KeyAction::Quit));
    assert!(matches!(c.handle_key(Key::Char(b'Q')), KeyAction::Quit));
    assert!(matches!(c.handle_key(Key::Char(b'x')), KeyAction::Quit));
    assert!(matches!(c.handle_key(Key::Char(b'X')), KeyAction::Quit));
}

#[test]
fn typing_a_new_time() {
    let mut c = Countdown::new(10);
    type_text(&mut c, "1H30");
    assert_eq!(c.input_text(), "1h30");
    // letters that would quit or reset are ignored while typing
    assert!(matches!(c.handle_key(Key::Char(b'q')), KeyAction::Continue));
    assert!(matches!(c.handle_key(Key::Char(b'r')), KeyAction::Continue));
    assert!(matches!(c.handle_key(Key::Char(b' ')), KeyAction::Continue));
    assert_eq!(c.input_text(), "1h30");
    assert!(matches!(c.handle_key(Key::Char(b'S')), KeyAction::Continue));
    assert_eq!(c.input_text(), "1h30s");
    assert!(matches!(c.handle_key(Key::Enter), KeyAction::RestartClock));
    assert_eq!(c.total_secs(), 3630);
    assert_eq!(c.remaining_ms(), 3_630_000);
    assert_eq!(c.input_text(), "");
    // reset now restores the new duration
    c.tick(1000);
    c.handle_key(Key::Char(b'r'));
    assert_eq!(c.remaining_ms(), 3_630_000);
}

#[test]
fn unit_letters_need_a_number_first() {
    let mut c = Countdown::new(10);
    assert!(matches!(c.handle_key(Key::Char(b'm')), KeyAction::Continue));
    assert_eq!(c.input_text(), "");
    type_text(&mut c, "5");
    type_text(&mut c, "m");
    assert_eq!(c.input_text(), "5m");
}

#[test]
fn invalid_new_time_is_dropped() {
    let mut c = Countdown::new(10);
    type_text(&mut c, "0m");
    assert!(matches!(c.handle_key(Key::Enter), KeyAction::Continue));
    assert_eq!(c.input_text(), "");
    assert_eq!(c.total_secs(), 10);
    assert!(matches!(c.handle_key(Key::Enter), KeyAction::Continue));
}

#[test]
fn new_time_restarts_a_finished_countdown() {
    let mut c = Countdown::new(1);
    c.tick(1000);
    assert!(c.take_bell());
    type_text(&mut c, "2");
    assert!(matches!(c.handle_key(Key::Enter), KeyAction::RestartClock));
    assert!(!c.is_finished());
    assert_eq!(c.remaining_ms(), 120_000);
    c.tick(120_000);
    assert!(c.take_bell());
}

#[test]
fn backspace_and_escape_edit_the_typed_time() {
    let mut c = Countdown::new(10);
    assert!(matches!(c.handle_key(Key::Backspace), KeyAction::Continue));
    type_text(&mut c, "12m");
    c.handle_key(Key::Backspace);
    assert_eq!(c.input_text(), "12");
    assert!(matches!(c.handle_key(Key::Escape), KeyAction::Continue));
    assert_eq!(c.input_text(), "");
    assert!(matches!(c.handle_key(Key::Escape), KeyAction::Quit));
}

#[test]
fn overflowing_new_time_is_detected() {
    let mut c = Countdown::new(10);
    // 307445734561826 minutes are past u64::MAX milliseconds
    type_text(&mut c, "307445734561826");
    assert!(c.key_would_overflow(&Key::Enter));
    assert!(!c.key_would_overflow(&Key::Backspace));
    c.handle_key(Key::Backspace);
    assert!(!c.key_would_overflow(&Key::Enter));
    // 307445734561825 minutes still fit
    type_text(&mut c, "5");
    assert!(!c.key_would_overflow(&Key::Enter));
    assert!(matches!(c.handle_key(Key::Enter), KeyAction::RestartClock));
    assert_eq!(c.remaining_ms(), 307445734561825 * 60 * 1000);
    let fresh = Countdown::new(10);
    assert!(!fresh.key_would_overflow(&Key::Enter));
}

#[test]
fn flashing_alternates_every_half_second() {
    assert!(flash_on(0));
    assert!(flash_on(499));
    assert!(!flash_on(500));
    assert!(!flash_on(999));
    assert!(flash_on(1000));
}
