use vstd::prelude::*;
use crate::clock::{digit_str, format_time, spec_format_time, digit_char};
use crate::duration::{
    parse_duration, parse_overflows, spec_parse_duration, ascii_lower, ascii_lowercase,
    law_letter_case_ignored, lemma_duration_nonneg,
};
use crate::key::Key;

verus! {

/// What the countdown's driver should do after a key press.
#[derive(Debug)]
pub enum KeyAction {
    /// Keep running.
    Continue,
    /// Keep running, and measure elapsed time from now on.
    RestartClock,
    /// Leave the program.
    Quit,
}

/// The abstract state of a countdown.
pub struct CountdownState {
    /// The duration the countdown was last set to, in seconds.
    pub total_secs: u64,
    /// Time left, in milliseconds.
    pub remaining_ms: u64,
    pub paused: bool,
    pub finished: bool,
    /// A new duration being typed.
    pub input: Seq<char>,
    /// Whether the bell has rung since the countdown last finished.
    pub bell_played: bool,
    /// Whether the screen must be drawn again.
    pub needs_redraw: bool,
    /// The clock face last seen.
    pub prev_display: Seq<char>,
}

/// A character that may stand in a typed duration: an ASCII digit or a
/// lower-case unit letter.
pub open spec fn is_input_char(c: char) -> bool {
    ('0' <= c && c <= '9') || c == 's' || c == 'm' || c == 'h'
}

/// The states a countdown can be in: its duration times a thousand fits a
/// `u64`, the time left never exceeds it, a finished countdown has no time
/// left, and the typed text holds only digits and unit letters.
pub open spec fn state_wf(s: CountdownState) -> bool {
    &&& s.total_secs * 1000 <= u64::MAX
    &&& s.remaining_ms <= s.total_secs * 1000
    &&& s.finished ==> s.remaining_ms == 0
    &&& forall|i: int| 0 <= i < s.input.len() ==> is_input_char(#[trigger] s.input[i])
}

/// A fresh countdown of `total_secs` seconds.
pub open spec fn spec_new(total_secs: u64) -> CountdownState {
    CountdownState {
        total_secs,
        remaining_ms: (total_secs * 1000) as u64,
        paused: false,
        finished: false,
        input: Seq::empty(),
        bell_played: false,
        needs_redraw: true,
        prev_display: Seq::empty(),
    }
}

/// `elapsed_ms` milliseconds pass: a running countdown loses that much time,
/// and finishes (and must be redrawn) once none is left; a paused or finished
/// one is unchanged.
pub open spec fn spec_tick(s: CountdownState, elapsed_ms: u64) -> CountdownState {
    if !s.paused && !s.finished {
        if elapsed_ms >= s.remaining_ms {
            CountdownState { remaining_ms: 0, finished: true, needs_redraw: true, ..s }
        } else {
            CountdownState { remaining_ms: (s.remaining_ms - elapsed_ms) as u64, ..s }
        }
    } else {
        s
    }
}

/// Whole seconds shown for the time left, rounded up.
pub open spec fn display_secs(remaining_ms: u64) -> int {
    if remaining_ms == 0 {
        0
    } else {
        (remaining_ms - 1) / 1000 + 1
    }
}

/// The countdown set back to its full duration, running.
pub open spec fn spec_reset(s: CountdownState) -> CountdownState {
    CountdownState {
        remaining_ms: (s.total_secs * 1000) as u64,
        paused: false,
        finished: false,
        bell_played: false,
        needs_redraw: true,
        ..s
    }
}

/// Whether the bell must ring (once each time the countdown finishes), and
/// the state that remembers it rang.
pub open spec fn spec_take_bell(s: CountdownState) -> (bool, CountdownState) {
    (s.finished && !s.bell_played, CountdownState { bell_played: s.bell_played || s.finished, ..s })
}

/// The unit letter typed as the byte `b`, in lower case.
pub open spec fn lower_unit(b: u8) -> char {
    if b == 0x53 || b == 0x73 {
        's'
    } else if b == 0x4d || b == 0x6d {
        'm'
    } else {
        'h'
    }
}

/// A byte that is a unit letter in either case.
pub open spec fn is_unit_byte(b: u8) -> bool {
    b == 0x73 || b == 0x53 || b == 0x6d || b == 0x4d || b == 0x68 || b == 0x48
}

/// The countdown after a key press, and what its driver must do.
///
/// Ctrl-C quits; Escape clears the typed text, or quits when there is none;
/// with nothing typed, `q` or `x` quits, space pauses or resumes an unfinished
/// countdown, and `r` resets it; digits are typed, and so are unit letters
/// after a digit; Enter sets the countdown to the typed duration when it is
/// valid and clears the typed text; Backspace deletes the last typed character.
pub open spec fn spec_handle_key(s: CountdownState, key: Key) -> (CountdownState, KeyAction) {
    let empty = s.input.len() == 0;
    match key {
        Key::CtrlC => (s, KeyAction::Quit),
        Key::Escape => if empty {
            (s, KeyAction::Quit)
        } else {
            (CountdownState { input: Seq::empty(), needs_redraw: true, ..s }, KeyAction::Continue)
        },
        Key::Char(b) => if empty && (b == 0x71 || b == 0x51 || b == 0x78 || b == 0x58) {
            (s, KeyAction::Quit)
        } else if empty && b == 0x20 {
            if !s.finished {
                (
                    CountdownState { paused: !s.paused, needs_redraw: true, ..s },
                    KeyAction::RestartClock,
                )
            } else {
                (s, KeyAction::Continue)
            }
        } else if empty && (b == 0x72 || b == 0x52) {
            (spec_reset(s), KeyAction::RestartClock)
        } else if 0x30 <= b <= 0x39 {
            (
                CountdownState { input: s.input.push(b as char), needs_redraw: true, ..s },
                KeyAction::Continue,
            )
        } else if !empty && is_unit_byte(b) {
            (
                CountdownState { input: s.input.push(lower_unit(b)), needs_redraw: true, ..s },
                KeyAction::Continue,
            )
        } else {
            (s, KeyAction::Continue)
        },
        Key::Enter => if empty {
            (s, KeyAction::Continue)
        } else {
            match spec_parse_duration(s.input) {
                Some(secs) => (
                    CountdownState {
                        total_secs: secs as u64,
                        remaining_ms: (secs * 1000) as u64,
                        paused: false,
                        finished: false,
                        bell_played: false,
                        input: Seq::empty(),
                        needs_redraw: true,
                        ..s
                    },
                    KeyAction::RestartClock,
                ),
                None => (
                    CountdownState { input: Seq::empty(), needs_redraw: true, ..s },
                    KeyAction::Continue,
                ),
            }
        },
        Key::Backspace => if empty {
            (s, KeyAction::Continue)
        } else {
            (
                CountdownState { input: s.input.drop_last(), needs_redraw: true, ..s },
                KeyAction::Continue,
            )
        },
    }
}

/// Pressing `key` would compute a time past `u64::MAX`: Enter on typed text
/// whose reading overflows, or whose duration in milliseconds does.
pub open spec fn key_overflows(s: CountdownState, key: Key) -> bool {
    &&& key is Enter
    &&& s.input.len() > 0
    &&& (parse_overflows(s.input) || match spec_parse_duration(s.input) {
        Some(secs) => secs * 1000 > u64::MAX,
        None => false,
    })
}

/// A countdown timer driven by elapsed time and key presses.
pub struct Countdown {
    total_secs: u64,
    remaining_ms: u64,
    paused: bool,
    finished: bool,
    input: Vec<u8>,
    bell_played: bool,
    needs_redraw: bool,
    prev_display: String,
}

impl View for Countdown {
    type V = CountdownState;

    closed spec fn view(&self) -> CountdownState {
        CountdownState {
            total_secs: self.total_secs,
            remaining_ms: self.remaining_ms,
            paused: self.paused,
            finished: self.finished,
            input: self.input@.map_values(|b: u8| b as char),
            bell_played: self.bell_played,
            needs_redraw: self.needs_redraw,
            prev_display: self.prev_display@,
        }
    }
}

impl Countdown {
    /// The countdown is in one of the states it can reach.
    pub open spec fn wf(&self) -> bool {
        state_wf(self@)
    }

    /// A countdown of `total_secs` seconds, running, to be drawn.
    pub fn new(total_secs: u64) -> (c: Countdown)
        requires
            total_secs * 1000 <= u64::MAX,
        ensures
            c@ == spec_new(total_secs),
            c.wf(),
    {
        let c = Countdown {
            total_secs,
            remaining_ms: total_secs * 1000,
            paused: false,
            finished: false,
            input: Vec::new(),
            bell_played: false,
            needs_redraw: true,
            prev_display: String::new(),
        };
        proof {
            assert(c@.input =~= Seq::<char>::empty());
        }
        c
    }

    /// The duration the countdown was last set to, in seconds.
    pub fn total_secs(&self) -> (r: u64)
        ensures
            r == self@.total_secs,
    {
        self.total_secs
    }

    /// Time left, in milliseconds.
    pub fn remaining_ms(&self) -> (r: u64)
        ensures
            r == self@.remaining_ms,
    {
        self.remaining_ms
    }

    pub fn is_paused(&self) -> (r: bool)
        ensures
            r == self@.paused,
    {
        self.paused
    }

    pub fn is_finished(&self) -> (r: bool)
        ensures
            r == self@.finished,
    {
        self.finished
    }

    /// Lets `elapsed_ms` milliseconds pass.
    pub fn tick(&mut self, elapsed_ms: u64)
        requires
            old(self).wf(),
        ensures
            final(self)@ == spec_tick(old(self)@, elapsed_ms),
            final(self).wf(),
    {
        if !self.paused && !self.finished {
            if elapsed_ms >= self.remaining_ms {
                self.remaining_ms = 0;
                self.finished = true;
                self.needs_redraw = true;
            } else {
                self.remaining_ms = self.remaining_ms - elapsed_ms;
            }
        }
    }

    /// Marks the screen for drawing again (after the terminal was resized).
    pub fn request_redraw(&mut self)
        requires
            old(self).wf(),
        ensures
            final(self)@ == (CountdownState { needs_redraw: true, ..old(self)@ }),
            final(self).wf(),
    {
        self.needs_redraw = true;
    }

    /// The clock face for the time left, whole seconds rounded up; the screen
    /// must be drawn again when it differs from the face last seen.
    pub fn refresh_display(&mut self) -> (display: String)
        requires
            old(self).wf(),
        ensures
            display@ == spec_format_time(display_secs(old(self)@.remaining_ms) as nat),
            final(self)@ == (if display@ != old(self)@.prev_display {
                CountdownState { needs_redraw: true, prev_display: display@, ..old(self)@ }
            } else {
                old(self)@
            }),
            final(self).wf(),
    {
        let secs = if self.remaining_ms == 0 {
            0
        } else {
            ((self.remaining_ms - 1) / 1000) + 1
        };
        let display = format_time(secs);
        if display != self.prev_display {
            self.needs_redraw = true;
            self.prev_display = display.clone();
        }
        display
    }

    /// Whether the screen must be drawn now (always, once finished, so the face
    /// can flash); the request is then cleared.
    pub fn take_redraw(&mut self) -> (draw: bool)
        requires
            old(self).wf(),
        ensures
            draw == (old(self)@.needs_redraw || old(self)@.finished),
            final(self)@ == (CountdownState { needs_redraw: false, ..old(self)@ }),
            final(self).wf(),
    {
        let draw = self.needs_redraw || self.finished;
        self.needs_redraw = false;
        draw
    }

    /// Whether the bell must ring now: once each time the countdown finishes.
    pub fn take_bell(&mut self) -> (ring: bool)
        requires
            old(self).wf(),
        ensures
            (ring, final(self)@) == spec_take_bell(old(self)@),
            final(self).wf(),
    {
        if self.finished && !self.bell_played {
            self.bell_played = true;
            true
        } else {
            false
        }
    }

    /// The new duration being typed.
    pub fn input_text(&self) -> (t: String)
        requires
            self.wf(),
        ensures
            t@ == self@.input,
    {
        let mut t = String::new();
        let n = self.input.len();
        let mut i: usize = 0;
        while i < n
            invariant
                self.wf(),
                n == self.input@.len(),
                i <= n,
                t@ == self@.input.subrange(0, i as int),
            decreases n - i,
        {
            let b = self.input[i];
            let ghost before = t@;
            proof {
                assert(self@.input[i as int] == b as char);
                assert(is_input_char(self@.input[i as int]));
                reveal_strlit("s");
                reveal_strlit("m");
                reveal_strlit("h");
            }
            if b == 0x73 {
                t.append("s");
            } else if b == 0x6d {
                t.append("m");
            } else if b == 0x68 {
                t.append("h");
            } else {
                t.append(digit_str((b - 0x30) as u64));
                proof {
                    assert(digit_char((b - 0x30) as int) == b as char);
                }
            }
            proof {
                assert(self@.input.subrange(0, i + 1) =~= before.push(b as char));
            }
            i = i + 1;
        }
        proof {
            assert(self@.input.subrange(0, n as int) =~= self@.input);
        }
        t
    }

    /// Whether pressing `key` now would compute a time past `u64::MAX`, the
    /// presses that `handle_key` does not accept.
    pub fn key_would_overflow(&self, key: &Key) -> (b: bool)
        requires
            self.wf(),
        ensures
            b == key_overflows(self@, *key),
    {
        match key {
            Key::Enter => {
                if self.input.len() == 0 {
                    return false;
                }
                let text = self.input_text();
                if crate::duration::parse_would_overflow(text.as_str()) {
                    return true;
                }
                match parse_duration(text.as_str()) {
                    Some(secs) => secs.checked_mul(1000).is_none(),
                    None => false,
                }
            },
            _ => false,
        }
    }

    /// Applies a key press.
    pub fn handle_key(&mut self, key: Key) -> (action: KeyAction)
        requires
            old(self).wf(),
            !key_overflows(old(self)@, key),
        ensures
            (final(self)@, action) == spec_handle_key(old(self)@, key),
            final(self).wf(),
    {
        let empty = self.input.len() == 0;
        let ghost s = self@;
        match key {
            Key::CtrlC => KeyAction::Quit,
            Key::Escape => {
                if empty {
                    KeyAction::Quit
                } else {
                    self.input.clear();
                    self.needs_redraw = true;
                    proof {
                        assert(self@.input =~= Seq::<char>::empty());
                    }
                    KeyAction::Continue
                }
            },
            Key::Char(b) => {
                if empty && (b == 0x71 || b == 0x51 || b == 0x78 || b == 0x58) {
                    KeyAction::Quit
                } else if empty && b == 0x20 {
                    if !self.finished {
                        self.paused = !self.paused;
                        self.needs_redraw = true;
                        KeyAction::RestartClock
                    } else {
                        KeyAction::Continue
                    }
                } else if empty && (b == 0x72 || b == 0x52) {
                    self.remaining_ms = self.total_secs * 1000;
                    self.paused = false;
                    self.finished = false;
                    self.bell_played = false;
                    self.needs_redraw = true;
                    KeyAction::RestartClock
                } else if 0x30 <= b && b <= 0x39 {
                    self.input.push(b);
                    self.needs_redraw = true;
                    proof {
                        assert(self@.input =~= s.input.push(b as char));
                    }
                    KeyAction::Continue
                } else if !empty && (b == 0x73 || b == 0x53 || b == 0x6d || b == 0x4d || b == 0x68
                    || b == 0x48) {
                    let lower = if b == 0x73 || b == 0x53 {
                        0x73
                    } else if b == 0x6d || b == 0x4d {
                        0x6d
                    } else {
                        0x68
                    };
                    self.input.push(lower);
                    self.needs_redraw = true;
                    proof {
                        assert(self@.input =~= s.input.push(lower_unit(b)));
                    }
                    KeyAction::Continue
                } else {
                    KeyAction::Continue
                }
            },
            Key::Enter => {
                if empty {
                    KeyAction::Continue
                } else {
                    let text = self.input_text();
                    let parsed = parse_duration(text.as_str());
                    let action = match parsed {
                        Some(secs) => {
                            self.total_secs = secs;
                            self.remaining_ms = secs * 1000;
                            self.paused = false;
                            self.finished = false;
                            self.bell_played = false;
                            KeyAction::RestartClock
                        },
                        None => KeyAction::Continue,
                    };
                    self.input.clear();
                    self.needs_redraw = true;
                    proof {
                        assert(self@.input =~= Seq::<char>::empty());
                    }
                    action
                }
            },
            Key::Backspace => {
                if empty {
                    KeyAction::Continue
                } else {
                    self.input.pop();
                    self.needs_redraw = true;
                    proof {
                        assert(self@.input =~= s.input.drop_last());
                    }
                    KeyAction::Continue
                }
            },
        }
    }
}

/// Whether a finished countdown's face shows its bright phase at `epoch_ms`
/// milliseconds since the Unix epoch: the face alternates every half second.
pub fn flash_on(epoch_ms: u128) -> (on: bool)
    ensures
        on == ((epoch_ms / 500) % 2 == 0),
{
    (epoch_ms / 500) % 2 == 0
}


// ── Laws ───────────────────────────────────────────────────────────────────

/// Time passing in two steps does to a countdown what the same time passing
/// at once does.
pub proof fn law_tick_additive(s: CountdownState, a: u64, b: u64)
    requires
        a + b <= u64::MAX,
    ensures
        spec_tick(spec_tick(s, a), b) == spec_tick(s, (a + b) as u64),
{
}

/// A paused countdown loses no time, however much passes.
pub proof fn law_paused_keeps_time(s: CountdownState, elapsed_ms: u64)
    requires
        s.paused,
    ensures
        spec_tick(s, elapsed_ms) == s,
{
}

/// Time only runs down: a tick never adds time, and takes exactly the time
/// elapsed from a running countdown until none is left.
pub proof fn law_tick_runs_down(s: CountdownState, elapsed_ms: u64)
    ensures
        spec_tick(s, elapsed_ms).remaining_ms <= s.remaining_ms,
        !s.paused && !s.finished ==> spec_tick(s, elapsed_ms).remaining_ms == if elapsed_ms
            >= s.remaining_ms {
            0
        } else {
            s.remaining_ms - elapsed_ms
        },
        spec_tick(s, elapsed_ms).finished <==> (s.finished || (!s.paused && elapsed_ms
            >= s.remaining_ms)),
        spec_tick(s, elapsed_ms).paused == s.paused,
        spec_tick(s, elapsed_ms).total_secs == s.total_secs,
        spec_tick(s, elapsed_ms).input == s.input,
        spec_tick(s, elapsed_ms).bell_played == s.bell_played,
        !s.finished && spec_tick(s, elapsed_ms).finished ==> spec_tick(s, elapsed_ms).needs_redraw,
{
}

/// With nothing typed, `r` restores the full duration, running, whatever time
/// has passed.
pub proof fn law_reset_restores(s: CountdownState, elapsed_ms: u64)
    requires
        state_wf(s),
        s.input.len() == 0,
    ensures
        spec_handle_key(spec_tick(s, elapsed_ms), Key::Char(0x72)) == spec_handle_key(
            s,
            Key::Char(0x72),
        ),
        spec_handle_key(s, Key::Char(0x72)).0.remaining_ms == s.total_secs * 1000,
        !spec_handle_key(s, Key::Char(0x72)).0.paused,
        !spec_handle_key(s, Key::Char(0x72)).0.finished,
{
}

/// With nothing typed, space pressed twice on an unfinished countdown leaves
/// it as it was, apart from asking for a redraw.
pub proof fn law_space_twice(s: CountdownState)
    requires
        s.input.len() == 0,
        !s.finished,
    ensures
        spec_handle_key(spec_handle_key(s, Key::Char(0x20)).0, Key::Char(0x20)).0 == (
        CountdownState { needs_redraw: true, ..s }),
{
}

/// The bell rings when the countdown has finished and has not rung since it
/// was last set, and never while the countdown is still going.
pub proof fn law_bell_rings_on_finish(s: CountdownState)
    ensures
        s.finished && !s.bell_played ==> spec_take_bell(s).0,
        !s.finished ==> !spec_take_bell(s).0 && spec_take_bell(s).1 == s,
        spec_take_bell(s).1.remaining_ms == s.remaining_ms,
        spec_take_bell(s).1.finished == s.finished,
{
}

/// The bell rings at most once until the countdown is set again.
pub proof fn law_bell_once(s: CountdownState)
    ensures
        !spec_take_bell(spec_take_bell(s).1).0,
{
}

/// The face shows the time left in whole seconds rounded up: no more than a
/// second above it, never below it, and zero only when no time is left.
pub proof fn law_display_rounds_up(remaining_ms: u64)
    ensures
        display_secs(remaining_ms) * 1000 >= remaining_ms,
        display_secs(remaining_ms) * 1000 < remaining_ms + 1000,
        display_secs(remaining_ms) == 0 <==> remaining_ms == 0,
{
}


/// The state after typing the bytes `bs` one key at a time.
pub open spec fn type_bytes(s: CountdownState, bs: Seq<u8>) -> CountdownState
    decreases bs.len(),
{
    if bs.len() == 0 {
        s
    } else {
        spec_handle_key(type_bytes(s, bs.drop_last()), Key::Char(bs.last())).0
    }
}

/// Ctrl-C quits, whatever has been typed, and changes nothing.
pub proof fn law_ctrl_c_quits(s: CountdownState)
    ensures
        spec_handle_key(s, Key::CtrlC).1 is Quit,
        spec_handle_key(s, Key::CtrlC).0 == s,
{
}

/// Escape quits when nothing is typed; otherwise it only discards the typed
/// text, and the countdown keeps running as it was.
pub proof fn law_escape(s: CountdownState)
    ensures
        s.input.len() == 0 ==> spec_handle_key(s, Key::Escape) == (s, KeyAction::Quit),
        s.input.len() > 0 ==> {
            let (t, a) = spec_handle_key(s, Key::Escape);
            &&& a is Continue
            &&& t.input.len() == 0
            &&& t.total_secs == s.total_secs && t.remaining_ms == s.remaining_ms
            &&& t.paused == s.paused && t.finished == s.finished
            &&& t.bell_played == s.bell_played && t.prev_display == s.prev_display
        },
{
}

/// With nothing typed, `q`, `Q`, `x` and `X` quit and change nothing.
pub proof fn law_quit_letters(s: CountdownState, b: u8)
    requires
        s.input.len() == 0,
        b == ('q' as u8) || b == ('Q' as u8) || b == ('x' as u8) || b == ('X' as u8),
    ensures
        spec_handle_key(s, Key::Char(b)) == (s, KeyAction::Quit),
{
}

/// With nothing typed, space pauses a running countdown and resumes a paused
/// one, keeping its time, and restarts the clock; on a finished countdown it
/// does nothing at all.
pub proof fn law_space(s: CountdownState)
    requires
        s.input.len() == 0,
    ensures
        s.finished ==> spec_handle_key(s, Key::Char(' ' as u8)) == (s, KeyAction::Continue),
        !s.finished ==> {
            let (t, a) = spec_handle_key(s, Key::Char(' ' as u8));
            &&& a is RestartClock
            &&& t.paused == !s.paused
            &&& !t.finished
            &&& t.remaining_ms == s.remaining_ms && t.total_secs == s.total_secs
            &&& t.input == s.input && t.bell_played == s.bell_played
        },
{
}

/// With nothing typed, `r` and `R` start the countdown again from its full
/// duration, running, with the bell ready to ring, and restart the clock.
pub proof fn law_reset(s: CountdownState, b: u8)
    requires
        state_wf(s),
        s.input.len() == 0,
        b == ('r' as u8) || b == ('R' as u8),
    ensures
        ({
            let (t, a) = spec_handle_key(s, Key::Char(b));
            &&& a is RestartClock
            &&& t.total_secs == s.total_secs
            &&& t.remaining_ms == s.total_secs * 1000
            &&& !t.paused && !t.finished && !t.bell_played
            &&& t.input.len() == 0
        }),
{
}

/// A digit is always typed: it is appended to the typed text and nothing else
/// about the countdown changes.
pub proof fn law_digit_typed(s: CountdownState, b: u8)
    requires
        ('0' as u8) <= b <= ('9' as u8),
    ensures
        ({
            let (t, a) = spec_handle_key(s, Key::Char(b));
            &&& a is Continue
            &&& t.input == s.input.push(b as char)
            &&& t.total_secs == s.total_secs && t.remaining_ms == s.remaining_ms
            &&& t.paused == s.paused && t.finished == s.finished
            &&& t.bell_played == s.bell_played
        }),
{
}

/// After typed text, each unit letter `h`, `m`, `s` in either case is
/// appended in lower case, and nothing else about the countdown changes.
pub proof fn law_unit_letter_typed(s: CountdownState, b: u8)
    requires
        s.input.len() > 0,
        b == ('h' as u8) || b == ('H' as u8) || b == ('m' as u8) || b == ('M' as u8) || b == (
        's' as u8) || b == ('S' as u8),
    ensures
        ({
            let (t, a) = spec_handle_key(s, Key::Char(b));
            &&& a is Continue
            &&& t.input == s.input.push(ascii_lower(b as char))
            &&& t.total_secs == s.total_secs && t.remaining_ms == s.remaining_ms
            &&& t.paused == s.paused && t.finished == s.finished
            &&& t.bell_played == s.bell_played
        }),
{
}

/// Any other character key leaves the countdown as it is: a byte that is not a
/// digit, not a unit letter after typed text, and not one of the command keys
/// (`q`, `x`, space, `r`, either case) with nothing typed.
pub proof fn law_other_chars_ignored(s: CountdownState, b: u8)
    requires
        !(('0' as u8) <= b <= ('9' as u8)),
        s.input.len() > 0 ==> !(b == ('h' as u8) || b == ('H' as u8) || b == ('m' as u8) || b == (
        'M' as u8) || b == ('s' as u8) || b == ('S' as u8)),
        s.input.len() == 0 ==> !(b == ('q' as u8) || b == ('Q' as u8) || b == ('x' as u8) || b == (
        'X' as u8) || b == (' ' as u8) || b == ('r' as u8) || b == ('R' as u8)),
    ensures
        spec_handle_key(s, Key::Char(b)) == (s, KeyAction::Continue),
{
}

/// Enter on typed text that reads as a duration sets the countdown to it:
/// running, not finished, its full time left, the bell ready, the typed text
/// gone, and the clock restarted.
pub proof fn law_enter_sets_duration(s: CountdownState)
    requires
        s.input.len() > 0,
        spec_parse_duration(s.input) is Some,
        spec_parse_duration(s.input).unwrap() * 1000 <= u64::MAX,
    ensures
        ({
            let secs = spec_parse_duration(s.input).unwrap();
            let (t, a) = spec_handle_key(s, Key::Enter);
            &&& a is RestartClock
            &&& t.total_secs == secs
            &&& t.remaining_ms == secs * 1000
            &&& !t.paused && !t.finished && !t.bell_played
            &&& t.input.len() == 0
        }),
{
    lemma_duration_nonneg(s.input);
}

/// Enter on typed text that is not a duration only discards the text; with
/// nothing typed it does nothing.
pub proof fn law_enter_rejects(s: CountdownState)
    ensures
        s.input.len() == 0 ==> spec_handle_key(s, Key::Enter) == (s, KeyAction::Continue),
        s.input.len() > 0 && spec_parse_duration(s.input) is None ==> {
            let (t, a) = spec_handle_key(s, Key::Enter);
            &&& a is Continue
            &&& t.input.len() == 0
            &&& t.total_secs == s.total_secs && t.remaining_ms == s.remaining_ms
            &&& t.paused == s.paused && t.finished == s.finished
            &&& t.bell_played == s.bell_played
        },
{
}

/// Backspace deletes the last typed character, and does nothing when nothing
/// is typed.
pub proof fn law_backspace(s: CountdownState)
    ensures
        s.input.len() == 0 ==> spec_handle_key(s, Key::Backspace) == (s, KeyAction::Continue),
        s.input.len() > 0 ==> {
            let (t, a) = spec_handle_key(s, Key::Backspace);
            &&& a is Continue
            &&& t.input == s.input.subrange(0, s.input.len() - 1)
            &&& t.total_secs == s.total_secs && t.remaining_ms == s.remaining_ms
            &&& t.paused == s.paused && t.finished == s.finished
        },
{
}

/// A string led by a digit and made of digits and unit letters (either case),
/// typed key by key with nothing typed before, is held in lower case; the
/// countdown is otherwise unchanged.
pub proof fn law_typing_keeps_text(s: CountdownState, bs: Seq<u8>)
    requires
        s.input.len() == 0,
        bs.len() > 0,
        ('0' as u8) <= bs[0] <= ('9' as u8),
        forall|i: int|
            0 <= i < bs.len() ==> (('0' as u8) <= #[trigger] bs[i] <= ('9' as u8) || bs[i] == (
            'h' as u8) || bs[i] == ('H' as u8) || bs[i] == ('m' as u8) || bs[i] == ('M' as u8)
                || bs[i] == ('s' as u8) || bs[i] == ('S' as u8)),
    ensures
        ({
            let t = type_bytes(s, bs);
            &&& t.input == ascii_lowercase(bs.map_values(|b: u8| b as char))
            &&& t.total_secs == s.total_secs && t.remaining_ms == s.remaining_ms
            &&& t.paused == s.paused && t.finished == s.finished
            &&& t.bell_played == s.bell_played
        }),
    decreases bs.len(),
{
    let chars = bs.map_values(|b: u8| b as char);
    if bs.len() == 1 {
        assert(type_bytes(s, bs.drop_last()) == s);
        assert(ascii_lowercase(chars) =~= seq![bs[0] as char]);
    } else {
        let p = bs.drop_last();
        law_typing_keeps_text(s, p);
        let t0 = type_bytes(s, p);
        assert(ascii_lowercase(chars) =~= ascii_lowercase(p.map_values(|b: u8| b as char)).push(
            ascii_lower(bs.last() as char),
        ));
        assert(t0.input.len() > 0);
        assert(bs.last() == bs[bs.len() - 1]);
    }
}

/// Typing a duration key by key and pressing Enter sets the countdown to that
/// duration, read without regard to letter case: running, with its full time left.
pub proof fn law_typed_duration_is_set(s: CountdownState, bs: Seq<u8>)
    requires
        s.input.len() == 0,
        bs.len() > 0,
        ('0' as u8) <= bs[0] <= ('9' as u8),
        forall|i: int|
            0 <= i < bs.len() ==> (('0' as u8) <= #[trigger] bs[i] <= ('9' as u8) || bs[i] == (
            'h' as u8) || bs[i] == ('H' as u8) || bs[i] == ('m' as u8) || bs[i] == ('M' as u8)
                || bs[i] == ('s' as u8) || bs[i] == ('S' as u8)),
        spec_parse_duration(bs.map_values(|b: u8| b as char)) is Some,
        spec_parse_duration(bs.map_values(|b: u8| b as char)).unwrap() * 1000 <= u64::MAX,
    ensures
        ({
            let secs = spec_parse_duration(bs.map_values(|b: u8| b as char)).unwrap();
            let (t, a) = spec_handle_key(type_bytes(s, bs), Key::Enter);
            &&& a is RestartClock
            &&& t.total_secs == secs
            &&& t.remaining_ms == secs * 1000
            &&& !t.paused && !t.finished
            &&& t.input.len() == 0
        }),
{
    law_typing_keeps_text(s, bs);
    law_letter_case_ignored(bs.map_values(|b: u8| b as char));
    law_enter_sets_duration(type_bytes(s, bs));
}

} // verus!
