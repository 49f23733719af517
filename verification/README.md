# countdown

A full-screen countdown timer for the terminal, with its logic verified in Verus.

- `src/` — the verified library:
  - `duration`: reading durations such as `45`, `30m`, `1h30m`, `90s`;
  - `clock`: the `MM:SS` / `H:MM:SS` clock face;
  - `raster`: bitmap-font pixel lookup;
  - `frame`: drawing one screen of the clock face in half-block characters;
  - `key`: decoding terminal input bytes into keys;
  - `countdown`: the timer's state machine (ticks, pause, reset, typing a new time, bell, redraws).
- `tests/` — tests of the library.
- `app/` — the program: raw terminal I/O, the bell, the clock font, and the main loop.
