# nemux

A daemon-backed terminal multiplexer (`nux`), whose decisions are written
and proved in Verus.

- `src/` is the verified library. Each module states its behaviour in
  `requires`/`ensures` contracts over spec functions and views:
  - `protocol`: the messages, the tab snapshot and its program name, and the
    length-prefixed framing (with a round-trip law);
  - `selector`: resolving a selector to tabs (id first, then a
    case-insensitive substring of title or program, sorted by id);
  - `config`, `input`: keybinding strings and the bytes a key press sends;
  - `manager`: the daemon's table of tabs and the two-step kill lifecycle;
  - `daemon`: what each request asks for and how it is answered;
  - `tui`: the interactive view as a state machine from responses, keys and
    resizes to effects;
  - `ui`, `color`, `cli`, `ipc`, `text`: labels and layout of the tab bar,
    ANSI painting, command-line parsing and listing, socket naming, and the
    character-level helpers they share.
- `app/` is the program around it: sockets, threads, PTYs, the terminal
  emulator, drawing, configuration files and serialization.
- `tests/` runs the library on concrete values.
