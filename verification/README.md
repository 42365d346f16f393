# mtrm

`mtrm` is a terminal workspace manager: tabs, split panes, keyboard-driven
focus movement, clipboard integration, and a session (layout, active tab,
active pane, working directories) saved to `~/.mtrm/state.toml` and
restored on the next start. Letter shortcuts come from
`~/.mtrm/keymap.toml`, so they work under Latin, Russian, French and Greek
keyboard layouts.

## Layout

- `src/` is the library, verified with Verus. Its functions state what they
  return or change in `requires`/`ensures` over mathematical models (`Seq`,
  `Map`, `int`), and the laws that span several operations are public proof
  functions. What comes from the `vt100` emulator is read through
  trusted wrappers whose results are named after the emulator's state (its
  size, scrollback position, cells in view, cursor, text and rows), so the
  functions that report the live screen state what they return in those
  terms; what output does to that state is vt100's and is not stated. The library
  keeps the emulator within what vt100 0.15 handles: at least two columns,
  a screen made narrower redrawn into a new emulator, and the emulator's
  own scrollback shown at most one screen back.
  - `base`, `layout`, `geometry`, `placement`, `resize`, `snapshot`: pane
    identifiers, the layout tree with its splits, focus movement and
    resizing, and the saved form of a layout.
  - `session`, `tabs`, `consistency`, `commands`: the tabs and their panes,
    saving and restoring a session, the layout and tab commands, and the
    laws every operation keeps.
  - `escape`, `screen`: the emulated screen of a pane (through `vt100`),
    its screen mode and the history kept for scrolling back.
  - `keys`, `platform_keys`, `keymap`, `input`: key events, the shortcuts of
    each platform, the keymap file, and what a key press does.
  - `rename`, `help`, `selection`, `ui`, `frame`: the rename box, the help
    overlay, mouse selection and tab hit testing, the view of one frame,
    and the cells of a pane to draw with their styles.
  - `cli`, `config`, `errors`, `clipboard`, `text`, `shell`, `procstat`: the
    command line, paths, error messages, clipboards, text helpers, how a
    shell is started and interrupted, and reading `/proc/<pid>/stat`.
- `app/` is the program around the library: the terminal and event loop
  (crossterm), drawing (ratatui), the shells on pseudo-terminals
  (portable-pty, nix), the system clipboard (arboard), and reading and
  writing the state and keymap files (serde, toml).
- `tests/` exercises the library on concrete values.
