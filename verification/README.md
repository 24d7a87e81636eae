# pain

The core of `pain`, a multi-pane terminal emulator, as a library whose
behaviour is stated in `requires`/`ensures` contracts and proved with Verus.

## Layout

- `src/` — the verified library:
  - `keymap` — key chords, their config syntax (parsing and printing),
    action names, and the remappable binding table with config overrides;
  - `router` — broadcast groups, which panes receive typed input, and
    what the window does for a bound chord (quit, zoom the font within its
    bounds, copy or interrupt, set the broadcast mode, ...);
  - `bindings` — the list of bindings in effect that the settings panel
    shows;
  - `keys` — the bytes a key press sends to a pane (xterm legacy encoding
    and the kitty keyboard protocol), and whether a press runs a bound
    action or reaches the pane;
  - `retro` — the scanner that picks era requests out of pty output, and
    `era` — the era table, lookup and effect strengths;
  - `glyph` — glyph pixel formats, color-emoji detection and font-family
    choice, with the system font list read through `cosmic-text`;
  - `config` — general settings, cursor style, `#rrggbb` colors and the
    config directory;
  - `activity` — the title-bar dot: blue for unseen output, red for a
    bell until the user types into the pane;
  - `session`, `process` — per-pane bookkeeping, what a window poll
    decides (repaint, panes to close, the era asked for last),
    working-directory fallback, hyperlink spans and which link schemes may
    be opened, emulator events, and the foreground-process walk with the
    check that a process snapshot can be walked;
  - `cli` — command-line parsing, `--help` and `--era=list`;
  - `text` — the character and string utilities the rest share.
- `tests/` — tests run against the compiled library.
- `app/` — the executable: environment, files, the TOML config file and the
  `cosmic-text` rasterizer, which work with floating point.
