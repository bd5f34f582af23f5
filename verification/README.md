# spider_installer

The verified core of a terminal front end for a dotfiles installer
(`install.sh`): it shows an animated welcome screen, lets the user choose the
installer's options, asks for the sudo password when packages are wanted,
runs the installer and follows its output phase by phase.

Layout:

- `src/` — the library, verified with Verus:
  - `text.rs`: character-sequence utilities (escape-sequence removal,
    trimming, substring search, decimal parsing), with their laws;
  - `runner.rs`: the installer's phases, the classification of its output
    lines and its command line;
  - `state.rs`: the state machine of the interface (keys, arguments, sudo
    answers, output lines, exit) over a mathematical model, with its laws;
  - `theme.rs`: palette, the cell-level drawing primitives on a ratatui
    `Buffer` (put, fill, strings, Bresenham lines, the 3x5 pixel font), the
    hash used by the animations;
  - `animations.rs`: the catalogue of animations and the choice of one;
  - `view.rs`: what the panels show (phase list, log, progress bar, title
    bar, menu, animation carousel, option rows).
- `tests/` — tests of the library.
- `app/` — the program: terminal set-up and event loop, the installer
  process, the floating-point animations and the ratatui widget layout.
