# cosmic_desk_log

A desk widget for the COSMIC desktop that streams the systemd journal on a
layer surface under every window. This crate is its verified core:

- `src/config.rs` reads the `KEY=VALUE` configuration file's text, and works
  out the panel's width and margins.
- `src/output.rs` finds the active output's width in what `cosmic-randr list`
  prints (ANSI escapes stripped, then the line marked `(current)`).
- `src/journal.rs` classifies journal lines, keeps the bounded line buffer,
  builds the `journalctl` command line, and decides each step of the loop
  that follows `journalctl -f` and restarts it.
- `src/text.rs` holds the character-level helpers: trimming, ASCII case,
  searching, splitting at white space, and decimal numbers.

`app/` is the program around it: the COSMIC application, reading the
configuration file, running `cosmic-randr` and `journalctl`, and the two
floating-point appearance settings.
