# vigil_tui

A terminal dashboard of zones (clock, date, system load, weather, text),
laid out by percentages or stacked in rows. `src/` is the library, verified
with Verus: the layout engines, the terminal-size check, focus navigation,
configuration checks, themes, and what each widget shows. `app/` is the
program around it: reading the configuration file, the terminal, the
background updates of the system and weather widgets, and drawing with ratatui.

- `src/layout.rs`, `src/layout/rows.rs`: absolute and rows layouts, the
  required terminal size, and the laws that rows stack, columns sit side by
  side and stacked zones tile their row.
- `src/config.rs`: the configuration types and their validation.
- `src/theme.rs`: presets, `#rrggbb` colours, theme resolution.
- `src/nav.rs`: the nearest zone in a direction.
- `src/digits.rs`, `src/widget/`: large digits and widget contents.
- `src/tally.rs`, `src/strs.rs`: sums over indices, and string helpers.
