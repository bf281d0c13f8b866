# monlam

The core of the Monlam audio workstation, written in Verus: each function of
the library states what it does in `requires` / `ensures` and is proved
against that statement.

Layout:

- `src/` – the verified library
  - `project.rs` – the project: tracks, their items, tabs, groups and the
    transport switches, with the well-formedness invariant every operation keeps
  - `tracks.rs`, `tabs.rs` – tracks with their items, and the tab bar
  - `file_browser.rs`, `audio_box_panel.rs`, `group_panel.rs`, `named.rs` –
    the panels and the stable listing of their entries
  - `groups.rs`, `project_files.rs`, `paths.rs` – group folders, where a
    project's files go, and path rules
  - `grid.rs` – the decisions taken while dragging items on the grid
  - `sorting.rs`, `text.rs` – stable ordering and text helpers
  - `dsp.rs`, `config.rs` – small helpers
- `tests/` – tests of the library on concrete values
- `app/` – a command-line front end: file and audio I/O, the timing that works
  on floating-point values, and the sound processing. The arrangement
  decisions (tracks and their switches, items, tabs, groups, panels) are
  made by calling the library; what rests on positions, tempo or samples
  stays in `app/`
