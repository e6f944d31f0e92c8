# visionary

The core of an editor for fighting-game mods, with its decisions proved in Verus.

- `src/` is the library. `frames`, `outbox`, `json`, `events`, `link`, `session` and `address` are the
  link to the running game; `wire`, `float` and `overrides` the values that travel over it; `hub`,
  `workspace`, `inventory` and `transfer` projects and their files; `snapshots`, `pool`, `support`,
  `motions`, `textures`, `carrier` and `preparation` the live preview of a costume. `text`, `paths`,
  `sorted` and `ordering` serve them all. Each module states its model first, then the functions, then the laws that relate
  them (`law_...`).
- `tests/` runs the library.
- `app/` is the application around it: sockets, threads, files, and the formats of outside crates.

What is believed without proof stands in `text` (`String::push`), `json`
(`serde_json`), `motions` (`hash40`) and `support` (`nutexb`).
