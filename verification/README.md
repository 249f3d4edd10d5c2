# cp2077-mod-tui

Profiles, mods and saves for Cyberpunk 2077 on Linux.

- `src/` is the library: what is imported and how, which mods can be enabled, who wins
  a contested path, how a game is launched, how saves are shared and backed up, and
  what the screen shows and does. Every item is verified with Verus. What other crates
  compute for it stands in `src/outside.rs`, with the contracts that are believed.
- `app/` is the program around it: the command line, the terminal, the database, files
  and processes. It carries out what the library decides.
- `tests/` run the library.

Changes of saves and of the state of mods are planned as lists of steps. The plans are
what the laws speak of: `src/save_steps.rs` and `src/parking.rs` say what a step does
to the places that it names.
