# Hark

A minimalist music player: album art, a waveform that doubles as the seek bar, and a
queue with shuffle and repeat. The music folder is scanned on startup and watched while
the player runs, and what it works out about a file is kept on that file, in extended
attributes.

- `src/` is the player's logic, in Verus. What each function does is stated in its
  contract and proved: the queue and its order, the records kept on files and the session
  file, the library's folders and scans, chapters, covers, identifying a file by its
  sound, and what every button does.
- `tests/` runs that logic on concrete values.
- `app/` is the window, the sound, the disk, the network and the desktop around it. It
  reports to the library what those say and carries out what comes back.

Numbers in floating point are held by their bits in `src/`, where they are compared,
clamped and taken from one precision to the other; arithmetic on them stays in `app/`.

The window is drawn with GPUI 0.2.2, which `app/` needs besides the dependencies that
`Cargo.toml` lists, and its icons stand under `assets/icons/`.
