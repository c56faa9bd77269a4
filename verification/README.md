# Tsong

Tsong is a non-destructive music player: it scans music folders, recognizes
the same song across several files, keeps playlists chosen by Lua rules or by
hand, and plays them through PortAudio.

- `src/` is the verified library (Verus): generation tracking, the error log,
  metadata, physical files and logical songs (with the "same song" matching),
  playlists (rules, sorting, shuffling, the playlist tree), the playback state
  machine, preferences, configuration search paths, the database encodings,
  and the metadata import. Calls into outside crates (Lua, SHA-256, natural
  string ordering, random numbers, TOML and JSON) go through small trusted
  wrappers whose contracts are documented where they stand.
- `tests/` exercises the library.
- `app/` is the program around it: reading the environment and files, the
  SQLite database, the folder scan, FFmpeg decoding, the audio thread and the
  GTK window.
