# windash

The verified core of Windash, a tray-resident Windows system dashboard (Tauri + React).

- `src/` — the library, verified with Verus:
  - `dock` — dock edges, the dock configuration and what loading the dock file gives;
  - `geom` — floating-window geometry remembered per dock edge (clamped sizes, signed positions);
  - `notes` — the notes document: recovery of older file shapes, newest-first listing,
    adding (trimmed, at most 500 characters, at most 200 notes) and deleting;
  - `settings` — preferences, normalization, lenient theme/sort names, partial updates;
  - `persist` — the outcome of reading a store's file, stale temp files, corrupt-file
    backup names and how many backups are kept;
  - `process` — the identity check before ending a process, and the failure message;
  - `search` — the `search-ms:` URI handed to Windows Search;
  - `theme` — the app theme read from `reg query` output;
  - `text` — string helpers (equality, ordering, trimming, decimal digits);
  - `metrics` — plain disk records.
- `app/` — the Tauri program around it: file I/O, the debounced geometry writer,
  sysinfo metrics, window placement (floating-point geometry), tray and commands.
- `tests/` — tests of the library.
