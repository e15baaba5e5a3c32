# EveMon

A live monitor of file activity: it captures the opening, reading, writing, closing, renaming and
deleting of files from the kernel trace of Windows, keeps one row per path, and shows what matches a
query as it is typed.

The logic is a library that Verus verifies; the program around it only does what needs the system.

## The library, `src/`

- `store`: the event store. A private SQLite database in memory takes the writes; it is copied to a
  database on disk and read back at the next start.
- `table`, `table_laws`, `listing_laws`: the event table as mathematics, and the laws of insertion,
  trimming and listing.
- `sqlite`, `like`: what the store uses of SQLite, statement by statement, and its `LIKE`.
- `filter`, `filter_laws`, `glob`: whitelists and blacklists of process names and paths, by words or
  by glob patterns.
- `config`: the saved settings of the filters.
- `capture`, `capture_laws`: what the trace callback does with an event: filtering, remembering open
  files, and turning kernel paths into drive paths.
- `etw`: the live log and the text forms of times, processes and sizes.
- `rank`, `rank_laws`, `view`: ranking by a query, and what the window shows.
- `text`: texts as sequences of characters.

Calls into `rusqlite`, `globset`, `chrono`, `fuzzy-matcher` and the standard library stand behind
declarations whose doc comments say what is taken on trust.

## The program, `app/`

The window, the kernel trace, the settings file, the file of the database, and the threads. It runs
on Windows, with administrator rights.
