# rdtool

A desktop client for Real-Debrid: it unrestricts hoster links, manages
torrents, lists stream transcodes, keeps a download queue with a scheduler
and quiet hours, and mounts the Real-Debrid WebDAV share through rclone.

## Layout

- `src/` is the verified library (Verus):
  - `text` — character-level string operations with their specifications
    (trimming, splitting, joining, searching, replacing, number parsing);
  - `queue` — download states and the queue table with unique ids, its edits
    and its ordered listings;
  - `scheduler` — quiet hours and the tick that starts due downloads within
    the concurrency limit;
  - `engine` — credentials in URLs, where a download comes from, byte ranges
    for parallel fetching, rclone output and errors, progress;
  - `auth` — sealing and opening the API token (BLAKE3 key, AES-256-GCM,
    base64);
  - `api` — API records, URLs and request parameters;
  - `settings`, `webdav`, `ui` — settings, mount controls and texts, byte
    formatting, pasted links, release tags and the interface state machine.
- `tests/` runs the library on concrete values.
- `app/` is the unverified shell: SQLite storage, HTTP, processes, timers and
  the egui interface, calling the library for every decision.
