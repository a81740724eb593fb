# unidl

UniDL is a download manager that drives three engines: aria2 (HTTP, FTP,
magnet links and torrent files), yt-dlp (web videos) and qBittorrent
(magnet links and torrent files, on a remote server). It keeps its tasks and
settings in SQLite, serves a local web API with a login, and answers a
browser extension.

## Layout

- `src/` is the library, verified with Verus. Each function states its
  result in `requires`/`ensures` over spec functions, and the laws that
  relate several functions are public proof functions:
  - `text`: string helpers (trimming, splitting, joining, lowercase);
  - `models`, `codec`, `schema`: the task and settings types, their database
    encodings and the database schema with its column migrations;
  - `torrent`, `magnet`: torrent files (bencode) and magnet links;
  - `aria2`, `qbittorrent`, `ytdlp`, `adapters`, `options`: what each
    engine is asked and how its answers become task states;
  - `services`, `lifecycle`: input checks, duplicate and conflict checks,
    proxy and tracker rules, and the decisions of creating, starting,
    pausing, resuming, refreshing and deleting tasks;
  - `state`, `monitor`, `system`, `install`, `web`: the application state,
    the file monitor, system integration, engine installation and the web
    API's routing and sessions.
- `tests/` runs the library on concrete values.
- `app/` is the runtime around the library: SQLite, HTTP, processes, files,
  threads and the web server. It performs what the library decides.
