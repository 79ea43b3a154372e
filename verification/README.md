# rustcast

The verified core of a macOS launcher.

- `src/` is the library, verified with Verus:
  - `autoupdate` reads the GitHub release feed (parsed into a `json::JsonValue`), decides
    whether a new version is offered, checks a downloaded archive against its
    published SHA-256 digest, finds the `.app` bundle that holds the executable, and
    orders the stages of installing an update.
  - `clipboard` defines clipboard history items, when two of them count as the same,
    and the launcher entry shown for each.
  - `database` builds the SQL statements that store rankings and clipboard items and
    reads rows back into values.
  - `json`, `text` hold the document model and the text operations these rely on.
  - `window` names the tiling positions.
- `app/` is the unverified shell around it: HTTP requests, the file system, the
  SQLite connection, the system clipboard, and the window server (macOS only).
- `tests/` exercises the library.
