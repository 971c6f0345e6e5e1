# codex_linux

Verified core of the Codex Desktop Linux tools.

- `src/` is the library, verified with Verus:
  - `text`: character classes, trimming, splitting and string building;
  - `paths`: `Path::join`, `PATH` lists and name ordering;
  - `version`: version strings in command output;
  - `screenshot`: PNG headers, `file://` URIs, portal request names, data URLs;
  - `state`: the updater's persisted state and its notification log;
  - `updater`: the decisions of the update daemon;
  - `codex_cli`: Codex CLI discovery and the prelaunch update check.
- `app/` is the program around it: D-Bus screenshots, desktop notifications,
  child processes and the state file, behind the `status`, `cli-preflight`
  and `screenshot` commands. It also holds the daemon's cycles, written
  against an `UpdaterServices` trait; no command runs them yet, because the
  package builder, installer and upstream services they need are not part
  of this project.
- `tests/` exercises the library.
