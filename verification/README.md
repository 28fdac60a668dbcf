# ke — macOS Keychain secrets manager

`ke` keeps project secrets in the macOS Keychain and the names of each
project's keys in small index files under `~/.config/ke/` (optionally synced
through iCloud Drive). It has a terminal UI and a CLI.

## Layout

- `src/` — the library, verified with Verus. It holds the logic: project and
  key name rules (`names`), `.env` and shell quoting (`dotenv`, `envfile`),
  the project index and iCloud paths (`config`), the Keychain backend's
  cache and `security` argument lists (`keychain`, `store`), string order and
  sorting (`order`), value shortening (`display`), CLI argument handling
  (`cli`) and the TUI's state machine (`app`). Each public function states
  what it returns in its `ensures`; the laws that relate several functions
  are public proof functions (`lemma_*`).
- `app/` — the program around it: command dispatch, file and terminal I/O,
  the `security` and `pbcopy` processes, background threads and drawing with
  ratatui. It hands plain values to the library and performs the work that
  the library's TUI state machine asks for.
- `tests/` — tests of the library.
