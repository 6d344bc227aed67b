# dircmp

A terminal tool that compares two folder trees: first their structure (which
paths exist on which side, files against directories), then the contents of
the files present on both sides, with a hash (SHA-256), byte, text or metadata
strategy. The result is shown as one list with folder headers, filtered per
status, with keys to open external diff tools, viewers and editors.

## Layout

- `src/` is the library, verified with Verus:
  - `relpath` – relative paths and their order;
  - `engine` – scan results (`scanner`), the structural diff and the
    per-status bookkeeping (`diff`), the decisions of the comparison
    strategies (`comparator`) and the messages of the two phases
    (`pipeline`);
  - `ui` – the rows of the list and cursor movement (`panel`), the status bar
    texts (`statusbar`) and the placement of the message box (`overlay`);
  - `app` – key decoding (`command`), the policy for external tools
    (`external`) and the application state machine (`model`);
  - `tools`, `cli`, `config`, `platform`, `strings`.
- `app/` is the program around it: argument handling, the configuration
  file, walking the folders, reading files, threads, the terminal.
- `tests/` runs the library on concrete values.

The library's contracts state what each function returns; the `law_*` proof
functions state properties that span several functions (for example that
swapping the two trees mirrors the diff, or that cursor movement only lands
on entry rows).
