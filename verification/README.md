# chromium-bridge

A command-line bridge from agents and scripts to Chromium-based browsers over
the Chrome DevTools Protocol, with its decision logic verified in Verus.

- `src/` — the verified library:
  - `text` — character-level search, decimal rendering, `usize` parsing, whitespace;
  - `paths` — `~/` expansion, the state directory, snapshot names and files;
  - `tabs` — page filtering, tab selection by index or pattern, endpoint URLs;
  - `network` — the per-request capture built from network events (each id once,
    in first-seen order), request selection, summaries, capture-loop decisions;
  - `body` — response-body and screenshot decoding (base64, UTF-8) and truncation;
  - `typing` — splitting text into paragraphs and the key/insert plan;
  - `snapshot` — the indented accessibility tree, one line per shown node with
    its stable `ref=dom:`/`ref=ax:` reference;
  - `wait` — the selector probe script, polling decision and selector errors;
  - `state` — snapshot checks, the storage restore script, restore navigation,
    sorted snapshot listing;
  - `setup` — flags-file checks.
- `app/` — the command itself: argument parsing, HTTP and WebSocket traffic,
  files and printing.
- `tests/` — tests of the library.
