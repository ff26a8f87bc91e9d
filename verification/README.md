# ghostnet

The GhostNet command-line client's logic as a verified library, with a thin
program around it.

- `src/` — the library, checked by Verus:
  - `text` — white space, trimming, lines, padding and other character-level rules;
  - `shell` — the interactive shell's quote-aware tokenizer and line handling;
  - `config` — the non-secret configuration: relay endpoint rules and the
    ordered map of public identity labels;
  - `bridge` — readiness of the SDK bridge and the reading of its JSON replies
    and streamed events;
  - `json` — the questions the library asks `serde_json`;
  - `location` — where the client's files live below the home directory;
  - `history` — message metadata records and the selection of recent ones;
  - `cli`, `commands` — the commands and the decisions each one makes;
  - `banner` — layout of the branding banner.
- `app/` — the program: command-line parsing, files, processes, colours.
- `tests/` — tests of the library.
