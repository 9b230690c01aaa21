# discord-recon (verified core)

A read-only Discord OSINT reconnaissance CLI whose decision-making core is
verified with Verus.

- `src/` — the verified library:
  - `text` — the character-level model (Unicode trimming, prefixes,
    decimal/hex numerals, row helpers) shared by everything else;
  - `snowflake` — snowflake parsing, bit-field decoding, UTC formatting
    (through chrono) and relative ages;
  - `invite`, `webhook`, `guild`, `user` — input parsing, response checks
    and the table rows of each module;
  - `full` — target classification and the orchestration plan;
  - `api` — Discord error shapes and the success check;
  - `tracking` — the invite snapshot store, its deltas and the history
    table;
  - `http` — user-agent rotation, throttling and the retry policy;
  - `report` — stdin target lists and CSV merging.
- `app/` — the command-line program: argument parsing, HTTP, files,
  JSON, terminal output and the floating-point percentages.
- `tests/` — tests of the library.
