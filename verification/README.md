# Integration Changelog Watch

Watches vendor changelog feeds for keywords and turns matching notices into
action cards, both for a hosted dashboard (private browser workspaces backed
by SQLite) and for a repository CLI that writes Markdown cards.

## Layout

- `src/` — the verified library (Verus). Every rule of the service is stated
  as a contract and proved:
  - `text` — whitespace, trimming, splitting, searching and replacing;
  - `config` — database URL, port, command line, CLI state directory, the
    `/data` mount check;
  - `net` — forbidden destination addresses, feed response statuses, the
    client named by `X-Forwarded-For`;
  - `limiter` — the per-client request bucket (40 at once, 20 back per
    second) and its laws;
  - `digest` — SHA-256 fingerprints in lowercase hex;
  - `notices` — RSS, Atom and HTML feeds read into notices;
  - `watch` — watch validation and the API's error answers;
  - `matching` — keyword rules and the action cards they produce;
  - `cli` — repository action cards, their deduplication and
    acknowledgement;
  - `topology` — the single-replica durable deployment guard and its repair
    patch;
  - `site` — cache headers, build labels and rendered pages.
- `app/` — the program around the library: the axum server, SQLite storage,
  outbound requests, DNS lookups, files and the command line.
- `tests/` — tests of the library on concrete values.
