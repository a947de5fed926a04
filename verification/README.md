# tuwunel (verified core)

The decision logic of a Matrix homeserver, written in Verus and proved
against its contracts.

- `src/` is the verified library:
  - `utils/` — string helpers (common prefix, case conversion, deterministic
    truncation, decimal formatting), JSON-safe integers, truncated debug
    views;
  - `matrix/` — events, event filters, event formats, PDU identifiers,
    identifiers by ruma's grammar, JSON field access;
  - `config.rs` — the configuration check and reload rules;
  - `database.rs` — corks, read options and the storage log router;
  - `args.rs` — command-line overrides;
  - `api/` — the decisions of the client and federation endpoints: sync v3
    and sliding sync (room selection, windows, room data, extensions),
    registration, login and interactive authentication, invites over
    federation, relations, events, the user directory and room queries,
    membership;
  - `admin/` — the OAuth and registration-token admin commands.
- `tests/` exercises the library on concrete values.
- `app/` is the binary around it: command line, configuration files, the
  `/data` endpoint and async plumbing. The Matrix endpoints are not served:
  the library holds their decisions as functions from gathered values to
  answers, but the services that gather those values (storage, room state,
  federation) are not part of this crate.
