# tetra_asterisk

Configuration of the SIP client / PBX bridge of a TETRA base station, written
in Verus and verified.

- `src/sec_asterisk.rs` — the `[asterisk]` section: its fields, the values a
  file may leave out, and `apply_asterisk_patch`, which checks a section and
  builds the configuration the bridge runs with. The contract names the error
  for every refused section and every field of an accepted one.
- `src/asterisk.rs` — the text of the `[asterisk]` section that the dashboard
  saves, TOML string escaping, secret masking, and the install marker.
- `src/config_text.rs` — replacing the `[asterisk]` section of a
  configuration file while every other line stays, with the laws that saving
  twice is saving once and that the number of `[asterisk]` sections is kept.
- `src/lines.rs`, `src/text.rs` — the model of text as lines (`str::lines`,
  `join("\n")`) and character helpers (whitespace trimming, ASCII case,
  decimal numbers).
- `src/secret.rs` — a secret configuration value.
- `app/` — file I/O, TOML deserialisation with serde, and the `pkg-config`
  check, around the verified library.
- `tests/` — tests of the library on concrete values.
