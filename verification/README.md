# temper

The verified core of `temper`, a declarative workstation manager: a folder
of TOML bundles, Brewfiles and dconf snapshots says what a machine should
hold, and temper reports drift, converges, absorbs what was changed by hand,
and undoes its own runs.

`src/` is the library, written in Verus. Every function in it carries a
contract, and the laws that hold across functions are public proof functions
(`*_laws.rs`, and `law_*` items elsewhere). Reading the machine (files,
package managers, dconf, the clock) is the caller's job: the library takes
what was observed as plain values and decides, so each decision is proved for
every observation.

Outside crates are called from `src/` only through small trusted wrappers
whose contracts name what the crate returns: `toml_edit` and `toml` for the
spec file and settings, `jsonc-parser` and `serde_json` for JSONC targets
(the syntax tree a comment-preserving edit splices into), `blake3` for
content hashes, `console` for display width.

- `src/` — the library (`lib.rs` lists the modules).
- `tests/` — tests run against the compiled library.
- `app/` — the `fleet` command line around the library: argument handling,
  file I/O and the undo loop.
