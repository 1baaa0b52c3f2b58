# cargo-tribute

Third-party license attribution from a Cargo dependency tree. `cargo tribute` walks the
dependencies of a workspace, judges each license expression by an accepted list, and writes

- `LICENSES/<id>.txt`: one canonical license text per license in use,
- `NOTICES/<crate>-<version>.txt`: the NOTICE files that dependencies ship,
- `THIRD-PARTY.md`: the dependencies grouped by license, with their copyright holders,
- or, in the flat layout, one all-in-one `THIRD-PARTY-NOTICES` file.

It fails when a license is not accepted, and with `--check` when the files on disk no longer
match the tree.

## Layout

- `src/` is the library, verified with Verus: the walk over the graph, the license policy, the
  rendered documents, the reports, the staleness rules and the steps of writing. It works on
  plain values: a configured path comes with its components, as the platform separates them, and
  the paths of the output are texts with `/` between their components.
- `app/` is the command: arguments, `cargo metadata`, reading and writing files, and the
  matching of license files for `--audit`.
- `tests/` runs the library.

License expressions and texts come from the `spdx` crate, version requirements and versions from
`semver` (through `cargo_metadata`), JSON from `serde_json`. What the library takes from them
stands behind a few functions marked `external_body`; each says what is taken on trust.

## What is proved

Every function has a contract over spec functions. Beyond that, proof functions state what holds
of the whole, among them

- `policy`: an expression is attributed exactly when the accepted list covers it, under licenses
  of accepted terms, which are enough to cover it by themselves; entries for one crate never reject it, and lose to the accepted list.
- `graph`: no workspace member is attributed; opting in only adds, skipping only removes; the order
  of the listing does not matter.
- `resolve`, `run`, `manifest`, `bundle`: the policy holds exactly when every dependency is
  accepted; then each has a line under each of its licenses, each license has a section and a
  text, and no NOTICE is dropped.
- `harvest`: copyright statements form a set, whatever the order of the files or the way they
  are cut into files.
- `stale`, `roundtrip`: a check passes exactly when everything on disk is as it should be, so it
  fails once a file of the output is changed; it passes right after a write, whatever was on disk
  before, as long as the output does not clash with itself; line-ending style never counts.
- `cli`: the configuration that `init` writes names every key and sets none.
