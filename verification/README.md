# jjj

Problems, solutions and critiques tracked beside the code in a Jujutsu
repository. This crate is the logic of the tool, written in Verus: every
function in `src/` carries a contract that Verus proves, and the laws that
relate several operations (approving a solution, solving and reopening a
problem, merging two sides of the metadata, ranking, claims, the problem
tree) stand as proof functions beside them.

- `src/` — the verified library, one module per concern (`domain` for the
  entity lifecycles, `merge` and `fetch` for combining metadata from two
  sides, `create` for new entities, `findings`, `rank`, `claim`, `status`, `tree`,
  `overlaps`, …). Calls into `chrono` and `serde_json` go through a few
  trusted wrappers in `formats`; `text` holds the string helpers.
- `tests/` — ordinary Rust tests against the compiled library.
- `app/` — a small command line over the library, covering only the
  commands that work on files alone (`conflicts`, `resolve`, `fetch-file`,
  `doctor`, `completion`); it parses arguments, reads and writes files, and
  prints what the library returns. The other commands need the metadata
  store's on-disk format, which this crate does not read, so they exist here
  only as library functions.
