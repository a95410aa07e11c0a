# just-shield

A checker for the GitHub Actions a CI pipeline pulls in: it reads workflow
files and reports pinned or unpinned `uses:` references, pipe installs,
typosquatted owners, known-bad versions, moved tags and lockfile drift; it
pins references to commit SHAs, keeps a lockfile of them, and observes the
DNS egress of a job against an egress lockfile.

Layout:

- `src/` — the library, written in Verus. Every parser, rule, renderer and
  state-machine step carries a contract, and the properties that span
  several functions (a rendered lockfile parses back to itself, a fixed line
  offers no further fix, info findings never fail a run, ...) are stated and
  proved as public proof functions beside the code they speak of.
- `tests/` — ordinary Rust tests run against the compiled library.
- `app/` — the command-line program: argument handling, file and process
  I/O, `git ls-remote` lookups and the DNS relay loop. It hands plain values
  to the library and prints what comes back.
