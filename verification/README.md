# spk_solve

The decision logic of the spk package solvers, written in Verus and proved
against its contracts: how requests become the dependencies of the resolvo
dependency provider, which candidate builds are offered and in what order,
how the step solver answers a failed step and steps back, how a CDCL solve
is retried and how its solvables become a solution, and how the progress,
statistics and reports of a solve are formatted.

Layout:

- `src/` — the verified library. Each module states its behaviour in
  `requires`/`ensures` clauses over spec functions, and holds the proof
  functions that state the laws relating its operations (for example, that
  the last setting of an option wins, that a new global var value seen after
  its candidates were given out cancels the solve, or that the merged
  listings of the repositories record exactly which repository holds which
  version).
- `tests/` — tests that run the library on concrete values.
- `app/` — the parts that talk to the outside world: the terminal status
  bar, statsd metrics, solver output files, ctrl-c handling, the pause menu,
  the error type with its derives, times shown as decimal seconds, and the
  loop that runs one step of the step solver against a source of builds.

Calls into outside crates (`colored`, `priority-queue`, `num-bigint`,
`num-format`) and a few std functions are made through small functions
whose contracts are trusted; each says in its doc comment what it claims.
