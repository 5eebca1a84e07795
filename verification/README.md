# ang

Deterministic simulation testing for Slurm jobs.

`ang` records what a distributed job did, down to its socket messages, keeps it
as one timeline, puts a seeded fault into that timeline and checks whether the
job's invariants still hold. A seed describes one fault completely: what the
search finds, replaying that seed shows again.

The logic is a library in `src/`, written and proved in Verus:

| Module | What it holds |
|---|---|
| `event` | Run, boundary and message events, and the timeline that merges them |
| `invariants`, `invariant_laws` | the invariants of a timeline, and what they promise together |
| `fault`, `rng` | faults, and how a seed selects one |
| `search`, `tally` | the search for seeds whose fault breaks an invariant |
| `replay` | what a Run or a Job's timeline replays as |
| `log` | the lines of a log, as they are appended and read back |
| `store`, `json` | the rows of the trace store |
| `capture`, `runtime`, `clock` | what is recorded of socket calls and container Runs |
| `cli` | what the command line asks for and prints |
| `text` | comparing, writing and reading texts |

`app/` is the program around it: files, SQLite, Docker, the environment.
`app/main.rs` is the root of the `ang` program. `app/preload.rs` is the root of
the library that is loaded into a task by `LD_PRELOAD`.

What the proofs rest on besides Verus: `rand`'s seeded generator, `serde_json`
for the tag of a line, the system clock, and two functions of the standard
library on characters and strings. Each stands behind one small function whose
contract says what is taken on trust.
