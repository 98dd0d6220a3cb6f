# alivio

The exploration core of a verifier for eBPF programs, written and proved in Verus.

A program is explored path by path. Arriving states are compared with cached
checkpoints and pruned where they are covered; conditional jumps are recorded as
path conditions; and where an access or a path is refused although it is harmless,
the path is replayed and a proof of that is collected in a bundle.

What the library decides itself is proved here. Abstract values, control flow and
the solver are behind the trait `Engine`. Nothing is taken for granted about an
engine's answers: a contract says which questions an engine is asked, with what, and
what becomes of each answer.

| Module | What it holds |
| --- | --- |
| `analysis` | whole programs and exception callbacks: checks, entry states, results |
| `worklist` | arrivals, checkpoints, steps and the run as a row of rounds |
| `whole_runs` | what becomes of cached states over a whole run |
| `contents`, `behaviour` | what runs hold, and engines that are decided by what they are given |
| `same_scans`, `same_arrivals`, `same_steps`, `same_runs`, `same_results` | with such an engine, runs that start alike go alike |
| `pruning` | candidate scans, scores, endless loops, bounded jumps |
| `cache` | checkpoints by place and by number, eviction, lineages |
| `branch`, `record` | conditional jumps and the conditions they leave |
| `replay` | paths that are executed again |
| `emit`, `unreachable`, `refine_map` | proofs for refused states and map accesses |
| `ctx_model`, `attach_rules` | context fields and attach rules of the kernel |
| `engine`, `env`, `machine`, `symbolic`, `ast` | the data, and the trait `Engine` |
| `trace` | trace ranges and the names under which states are traced |
| `arith`, `text`, `vectors` | small helpers |

`app/` reads the environment, logs and writes the bundle.
