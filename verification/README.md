# fuzzamoto (verified core)

The logic of a snapshot-fuzzing toolkit for Bitcoin nodes, written in Verus
with its contracts proved.

- `src/ir.rs`, `src/builder.rs`: programs of instructions over typed
  variables, their well-formedness, and a checked program builder.
- `src/input.rs`: the input mutator, which swaps one input of an instruction
  for a different variable of the same type.
- `src/mutators.rs`: mutation, splicing and generation stages bounded to
  `MAX_INSTRUCTIONS`, and the Bitcoin Script token dictionary.
- `src/snapshot.rs`: placement of incremental snapshots outside blocks.
- `src/assertions.rs`: sometimes/always assertions, their distances, the
  feedback that keeps the best report per message, and the framing of the
  target's standard output.
- `src/text.rs`: lossy decoding, line splitting and trimming.
- `src/deps.rs`: `lddtree` output and the sorted list of files to fetch.
- `src/nyx.rs`: the commands, copies and start-up script of a Nyx share
  directory.
- `src/http.rs`: requests of the HTTP server scenario and the network plan of
  a test case.

`app/` holds what touches the outside world: files and processes of the
`init` command, the LibAFL glue (feedback, mutator and stage impls), serde
and clap copies of library types, and the scenario's TCP connections.
