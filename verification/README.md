# adaptive_pipeline

A verified core for an adaptive file-processing pipeline: files are cut into
chunks, run through configurable stages (compression, encryption, checksums,
pass-through and custom transforms) and stored in the `.adapipe` format, from
which they can be validated, compared and restored.

The library in `src/` is written in Verus, and Verus proves the contracts of
its functions. Two kinds of contract are believed rather than proved: those of
the small wrappers around outside crates and std (SHA-256, the clock, random
identifiers, lowercasing, paths, zeroizing), and those of the compression and
encryption service traits, which applications implement outside Verus; what
the library states of a pipeline with such stages rests on the services
keeping their trait contracts.

- `stage`, `parameters`, `pipeline`: stages, their configuration and
  pipelines (with the automatic input and output checksum stages).
- `compression`, `encryption`: settings, key material and the service traits
  that applications implement with real algorithms.
- `executor`, `service`, `processing`: the stage executor (running SHA-256
  checksums per stage), pipeline checks, header planning, chunking, and the
  processing of a whole file into `.adapipe` chunk data and header.
- `header`, `binary_format`, `restoration`, `transaction`: the file header,
  the byte format (chunk records and footer), reading and restoring files,
  and the bookkeeping of transactional chunk writes.
- `cli`, `workload`: pipeline names and stage lists given on the command
  line, the decisions about a restore's target file and directory, worker
  assignment and configuration-file checks.
- `digest`, `text`, `clock`: SHA-256 (through `sha2` and `ring`), hexadecimal
  and decimal text, and the clock and random identifiers.

`app/` is the command-line program around the library (files, the pipeline
store, JSON headers, metrics); `tests/` exercises the library.
