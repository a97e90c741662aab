# mangodisk_core

The verified core of the MangoDisk deep cleanup service.

`src/` (Verus) holds the logic of a cleanup step and its proofs:

- `types` – the plain data exchanged with the desktop shell.
- `operation` – the coordinator that admits one long-running operation at a
  time and carries cooperative cancellation of a running cleanup.
- `progress` – the execution progress reporter and its snapshots.
- `planning` – request validation and the selection of the rules to measure.
- `run` – the deep cleanup step as a state machine: each method takes the
  outcome of the outside work it asked for and answers with the progress to
  publish and the next command.
- `service` – `CleanupService`: closing blocking applications, cancelling,
  and starting a deep cleanup step.
- `fingerprint`, `sorting`, `text` – the order-independent SHA-256 plan
  fingerprint, the byte order and stable sort it relies on, and the text
  helpers (whitespace, decimal and hexadecimal rendering).

`app/` is ordinary Rust: the process-wide coordinator, the clock, the
platform backend interface (registry, cleaners, filesystem, processes,
history), the loop that drives a run through it with logging, and the
serializable event copies of the progress types.
