# Kevat

A fast, resumable copier and mover for external drives, with its logic proved in Verus.

Copying writes every file under a staging name and renames it into place once it is whole.
Moving deletes an original only after every file of the job is on the destination and the
destination has been flushed. An interrupted transfer goes on where it stopped: a journal in
the configuration directory records only what is already durable, and everything it claims is
checked against the medium before it is believed.

## Layout

- `src/` — the library: what the program decides, computes and checks, with the messages that
  depend on it, verified. It performs no input or output. Where a decision alternates with work on a disk, the library is a machine
  that asks (`run::Ask`, `copy::CopyAsk`, `eject::EjectAsk`, ...) and is answered.
- `tests/` — scenarios on concrete values, among them whole transfers against a disk that
  exists only in memory.
- `app/` — the program around the library: command line, files, drives, and the window with
  its fixed texts. It looks for icons and a font in a folder `assets` beside the program.

Where to start reading:

| What | Where |
| --- | --- |
| the transfer, as a machine | `src/run.rs` |
| what every run keeps | `src/run_laws.rs`, `src/arrival_laws.rs`, `src/resume_laws.rs`, `src/refusal_laws.rs`, `src/keep_laws.rs`, `src/tally_laws.rs` |
| copying one file, with checkpoints | `src/copy.rs` |
| the journal | `src/journal.rs`; what is read back of it: `src/journal_laws.rs` |
| scanning and filters | `src/scan.rs`; over a whole walk: `src/scan_laws.rs` |
| paths and job keys | `src/path.rs` |
| drives, removing, erasing | `src/drive.rs`, `src/eject.rs`, `src/erase.rs` |
| the window's state | `src/ui.rs`, `src/browse.rs`, `src/progress.rs`, `src/outcome.rs` |

What is believed without proof is marked `external_body` or `assume_specification`, with a
comment that says what is claimed of which outside function: the `xxhash-rust` hasher
(`src/hash.rs`), the `png` decoder (`src/icon.rs`), and a few functions of the standard
library on text (`src/text.rs`, `src/path.rs`, `src/engine.rs`, `src/cli.rs`).
