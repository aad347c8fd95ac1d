# rawio

Raw offset read/write for removable block devices (SD cards), as a verified
library with a thin command line front end.

The library is written in Rust and proved with Verus. Every function states what
it returns or changes; the proofs are checked on each build.

## Layout

| Path | What it holds |
|---|---|
| `src/transfer.rs` | dump, flash and verify, with the range checks they share |
| `src/medium.rs` | what a transfer does to an in-memory medium, as laws |
| `src/reading.rs` | what only reads leaves a device as it was, as laws |
| `src/device.rs` | devices and backends, and the in-memory device |
| `src/parts/` | MBR and GPT, detection, and the space a table leaves over |
| `src/pit.rs`, `src/search.rs` | the PIT, and the search for one |
| `src/app/` | the commands: targets, reports, rehearsals, and their laws |
| `src/cli.rs` | the arguments as plain values, and the sizes they are given in |
| `src/hexdump.rs`, `src/bar.rs`, `src/longpath.rs` | what is printed, and paths |
| `src/platform/` | device names and classification on Linux and Windows |
| `src/text.rs`, `src/number.rs`, `src/bytes.rs` | text and numbers |
| `app/` | `main`: argument parsing, files, standard streams, the clock |
| `tests/` | the tests, on in-memory devices and files |

## How devices and files are modelled

`Backend`, `RawDevice`, `Source`, `Sink`, `Output`, `Progress` and `Sectors` each
come with a state and a step function: the state holds whatever the next answer
depends on, and a step gives the answer and the state that follows. A contract
then says exactly which steps a function takes, in which order, and what it makes
of the answers. An implementation written in plain Rust leaves the model out.

A command leaves the device it opened with its caller, so a contract settles what
became of the device on every path. `src/reading.rs` and `src/app/laws.rs` build
on that: up to the transfer itself, a command does nothing to a device but read
it, and nothing but a flash that is not a rehearsal opens one for writing.

## What is taken on trust

A few functions of the standard library whose behaviour is stated, not proved:
`String::push`, `char::from_u32`, `str::from_utf8`, `String::from_utf8_lossy`
and `{:?}` on a string. What a `std::io::Error` renders to and which code it
carries is kept as it answers, and nothing more is claimed of it.

## Exit codes

| Code | Meaning |
|---|---|
| 0 | success |
| 2 | invalid arguments |
| 3 | device access failure (see stage + OS error in the output) |
| 4 | refused: target is not removable |
| 5 | write aborted; last successfully written offset is reported |
| 6 | unsupported on this platform |
| 7 | verification failed; the offset of the first differing byte is reported |
