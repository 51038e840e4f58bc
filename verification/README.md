# probe

PROBE runs a program and records what it does: the files it opens, the processes it starts, and so
on. Each such operation is an *op*. A record is a tree of directories, by process (PID), exec epoch
and thread (TID). A TID directory holds arena files that the recording library wrote straight from
memory: `ops/*.dat` with the ops, and `data/*.dat` with the memory that the ops point into.

This crate turns records into logs, one file of JSON lines per thread, and writes the Python
dataclasses that logs are read with.

## Layout

- `src/` is the library, verified with Verus. It does no I/O.
  - `arena`, `word`: arena files, their headers, and pointers into them.
  - `filename`, `utf8`: the numbers that files and directories are named by.
  - `parse_top_level`, `parse_dir`, `parse_tid`, `counts`: the transcription of a record, of a PID
    or exec epoch directory and of a TID directory, each as a state machine that is told the outcome
    of its last action and says what to do next.
  - `dataclass`, `pygen`: Python dataclasses and the declarations they are made from.
  - `error`, `text`: errors and strings.
- `app/` runs the state machines on real files and reads declarations with `syn`.
- `tests/` runs the library on examples.

What each function does is stated in its contract. Properties of the library as a whole are public
proof functions whose names begin with `law_`.
