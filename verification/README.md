# lakehouse

A small lakehouse table: immutable Parquet data files under `data/` and an
append-only transaction log under `_log/`, one newline-delimited JSON file per
version, named by the version as twenty zero-padded digits. Replaying the log
from version 0 defines the table at each version.

- `src/` is the verified library (Verus): log file naming and parsing, the
  layout of a commit, splitting log files into lines, loading CSV input into
  one Arrow batch, snapshot replay, finding the latest and next versions, time travel by timestamp, and preparing SQL
  over a snapshot. Its laws are proof functions beside the code they speak of.
- `app/` is the command-line program: file I/O, JSON (serde), Parquet output
  (arrow, parquet) and query execution (DataFusion).
- `tests/` runs the library on concrete tables.
