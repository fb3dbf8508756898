# wavepool

A wave-soaring sailplane simulator for Mars (atmosphere, mountain lee waves,
2-D flight physics), split in two:

- `src/` — the verified library (Verus):
  - `telemetry`: telemetry channels that queue records and hand them out in
    numbered batches, each naming its Parquet file; the laws that no record
    is lost, duplicated or reordered, that batches are full, that a run of
    writes and a close hands out the records in consecutive slices, and that
    batch file names are distinct.
  - `decimal`: zero-padded decimal notation used in batch file names.
  - `log`: the flight recorder, one channel per telemetry stream under a
    directory named after the local time.
  - `time`: the wall-clock benchmark.
- `app/` — the floating-point flight physics, atmosphere and wave field, the
  sortie loop, data frames and Parquet output, which Verus does not check.
- `tests/` — tests of the library.
