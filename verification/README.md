# achilles

Verified building blocks of a reconnaissance toolkit: scan-output word
counts, port lists, host grouping and merging, finding inventories, the
text reports over them, and the decisions of tool runners (what an exit
status, a launch failure or a poll of a running process leads to).

- `src/` is the library. Every function there is verified by Verus against
  its `requires` / `ensures` contract; the laws that relate functions are
  public proof functions (`lemma_*`).
- `tests/` runs the library on concrete inputs.
- `app/` is the command-line program around the library: it starts
  processes, reads and writes files, sleeps between polls, prints, renders
  durations as fractional seconds and round-trips records through JSON
  with serde. It hands the library plain values and prints what comes back.
