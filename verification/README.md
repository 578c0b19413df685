# gpucr

GPU checkpoint/restore for CUDA applications: a preload library tracks every
`cudaMalloc` allocation, and on request saves all device buffers into a huge-page
backed storage file, releases their physical memory, and later maps fresh memory
and copies the buffers back. A small client (`gpucr-client`) sends the requests.

The decisions are a library verified with Verus (`src/`):

- `cli` — the client's argument grammar (positional and option forms) and the
  ordered steps of each command;
- `cuda` — the table of tracked allocations (kept in address order), memory
  snapshots, release/remap bookkeeping, the one-call-at-a-time setup of a CUDA
  context, and the rollback of a partial memory setup;
- `runtime` — the checkpoint and restore runs: where each allocation goes in
  storage, how it is moved through the staging buffer, what the metadata table
  records, and the checks a restore applies to that metadata;
- `layout` — the shared metadata table and the control block with its
  NUL-terminated path fields;
- `copy`, `constants`, `backend`, `comm`, `text` — the split of large copies among
  threads, size rounding, file paths and number formatting.

`app/` holds what talks to the operating system and the CUDA driver: memory
mappings, signals, the preload hooks and the client's `main`, each driven by the
library's decisions.
