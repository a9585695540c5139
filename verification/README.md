# sandpit

A generational, trace and sweep garbage collected arena,
split in two:

- `src/` is the verified core, checked by Verus: the Immix-style block
  layout (line and block marks, hole finding, bump allocation, block
  recycling and sweeping), the rotating collection marks, the layouts of
  object headers and values, tagged words, and the collector's metrics and
  trigger bookkeeping. The heap of blocks that allocators share is the
  `nimix` crate, reached through a small number of trusted wrappers.
- `app/` is the runtime around it, in plain Rust: arenas, mutators, GC
  pointers, write barriers, tracing and the monitor thread. It handles raw
  memory, which the core models by addresses.

`tests/` exercises the core on concrete values.
