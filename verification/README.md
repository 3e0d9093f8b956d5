# sys_monitor

The verified core of two eBPF-based monitors: `sys`, which watches kernel
memory allocations (and, when its descriptor probes are attached, file
descriptor activity) across the system, and `proc`, which watches the
`malloc` and `openat` calls of one process.

- `src/` is the library, checked by Verus: the memory and descriptor
  trackers (`memory_tracker`, `fd_tracker`), the state of both terminal
  interfaces (`sys_app`, `proc_app`) and what their displays show
  (`display`), a model of the kernel probes' decisions (`probes`,
  `proc_probes`), the layout of the records the probes write (`records`),
  and the ranking and summing used by the trackers (`top`, `sums`).
- The eBPF programs that `app/` loads are built separately, for the BPF
  target, from their own sources; they do not call `probes` or
  `proc_probes`. Those modules state and prove, on ordinary values, the
  same per-event decisions (which keys the probes' maps use, what a
  return probe pairs with its entry, which records are written), so the
  guarantees about them hold of the model, not of the loaded objects.
- `app/` is the program around it: loading and attaching the eBPF objects,
  reading perf buffers, the terminals and their widgets, `/proc` access.
- `tests/` runs the library on concrete inputs.
